# mc-tunnel

Reach a Minecraft Java server at a self-certifying address such as
`survival.eh7ddx5bksrgcytl7bkai36s.minecraft`, without a registry, DNS or port forwarding. The
address commits to a public key: `keyid = base32(SHA-256(pubkey))`, cut to 16 to 52 characters. A
publisher signs a record that says where it is to be found and puts it in a DHT under a place that
is derived from the keyid. Whoever looks the keyid up checks the version, the signature, that the
key has the keyid, and the date, takes the newest record that passes, and calls the peer that
belongs to the key.

## Layout

`src/` is a library whose behaviour is stated in contracts and proved by Verus.

| module | what it decides |
| --- | --- |
| `name`, `identity`, `error` | keyids, names, keys |
| `record` | which record is trusted, and which of several is taken |
| `format`, `cbor` | the bytes of records, and what is read from bytes |
| `store` | which records of others a DHT node stores, and for how long |
| `node`, `addr` | what a network node does on events and commands |
| `proxy` | who may open a tunnel |
| `tunnel` | publishing, resolving, calling; what the user is told |
| `agent`, `json` | the local control endpoint |
| `grind`, `keystore`, `config`, `cli` | key search, stored keys, settings, commands |
| `crypto`, `text`, `order`, `bytes` | hashes and signatures, texts, sorted lists, byte strings |

Each module ends with the laws that hold across its functions (`law_...`).

What is relied on without proof is marked where it stands, each time with a comment that says what
is claimed of it:

- functions marked `external_body` call the outside crates: SHA-256 and ed25519, base32, CBOR, JSON
  text, peer ids and multiaddrs, random bytes, and the wiping of secrets;
- of the standard library, `String::push` (an `assume_specification`), `core::str::from_utf8` and
  the debugging form of a text are taken as documented;
- `uninterp` functions name what those calls return, and types of outside crates are declared as
  opaque.

`tests/` runs the library on concrete values. `app/` is the command line program around it: the
network, files, the keyring, threads and sockets. `dbus` is named in `Cargo.toml` only so that the
C library that `keyring` needs for the Secret Service is built from source.
