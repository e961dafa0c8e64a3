[package]
name = "mc-tunnel"
version = "1.0.0"
edition = "2021"
publish = false

[dependencies]
anyhow = "=1.0.104"
ciborium = "=0.2.2"
clap = { version = "=4.6.7", default-features = false, features = ["derive", "error-context", "help", "std", "usage"] }
data-encoding = "=2.11.1"
# Not used by the code: builds from source the C library that keyring needs for the Secret Service.
dbus = { version = "=0.9.12", features = ["vendored"] }
directories = "=6.0.0"
ed25519-dalek = { version = "=2.2.0", default-features = false, features = ["fast", "rand_core", "zeroize"] }
futures = { version = "=0.3.34", default-features = false, features = ["std"] }
getrandom = "=0.2.17"
keyring = { version = "=3.6.2", default-features = false, features = ["apple-native", "sync-secret-service", "windows-native"] }
libp2p = { version = "=0.57.1", features = ["autonat", "dcutr", "dns", "ed25519", "identify", "kad", "macros", "mdns", "noise", "ping", "quic", "relay", "tcp", "tokio", "yamux"] }
libp2p-stream = "=0.5.0-alpha"
rand_core = { version = "=0.6.4", features = ["getrandom"] }
serde = { version = "=1.0.229", features = ["derive"] }
serde_bytes = "=0.11.19"
serde_json = "=1.0.154"
sha2 = "=0.10.9"
tokio = { version = "=1.54.1", features = ["io-util", "macros", "net", "rt-multi-thread", "signal", "sync", "time"] }
tokio-util = { version = "=0.7.20", features = ["compat"] }
toml = "=0.8.23"
tracing = "=0.1.44"
tracing-subscriber = { version = "=0.3.23", default-features = false, features = ["env-filter", "fmt", "std"] }
zeroize = "=1.9.1"
