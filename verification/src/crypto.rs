//! The hash, the signature scheme and the base32 alphabet that names and records rest on.

use ed25519_dalek::{Signature, Signer, SigningKey, Verifier, VerifyingKey};
use sha2::Digest;
use vstd::prelude::*;
use zeroize::{Zeroize, Zeroizing};

verus! {

// ---------------------------------------------------------------------------
// Names for what the outside crates compute
// ---------------------------------------------------------------------------

/// The SHA-256 digest of `data`, as `sha2::Sha256::digest` returns it.
pub uninterp spec fn sha256(data: Seq<u8>) -> [u8; 32];

/// The secret bytes inside a signing key, as `SigningKey::to_bytes` returns them.
pub uninterp spec fn secret_of(key: SigningKey) -> [u8; 32];

/// The ed25519 public key of a secret key, as `SigningKey::verifying_key` returns it.
pub uninterp spec fn ed25519_public(secret: Seq<u8>) -> [u8; 32];

/// The ed25519 signature by a secret key on a message, as `SigningKey::sign` returns it.
pub uninterp spec fn ed25519_signature(secret: Seq<u8>, message: Seq<u8>) -> [u8; 64];

/// Whether `public` is a valid ed25519 key and `signature` a valid signature by it on
/// `message`, as `VerifyingKey::from_bytes` and `VerifyingKey::verify` decide.
pub uninterp spec fn ed25519_verifies(
    public: Seq<u8>,
    message: Seq<u8>,
    signature: Seq<u8>,
) -> bool;

/// The bytes that are kept in a `zeroize::Zeroizing`.
pub uninterp spec fn kept_secret(secret: SecretBytes) -> [u8; 32];

/// `ed25519_dalek::SigningKey`: an ed25519 secret key that is wiped when it is dropped.
#[verifier::external_type_specification]
#[verifier::external_body]
pub struct ExSigningKey(SigningKey);

/// A secret key in a `zeroize::Zeroizing`, which sets its bytes to zero when it is dropped.
#[verifier::external_body]
pub struct SecretBytes {
    kept: Zeroizing<[u8; 32]>,
}

impl View for SecretBytes {
    type V = Seq<u8>;

    open spec fn view(&self) -> Seq<u8> {
        kept_secret(*self)@
    }
}

impl SecretBytes {
    /// The bytes.
    pub fn bytes(&self) -> (bytes: &[u8; 32])
        ensures
            bytes@ == self@,
    {
        look_at_secret(self)
    }
}

// ---------------------------------------------------------------------------
// Base32
// ---------------------------------------------------------------------------

/// Bit number `k` of `data`, counted from the most significant bit of the first byte.
/// Past the end all bits are zero.
pub open spec fn bit(data: Seq<u8>, k: int) -> u8 {
    if 0 <= k < 8 * data.len() {
        (data[k / 8] >> ((7 - k % 8) as u8)) & 1
    } else {
        0
    }
}

/// The `i`-th group of five bits of `data`, as a number.
pub open spec fn quintet(data: Seq<u8>, i: int) -> int {
    16 * bit(data, 5 * i) + 8 * bit(data, 5 * i + 1) + 4 * bit(data, 5 * i + 2) + 2 * bit(
        data,
        5 * i + 3,
    ) + bit(data, 5 * i + 4)
}

/// The base32 symbol (`A`-`Z`, then `2`-`7`) for a number below 32.
pub open spec fn base32_symbol(n: int) -> char {
    if n < 26 {
        ('A' as u32 + n) as char
    } else {
        ('2' as u32 + (n - 26)) as char
    }
}

/// `data` in base32 (RFC 4648) without padding.
pub open spec fn base32(data: Seq<u8>) -> Seq<char> {
    Seq::new(((8 * data.len() + 4) / 5) as nat, |i: int| base32_symbol(quintet(data, i)))
}

// ---------------------------------------------------------------------------
// Calls
// ---------------------------------------------------------------------------

/// `sha2::Sha256::digest`: the result is a function of the bytes alone.
#[verifier::external_body]
pub(crate) fn sha256_digest(data: &[u8]) -> (hash: [u8; 32])
    ensures
        hash == sha256(data@),
{
    sha2::Sha256::digest(data).into()
}

/// `data_encoding::BASE32_NOPAD.encode`: one symbol for each five bits of the input, most
/// significant bits first, the last group filled up with zero bits, no padding.
#[verifier::external_body]
pub(crate) fn base32_encode(data: &[u8]) -> (text: String)
    ensures
        text@ == base32(data@),
{
    data_encoding::BASE32_NOPAD.encode(data)
}

/// `SigningKey::generate` with the operating system's random source. Nothing is claimed of
/// the key: it differs from call to call.
#[verifier::external_body]
pub(crate) fn generate_signing_key() -> SigningKey {
    SigningKey::generate(&mut rand_core::OsRng)
}

/// `SigningKey::from_bytes`: the key holds exactly the given secret bytes.
#[verifier::external_body]
pub(crate) fn signing_key_from(secret: &[u8; 32]) -> (key: SigningKey)
    ensures
        secret_of(key)@ == secret@,
{
    SigningKey::from_bytes(secret)
}

/// `SigningKey::to_bytes`: the secret bytes of the key.
#[verifier::external_body]
pub(crate) fn signing_key_secret(key: &SigningKey) -> (secret: [u8; 32])
    ensures
        secret == secret_of(*key),
{
    key.to_bytes()
}

/// `Zeroizing::new`: the bytes are kept as they are.
#[verifier::external_body]
pub(crate) fn keep_secret(secret: [u8; 32]) -> (kept: SecretBytes)
    ensures
        kept_secret(kept) == secret,
{
    SecretBytes { kept: Zeroizing::new(secret) }
}

/// `<Zeroizing<[u8; 32]> as Deref>::deref`: the bytes that are kept.
#[verifier::external_body]
fn look_at_secret(secret: &SecretBytes) -> (bytes: &[u8; 32])
    ensures
        *bytes == kept_secret(*secret),
{
    &secret.kept
}

/// `<[u8; 32] as Zeroize>::zeroize`: all bytes are set to zero, and the compiler does not leave
/// that out.
#[verifier::external_body]
pub(crate) fn zero_out(secret: &mut [u8; 32])
    ensures
        final(secret)@ == Seq::new(32, |i: int| 0u8),
{
    secret.zeroize();
}

/// `SigningKey::verifying_key`: the public key is a function of the secret bytes.
#[verifier::external_body]
pub(crate) fn signing_key_public(key: &SigningKey) -> (public: [u8; 32])
    ensures
        public == ed25519_public(secret_of(*key)@),
{
    key.verifying_key().to_bytes()
}

/// `SigningKey::sign`: ed25519 signing is deterministic, and the signature verifies under
/// the public key of the signing key.
#[verifier::external_body]
pub(crate) fn ed25519_sign(key: &SigningKey, message: &[u8]) -> (signature: [u8; 64])
    ensures
        signature == ed25519_signature(secret_of(*key)@, message@),
        ed25519_verifies(ed25519_public(secret_of(*key)@)@, message@, signature@),
{
    key.sign(message).to_bytes()
}

/// `VerifyingKey::from_bytes` and `VerifyingKey::verify`: whether the key bytes are a valid
/// public key and the signature verifies under it.
#[verifier::external_body]
pub(crate) fn ed25519_verify(public: &[u8; 32], message: &[u8], signature: &[u8; 64]) -> (ok: bool)
    ensures
        ok == ed25519_verifies(public@, message@, signature@),
{
    match VerifyingKey::from_bytes(public) {
        Ok(key) => key.verify(message, &Signature::from_bytes(signature)).is_ok(),
        Err(_) => false,
    }
}

// ---------------------------------------------------------------------------
// Facts about base32
// ---------------------------------------------------------------------------

/// A bit is zero or one, so five of them make a number below 32.
pub proof fn lemma_quintet_range(data: Seq<u8>, i: int)
    ensures
        0 <= quintet(data, i) < 32,
{
    assert forall|k: int| bit(data, k) <= 1 by {
        if 0 <= k < 8 * data.len() {
            let b = data[k / 8];
            let s = (7 - k % 8) as u8;
            assert((b >> s) & 1 <= 1) by (bit_vector);
        }
    }
    assert(bit(data, 5 * i) <= 1 && bit(data, 5 * i + 1) <= 1 && bit(data, 5 * i + 2) <= 1 && bit(
        data,
        5 * i + 3,
    ) <= 1 && bit(data, 5 * i + 4) <= 1);
}

/// Different numbers below 32 have different symbols, also in lower case.
pub proof fn lemma_symbol_injective(m: int, n: int)
    requires
        0 <= m < 32,
        0 <= n < 32,
        crate::text::lower_char(base32_symbol(m)) == crate::text::lower_char(base32_symbol(n)),
    ensures
        m == n,
{
}

/// Equal groups of five bits are equal bit by bit.
pub proof fn lemma_quintet_bits(a: Seq<u8>, b: Seq<u8>, i: int, k: int)
    requires
        quintet(a, i) == quintet(b, i),
        5 * i <= k < 5 * i + 5,
    ensures
        bit(a, k) == bit(b, k),
{
    assert forall|d: Seq<u8>, j: int| (#[trigger] bit(d, j)) <= 1 by {
        if 0 <= j < 8 * d.len() {
            let v = d[j / 8];
            let s = (7 - j % 8) as u8;
            assert((v >> s) & 1 <= 1) by (bit_vector);
        }
    }
    let a0 = bit(a, 5 * i);
    let a1 = bit(a, 5 * i + 1);
    let a2 = bit(a, 5 * i + 2);
    let a3 = bit(a, 5 * i + 3);
    let a4 = bit(a, 5 * i + 4);
    let b0 = bit(b, 5 * i);
    let b1 = bit(b, 5 * i + 1);
    let b2 = bit(b, 5 * i + 2);
    let b3 = bit(b, 5 * i + 3);
    let b4 = bit(b, 5 * i + 4);
    assert(a0 == b0 && a1 == b1 && a2 == b2 && a3 == b3 && a4 == b4);
}

} // verus!
