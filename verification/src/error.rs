//! Why a name or a record was refused. The reasons are granular so that a caller can tell
//! which check failed.

use crate::text::{decimal, decimal_of};
use vstd::prelude::*;
use vstd::string::*;

verus! {

/// Why a name was refused.
#[derive(Debug, PartialEq, Eq)]
pub enum CoreError {
    /// The name does not end with the fixed suffix, which is given.
    BadSuffix(&'static str),
    /// There are more than two labels before the suffix.
    TooManyLabels,
    /// The keyid is shorter or longer than allowed.
    KeyidLen { len: usize, min: usize, max: usize },
    /// The keyid holds a character outside `a`-`z` and `2`-`7`.
    KeyidCharset,
    /// The vanity label has more bytes than allowed; their number is given.
    VanityTooLong(usize),
    /// The vanity label holds a character outside `a`-`z` and `2`-`7`.
    VanityCharset,
    /// A label that must not be empty is missing.
    EmptyLabel,
}

/// Why a record was refused.
#[derive(Debug, PartialEq, Eq)]
pub enum VerifyError {
    /// The serialized record is larger than the given limit.
    TooLarge(usize),
    /// The bytes are not a serialized record.
    Malformed(String),
    /// The record is of another protocol version, which is given.
    UnsupportedVersion(u8),
    /// The key in the record is invalid or did not make the signature.
    BadSignature,
    /// The key in the record does not hash to the keyid that was asked for.
    KeyidMismatch,
    /// The record was issued too long ago, or too far in the future.
    StaleTimestamp { ts: u64, now: u64, skew: u64 },
}

/// The sentence for a refused name.
pub open spec fn core_error_text(e: CoreError) -> Seq<char> {
    match e {
        CoreError::BadSuffix(suffix) => "name does not end with ."@ + suffix@,
        CoreError::TooManyLabels => "name has too many labels"@,
        CoreError::KeyidLen { len, min, max } => "keyid length "@ + decimal(len as nat)
            + " out of range ("@ + decimal(min as nat) + "..="@ + decimal(max as nat) + ")"@,
        CoreError::KeyidCharset =>
            "keyid contains characters outside the base32 charset (a-z2-7)"@,
        CoreError::VanityTooLong(len) => "vanity label too long: "@ + decimal(len as nat)
            + " > 8"@,
        CoreError::VanityCharset =>
            "vanity label contains characters outside the base32 charset (a-z2-7)"@,
        CoreError::EmptyLabel => "empty label in name"@,
    }
}

/// The sentence for a refused record.
pub open spec fn verify_error_text(e: VerifyError) -> Seq<char> {
    match e {
        VerifyError::TooLarge(max) => "record exceeds maximum size "@ + decimal(max as nat)
            + " bytes"@,
        VerifyError::Malformed(why) => "record failed to deserialize: "@ + why@,
        VerifyError::UnsupportedVersion(v) => "unsupported record version "@ + decimal(v as nat),
        VerifyError::BadSignature => "ed25519 signature did not verify"@,
        VerifyError::KeyidMismatch => "keyid does not match SHA-256(pubkey) prefix"@,
        VerifyError::StaleTimestamp { ts, now, skew } => "record timestamp "@ + decimal(ts as nat)
            + " outside allowed skew of now "@ + decimal(now as nat) + " (±"@ + decimal(
            skew as nat,
        ) + "s)"@,
    }
}

impl CoreError {
    /// The error as a sentence.
    pub fn message(&self) -> (text: String)
        ensures
            text@ == core_error_text(*self),
    {
        match self {
            CoreError::BadSuffix(suffix) => "name does not end with .".to_string().concat(suffix),
            CoreError::TooManyLabels => "name has too many labels".to_string(),
            CoreError::KeyidLen { len, min, max } => "keyid length ".to_string().concat(
                decimal_of(*len as u64).as_str(),
            ).concat(" out of range (").concat(decimal_of(*min as u64).as_str()).concat(
                "..=",
            ).concat(decimal_of(*max as u64).as_str()).concat(")"),
            CoreError::KeyidCharset =>
                "keyid contains characters outside the base32 charset (a-z2-7)".to_string(),
            CoreError::VanityTooLong(len) => "vanity label too long: ".to_string().concat(
                decimal_of(*len as u64).as_str(),
            ).concat(" > 8"),
            CoreError::VanityCharset =>
                "vanity label contains characters outside the base32 charset (a-z2-7)".to_string(),
            CoreError::EmptyLabel => "empty label in name".to_string(),
        }
    }
}

impl VerifyError {
    /// The error as a sentence.
    pub fn message(&self) -> (text: String)
        ensures
            text@ == verify_error_text(*self),
    {
        match self {
            VerifyError::TooLarge(max) => "record exceeds maximum size ".to_string().concat(
                decimal_of(*max as u64).as_str(),
            ).concat(" bytes"),
            VerifyError::Malformed(why) => "record failed to deserialize: ".to_string().concat(
                why.as_str(),
            ),
            VerifyError::UnsupportedVersion(v) => "unsupported record version ".to_string().concat(
                decimal_of(*v as u64).as_str(),
            ),
            VerifyError::BadSignature => "ed25519 signature did not verify".to_string(),
            VerifyError::KeyidMismatch =>
                "keyid does not match SHA-256(pubkey) prefix".to_string(),
            VerifyError::StaleTimestamp { ts, now, skew } => "record timestamp ".to_string().concat(
                decimal_of(*ts).as_str(),
            ).concat(" outside allowed skew of now ").concat(decimal_of(*now).as_str()).concat(
                " (±",
            ).concat(decimal_of(*skew).as_str()).concat("s)"),
        }
    }
}

/// A name is refused in these words.
pub proof fn law_words_of_refused_names(suffix: &'static str, len: usize, min: usize, max: usize)
    ensures
        core_error_text(CoreError::BadSuffix(suffix)) == "name does not end with ."@ + suffix@,
        core_error_text(CoreError::TooManyLabels) == "name has too many labels"@,
        core_error_text(CoreError::KeyidLen { len, min, max }) == "keyid length "@ + decimal(
            len as nat,
        ) + " out of range ("@ + decimal(min as nat) + "..="@ + decimal(max as nat) + ")"@,
        core_error_text(CoreError::KeyidCharset)
            == "keyid contains characters outside the base32 charset (a-z2-7)"@,
        core_error_text(CoreError::VanityTooLong(len)) == "vanity label too long: "@ + decimal(
            len as nat,
        ) + " > 8"@,
        core_error_text(CoreError::VanityCharset)
            == "vanity label contains characters outside the base32 charset (a-z2-7)"@,
        core_error_text(CoreError::EmptyLabel) == "empty label in name"@,
{
}

/// A record is refused in these words.
pub proof fn law_words_of_refused_records(
    max: usize,
    why: String,
    v: u8,
    ts: u64,
    now: u64,
    skew: u64,
)
    ensures
        verify_error_text(VerifyError::TooLarge(max)) == "record exceeds maximum size "@ + decimal(
            max as nat,
        ) + " bytes"@,
        verify_error_text(VerifyError::Malformed(why)) == "record failed to deserialize: "@ + why@,
        verify_error_text(VerifyError::UnsupportedVersion(v)) == "unsupported record version "@
            + decimal(v as nat),
        verify_error_text(VerifyError::BadSignature) == "ed25519 signature did not verify"@,
        verify_error_text(VerifyError::KeyidMismatch)
            == "keyid does not match SHA-256(pubkey) prefix"@,
        verify_error_text(VerifyError::StaleTimestamp { ts, now, skew }) == "record timestamp "@
            + decimal(ts as nat) + " outside allowed skew of now "@ + decimal(now as nat) + " (±"@
            + decimal(skew as nat) + "s)"@,
{
}

} // verus!
