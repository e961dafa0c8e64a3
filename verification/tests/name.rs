//! Deriving, writing and parsing names.

use mc_tunnel::error::CoreError;
use mc_tunnel::name::{keyid_full_from_pubkey, Name};
use mc_tunnel::{Identity, DEFAULT_KEYID_LEN, MAX_KEYID_LEN};

#[test]
fn derive_and_parse_roundtrip() {
    let id = Identity::generate();
    let name = id.name("survival", DEFAULT_KEYID_LEN).unwrap();
    let text = name.to_string();
    assert!(text.ends_with(".minecraft"));
    let parsed = Name::parse(&text).unwrap();
    assert_eq!(parsed, name);
    assert_eq!(parsed.keyid_len(), DEFAULT_KEYID_LEN);
}

#[test]
fn no_vanity_roundtrip() {
    let id = Identity::generate();
    let name = id.name("", DEFAULT_KEYID_LEN).unwrap();
    let text = name.to_string();
    // exactly keyid.minecraft
    assert_eq!(text.matches('.').count(), 1);
    assert_eq!(Name::parse(&text).unwrap(), name);
}

#[test]
fn keyid_is_base32_lower_and_right_length() {
    let id = Identity::generate();
    let full = keyid_full_from_pubkey(&id.public_bytes());
    assert_eq!(full.len(), 52); // 256 bits / 5 bits per char, no padding
    assert!(full.chars().all(|c| matches!(c, 'a'..='z' | '2'..='7')));
}

#[test]
fn longer_keyid_commits_more_bits() {
    let id = Identity::generate();
    let n16 = id.name("", 16).unwrap();
    let n26 = id.name("", 26).unwrap();
    assert!(n26.keyid.starts_with(&n16.keyid));
    assert_eq!(n26.keyid_len(), 26);
}

#[test]
fn longest_possible_name_fits_minecraft_field() {
    // The address field of the game takes 128 characters.
    let id = Identity::generate();
    let name = id.name("survivor", MAX_KEYID_LEN).unwrap(); // 8 + 1 + 52 + 10 = 71
    assert!(
        name.to_string().len() <= 128,
        "name length {} exceeds MC's 128-char field",
        name.to_string().len()
    );
}

#[test]
fn rejects_keyid_shorter_than_minimum() {
    // 80-bit floor: a 15-char keyid must be refused at derivation and at parse.
    let id = Identity::generate();
    assert!(id.name("", 15).is_err());
    assert!(matches!(
        Name::parse("abcdefgh2345672.minecraft"), // 15 base32 chars
        Err(CoreError::KeyidLen { .. })
    ));
    // 16 is accepted.
    assert!(id.name("", 16).is_ok());
}

#[test]
fn rejects_wrong_suffix() {
    assert_eq!(
        Name::parse("abcdefgh23456789.craft"),
        Err(CoreError::BadSuffix("minecraft"))
    );
}

#[test]
fn name_rejects_bad_charset() {
    // '0' '1' '8' '9' are not in the charset.
    assert_eq!(
        Name::parse("abcdef0189234567.minecraft"),
        Err(CoreError::KeyidCharset)
    );
}

#[test]
fn rejects_too_many_labels() {
    assert_eq!(
        Name::parse("a.b.abcdefgh23456789.minecraft"),
        Err(CoreError::TooManyLabels)
    );
}

#[test]
fn rejects_overlong_vanity() {
    assert!(matches!(
        Name::parse("toolongvanity.abcdefgh23456789.minecraft"),
        Err(CoreError::VanityTooLong(_))
    ));
}

#[test]
fn parse_is_case_insensitive() {
    let id = Identity::generate();
    let name = id.name("survival", DEFAULT_KEYID_LEN).unwrap();
    let upper = name.to_string().to_uppercase();
    assert_eq!(Name::parse(&upper).unwrap(), name);
}

#[test]
fn each_fault_of_a_name_has_its_error() {
    let keyid = "abcdefgh23456722";
    assert_eq!(
        Name::parse("minecraft").unwrap_err(),
        CoreError::EmptyLabel
    );
    assert_eq!(
        Name::parse(".minecraft").unwrap_err(),
        CoreError::EmptyLabel
    );
    let e = Name::parse("abc.minecraft").unwrap_err();
    assert_eq!(e, CoreError::KeyidLen { len: 3, min: 16, max: 52 });
    assert_eq!(e.message(), "keyid length 3 out of range (16..=52)");
    let e = Name::parse(&format!("b0b.{keyid}.minecraft")).unwrap_err();
    assert_eq!(e, CoreError::VanityCharset);
    assert_eq!(
        e.message(),
        "vanity label contains characters outside the base32 charset (a-z2-7)"
    );
    let e = Name::parse(&format!("toolongvanity.{keyid}.minecraft")).unwrap_err();
    assert_eq!(e, CoreError::VanityTooLong(13));
    assert_eq!(e.message(), "vanity label too long: 13 > 8");
    assert_eq!(
        CoreError::BadSuffix("minecraft").message(),
        "name does not end with .minecraft"
    );
    assert_eq!(CoreError::TooManyLabels.message(), "name has too many labels");
    assert_eq!(
        CoreError::KeyidCharset.message(),
        "keyid contains characters outside the base32 charset (a-z2-7)"
    );
    assert_eq!(CoreError::EmptyLabel.message(), "empty label in name");
    // An empty vanity label in front is no vanity label.
    let name = Name::parse(&format!(".{keyid}.minecraft")).unwrap();
    assert_eq!(name.vanity, "");
    assert_eq!(name.to_string(), format!("{keyid}.minecraft"));
}

#[test]
fn spaces_around_a_name_are_ignored() {
    let text = "\t\u{a0}Survival.ABCDEFGH23456722.MineCraft\n ";
    let name = Name::parse(text).unwrap();
    assert_eq!(name.vanity, "survival");
    assert_eq!(name.to_string(), "survival.abcdefgh23456722.minecraft");
}
