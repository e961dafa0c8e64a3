//! Looking for a key with a wanted keyid prefix.

use mc_tunnel::grind::{
    first_match, grind, grind_banner, judge_draw, matches_prefix, validate, wait_step, GrindError, Heard,
    Search, Waiting, BATCH,
};
use mc_tunnel::name::keyid_from_pubkey;
use mc_tunnel::Identity;

/// Searches until a key is found or the search was stopped.
fn search(prefix: &str, keyid_len: usize, abort: bool) -> Result<Option<Identity>, GrindError> {
    loop {
        match grind(prefix, keyid_len, abort)? {
            Search::Found { identity, tried } => {
                assert!(1 <= tried && tried <= BATCH);
                return Ok(Some(identity));
            }
            Search::GoOn { tried } => assert_eq!(tried, BATCH),
            Search::Aborted => return Ok(None),
        }
    }
}

#[test]
fn grind_rejects_bad_charset() {
    // '0' is not in the base32 charset (digits are 2-7 only). Note o/l ARE valid.
    assert!(search("b0b", 16, false).is_err());
    assert_eq!(validate("b0b", 16), Err(GrindError::Charset));
    assert_eq!(validate("ol", 16), Ok(()));
}

#[test]
fn rejects_prefix_longer_than_keyid() {
    assert!(search("abcde", 4, false).is_err());
    let e = validate("abcde", 4).unwrap_err();
    assert_eq!(e, GrindError::LongerThanKeyid { len: 5, keyid_len: 4 });
    assert_eq!(e.message(), "--vanity-prefix (5 chars) is longer than keyid_len (4)");
}

#[test]
fn finds_single_char_prefix() {
    // A 1-char prefix has a 1/32 hit rate, so this is found near-instantly.
    let id = search("a", 16, false)
        .unwrap()
        .expect("should find quickly");
    let keyid = keyid_from_pubkey(&id.public_bytes(), 16);
    assert!(keyid.starts_with('a'), "got keyid {keyid}");
}

#[test]
fn empty_and_overlong_prefixes_are_rejected() {
    assert_eq!(validate("", 16), Err(GrindError::Empty));
    assert_eq!(GrindError::Empty.message(), "--vanity-prefix must not be empty");
    let long = "a".repeat(53);
    assert_eq!(validate(&long, 60), Err(GrindError::TooLong));
    assert_eq!(GrindError::TooLong.message(), "--vanity-prefix too long");
    assert_eq!(validate(&"a".repeat(52), 52), Ok(()));
    assert_eq!(
        GrindError::Charset.message(),
        "--vanity-prefix must use only the base32 charset a-z2-7 (no 0 1 8 9)"
    );
}

#[test]
fn a_search_that_was_stopped_finds_nothing() {
    assert!(matches!(search("a", 16, true), Ok(None)));
    assert!(matches!(search("", 16, true), Err(GrindError::Empty)));
}

#[test]
fn a_search_for_two_characters_takes_as_long_as_it_takes() {
    let id = search("ab", 16, false).unwrap().unwrap();
    assert!(keyid_from_pubkey(&id.public_bytes(), 52).starts_with("ab"));
}

#[test]
fn the_first_key_with_the_prefix_is_found() {
    let keys: Vec<Identity> = (0..40)
        .map(|i| Identity::from_secret_bytes(&[i; 32]))
        .collect();
    for prefix in ["a", "b", "m", "z", "7", "zzzzzz"] {
        let expected = keys
            .iter()
            .position(|k| keyid_from_pubkey(&k.public_bytes(), 52).starts_with(prefix));
        assert_eq!(first_match(&keys, prefix), expected);
    }
    let keyid = keyid_from_pubkey(&keys[17].public_bytes(), 12);
    assert_eq!(first_match(&keys, &keyid), Some(17));
    assert!(matches_prefix(&keys[17], &keyid));
    assert!(!matches_prefix(&keys[18], &keyid));
    assert_eq!(first_match(&Vec::new(), "a"), None);
}

#[test]
fn the_first_match_of_a_draw_is_handed_out() {
    let keys = |n: u8| -> Vec<Identity> {
        (0..n).map(|i| Identity::from_secret_bytes(&[i; 32])).collect()
    };
    let all = keys(40);
    let keyid = keyid_from_pubkey(&all[17].public_bytes(), 12);
    match judge_draw(keys(40), 128, &keyid) {
        Search::Found { identity, tried } => {
            assert_eq!(*identity.secret_bytes().bytes(), [17; 32]);
            assert_eq!(tried, 128 + 18);
        }
        _ => panic!("the key is in the draw"),
    }
    // Of several keys with the prefix it is the first.
    let prefix = keyid_from_pubkey(&all[0].public_bytes(), 1);
    let mut twice = keys(40);
    twice.extend(keys(40));
    match judge_draw(twice, 0, &prefix) {
        Search::Found { identity, tried } => {
            assert_eq!(*identity.secret_bytes().bytes(), [0; 32]);
            assert_eq!(tried, 1);
        }
        _ => panic!("the key is in the draw"),
    }
    assert!(matches!(judge_draw(keys(17), 128, &keyid), Search::GoOn { tried: 145 }));
    assert!(matches!(judge_draw(Vec::new(), 3, "a"), Search::GoOn { tried: 3 }));
}

#[test]
fn waiting_ends_with_a_key_or_with_nothing() {
    match wait_step(Heard::Found([7; 32]), true) {
        Waiting::Over(Some(id)) => assert_eq!(*id.secret_bytes().bytes(), [7; 32]),
        _ => panic!("a key that was found is kept"),
    }
    assert!(matches!(wait_step(Heard::Silence, false), Waiting::GoOn));
    assert!(matches!(wait_step(Heard::Silence, true), Waiting::Over(None)));
    assert!(matches!(wait_step(Heard::Gone, false), Waiting::Over(None)));
}

#[test]
fn long_prefixes_come_with_a_note() {
    assert_eq!(
        grind_banner("abc", 8),
        vec!["Grinding for keyid prefix \"abc\" on 8 threads (Ctrl-C to stop)...".to_string()]
    );
    let lines = grind_banner("abcdefg", 2);
    assert_eq!(lines.len(), 2);
    assert_eq!(
        lines[0],
        "Note: a 7-char prefix can take a long time (base32 ~ 32^7)."
    );
}

#[test]
fn generated_keys_differ() {
    assert_ne!(
        Identity::generate().public_bytes(),
        Identity::generate().public_bytes()
    );
}
