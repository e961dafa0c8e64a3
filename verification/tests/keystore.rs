//! Stored identities.

use mc_tunnel::keystore::{
    identity_exists, keyid_len_text, keyring_load, load, load_keyid_len, location, may_save,
    storage, wipe_steps, wiped, KeystoreError, Storage, WipeStep,
};

#[test]
fn the_keyring_comes_before_the_file() {
    let ring = Some(vec![1; 32]);
    let file = Some(vec![2; 32]);
    assert_eq!(*load(&ring, &file, "p").ok().unwrap().secret_bytes().bytes(), [1; 32]);
    assert_eq!(*load(&None, &file, "p").ok().unwrap().secret_bytes().bytes(), [2; 32]);
    // A broken entry in the keyring counts as none.
    let broken = Some(vec![1; 31]);
    assert_eq!(*load(&broken, &file, "p").ok().unwrap().secret_bytes().bytes(), [2; 32]);
    assert_eq!(keyring_load(&broken), None);
    assert_eq!(keyring_load(&ring), Some([1; 32]));
}

#[test]
fn missing_and_broken_keys_are_errors() {
    let e = load(&None, &None, "/k").err().unwrap();
    assert_eq!(e, KeystoreError::NoIdentity { path: "/k".to_string() });
    assert_eq!(
        e.message(),
        "no identity found (keyring empty and no key file at /k) \u{2014} run `mc-tunnel init` first"
    );
    let e = load(&None, &Some(vec![0; 33]), "/k").err().unwrap();
    assert_eq!(e, KeystoreError::Corrupt { path: "/k".to_string(), len: 33 });
    assert_eq!(
        e.message(),
        "key file /k is corrupt: expected 32 bytes, got 33"
    );
}

#[test]
fn an_identity_is_not_overwritten() {
    assert!(identity_exists(&Some(vec![0; 32]), false));
    assert!(identity_exists(&None, true));
    assert!(!identity_exists(&Some(vec![0; 5]), false));
    assert_eq!(may_save(true, false), Err(KeystoreError::AlreadyExists));
    assert_eq!(may_save(true, true), Ok(()));
    assert_eq!(may_save(false, false), Ok(()));
    assert_eq!(
        KeystoreError::AlreadyExists.message(),
        "identity already exists (use --force to overwrite)"
    );
}

#[test]
fn places_have_names() {
    assert_eq!(location(storage(true), "/k"), "OS keyring");
    assert_eq!(location(storage(false), "/k"), "/k");
    assert_eq!(storage(false), Storage::File);
    assert_eq!(wiped(true, true), "OS keyring + key file");
    assert_eq!(wiped(true, false), "OS keyring");
    assert_eq!(wiped(false, true), "key file");
    assert_eq!(wiped(false, false), "nothing to remove");
}

/// An identity as it is stored.
struct Stored {
    entry: Option<Vec<u8>>,
    key_file: Option<Vec<u8>>,
    keyid_len: Option<String>,
}

impl Stored {
    fn wipe(&mut self) -> String {
        let mut keyring = false;
        let key_file = self.key_file.is_some();
        for step in wipe_steps(key_file) {
            match step {
                WipeStep::DeleteEntry => keyring = self.entry.take().is_some(),
                WipeStep::RemoveKeyFile => self.key_file = None,
                WipeStep::RemoveKeyidLen => self.keyid_len = None,
            }
        }
        wiped(keyring, key_file)
    }
}

#[test]
fn after_a_wipe_nothing_is_left() {
    let cases = [
        (Some(vec![1; 32]), Some(vec![2; 32]), "OS keyring + key file"),
        (Some(vec![1; 5]), None, "OS keyring"),
        (None, Some(vec![]), "key file"),
        (None, None, "nothing to remove"),
    ];
    for (entry, key_file, words) in cases {
        let mut stored = Stored { entry, key_file, keyid_len: Some("26".to_string()) };
        assert_eq!(stored.wipe(), words);
        assert!(!identity_exists(&stored.entry, stored.key_file.is_some()));
        assert_eq!(
            load(&stored.entry, &stored.key_file, "/k").err().unwrap(),
            KeystoreError::NoIdentity { path: "/k".to_string() }
        );
        assert_eq!(load_keyid_len(&stored.keyid_len, "/m"), Ok(16));
        assert_eq!(stored.wipe(), "nothing to remove");
    }
    assert_eq!(
        wipe_steps(true),
        vec![WipeStep::DeleteEntry, WipeStep::RemoveKeyFile, WipeStep::RemoveKeyidLen]
    );
}

#[test]
fn the_keyid_length_reads_back() {
    for len in [0, 9, 10, 16, 26, 52, usize::MAX] {
        let saved = Some(keyid_len_text(len));
        assert_eq!(load_keyid_len(&saved, "/m"), Ok(len));
    }
    assert_eq!(load_keyid_len(&None, "/m"), Ok(16));
    assert_eq!(load_keyid_len(&Some(" +26\n".to_string()), "/m"), Ok(26));
    for bad in ["", "x", "-1", "1 6", "18446744073709551616"] {
        let e = load_keyid_len(&Some(bad.to_string()), "/m").unwrap_err();
        assert_eq!(e.message(), "parsing keyid_len from /m");
    }
}
