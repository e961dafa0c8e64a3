//! Where the secret key is kept: in the keyring of the operating system, or else in a file that
//! only the owner can read. What is read from there and what is written is decided here.

use crate::bytes::array_32;
use crate::crypto::zero_out;
use crate::identity::Identity;
use crate::text::{
    decimal, decimal_of, is_digit, join, joined, lemma_decimal_value, lemma_trimmed_id, number_in,
    parse_number, texts, trim, trimmed,
};
use vstd::prelude::*;
use vstd::string::*;

verus! {

/// Name of the file with the secret key.
pub const KEY_FILE: &'static str = "identity.key";

/// Name of the file with the keyid length.
pub const META_FILE: &'static str = "keyid_len";

/// The program's name in the keyring of the operating system.
pub const KEYRING_SERVICE: &'static str = "mc-tunnel";

/// The keyid length of an identity for which none was saved.
pub const UNSAVED_KEYID_LEN: usize = 16;

/// What went wrong with a stored identity.
#[derive(Debug, Clone, PartialEq, Eq)]
pub enum KeystoreError {
    /// There is one already.
    AlreadyExists,
    /// There is none.
    NoIdentity { path: String },
    /// The key file does not hold a key.
    Corrupt { path: String, len: usize },
    /// The saved keyid length is no number.
    BadKeyidLen { path: String },
}

impl KeystoreError {
    /// The words of the error.
    pub open spec fn words(self) -> Seq<char> {
        match self {
            KeystoreError::AlreadyExists => "identity already exists (use --force to overwrite)"@,
            KeystoreError::NoIdentity { path } =>
                "no identity found (keyring empty and no key file at "@ + path@
                + ") — run `mc-tunnel init` first"@,
            KeystoreError::Corrupt { path, len } => "key file "@ + path@
                + " is corrupt: expected 32 bytes, got "@ + decimal(len as nat),
            KeystoreError::BadKeyidLen { path } => "parsing keyid_len from "@ + path@,
        }
    }

    /// Puts the error in words.
    pub fn message(&self) -> (text: String)
        ensures
            text@ == self.words(),
    {
        match self {
            KeystoreError::AlreadyExists =>
                "identity already exists (use --force to overwrite)".to_string(),
            KeystoreError::NoIdentity { path } =>
                "no identity found (keyring empty and no key file at ".to_string().concat(
                path.as_str(),
            ).concat(") — run `mc-tunnel init` first"),
            KeystoreError::Corrupt { path, len } => "key file ".to_string().concat(
                path.as_str(),
            ).concat(" is corrupt: expected 32 bytes, got ").concat(
                decimal_of(*len as u64).as_str(),
            ),
            KeystoreError::BadKeyidLen { path } => "parsing keyid_len from ".to_string().concat(
                path.as_str(),
            ),
        }
    }
}

/// What is in a store, if anything.
pub open spec fn bytes_in(stored: Option<Vec<u8>>) -> Option<Seq<u8>> {
    match stored {
        Some(bytes) => Some(bytes@),
        None => None,
    }
}

/// The secret key in an entry of the keyring. An entry that is no key counts as none.
pub open spec fn keyring_secret(entry: Option<Seq<u8>>) -> Option<Seq<u8>> {
    match entry {
        Some(bytes) => if bytes.len() == 32 {
            Some(bytes)
        } else {
            None
        },
        None => None,
    }
}

/// The secret key in an entry of the keyring.
pub fn keyring_load(entry: &Option<Vec<u8>>) -> (secret: Option<[u8; 32]>)
    ensures
        match secret {
            Some(s) => keyring_secret(bytes_in(*entry)) == Some(s@),
            None => keyring_secret(bytes_in(*entry)) is None,
        },
{
    match entry {
        Some(bytes) => array_32(bytes.as_slice()),
        None => None,
    }
}

/// There is an identity: a key in the keyring, or a key file.
pub open spec fn has_identity(entry: Option<Seq<u8>>, key_file: bool) -> bool {
    keyring_secret(entry) is Some || key_file
}

/// Whether there is an identity.
pub fn identity_exists(entry: &Option<Vec<u8>>, key_file: bool) -> (yes: bool)
    ensures
        yes == has_identity(bytes_in(*entry), key_file),
{
    keyring_load(entry).is_some() || key_file
}

/// Whether an identity may be saved: not over another one, unless that is asked for.
pub fn may_save(present: bool, force: bool) -> (r: Result<(), KeystoreError>)
    ensures
        r == (if present && !force {
            Err(KeystoreError::AlreadyExists)
        } else {
            Ok(())
        }),
{
    if present && !force {
        Err(KeystoreError::AlreadyExists)
    } else {
        Ok(())
    }
}

/// Where a key is kept.
#[derive(Debug, Clone, Copy, PartialEq, Eq, Structural)]
pub enum Storage {
    /// In the keyring. A key file that is still there is removed.
    Keyring,
    /// In a file, because there is no keyring.
    File,
}

/// Where a key is kept, by whether the keyring took it.
pub fn storage(keyring_took_it: bool) -> (place: Storage)
    ensures
        place == (if keyring_took_it {
            Storage::Keyring
        } else {
            Storage::File
        }),
{
    if keyring_took_it {
        Storage::Keyring
    } else {
        Storage::File
    }
}

/// How the place where a key is kept is called.
pub fn location(place: Storage, key_path: &str) -> (text: String)
    ensures
        text@ == (match place {
            Storage::Keyring => "OS keyring"@,
            Storage::File => key_path@,
        }),
{
    match place {
        Storage::Keyring => "OS keyring".to_string(),
        Storage::File => key_path.to_string(),
    }
}

/// What comes of loading an identity.
pub enum Loading {
    /// The secret key: that in the keyring, or else that in the key file.
    Loaded(Seq<u8>),
    /// There is none.
    Missing,
    /// The key file holds so many bytes, which are no key.
    Corrupt(nat),
}

/// What comes of loading an identity from the keyring and the key file.
pub open spec fn loading(entry: Option<Seq<u8>>, key_file: Option<Seq<u8>>) -> Loading {
    match keyring_secret(entry) {
        Some(secret) => Loading::Loaded(secret),
        None => match key_file {
            Some(bytes) => if bytes.len() == 32 {
                Loading::Loaded(bytes)
            } else {
                Loading::Corrupt(bytes.len())
            },
            None => Loading::Missing,
        },
    }
}

/// Makes an identity of a secret key and wipes the key that was handed in.
fn identity_from(secret: &mut [u8; 32]) -> (identity: Identity)
    ensures
        identity.secret() == old(secret)@,
        final(secret)@ == Seq::new(32, |i: int| 0u8),
{
    let identity = Identity::from_secret_bytes(secret);
    zero_out(secret);
    identity
}

/// Loads the identity, from the keyring if it holds one and else from the key file.
pub fn load(entry: &Option<Vec<u8>>, key_file: &Option<Vec<u8>>, key_path: &str) -> (r: Result<
    Identity,
    KeystoreError,
>)
    ensures
        match r {
            Ok(id) => loading(bytes_in(*entry), bytes_in(*key_file)) == Loading::Loaded(id.secret()),
            Err(KeystoreError::NoIdentity { path }) => loading(
                bytes_in(*entry),
                bytes_in(*key_file),
            ) == Loading::Missing && path@ == key_path@,
            Err(KeystoreError::Corrupt { path, len }) => loading(
                bytes_in(*entry),
                bytes_in(*key_file),
            ) == Loading::Corrupt(len as nat) && path@ == key_path@,
            Err(_) => false,
        },
{
    if let Some(mut secret) = keyring_load(entry) {
        return Ok(identity_from(&mut secret));
    }
    match key_file {
        None => Err(KeystoreError::NoIdentity { path: key_path.to_string() }),
        Some(bytes) => match array_32(bytes.as_slice()) {
            Some(mut secret) => Ok(identity_from(&mut secret)),
            None => Err(KeystoreError::Corrupt { path: key_path.to_string(), len: bytes.len() }),
        },
    }
}

/// A step of wiping an identity.
#[derive(Debug, Clone, Copy, PartialEq, Eq, Structural)]
pub enum WipeStep {
    /// The entry in the keyring is deleted.
    DeleteEntry,
    /// The key file is removed.
    RemoveKeyFile,
    /// The saved keyid length is removed.
    RemoveKeyidLen,
}

/// The steps that wipe an identity, by whether there is a key file.
pub open spec fn wipe_plan(key_file: bool) -> Seq<WipeStep> {
    if key_file {
        seq![WipeStep::DeleteEntry, WipeStep::RemoveKeyFile, WipeStep::RemoveKeyidLen]
    } else {
        seq![WipeStep::DeleteEntry, WipeStep::RemoveKeyidLen]
    }
}

/// The steps that wipe an identity.
pub fn wipe_steps(key_file: bool) -> (steps: Vec<WipeStep>)
    ensures
        steps@ == wipe_plan(key_file),
{
    let mut steps: Vec<WipeStep> = Vec::new();
    steps.push(WipeStep::DeleteEntry);
    if key_file {
        steps.push(WipeStep::RemoveKeyFile);
    }
    steps.push(WipeStep::RemoveKeyidLen);
    assert(steps@ =~= wipe_plan(key_file));
    steps
}

/// What was removed, in words.
pub open spec fn removed_words(keyring: bool, key_file: bool) -> Seq<char> {
    if keyring && key_file {
        "OS keyring"@ + " + "@ + "key file"@
    } else if keyring {
        "OS keyring"@
    } else if key_file {
        "key file"@
    } else {
        "nothing to remove"@
    }
}

/// Says what was removed.
pub fn wiped(keyring: bool, key_file: bool) -> (text: String)
    ensures
        text@ == removed_words(keyring, key_file),
{
    let mut removed: Vec<String> = Vec::new();
    if keyring {
        removed.push("OS keyring".to_string());
    }
    if key_file {
        removed.push("key file".to_string());
    }
    if removed.len() == 0 {
        return "nothing to remove".to_string();
    }
    let text = join(&removed, " + ");
    proof {
        reveal_with_fuel(joined, 3);
        let parts = texts(removed@);
        if keyring && key_file {
            assert(parts.drop_last() =~= seq!["OS keyring"@]);
        }
    }
    text
}

/// What is saved of a keyid length.
pub fn keyid_len_text(keyid_len: usize) -> (text: String)
    ensures
        text@ == decimal(keyid_len as nat),
{
    decimal_of(keyid_len as u64)
}

/// The keyid length that was saved.
pub open spec fn saved_keyid_len(saved: Option<Seq<char>>) -> Option<nat> {
    match saved {
        None => Some(UNSAVED_KEYID_LEN as nat),
        Some(text) => match number_in(trimmed(text)) {
            Some(n) => if n <= usize::MAX {
                Some(n)
            } else {
                None
            },
            None => None,
        },
    }
}

/// Reads the keyid length that was saved; 16 if there is none.
pub fn load_keyid_len(saved: &Option<String>, path: &str) -> (r: Result<usize, KeystoreError>)
    ensures
        ({
            let text = match *saved {
                Some(t) => Some(t@),
                None => None,
            };
            match r {
                Ok(len) => saved_keyid_len(text) == Some(len as nat),
                Err(KeystoreError::BadKeyidLen { path: p }) => saved_keyid_len(text) is None && p@
                    == path@,
                Err(_) => false,
            }
        }),
{
    match saved {
        None => Ok(UNSAVED_KEYID_LEN),
        Some(text) => match parse_number(trim(text.as_str()).as_str()) {
            Some(n) => if n <= usize::MAX as u64 {
                Ok(n as usize)
            } else {
                Err(KeystoreError::BadKeyidLen { path: path.to_string() })
            },
            None => Err(KeystoreError::BadKeyidLen { path: path.to_string() }),
        },
    }
}

// ---------------------------------------------------------------------------
// Laws
// ---------------------------------------------------------------------------

/// Everything that is stored of an identity.
pub struct StoreModel {
    /// The entry in the keyring.
    pub entry: Option<Seq<u8>>,
    /// What the key file holds.
    pub key_file: Option<Seq<u8>>,
    /// What the file with the keyid length holds.
    pub keyid_len: Option<Seq<char>>,
}

impl StoreModel {
    /// What is stored after an identity was saved. The keyring takes it, or else the key file
    /// does and the entry stays as it was.
    pub open spec fn saved(self, secret: Seq<u8>, keyid_len: nat, place: Storage) -> StoreModel {
        match place {
            Storage::Keyring => StoreModel {
                entry: Some(secret),
                key_file: None,
                keyid_len: Some(decimal(keyid_len)),
            },
            Storage::File => StoreModel {
                key_file: Some(secret),
                keyid_len: Some(decimal(keyid_len)),
                ..self
            },
        }
    }

    /// What is stored after a step of wiping.
    pub open spec fn without(self, step: WipeStep) -> StoreModel {
        match step {
            WipeStep::DeleteEntry => StoreModel { entry: None, ..self },
            WipeStep::RemoveKeyFile => StoreModel { key_file: None, ..self },
            WipeStep::RemoveKeyidLen => StoreModel { keyid_len: None, ..self },
        }
    }

    /// What is stored after all steps.
    pub open spec fn after(self, steps: Seq<WipeStep>) -> StoreModel
        decreases steps.len(),
    {
        if steps.len() == 0 {
            self
        } else {
            self.after(steps.drop_last()).without(steps.last())
        }
    }

    /// What is stored after a wipe.
    pub open spec fn wiped(self) -> StoreModel {
        self.after(wipe_plan(self.key_file is Some))
    }

    /// What a wipe says: from where a secret is removed.
    pub open spec fn wipe_words(self) -> Seq<char> {
        removed_words(self.entry is Some, self.key_file is Some)
    }
}

/// After a wipe nothing is stored: there is no identity, none can be loaded, the keyid length is
/// that of an identity for which none was saved, and another wipe finds nothing to remove. What
/// the wipe says is from which of the two places a secret was removed.
pub proof fn law_wipe_leaves_nothing(store: StoreModel)
    ensures
        store.wiped() == (StoreModel { entry: None, key_file: None, keyid_len: None }),
        store.wipe_words() == (match (store.entry is Some, store.key_file is Some) {
            (true, true) => "OS keyring"@ + " + "@ + "key file"@,
            (true, false) => "OS keyring"@,
            (false, true) => "key file"@,
            (false, false) => "nothing to remove"@,
        }),
        !has_identity(store.wiped().entry, store.wiped().key_file is Some),
        loading(store.wiped().entry, store.wiped().key_file) == Loading::Missing,
        saved_keyid_len(store.wiped().keyid_len) == Some(UNSAVED_KEYID_LEN as nat),
        store.wiped().wipe_words() == "nothing to remove"@,
        store.wiped().wiped() == store.wiped(),
{
    let plan = wipe_plan(store.key_file is Some);
    reveal_with_fuel(StoreModel::after, 4);
    if store.key_file is Some {
        assert(plan.drop_last() =~= seq![WipeStep::DeleteEntry, WipeStep::RemoveKeyFile]);
        assert(plan.drop_last().drop_last() =~= seq![WipeStep::DeleteEntry]);
    } else {
        assert(plan.drop_last() =~= seq![WipeStep::DeleteEntry]);
    }
    let again = wipe_plan(false);
    assert(again.drop_last() =~= seq![WipeStep::DeleteEntry]);
}

/// An identity that was saved is there and is loaded again, with its keyid length: from the
/// keyring if that took it, and else from the key file, unless the keyring holds another key.
pub proof fn law_saved_identity_is_loaded(
    store: StoreModel,
    secret: Seq<u8>,
    keyid_len: usize,
    place: Storage,
)
    requires
        secret.len() == 32,
        place == Storage::File ==> keyring_secret(store.entry) is None,
    ensures
        ({
            let after = store.saved(secret, keyid_len as nat, place);
            &&& has_identity(after.entry, after.key_file is Some)
            &&& loading(after.entry, after.key_file) == Loading::Loaded(secret)
            &&& saved_keyid_len(after.keyid_len) == Some(keyid_len as nat)
        }),
{
    law_keyid_len_reads_back(keyid_len);
}

/// A keyid length that was saved is read back.
pub proof fn law_keyid_len_reads_back(keyid_len: usize)
    ensures
        saved_keyid_len(Some(decimal(keyid_len as nat))) == Some(keyid_len as nat),
{
    let text = decimal(keyid_len as nat);
    lemma_decimal_value(keyid_len as nat);
    assert(is_digit(text[0]));
    assert(is_digit(text.last()));
    lemma_trimmed_id(text);
}

/// A key of 32 bytes in the keyring is loaded, whatever the key file holds; without one the key
/// file is, if it holds 32 bytes; otherwise it is said that there is none, or how many bytes
/// there are. There is an identity if the keyring holds a key or there is a key file.
pub proof fn law_keyring_comes_first(
    entry: Option<Seq<u8>>,
    key_file: Option<Seq<u8>>,
    present: bool,
)
    ensures
        ({
            let in_keyring = entry matches Some(bytes) && bytes.len() == 32;
            let r = loading(entry, key_file);
            &&& in_keyring ==> r == Loading::Loaded(entry->0)
            &&& !in_keyring && key_file is None ==> r == Loading::Missing
            &&& !in_keyring ==> (key_file matches Some(bytes) ==> {
                &&& bytes.len() == 32 ==> r == Loading::Loaded(bytes)
                &&& bytes.len() != 32 ==> r == Loading::Corrupt(bytes.len())
            })
            &&& has_identity(entry, present) <==> in_keyring || present
        }),
{
}

/// What is stored is seen as its bytes.
pub proof fn law_stores_are_seen_as_bytes(bytes: Vec<u8>)
    ensures
        bytes_in(Some(bytes)) == Some(bytes@),
        bytes_in(None) is None,
{
}

/// The keyid length is 16 if none was saved, and else the number that was, with whitespace
/// around it left out; what is no number, or too large a one, is refused.
pub proof fn law_saved_keyid_length(text: Seq<char>)
    ensures
        saved_keyid_len(None) == Some(16nat),
        match number_in(trimmed(text)) {
            Some(n) => n <= usize::MAX ==> saved_keyid_len(Some(text)) == Some(n),
            None => saved_keyid_len(Some(text)) is None,
        },
        saved_keyid_len(Some(text)) matches Some(n) ==> n <= usize::MAX,
{
}

/// A wipe deletes the entry in the keyring, then removes the key file if there is one, then the
/// saved keyid length, each once; each step removes what it names and nothing else.
pub proof fn law_steps_of_a_wipe(store: StoreModel, key_file: bool)
    ensures
        wipe_plan(key_file).contains(WipeStep::DeleteEntry),
        wipe_plan(key_file).contains(WipeStep::RemoveKeyFile) <==> key_file,
        wipe_plan(key_file).contains(WipeStep::RemoveKeyidLen),
        wipe_plan(key_file).no_duplicates(),
        wipe_plan(key_file).first() == WipeStep::DeleteEntry,
        wipe_plan(key_file).last() == WipeStep::RemoveKeyidLen,
        store.without(WipeStep::DeleteEntry) == (StoreModel { entry: None, ..store }),
        store.without(WipeStep::RemoveKeyFile) == (StoreModel { key_file: None, ..store }),
        store.without(WipeStep::RemoveKeyidLen) == (StoreModel { keyid_len: None, ..store }),
{
    let plan = wipe_plan(key_file);
    assert(plan[0] == WipeStep::DeleteEntry);
    if key_file {
        assert(plan[1] == WipeStep::RemoveKeyFile);
        assert(plan[2] == WipeStep::RemoveKeyidLen);
    } else {
        assert(plan[1] == WipeStep::RemoveKeyidLen);
    }
}

/// What was removed is said of each place from which something was.
pub proof fn law_words_of_a_wipe()
    ensures
        removed_words(true, true) == "OS keyring + key file"@,
        removed_words(true, false) == "OS keyring"@,
        removed_words(false, true) == "key file"@,
        removed_words(false, false) == "nothing to remove"@,
{
    reveal_strlit("OS keyring");
    reveal_strlit(" + ");
    reveal_strlit("key file");
    reveal_strlit("OS keyring + key file");
    assert(removed_words(true, true) =~= "OS keyring + key file"@);
}

/// What is wrong with a stored identity is said in these words.
pub proof fn law_words_of_stored_identities(path: String, len: usize)
    ensures
        KeystoreError::AlreadyExists.words()
            == "identity already exists (use --force to overwrite)"@,
        (KeystoreError::NoIdentity { path }).words()
            == "no identity found (keyring empty and no key file at "@ + path@
            + ") — run `mc-tunnel init` first"@,
        (KeystoreError::Corrupt { path, len }).words() == "key file "@ + path@
            + " is corrupt: expected 32 bytes, got "@ + decimal(len as nat),
        (KeystoreError::BadKeyidLen { path }).words() == "parsing keyid_len from "@ + path@,
{
}

} // verus!
