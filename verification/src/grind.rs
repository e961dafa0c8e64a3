//! Looking for a key whose keyid begins with a wanted prefix, by trying random keys.

use crate::identity::Identity;
use crate::name::{
    all_base32_lower, is_base32_char, is_base32_text, keyid_from_pubkey, keyid_full, keyid_matches,
    keyid_of, lemma_base32_bytes,
};
use crate::text::{byte_len, byte_length, decimal, decimal_of, same_text, texts};
use crate::MAX_KEYID_LEN;
use vstd::prelude::*;
use vstd::string::*;

verus! {

/// How many keys are tried in a round of the search.
pub const BATCH: u64 = 4096;

/// How many keys are drawn at a time. A batch is made of whole draws.
pub const DRAW: u64 = 64;

/// From this length on a prefix takes long to find.
pub const LONG_PREFIX: usize = 7;

/// Why no key is looked for.
#[derive(Debug, Clone, Copy, PartialEq, Eq, Structural)]
pub enum GrindError {
    /// The prefix is empty.
    Empty,
    /// The prefix holds a character that cannot stand in a keyid.
    Charset,
    /// The prefix is longer than the keyid.
    LongerThanKeyid { len: usize, keyid_len: usize },
    /// The prefix is longer than any keyid.
    TooLong,
}

impl GrindError {
    /// The words of the error.
    pub open spec fn words(self) -> Seq<char> {
        match self {
            GrindError::Empty => "--vanity-prefix must not be empty"@,
            GrindError::Charset =>
                "--vanity-prefix must use only the base32 charset a-z2-7 (no 0 1 8 9)"@,
            GrindError::LongerThanKeyid { len, keyid_len } => "--vanity-prefix ("@ + decimal(
                len as nat,
            ) + " chars) is longer than keyid_len ("@ + decimal(keyid_len as nat) + ")"@,
            GrindError::TooLong => "--vanity-prefix too long"@,
        }
    }

    /// Puts the error in words.
    pub fn message(&self) -> (text: String)
        ensures
            text@ == self.words(),
    {
        match self {
            GrindError::Empty => "--vanity-prefix must not be empty".to_string(),
            GrindError::Charset =>
                "--vanity-prefix must use only the base32 charset a-z2-7 (no 0 1 8 9)".to_string(),
            GrindError::LongerThanKeyid { len, keyid_len } => "--vanity-prefix (".to_string().concat(
                decimal_of(*len as u64).as_str(),
            ).concat(" chars) is longer than keyid_len (").concat(
                decimal_of(*keyid_len as u64).as_str(),
            ).concat(")"),
            GrindError::TooLong => "--vanity-prefix too long".to_string(),
        }
    }
}

/// What is wrong with a prefix, if anything.
pub open spec fn prefix_objection(prefix: Seq<char>, keyid_len: nat) -> Option<GrindError> {
    if prefix.len() == 0 {
        Some(GrindError::Empty)
    } else if !is_base32_text(prefix) {
        Some(GrindError::Charset)
    } else if prefix.len() > keyid_len {
        Some(
            GrindError::LongerThanKeyid {
                len: prefix.len() as usize,
                keyid_len: keyid_len as usize,
            },
        )
    } else if prefix.len() > MAX_KEYID_LEN {
        Some(GrindError::TooLong)
    } else {
        None
    }
}

/// Checks a prefix.
pub fn validate(prefix: &str, keyid_len: usize) -> (r: Result<(), GrindError>)
    ensures
        match r {
            Ok(_) => prefix_objection(prefix@, keyid_len as nat) is None,
            Err(e) => prefix_objection(prefix@, keyid_len as nat) == Some(e),
        },
{
    if prefix.is_empty() {
        return Err(GrindError::Empty);
    }
    if !all_base32_lower(prefix) {
        return Err(GrindError::Charset);
    }
    proof {
        lemma_base32_bytes(prefix@);
    }
    let len: usize = byte_length(prefix);
    if len > keyid_len {
        return Err(GrindError::LongerThanKeyid { len, keyid_len });
    }
    if len > MAX_KEYID_LEN {
        return Err(GrindError::TooLong);
    }
    Ok(())
}

/// Whether the keyid of an identity begins with the prefix.
pub fn matches_prefix(identity: &Identity, prefix: &str) -> (yes: bool)
    ensures
        yes == has_prefix(*identity, prefix@),
{
    let keyid = keyid_from_pubkey(&identity.public_bytes(), byte_length(prefix));
    same_text(keyid.as_str(), prefix)
}

/// The keyid of an identity begins with the prefix.
pub open spec fn has_prefix(identity: Identity, prefix: Seq<char>) -> bool {
    keyid_of(identity.public(), byte_len(prefix)) == prefix
}

/// The key at the place is the first whose keyid begins with the prefix.
pub open spec fn is_first_match(keys: Seq<Identity>, prefix: Seq<char>, place: int) -> bool {
    &&& 0 <= place < keys.len()
    &&& has_prefix(keys[place], prefix)
    &&& forall|k: int| 0 <= k < place ==> !has_prefix(#[trigger] keys[k], prefix)
}

/// There is no key whose keyid begins with the prefix.
pub open spec fn no_match(keys: Seq<Identity>, prefix: Seq<char>) -> bool {
    forall|k: int| 0 <= k < keys.len() ==> !has_prefix(#[trigger] keys[k], prefix)
}

/// The place of the first key whose keyid begins with the prefix.
pub fn first_match(keys: &Vec<Identity>, prefix: &str) -> (place: Option<usize>)
    ensures
        match place {
            Some(i) => is_first_match(keys@, prefix@, i as int),
            None => no_match(keys@, prefix@),
        },
{
    let mut i: usize = 0;
    while i < keys.len()
        invariant
            i <= keys@.len(),
            forall|k: int| 0 <= k < i ==> !has_prefix(#[trigger] keys@[k], prefix@),
        decreases keys@.len() - i,
    {
        if matches_prefix(&keys[i], prefix) {
            return Some(i);
        }
        i += 1;
    }
    None
}

/// Where a search stands after some of its keys were tried.
pub enum Search {
    /// A key was found, as the last of so many that were tried so far in this round.
    Found { identity: Identity, tried: u64 },
    /// So many keys were tried so far in this round, and none was found. The search goes on.
    GoOn { tried: u64 },
    /// Somebody stopped the search.
    Aborted,
}

/// What a draw means for the search, when `before` keys of the round were tried before it: the
/// first key with the prefix is handed out, and if there is none the search goes on.
pub fn judge_draw(keys: Vec<Identity>, before: u64, prefix: &str) -> (search: Search)
    requires
        before + keys@.len() <= u64::MAX,
    ensures
        match search {
            Search::Found { identity, tried } => before < tried <= before + keys@.len()
                && is_first_match(keys@, prefix@, tried - before - 1) && identity == keys@[tried
                - before - 1],
            Search::GoOn { tried } => tried == before + keys@.len() && no_match(keys@, prefix@),
            Search::Aborted => false,
        },
{
    let mut keys = keys;
    match first_match(&keys, prefix) {
        Some(i) => Search::Found { identity: keys.swap_remove(i), tried: before + i as u64 + 1 },
        None => Search::GoOn { tried: before + keys.len() as u64 },
    }
}

/// Draws random keys.
fn draw(n: usize) -> (keys: Vec<Identity>)
    ensures
        keys@.len() == n,
{
    let mut keys: Vec<Identity> = Vec::new();
    while keys.len() < n
        invariant
            keys@.len() <= n,
        decreases n - keys@.len(),
    {
        keys.push(Identity::generate());
    }
    keys
}

/// One round of the search for an identity whose keyid begins with the prefix. A search has as
/// many rounds as it takes: it is over when a key was found or somebody stopped it, which is
/// looked at when a round begins. Which keys are tried is left to chance.
pub fn grind(prefix: &str, keyid_len: usize, abort: bool) -> (r: Result<Search, GrindError>)
    ensures
        match r {
            Ok(Search::Found { identity, tried }) => prefix_objection(prefix@, keyid_len as nat)
                is None && !abort && has_prefix(identity, prefix@) && keyid_matches(
                prefix@,
                identity.public(),
            ) && prefix@.is_prefix_of(keyid_of(identity.public(), keyid_len as nat)) && 1 <= tried
                <= BATCH,
            Ok(Search::GoOn { tried }) => prefix_objection(prefix@, keyid_len as nat) is None
                && !abort && tried == BATCH,
            Ok(Search::Aborted) => prefix_objection(prefix@, keyid_len as nat) is None && abort,
            Err(e) => prefix_objection(prefix@, keyid_len as nat) == Some(e),
        },
{
    match validate(prefix, keyid_len) {
        Ok(_) => {},
        Err(e) => return Err(e),
    }
    if abort {
        return Ok(Search::Aborted);
    }
    proof {
        lemma_base32_bytes(prefix@);
    }
    let mut tried: u64 = 0;
    while tried < BATCH
        invariant
            tried <= BATCH,
            tried % DRAW == 0,
            !abort,
            prefix_objection(prefix@, keyid_len as nat) is None,
            byte_len(prefix@) == prefix@.len(),
        decreases BATCH - tried,
    {
        match judge_draw(draw(DRAW as usize), tried, prefix) {
            Search::GoOn { tried: so_far } => {
                tried = so_far;
            },
            over => {
                return Ok(over);
            },
        }
    }
    Ok(Search::GoOn { tried })
}

/// What the one who waits for a result hears within a second.
pub enum Heard {
    /// A key was found.
    Found([u8; 32]),
    /// Nothing yet.
    Silence,
    /// Nobody is looking any more.
    Gone,
}

/// What the one who waits does.
pub enum Waiting {
    /// Ends the search with this identity, or with none.
    Over(Option<Identity>),
    /// Reports the progress and goes on.
    GoOn,
}

/// What to do on what was heard. Somebody who stopped the search gets nothing, unless a key came
/// in before that was noticed.
pub fn wait_step(heard: Heard, stopped: bool) -> (step: Waiting)
    ensures
        match heard {
            Heard::Found(secret) => step matches Waiting::Over(Some(id)) && id.secret() == secret@,
            Heard::Silence => if stopped {
                step == Waiting::Over(None)
            } else {
                step == Waiting::GoOn
            },
            Heard::Gone => step == Waiting::Over(None),
        },
{
    match heard {
        Heard::Found(secret) => Waiting::Over(Some(Identity::from_secret_bytes(&secret))),
        Heard::Silence => if stopped {
            Waiting::Over(None)
        } else {
            Waiting::GoOn
        },
        Heard::Gone => Waiting::Over(None),
    }
}

/// What is said before a search: how long it may take, if long, and that it begins.
pub open spec fn grind_lines(prefix: Seq<char>, threads: nat) -> Seq<Seq<char>> {
    let begin = "Grinding for keyid prefix \""@ + prefix + "\" on "@ + decimal(threads)
        + " threads (Ctrl-C to stop)..."@;
    if byte_len(prefix) >= LONG_PREFIX {
        seq![
            "Note: a "@ + decimal(byte_len(prefix))
                + "-char prefix can take a long time (base32 ~ 32^"@ + decimal(byte_len(prefix))
                + ")."@,
            begin,
        ]
    } else {
        seq![begin]
    }
}

/// What is said before a search.
pub fn grind_banner(prefix: &str, threads: usize) -> (lines: Vec<String>)
    ensures
        texts(lines@) == grind_lines(prefix@, threads as nat),
{
    let mut lines: Vec<String> = Vec::new();
    let len: usize = byte_length(prefix);
    if len >= LONG_PREFIX {
        let n = decimal_of(len as u64);
        lines.push(
            "Note: a ".to_string().concat(n.as_str()).concat(
                "-char prefix can take a long time (base32 ~ 32^",
            ).concat(n.as_str()).concat(")."),
        );
    }
    lines.push(
        "Grinding for keyid prefix \"".to_string().concat(prefix).concat("\" on ").concat(
            decimal_of(threads as u64).as_str(),
        ).concat(" threads (Ctrl-C to stop)..."),
    );
    assert(texts(lines@) =~= grind_lines(prefix@, threads as nat));
    lines
}

// ---------------------------------------------------------------------------
// Laws
// ---------------------------------------------------------------------------

/// A prefix can be looked for if and only if it has 1 to 52 of the characters of keyids and no
/// more than the keyid. The first thing that is wrong with another is named.
pub proof fn law_prefixes_that_can_be_found(prefix: Seq<char>, keyid_len: nat)
    ensures
        ({
            let charset = forall|i: int|
                0 <= i < prefix.len() ==> ('a' <= #[trigger] prefix[i] <= 'z' || '2' <= prefix[i]
                    <= '7');
            let e = prefix_objection(prefix, keyid_len);
            &&& e is None <==> 1 <= prefix.len() <= 52 && prefix.len() <= keyid_len && charset
            &&& prefix.len() == 0 ==> e == Some(GrindError::Empty)
            &&& prefix.len() > 0 && !charset ==> e == Some(GrindError::Charset)
            &&& prefix.len() > keyid_len && charset ==> e == Some(
                GrindError::LongerThanKeyid {
                    len: prefix.len() as usize,
                    keyid_len: keyid_len as usize,
                },
            ) || prefix.len() == 0
            &&& 52 < prefix.len() <= keyid_len && charset ==> e == Some(GrindError::TooLong)
        }),
{
    let charset = forall|i: int|
        0 <= i < prefix.len() ==> ('a' <= #[trigger] prefix[i] <= 'z' || '2' <= prefix[i] <= '7');
    assert(charset <==> is_base32_text(prefix)) by {
        if is_base32_text(prefix) {
            assert forall|i: int| 0 <= i < prefix.len() implies ('a' <= #[trigger] prefix[i] <= 'z'
                || '2' <= prefix[i] <= '7') by {
                assert(is_base32_char(prefix[i]));
            }
        }
    }
}

/// A key is what was looked for if and only if its whole keyid begins with the prefix.
pub proof fn law_found_keyid_begins_with_the_prefix(identity: Identity, prefix: Seq<char>)
    requires
        forall|i: int|
            0 <= i < prefix.len() ==> ('a' <= #[trigger] prefix[i] <= 'z' || '2' <= prefix[i]
                <= '7'),
    ensures
        has_prefix(identity, prefix) <==> prefix.is_prefix_of(keyid_full(identity.public())),
{
    assert(is_base32_text(prefix));
    lemma_base32_bytes(prefix);
    let full = keyid_full(identity.public());
    if prefix.is_prefix_of(full) {
        assert(prefix =~= full.take(prefix.len() as int));
    }
}

/// Before a search it is said what is looked for and on how many threads, after a note if the
/// prefix has seven bytes or more.
pub proof fn law_search_is_announced(prefix: Seq<char>, threads: nat)
    ensures
        grind_lines(prefix, threads).last() == "Grinding for keyid prefix \""@ + prefix + "\" on "@
            + decimal(threads) + " threads (Ctrl-C to stop)..."@,
        grind_lines(prefix, threads).len() == (if byte_len(prefix) >= 7 {
            2nat
        } else {
            1
        }),
{
}

/// The first key with the prefix is one that has it and before which none does; there is one if
/// and only if some key has it, and no more than one.
pub proof fn law_first_match_is_the_first(
    keys: Seq<Identity>,
    prefix: Seq<char>,
    place: int,
    other: int,
)
    ensures
        is_first_match(keys, prefix, place) <==> 0 <= place < keys.len() && has_prefix(
            keys[place],
            prefix,
        ) && (forall|k: int| 0 <= k < place ==> !has_prefix(#[trigger] keys[k], prefix)),
        no_match(keys, prefix) <==> forall|k: int|
            0 <= k < keys.len() ==> !has_prefix(#[trigger] keys[k], prefix),
        is_first_match(keys, prefix, place) && is_first_match(keys, prefix, other) ==> place
            == other,
        is_first_match(keys, prefix, place) ==> !no_match(keys, prefix),
{
}

/// A refused prefix is refused in these words.
pub proof fn law_words_of_refused_prefixes(len: usize, keyid_len: usize)
    ensures
        GrindError::Empty.words() == "--vanity-prefix must not be empty"@,
        GrindError::Charset.words()
            == "--vanity-prefix must use only the base32 charset a-z2-7 (no 0 1 8 9)"@,
        (GrindError::LongerThanKeyid { len, keyid_len }).words() == "--vanity-prefix ("@ + decimal(
            len as nat,
        ) + " chars) is longer than keyid_len ("@ + decimal(keyid_len as nat) + ")"@,
        GrindError::TooLong.words() == "--vanity-prefix too long"@,
{
}

} // verus!
