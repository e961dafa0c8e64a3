//! Self-certifying names.
//!
//! A name is `[vanity].[keyid].minecraft`. The keyid carries the security: it is a prefix of
//! the base32 form of the SHA-256 digest of an ed25519 public key, in the characters `a`-`z`
//! and `2`-`7`. The vanity label is optional and only for people to read.

use crate::crypto::{
    base32, base32_encode, base32_symbol, bit, lemma_quintet_bits, lemma_quintet_range,
    lemma_symbol_injective, quintet, sha256, sha256_digest,
};
use crate::error::CoreError;
use crate::text::{
    byte_len, byte_length, chars_of, joined, law_joining_appends, law_split_parts_join_back,
    lemma_lowered_id, lemma_split_last, lemma_split_nonempty, lemma_split_single, lemma_trimmed_id,
    lemma_trimmed_lowered, lower_char, lowered, same_text, split, split_at, string_of, to_lower,
    trim, trimmed,
};
use crate::{DEFAULT_KEYID_LEN, MAX_KEYID_LEN, MAX_VANITY_LEN, MIN_KEYID_LEN, SUFFIX};
use vstd::prelude::*;
use vstd::string::*;
use vstd::utf8::encode_utf8;

verus! {

// ---------------------------------------------------------------------------
// Model
// ---------------------------------------------------------------------------

/// A character that may stand in a keyid or a vanity label.
pub open spec fn is_base32_char(c: char) -> bool {
    ('a' <= c <= 'z') || ('2' <= c <= '7')
}

/// Text in the characters of keyids.
pub open spec fn is_base32_text(s: Seq<char>) -> bool {
    forall|i: int| 0 <= i < s.len() ==> is_base32_char(#[trigger] s[i])
}

/// The whole keyid of a public key: the digest of the key in lower-case base32.
pub open spec fn keyid_full(pubkey: Seq<u8>) -> Seq<char> {
    lowered(base32(sha256(pubkey)@))
}

/// The keyid of a public key cut to `len` characters.
pub open spec fn keyid_of(pubkey: Seq<u8>, len: nat) -> Seq<char> {
    if len <= keyid_full(pubkey).len() {
        keyid_full(pubkey).take(len as int)
    } else {
        keyid_full(pubkey)
    }
}

/// `keyid` is the keyid of `pubkey` at some length.
pub open spec fn keyid_matches(keyid: Seq<char>, pubkey: Seq<u8>) -> bool {
    keyid.is_prefix_of(keyid_full(pubkey))
}

/// The two labels of a name. An empty vanity label means that there is none.
pub struct NameModel {
    pub vanity: Seq<char>,
    pub keyid: Seq<char>,
}

impl NameModel {
    /// Both labels keep to the rules for names.
    pub open spec fn valid(self) -> bool {
        &&& self.vanity.len() <= MAX_VANITY_LEN
        &&& is_base32_text(self.vanity)
        &&& MIN_KEYID_LEN <= self.keyid.len() <= MAX_KEYID_LEN
        &&& is_base32_text(self.keyid)
    }

    /// The name as it is typed.
    pub open spec fn text(self) -> Seq<char> {
        if self.vanity.len() == 0 {
            self.keyid + seq!['.'] + SUFFIX@
        } else {
            self.vanity + seq!['.'] + self.keyid + seq!['.'] + SUFFIX@
        }
    }
}

/// What is wrong with a keyid length, if anything.
pub open spec fn keyid_len_objection(len: nat) -> Option<CoreError> {
    if MIN_KEYID_LEN <= len <= MAX_KEYID_LEN {
        None
    } else {
        Some(CoreError::KeyidLen { len: len as usize, min: MIN_KEYID_LEN, max: MAX_KEYID_LEN })
    }
}

/// What is wrong with a keyid label, if anything. Lengths are counted in bytes.
pub open spec fn keyid_objection(keyid: Seq<char>) -> Option<CoreError> {
    if keyid.len() == 0 {
        Some(CoreError::EmptyLabel)
    } else if keyid_len_objection(byte_len(keyid)) is Some {
        keyid_len_objection(byte_len(keyid))
    } else if !is_base32_text(keyid) {
        Some(CoreError::KeyidCharset)
    } else {
        None
    }
}

/// What is wrong with a vanity label, if anything. Lengths are counted in bytes.
pub open spec fn vanity_objection(vanity: Seq<char>) -> Option<CoreError> {
    if vanity.len() == 0 {
        None
    } else if byte_len(vanity) > MAX_VANITY_LEN {
        Some(CoreError::VanityTooLong(byte_len(vanity) as usize))
    } else if !is_base32_text(vanity) {
        Some(CoreError::VanityCharset)
    } else {
        None
    }
}

/// The name that the labels before the suffix make up.
pub open spec fn labels_name(labels: Seq<Seq<char>>) -> Result<NameModel, CoreError> {
    if labels.len() == 0 {
        Err(CoreError::EmptyLabel)
    } else if labels.len() == 1 {
        match keyid_objection(labels[0]) {
            Some(e) => Err(e),
            None => Ok(NameModel { vanity: Seq::empty(), keyid: labels[0] }),
        }
    } else if labels.len() == 2 {
        match vanity_objection(labels[0]) {
            Some(e) => Err(e),
            None => match keyid_objection(labels[1]) {
                Some(e) => Err(e),
                None => Ok(NameModel { vanity: labels[0], keyid: labels[1] }),
            },
        }
    } else {
        Err(CoreError::TooManyLabels)
    }
}

/// The name that a typed address stands for. Case and surrounding whitespace do not matter.
pub open spec fn parsed_name(input: Seq<char>) -> Result<NameModel, CoreError> {
    let labels = split_at(lowered(trimmed(input)), '.');
    if labels.last() != SUFFIX@ {
        Err(CoreError::BadSuffix(SUFFIX))
    } else {
        labels_name(labels.drop_last())
    }
}

// ---------------------------------------------------------------------------
// Keyids
// ---------------------------------------------------------------------------

/// The whole keyid has 52 characters, all in the keyid alphabet.
pub proof fn lemma_keyid_full(pubkey: Seq<u8>)
    ensures
        keyid_full(pubkey).len() == MAX_KEYID_LEN,
        is_base32_text(keyid_full(pubkey)),
{
    let hash = sha256(pubkey)@;
    assert(hash.len() == 32);
    assert forall|i: int| 0 <= i < keyid_full(pubkey).len() implies is_base32_char(
        #[trigger] keyid_full(pubkey)[i],
    ) by {
        lemma_quintet_range(hash, i);
    }
}

/// The keyid of a public key, all 52 characters of it.
pub fn keyid_full_from_pubkey(pubkey: &[u8; 32]) -> (keyid: String)
    ensures
        keyid@ == keyid_full(pubkey@),
        keyid@.len() == MAX_KEYID_LEN,
        is_base32_text(keyid@),
{
    let hash = sha256_digest(pubkey.as_slice());
    proof {
        lemma_keyid_full(pubkey@);
    }
    to_lower(base32_encode(hash.as_slice()).as_str())
}

/// The keyid of a public key cut to `len` characters, as it stands in an address.
pub fn keyid_from_pubkey(pubkey: &[u8; 32], len: usize) -> (keyid: String)
    ensures
        keyid@ == keyid_of(pubkey@, len as nat),
        is_base32_text(keyid@),
{
    let full = keyid_full_from_pubkey(pubkey);
    let chars = chars_of(full.as_str());
    let end: usize = if len <= chars.len() {
        len
    } else {
        chars.len()
    };
    assert(chars@.subrange(0, end as int) =~= keyid_of(pubkey@, len as nat));
    string_of(&chars, 0, end)
}

/// Whether `c` may stand in a keyid.
pub fn is_base32_lower(c: char) -> (yes: bool)
    ensures
        yes == is_base32_char(c),
{
    ('a' <= c && c <= 'z') || ('2' <= c && c <= '7')
}

/// Whether all characters of a string may stand in a keyid.
pub fn all_base32_lower(s: &str) -> (yes: bool)
    ensures
        yes == is_base32_text(s@),
{
    let chars = chars_of(s);
    let mut i: usize = 0;
    while i < chars.len()
        invariant
            chars@ == s@,
            i <= chars@.len(),
            forall|k: int| 0 <= k < i ==> is_base32_char(#[trigger] s@[k]),
        decreases chars@.len() - i,
    {
        if !is_base32_lower(chars[i]) {
            return false;
        }
        i += 1;
    }
    true
}

/// Refuses a keyid length outside the allowed range.
pub fn check_keyid_len(len: usize) -> (r: Result<(), CoreError>)
    ensures
        match r {
            Ok(_) => keyid_len_objection(len as nat) is None,
            Err(e) => keyid_len_objection(len as nat) == Some(e),
        },
{
    if MIN_KEYID_LEN <= len && len <= MAX_KEYID_LEN {
        Ok(())
    } else {
        Err(CoreError::KeyidLen { len, min: MIN_KEYID_LEN, max: MAX_KEYID_LEN })
    }
}

/// Whether `keyid` is a prefix of the keyid of `pubkey`. A longer keyid commits to more of
/// the digest.
pub fn keyid_matches_pubkey(keyid: &str, pubkey: &[u8; 32]) -> (yes: bool)
    ensures
        yes == keyid_matches(keyid@, pubkey@),
{
    let derived = keyid_from_pubkey(pubkey, byte_length(keyid));
    proof {
        let full = keyid_full(pubkey@);
        lemma_keyid_full(pubkey@);
        if keyid@.is_prefix_of(full) {
            assert forall|i: int| 0 <= i < keyid@.len() implies '\0' <= #[trigger] keyid@[i]
                <= '\u{7f}' by {
                assert(is_base32_char(full[i]));
                assert(keyid@[i] == full[i]);
            }
            vstd::utf8::is_ascii_chars_encode_utf8(keyid@);
            assert(keyid@ =~= full.take(keyid@.len() as int));
        }
    }
    same_text(derived.as_str(), keyid)
}

/// The keyid length that is used unless another is asked for.
pub fn default_keyid_len() -> (len: usize)
    ensures
        len == DEFAULT_KEYID_LEN,
{
    DEFAULT_KEYID_LEN
}

// ---------------------------------------------------------------------------
// Names
// ---------------------------------------------------------------------------

/// A `[vanity].[keyid].minecraft` address.
#[derive(Debug, Clone, PartialEq, Eq)]
pub struct Name {
    /// Up to eight characters. The empty string means that there is no vanity label.
    pub vanity: String,
    /// The keyid as it stands in the address.
    pub keyid: String,
}

impl View for Name {
    type V = NameModel;

    open spec fn view(&self) -> NameModel {
        NameModel { vanity: self.vanity@, keyid: self.keyid@ }
    }
}

/// Checks a keyid label and returns it.
fn validate_keyid(keyid: &str) -> (r: Result<String, CoreError>)
    ensures
        match r {
            Ok(k) => keyid_objection(keyid@) is None && k@ == keyid@,
            Err(e) => keyid_objection(keyid@) == Some(e),
        },
{
    if keyid.is_empty() {
        return Err(CoreError::EmptyLabel);
    }
    match check_keyid_len(byte_length(keyid)) {
        Ok(_) => {},
        Err(e) => {
            return Err(e);
        },
    }
    if !all_base32_lower(keyid) {
        return Err(CoreError::KeyidCharset);
    }
    Ok(keyid.to_string())
}

/// Checks a vanity label.
fn validate_vanity(vanity: &str) -> (r: Result<(), CoreError>)
    ensures
        match r {
            Ok(_) => vanity_objection(vanity@) is None,
            Err(e) => vanity_objection(vanity@) == Some(e),
        },
{
    if vanity.is_empty() {
        return Ok(());
    }
    let len: usize = byte_length(vanity);
    if len > MAX_VANITY_LEN {
        return Err(CoreError::VanityTooLong(len));
    }
    if !all_base32_lower(vanity) {
        return Err(CoreError::VanityCharset);
    }
    Ok(())
}

impl Name {
    /// The name of a public key, with the keyid cut to `keyid_len` characters.
    pub fn from_pubkey(pubkey: &[u8; 32], vanity: &str, keyid_len: usize) -> (r: Result<
        Self,
        CoreError,
    >)
        ensures
            match r {
                Ok(name) => {
                    &&& keyid_len_objection(keyid_len as nat) is None
                    &&& vanity_objection(vanity@) is None
                    &&& name@ == (NameModel {
                        vanity: vanity@,
                        keyid: keyid_of(pubkey@, keyid_len as nat),
                    })
                    &&& name@.valid()
                    &&& keyid_matches(name.keyid@, pubkey@)
                },
                Err(e) => if keyid_len_objection(keyid_len as nat) is Some {
                    keyid_len_objection(keyid_len as nat) == Some(e)
                } else {
                    vanity_objection(vanity@) == Some(e)
                },
            },
    {
        match check_keyid_len(keyid_len) {
            Ok(_) => {},
            Err(e) => {
                return Err(e);
            },
        }
        match validate_vanity(vanity) {
            Ok(_) => {},
            Err(e) => {
                return Err(e);
            },
        }
        let keyid = keyid_from_pubkey(pubkey, keyid_len);
        proof {
            lemma_keyid_full(pubkey@);
            lemma_vanity_valid(vanity@);
        }
        Ok(Name { vanity: vanity.to_string(), keyid })
    }

    /// The length of the keyid, counted in bytes.
    pub fn keyid_len(&self) -> (len: usize)
        ensures
            len == byte_len(self.keyid@),
    {
        byte_length(self.keyid.as_str())
    }

    /// Reads a typed address. Anything outside the rules for names is refused.
    pub fn parse(input: &str) -> (r: Result<Self, CoreError>)
        ensures
            match r {
                Ok(name) => parsed_name(input@) == Ok::<NameModel, CoreError>(name@),
                Err(e) => parsed_name(input@) == Err::<NameModel, CoreError>(e),
            },
    {
        let text = to_lower(trim(input).as_str());
        let labels = split(text.as_str(), '.');
        let ghost all = split_at(lowered(trimmed(input@)), '.');
        proof {
            lemma_split_nonempty(lowered(trimmed(input@)), '.');
        }
        let n: usize = labels.len() - 1;
        assert(forall|i: int| 0 <= i <= n ==> all[i] == (#[trigger] labels@[i])@);
        if !same_text(labels[n].as_str(), SUFFIX) {
            return Err(CoreError::BadSuffix(SUFFIX));
        }
        if n == 0 {
            Err(CoreError::EmptyLabel)
        } else if n == 1 {
            match validate_keyid(labels[0].as_str()) {
                Ok(keyid) => Ok(Name { vanity: String::new(), keyid }),
                Err(e) => Err(e),
            }
        } else if n == 2 {
            match validate_vanity(labels[0].as_str()) {
                Ok(_) => {},
                Err(e) => {
                    return Err(e);
                },
            }
            match validate_keyid(labels[1].as_str()) {
                Ok(keyid) => Ok(Name { vanity: labels[0].clone(), keyid }),
                Err(e) => Err(e),
            }
        } else {
            Err(CoreError::TooManyLabels)
        }
    }

    /// The name as it is typed.
    pub fn to_string(&self) -> (text: String)
        ensures
            text@ == self@.text(),
    {
        let mut text = self.vanity.clone();
        if !self.vanity.as_str().is_empty() {
            text.push('.');
        }
        let mut text = text.concat(self.keyid.as_str());
        text.push('.');
        let text = text.concat(SUFFIX);
        assert(text@ =~= self@.text());
        text
    }
}

// ---------------------------------------------------------------------------
// Laws
// ---------------------------------------------------------------------------

/// Text that can stand in a keyid has one byte per character.
pub proof fn lemma_base32_bytes(s: Seq<char>)
    requires
        is_base32_text(s),
    ensures
        byte_len(s) == s.len(),
{
    assert(vstd::utf8::is_ascii_chars(s));
    vstd::utf8::is_ascii_chars_encode_utf8(s);
}

proof fn lemma_vanity_valid(vanity: Seq<char>)
    requires
        vanity_objection(vanity) is None,
    ensures
        vanity.len() <= MAX_VANITY_LEN,
        is_base32_text(vanity),
{
    if vanity.len() > 0 {
        lemma_base32_bytes(vanity);
    }
}

/// Every address that parses is a valid name.
pub proof fn law_parsed_name_is_valid(input: Seq<char>)
    ensures
        parsed_name(input) matches Ok(name) ==> name.valid(),
{
    let labels = split_at(lowered(trimmed(input)), '.');
    let rest = labels.drop_last();
    if labels.last() == SUFFIX@ {
        if rest.len() == 1 && keyid_objection(rest[0]) is None {
            lemma_base32_bytes(rest[0]);
        }
        if rest.len() == 2 && vanity_objection(rest[0]) is None && keyid_objection(rest[1]) is None {
            lemma_vanity_valid(rest[0]);
            lemma_base32_bytes(rest[1]);
        }
    }
}

proof fn lemma_no_dot(s: Seq<char>)
    requires
        is_base32_text(s),
    ensures
        !s.contains('.'),
{
    if s.contains('.') {
        let i = choose|i: int| 0 <= i < s.len() && s[i] == '.';
        assert(is_base32_char(s[i]));
    }
}

/// The typed form of a valid name parses back to the same name.
pub proof fn law_name_text_parses_back(name: NameModel)
    requires
        name.valid(),
    ensures
        parsed_name(name.text()) == Ok::<NameModel, CoreError>(name),
{
    let text = name.text();
    reveal_strlit("minecraft");
    assert forall|i: int| 0 <= i < text.len() implies is_base32_char(#[trigger] text[i]) || text[i]
        == '.' by {
        let k = name.keyid.len();
        if name.vanity.len() == 0 {
            if i < k {
                assert(text[i] == name.keyid[i]);
            } else if i > k {
                assert(text[i] == SUFFIX@[i - k - 1]);
            }
        } else {
            let v = name.vanity.len();
            if i < v {
                assert(text[i] == name.vanity[i]);
            } else if v < i && i < v + 1 + k {
                assert(text[i] == name.keyid[i - v - 1]);
            } else if i > v + 1 + k {
                assert(text[i] == SUFFIX@[i - v - k - 2]);
            }
        }
    }
    lemma_trimmed_id(text);
    lemma_lowered_id(text);
    lemma_no_dot(name.keyid);
    assert(is_base32_text(SUFFIX@));
    lemma_no_dot(SUFFIX@);
    lemma_base32_bytes(name.keyid);
    if name.vanity.len() == 0 {
        lemma_split_last(name.keyid, '.', SUFFIX@);
        lemma_split_single(name.keyid, '.');
        assert(split_at(text, '.') =~= seq![name.keyid, SUFFIX@]);
        assert(split_at(text, '.').drop_last() =~= seq![name.keyid]);
        assert(name.vanity =~= Seq::empty());
    } else {
        lemma_no_dot(name.vanity);
        lemma_base32_bytes(name.vanity);
        lemma_split_last(name.vanity + seq!['.'] + name.keyid, '.', SUFFIX@);
        lemma_split_last(name.vanity, '.', name.keyid);
        lemma_split_single(name.vanity, '.');
        assert(split_at(text, '.') =~= seq![name.vanity, name.keyid, SUFFIX@]);
        assert(split_at(text, '.').drop_last() =~= seq![name.vanity, name.keyid]);
    }
}

/// Whatever parses, its typed form parses to the same name.
pub proof fn law_reparse_is_stable(input: Seq<char>)
    ensures
        parsed_name(input) matches Ok(name) ==> parsed_name(name.text()) == Ok::<
            NameModel,
            CoreError,
        >(name),
{
    law_parsed_name_is_valid(input);
    if let Ok(name) = parsed_name(input) {
        law_name_text_parses_back(name);
    }
}

/// Parsing does not tell ASCII capitals from small letters.
pub proof fn law_parse_ignores_case(a: Seq<char>, b: Seq<char>)
    requires
        lowered(a) == lowered(b),
    ensures
        parsed_name(a) == parsed_name(b),
{
    lemma_trimmed_lowered(a);
    lemma_trimmed_lowered(b);
}

/// A valid name fits in the 128 characters of the game's address field: it has at most 71.
pub proof fn law_name_fits_address_field(name: NameModel)
    requires
        name.valid(),
    ensures
        name.text().len() <= 71,
{
    reveal_strlit("minecraft");
}

/// A longer keyid of the same key extends a shorter one.
pub proof fn law_longer_keyid_extends_shorter(pubkey: Seq<u8>, short: nat, long: nat)
    requires
        short <= long,
    ensures
        keyid_of(pubkey, short).is_prefix_of(keyid_of(pubkey, long)),
        keyid_matches(keyid_of(pubkey, short), pubkey),
{
}

/// A keyid of `n` characters commits to the first `5 * n` bits of the digest: two keys that
/// both match it agree on them.
pub proof fn law_keyid_commits_to_digest_bits(keyid: Seq<char>, p: Seq<u8>, q: Seq<u8>)
    requires
        keyid_matches(keyid, p),
        keyid_matches(keyid, q),
    ensures
        forall|k: int| 0 <= k < 5 * keyid.len() ==> bit(sha256(p)@, k) == bit(sha256(q)@, k),
{
    let a = sha256(p)@;
    let b = sha256(q)@;
    assert forall|k: int| 0 <= k < 5 * keyid.len() implies bit(a, k) == bit(b, k) by {
        let i = k / 5;
        lemma_keyid_full(p);
        lemma_keyid_full(q);
        assert(keyid[i] == keyid_full(p)[i] && keyid[i] == keyid_full(q)[i]);
        lemma_quintet_range(a, i);
        lemma_quintet_range(b, i);
        assert(lower_char(base32_symbol(quintet(a, i))) == lower_char(base32_symbol(quintet(b, i))));
        lemma_symbol_injective(quintet(a, i), quintet(b, i));
        lemma_quintet_bits(a, b, i, k);
    }
}

proof fn lemma_byte_from_bits(a: u8, b: u8)
    requires
        forall|s: u8| s < 8 ==> (a >> s) & 1 == #[trigger] (b >> s) & 1,
    ensures
        a == b,
{
    assert((a >> 0u8) & 1 == (b >> 0u8) & 1);
    assert((a >> 1u8) & 1 == (b >> 1u8) & 1);
    assert((a >> 2u8) & 1 == (b >> 2u8) & 1);
    assert((a >> 3u8) & 1 == (b >> 3u8) & 1);
    assert((a >> 4u8) & 1 == (b >> 4u8) & 1);
    assert((a >> 5u8) & 1 == (b >> 5u8) & 1);
    assert((a >> 6u8) & 1 == (b >> 6u8) & 1);
    assert((a >> 7u8) & 1 == (b >> 7u8) & 1);
    assert(a == b) by (bit_vector)
        requires
            (a >> 0u8) & 1 == (b >> 0u8) & 1,
            (a >> 1u8) & 1 == (b >> 1u8) & 1,
            (a >> 2u8) & 1 == (b >> 2u8) & 1,
            (a >> 3u8) & 1 == (b >> 3u8) & 1,
            (a >> 4u8) & 1 == (b >> 4u8) & 1,
            (a >> 5u8) & 1 == (b >> 5u8) & 1,
            (a >> 6u8) & 1 == (b >> 6u8) & 1,
            (a >> 7u8) & 1 == (b >> 7u8) & 1,
    ;
}

/// The whole keyid commits to the whole digest.
pub proof fn law_whole_keyid_fixes_digest(keyid: Seq<char>, p: Seq<u8>, q: Seq<u8>)
    requires
        keyid.len() == MAX_KEYID_LEN,
        keyid_matches(keyid, p),
        keyid_matches(keyid, q),
    ensures
        sha256(p)@ == sha256(q)@,
{
    law_keyid_commits_to_digest_bits(keyid, p, q);
    let a = sha256(p)@;
    let b = sha256(q)@;
    assert forall|i: int| 0 <= i < 32 implies a[i] == b[i] by {
        assert forall|s: u8| s < 8 implies (a[i] >> s) & 1 == #[trigger] (b[i] >> s) & 1 by {
            let k = 8 * i + (7 - s);
            assert(k / 8 == i && (7 - k % 8) == s);
            assert(bit(a, k) == bit(b, k));
        }
        lemma_byte_from_bits(a[i], b[i]);
    }
    assert(a =~= b);
}

/// The characters of names are the 32 symbols of base32 in lower case.
pub proof fn law_name_characters(c: char)
    ensures
        is_base32_char(c) <==> "abcdefghijklmnopqrstuvwxyz234567"@.contains(c),
{
    reveal_strlit("abcdefghijklmnopqrstuvwxyz234567");
    let all = "abcdefghijklmnopqrstuvwxyz234567"@;
    if is_base32_char(c) {
        let i: int = if 'a' <= c <= 'z' {
            c as int - 'a' as int
        } else {
            c as int - '2' as int + 26
        };
        assert(all[i] == c);
    }
    if all.contains(c) {
        let i = choose|i: int| 0 <= i < all.len() && all[i] == c;
        assert(all.len() == 32);
    }
}

/// Each character of the whole keyid stands for five bits of the digest of the key.
pub proof fn law_keyid_spells_the_digest(pubkey: Seq<u8>, i: int)
    requires
        0 <= i < 52,
    ensures
        keyid_full(pubkey).len() == 52,
        ({
            let hash = sha256(pubkey)@;
            let n = 16 * bit(hash, 5 * i) + 8 * bit(hash, 5 * i + 1) + 4 * bit(hash, 5 * i + 2) + 2
                * bit(hash, 5 * i + 3) + bit(hash, 5 * i + 4);
            keyid_full(pubkey)[i] == "abcdefghijklmnopqrstuvwxyz234567"@[n]
        }),
{
    reveal_strlit("abcdefghijklmnopqrstuvwxyz234567");
    lemma_keyid_full(pubkey);
    lemma_quintet_range(sha256(pubkey)@, i);
}

/// A keyid has the length that was asked for, up to the 52 characters that there are, and is the
/// beginning of the whole keyid.
pub proof fn law_keyid_has_the_length_asked_for(pubkey: Seq<u8>, len: nat)
    ensures
        len <= 52 ==> keyid_of(pubkey, len).len() == len,
        len > 52 ==> keyid_of(pubkey, len) == keyid_full(pubkey),
        keyid_of(pubkey, len).is_prefix_of(keyid_full(pubkey)),
{
    lemma_keyid_full(pubkey);
}

/// A keyid belongs to a key if and only if it is what the key has at its length.
pub proof fn law_keyid_matches_at_its_length(keyid: Seq<char>, pubkey: Seq<u8>)
    ensures
        keyid_matches(keyid, pubkey) <==> keyid.len() <= 52 && keyid == keyid_full(pubkey).take(
            keyid.len() as int,
        ),
        keyid_matches(keyid, pubkey) ==> keyid == keyid_of(pubkey, keyid.len()),
{
    lemma_keyid_full(pubkey);
}

proof fn lemma_suffix_label(head: Seq<char>)
    ensures
        head + ".minecraft"@ == head + seq!['.'] + SUFFIX@,
        split_at(head + ".minecraft"@, '.') == split_at(head, '.').push(SUFFIX@),
        split_at("minecraft"@, '.') == seq!["minecraft"@],
        SUFFIX@ == "minecraft"@,
{
    reveal_strlit(".minecraft");
    reveal_strlit("minecraft");
    assert(head + ".minecraft"@ =~= head + seq!['.'] + SUFFIX@);
    assert(is_base32_text(SUFFIX@));
    lemma_no_dot(SUFFIX@);
    lemma_split_last(head, '.', SUFFIX@);
    lemma_split_single(SUFFIX@, '.');
}

proof fn lemma_two_labels(v: Seq<char>, k: Seq<char>)
    requires
        !v.contains('.'),
        !k.contains('.'),
    ensures
        split_at(v + seq!['.'] + k, '.') == seq![v, k],
{
    lemma_split_last(v, '.', k);
    lemma_split_single(v, '.');
    assert(seq![v].push(k) =~= seq![v, k]);
}

/// Whatever parses is the name that was typed, and each name parses that keeps to the rules: the
/// text, trimmed and in lower case, is the vanity label, the keyid and the suffix with dots
/// between them, or the keyid and the suffix if there is no vanity label.
pub proof fn law_parsed_name_is_the_typed_one(input: Seq<char>, name: NameModel)
    ensures
        parsed_name(input) == Ok::<NameModel, CoreError>(name) <==> {
            let typed = lowered(trimmed(input));
            &&& typed == name.vanity + seq!['.'] + name.keyid + ".minecraft"@ || (name.vanity.len()
                == 0 && typed == name.keyid + ".minecraft"@)
            &&& name.vanity.len() <= 8
            &&& 16 <= name.keyid.len() <= 52
            &&& forall|i: int|
                0 <= i < name.vanity.len() ==> ('a' <= #[trigger] name.vanity[i] <= 'z' || '2'
                    <= name.vanity[i] <= '7')
            &&& forall|i: int|
                0 <= i < name.keyid.len() ==> ('a' <= #[trigger] name.keyid[i] <= 'z' || '2'
                    <= name.keyid[i] <= '7')
        },
{
    let typed = lowered(trimmed(input));
    let labels = split_at(typed, '.');
    law_split_parts_join_back(typed, '.');
    lemma_split_nonempty(typed, '.');
    lemma_suffix_label(name.keyid);
    lemma_suffix_label(name.vanity + seq!['.'] + name.keyid);
    if parsed_name(input) == Ok::<NameModel, CoreError>(name) {
        law_parsed_name_is_valid(input);
        assert forall|i: int| 0 <= i < name.vanity.len() implies ('a' <= #[trigger] name.vanity[i]
            <= 'z' || '2' <= name.vanity[i] <= '7') by {
            assert(is_base32_char(name.vanity[i]));
        }
        assert forall|i: int| 0 <= i < name.keyid.len() implies ('a' <= #[trigger] name.keyid[i]
            <= 'z' || '2' <= name.keyid[i] <= '7') by {
            assert(is_base32_char(name.keyid[i]));
        }
        let rest = labels.drop_last();
        assert(labels =~= rest.push(SUFFIX@));
        law_joining_appends(rest, SUFFIX@, seq!['.']);
        if rest.len() == 1 {
            assert(rest =~= seq![rest[0]]);
        } else {
            assert(rest =~= seq![rest[0]].push(rest[1]));
            law_joining_appends(seq![rest[0]], rest[1], seq!['.']);
        }
        assert(typed == name.vanity + seq!['.'] + name.keyid + ".minecraft"@ || (name.vanity.len()
            == 0 && typed == name.keyid + ".minecraft"@));
    }
    if (typed == name.vanity + seq!['.'] + name.keyid + ".minecraft"@ || (name.vanity.len() == 0
        && typed == name.keyid + ".minecraft"@)) && name.vanity.len() <= 8 && 16 <= name.keyid.len()
        <= 52 && (forall|i: int|
        0 <= i < name.vanity.len() ==> ('a' <= #[trigger] name.vanity[i] <= 'z' || '2'
            <= name.vanity[i] <= '7')) && (forall|i: int|
        0 <= i < name.keyid.len() ==> ('a' <= #[trigger] name.keyid[i] <= 'z' || '2'
            <= name.keyid[i] <= '7')) {
        assert(is_base32_text(name.vanity));
        assert(is_base32_text(name.keyid));
        lemma_no_dot(name.vanity);
        lemma_no_dot(name.keyid);
        lemma_base32_bytes(name.vanity);
        lemma_base32_bytes(name.keyid);
        lemma_two_labels(name.vanity, name.keyid);
        lemma_split_single(name.keyid, '.');
        if typed == name.vanity + seq!['.'] + name.keyid + ".minecraft"@ {
            assert(labels.drop_last() =~= seq![name.vanity, name.keyid]);
        } else {
            assert(labels.drop_last() =~= seq![name.keyid]);
            assert(name.vanity =~= Seq::empty());
        }
    }
}

/// A text that does not end in the suffix as a label of its own is refused for that, and no
/// other is.
pub proof fn law_wrong_suffix_is_refused(input: Seq<char>)
    ensures
        (parsed_name(input) matches Err(CoreError::BadSuffix(_))) <==> {
            let typed = lowered(trimmed(input));
            &&& typed != "minecraft"@
            &&& forall|head: Seq<char>| typed != #[trigger] (head + ".minecraft"@)
        },
        parsed_name(input) matches Err(CoreError::BadSuffix(suffix)) ==> suffix@ == "minecraft"@,
{
    let typed = lowered(trimmed(input));
    let labels = split_at(typed, '.');
    law_split_parts_join_back(typed, '.');
    lemma_split_nonempty(typed, '.');
    lemma_suffix_label(Seq::empty());
    let rest = labels.drop_last();
    if labels.last() == SUFFIX@ {
        assert(labels =~= rest.push(SUFFIX@));
        if rest.len() == 0 {
            assert(labels =~= seq![SUFFIX@]);
            assert(typed == "minecraft"@);
        } else {
            law_joining_appends(rest, SUFFIX@, seq!['.']);
            let head = joined(rest, seq!['.']);
            lemma_suffix_label(head);
            assert(typed == head + ".minecraft"@);
        }
        if rest.len() == 1 {
            assert(keyid_objection(rest[0]) matches Some(CoreError::BadSuffix(_)) ==> false);
        }
    } else {
        assert forall|head: Seq<char>| typed != #[trigger] (head + ".minecraft"@) by {
            if typed == head + ".minecraft"@ {
                lemma_suffix_label(head);
                assert(labels.last() == SUFFIX@);
            }
        }
    }
}

/// A keyid label that is empty, too short, too long or in other characters is refused, and the
/// first of these that holds is named. Lengths are counted in bytes.
pub proof fn law_bad_keyid_is_refused(input: Seq<char>, vanity: Seq<char>, keyid: Seq<char>)
    requires
        ({
            let typed = lowered(trimmed(input));
            ||| typed == keyid + ".minecraft"@
            ||| typed == vanity + seq!['.'] + keyid + ".minecraft"@
        }),
        !keyid.contains('.'),
        vanity.len() <= 8,
        forall|i: int|
            0 <= i < vanity.len() ==> ('a' <= #[trigger] vanity[i] <= 'z' || '2' <= vanity[i]
                <= '7'),
    ensures
        keyid.len() == 0 ==> parsed_name(input) == Err::<NameModel, CoreError>(
            CoreError::EmptyLabel,
        ),
        keyid.len() > 0 && !(16 <= encode_utf8(keyid).len() <= 52) ==> (parsed_name(input) matches Err(
            CoreError::KeyidLen { len, min, max },
        ) && len == encode_utf8(keyid).len() as usize && min == 16 && max == 52),
        16 <= encode_utf8(keyid).len() <= 52 && keyid.len() > 0 && !(forall|i: int|
            0 <= i < keyid.len() ==> ('a' <= #[trigger] keyid[i] <= 'z' || '2' <= keyid[i] <= '7'))
            ==> parsed_name(input) == Err::<NameModel, CoreError>(CoreError::KeyidCharset),
{
    let typed = lowered(trimmed(input));
    let labels = split_at(typed, '.');
    assert(is_base32_text(vanity));
    lemma_no_dot(vanity);
    lemma_base32_bytes(vanity);
    lemma_split_single(keyid, '.');
    lemma_two_labels(vanity, keyid);
    lemma_suffix_label(keyid);
    lemma_suffix_label(vanity + seq!['.'] + keyid);
    if typed == keyid + ".minecraft"@ {
        assert(labels.drop_last() =~= seq![keyid]);
    } else {
        assert(labels.drop_last() =~= seq![vanity, keyid]);
    }
    assert(is_base32_text(keyid) <==> forall|i: int|
        0 <= i < keyid.len() ==> ('a' <= #[trigger] keyid[i] <= 'z' || '2' <= keyid[i] <= '7'))
        by {
        if is_base32_text(keyid) {
            assert forall|i: int| 0 <= i < keyid.len() implies ('a' <= #[trigger] keyid[i] <= 'z'
                || '2' <= keyid[i] <= '7') by {
                assert(is_base32_char(keyid[i]));
            }
        }
    }
}

/// A vanity label that is too long or in other characters is refused before the keyid is looked
/// at, and so is anything with more labels. The suffix alone is no name.
pub proof fn law_bad_labels_are_refused(
    input: Seq<char>,
    vanity: Seq<char>,
    keyid: Seq<char>,
    more: Seq<char>,
)
    ensures
        ({
            let typed = lowered(trimmed(input));
            let two = typed == vanity + seq!['.'] + keyid + ".minecraft"@ && !vanity.contains('.')
                && !keyid.contains('.');
            &&& two && encode_utf8(vanity).len() > 8 && vanity.len() > 0 ==> (parsed_name(input)
                matches Err(CoreError::VanityTooLong(len)) && len == encode_utf8(
                vanity,
            ).len() as usize)
            &&& two && encode_utf8(vanity).len() <= 8 && !(forall|i: int|
                0 <= i < vanity.len() ==> ('a' <= #[trigger] vanity[i] <= 'z' || '2' <= vanity[i]
                    <= '7')) ==> parsed_name(input) == Err::<NameModel, CoreError>(
                CoreError::VanityCharset,
            )
            &&& typed == more + seq!['.'] + vanity + seq!['.'] + keyid + ".minecraft"@
                ==> parsed_name(input) == Err::<NameModel, CoreError>(CoreError::TooManyLabels)
            &&& typed == "minecraft"@ ==> parsed_name(input) == Err::<NameModel, CoreError>(
                CoreError::EmptyLabel,
            )
        }),
{
    let typed = lowered(trimmed(input));
    let labels = split_at(typed, '.');
    let head = more + seq!['.'] + vanity + seq!['.'] + keyid;
    lemma_suffix_label(vanity + seq!['.'] + keyid);
    lemma_suffix_label(head);
    if typed == vanity + seq!['.'] + keyid + ".minecraft"@ && !vanity.contains('.')
        && !keyid.contains('.') {
        lemma_two_labels(vanity, keyid);
        assert(labels.drop_last() =~= seq![vanity, keyid]);
        if is_base32_text(vanity) {
            assert forall|i: int| 0 <= i < vanity.len() implies ('a' <= #[trigger] vanity[i] <= 'z'
                || '2' <= vanity[i] <= '7') by {
                assert(is_base32_char(vanity[i]));
            }
        }
    }
    if typed == head + ".minecraft"@ {
        lemma_dots_make_labels(more, vanity + seq!['.'] + keyid);
        lemma_dots_make_labels(vanity, keyid);
        assert(head =~= more + seq!['.'] + (vanity + seq!['.'] + keyid));
        assert(labels.drop_last() =~= split_at(head, '.'));
    }
    if typed == "minecraft"@ {
        assert(labels.drop_last() =~= Seq::empty());
    }
}

/// A separator more makes a part more.
proof fn lemma_dots_make_labels(a: Seq<char>, b: Seq<char>)
    ensures
        split_at(a + seq!['.'] + b, '.').len() == split_at(a, '.').len() + split_at(b, '.').len(),
        split_at(a, '.').len() >= 1,
        split_at(b, '.').len() >= 1,
    decreases b.len(),
{
    lemma_split_nonempty(a, '.');
    lemma_split_nonempty(b, '.');
    let s = a + seq!['.'] + b;
    if b.len() == 0 {
        assert(s.drop_last() =~= a);
    } else {
        lemma_dots_make_labels(a, b.drop_last());
        assert(s.drop_last() =~= a + seq!['.'] + b.drop_last());
    }
}

/// A name is typed as its labels and the suffix, with dots between them.
pub proof fn law_typed_form_of_a_name(name: NameModel)
    ensures
        name.vanity.len() == 0 ==> name.text() == name.keyid + ".minecraft"@,
        name.vanity.len() > 0 ==> name.text() == name.vanity + seq!['.'] + name.keyid
            + ".minecraft"@,
        name.valid() <==> {
            &&& name.vanity.len() <= 8
            &&& 16 <= name.keyid.len() <= 52
            &&& forall|i: int| 0 <= i < name.vanity.len() ==> is_base32_char(#[trigger] name.vanity[i])
            &&& forall|i: int| 0 <= i < name.keyid.len() ==> is_base32_char(#[trigger] name.keyid[i])
        },
{
    lemma_suffix_label(name.keyid);
    lemma_suffix_label(name.vanity + seq!['.'] + name.keyid);
}

/// A keyid length is accepted if and only if it is between 16 and 52, and a vanity label if and
/// only if it has at most eight of the characters of names.
pub proof fn law_label_limits(len: nat, vanity: Seq<char>)
    ensures
        keyid_len_objection(len) is None <==> 16 <= len <= 52,
        keyid_len_objection(len) matches Some(e) ==> (e matches CoreError::KeyidLen {
            len: n,
            min,
            max,
        } && n == len as usize && min == 16 && max == 52),
        vanity_objection(vanity) is None <==> vanity.len() <= 8 && (forall|i: int|
            0 <= i < vanity.len() ==> ('a' <= #[trigger] vanity[i] <= 'z' || '2' <= vanity[i]
                <= '7')),
{
    if vanity_objection(vanity) is None {
        lemma_vanity_valid(vanity);
        assert forall|i: int| 0 <= i < vanity.len() implies ('a' <= #[trigger] vanity[i] <= 'z' || '2'
            <= vanity[i] <= '7') by {
            assert(is_base32_char(vanity[i]));
        }
    }
    if vanity.len() <= 8 && (forall|i: int|
        0 <= i < vanity.len() ==> ('a' <= #[trigger] vanity[i] <= 'z' || '2' <= vanity[i] <= '7')) {
        assert(is_base32_text(vanity));
        lemma_base32_bytes(vanity);
    }
}

} // verus!
