//! CBOR: how maps and the names of fields are read, and how values are written. Values of each
//! type are read and written by `ciborium`; the frame of a record, which fields it has and in
//! which form their names may come, is read here.

use crate::text::{debug_quoted, decimal, decimal_of, quoted, texts};
use ciborium::de::{from_reader_with_recursion_limit, Error};
use serde::de::IgnoredAny;
use serde_bytes::{ByteArray, Bytes};
use std::collections::BTreeMap;
use vstd::prelude::*;
use vstd::slice::slice_subrange;
use vstd::string::*;
use vstd::utf8::{encode_utf8, valid_utf8};

verus! {

// ---------------------------------------------------------------------------
// Faults
// ---------------------------------------------------------------------------

/// What is wrong with bytes that cannot be read.
pub enum Fault {
    /// The bytes end too early.
    Io(Seq<char>),
    /// There is no item at this place.
    Syntax(usize),
    /// An item is not what was expected.
    Semantic(Option<usize>, Seq<char>),
    /// Items are nested too deep.
    TooDeep,
}

impl Fault {
    /// The words of the fault.
    pub open spec fn words(self) -> Seq<char> {
        match self {
            Fault::Io(why) => "Io("@ + why + ")"@,
            Fault::Syntax(at) => "Syntax("@ + decimal(at as nat) + ")"@,
            Fault::Semantic(None, why) => "Semantic(None, "@ + quoted(why) + ")"@,
            Fault::Semantic(Some(at), why) => "Semantic(Some("@ + decimal(at as nat) + "), "@
                + quoted(why) + ")"@,
            Fault::TooDeep => "RecursionLimitExceeded"@,
        }
    }
}

/// A place that was counted from `base`, with `extra` bytes put in front.
pub open spec fn moved(at: usize, base: nat, extra: nat) -> usize {
    let sum: nat = if at + base <= usize::MAX {
        at as nat + base
    } else {
        usize::MAX as nat
    };
    if sum >= extra {
        (sum - extra) as usize
    } else {
        0
    }
}

/// The fault, with places counted from the start of the whole input.
pub open spec fn fault_moved(fault: Fault, base: nat, extra: nat) -> Fault {
    match fault {
        Fault::Syntax(at) => Fault::Syntax(moved(at, base, extra)),
        Fault::Semantic(Some(at), why) => Fault::Semantic(Some(moved(at, base, extra)), why),
        _ => fault,
    }
}

/// A fault of a field.
pub open spec fn field_fault(what: Seq<char>, name: Seq<char>) -> Fault {
    Fault::Semantic(None, what + " field `"@ + name + "`"@)
}

/// What is wrong with bytes that cannot be read.
#[derive(Debug, Clone, PartialEq, Eq)]
pub enum ReadFault {
    Io(String),
    Syntax(usize),
    Semantic(Option<usize>, String),
    TooDeep,
}

impl View for ReadFault {
    type V = Fault;

    open spec fn view(&self) -> Fault {
        match self {
            ReadFault::Io(why) => Fault::Io(why@),
            ReadFault::Syntax(at) => Fault::Syntax(*at),
            ReadFault::Semantic(at, why) => Fault::Semantic(*at, why@),
            ReadFault::TooDeep => Fault::TooDeep,
        }
    }
}

impl ReadFault {
    /// Puts the fault in words.
    pub fn message(&self) -> (text: String)
        ensures
            text@ == self@.words(),
    {
        match self {
            ReadFault::Io(why) => "Io(".to_string().concat(why.as_str()).concat(")"),
            ReadFault::Syntax(at) => "Syntax(".to_string().concat(
                decimal_of(*at as u64).as_str(),
            ).concat(")"),
            ReadFault::Semantic(None, why) => "Semantic(None, ".to_string().concat(
                debug_quoted(why.as_str()).as_str(),
            ).concat(")"),
            ReadFault::Semantic(Some(at), why) => "Semantic(Some(".to_string().concat(
                decimal_of(*at as u64).as_str(),
            ).concat("), ").concat(debug_quoted(why.as_str()).as_str()).concat(")"),
            ReadFault::TooDeep => "RecursionLimitExceeded".to_string(),
        }
    }

    /// Counts places from the start of the whole input.
    pub(crate) fn moved(self, base: usize, extra: usize) -> (fault: ReadFault)
        ensures
            fault@ == fault_moved(self@, base as nat, extra as nat),
    {
        match self {
            ReadFault::Syntax(at) => ReadFault::Syntax(
                at.saturating_add(base).saturating_sub(extra),
            ),
            ReadFault::Semantic(Some(at), why) => ReadFault::Semantic(
                Some(at.saturating_add(base).saturating_sub(extra)),
                why,
            ),
            other => other,
        }
    }

    /// Complains about a field.
    pub(crate) fn of_field(what: &str, name: &str) -> (fault: ReadFault)
        ensures
            fault@ == field_fault(what@, name@),
    {
        ReadFault::Semantic(
            None,
            what.to_string().concat(" field `").concat(name).concat("`"),
        )
    }
}

// ---------------------------------------------------------------------------
// Outside types
// ---------------------------------------------------------------------------

/// `ciborium::de::Error`: why an item could not be read.
#[verifier::external_type_specification]
#[verifier::external_body]
#[verifier::reject_recursive_types(T)]
pub struct ExError<T>(ciborium::de::Error<T>);

/// `std::io::Error`: why bytes could not be had.
#[verifier::external_type_specification]
#[verifier::external_body]
pub struct ExIoError(std::io::Error);

/// What a `ciborium::de::Error` says.
pub uninterp spec fn fault_of(e: ciborium::de::Error<std::io::Error>) -> Fault;

/// Tells the variants of `ciborium::de::Error` apart. Of the error inside `Io` its debugging
/// text is taken.
#[verifier::external_body]
pub(crate) fn open_error(e: Error<std::io::Error>) -> (fault: ReadFault)
    ensures
        fault@ == fault_of(e),
{
    match e {
        Error::Io(why) => ReadFault::Io(format!("{why:?}")),
        Error::Syntax(at) => ReadFault::Syntax(at),
        Error::Semantic(at, why) => ReadFault::Semantic(at, why),
        Error::RecursionLimitExceeded => ReadFault::TooDeep,
    }
}

// ---------------------------------------------------------------------------
// Values, read by ciborium
// ---------------------------------------------------------------------------

/// What `ciborium` reads as a number up to 255, at the start of the bytes and with so
/// many levels of nesting left: the value and the number of bytes behind it, or the fault.
pub uninterp spec fn cbor_u8(bytes: Seq<u8>, levels: nat) -> Result<(u8, nat), Fault>;

/// What `ciborium` reads as a number of at most 32 bits, at the start of the bytes and with so
/// many levels of nesting left: the value and the number of bytes behind it, or the fault.
pub uninterp spec fn cbor_u32(bytes: Seq<u8>, levels: nat) -> Result<(u32, nat), Fault>;

/// What `ciborium` reads as a number of at most 64 bits, at the start of the bytes and with so
/// many levels of nesting left: the value and the number of bytes behind it, or the fault.
pub uninterp spec fn cbor_u64(bytes: Seq<u8>, levels: nat) -> Result<(u64, nat), Fault>;

/// What `ciborium` reads as 32 bytes, with `serde_bytes::ByteArray`, at the start of the bytes
/// and with so many levels of nesting left: the value and the number of bytes behind it, or the
/// fault.
pub uninterp spec fn cbor_array_32(bytes: Seq<u8>, levels: nat) -> Result<([u8; 32], nat), Fault>;

/// What `ciborium` reads as 64 bytes, with `serde_bytes::ByteArray`, at the start of the bytes
/// and with so many levels of nesting left: the value and the number of bytes behind it, or the
/// fault.
pub uninterp spec fn cbor_array_64(bytes: Seq<u8>, levels: nat) -> Result<([u8; 64], nat), Fault>;

/// What `ciborium` reads as a text at the start of the bytes.
pub uninterp spec fn cbor_string(bytes: Seq<u8>, levels: nat) -> Result<(Seq<char>, nat), Fault>;

/// What `ciborium` reads as a list of texts at the start of the bytes.
pub uninterp spec fn cbor_strings(bytes: Seq<u8>, levels: nat) -> Result<
    (Seq<Seq<char>>, nat),
    Fault,
>;

/// What is behind the item, of whatever kind, that `ciborium` skips at the start of the bytes.
pub uninterp spec fn cbor_skipped(bytes: Seq<u8>, levels: nat) -> Result<((), nat), Fault>;

/// The fault that `ciborium` finds in bytes that do not begin with a map, where a map has to be.
pub uninterp spec fn cbor_map_fault(bytes: Seq<u8>) -> Fault;

/// The fault that `ciborium` finds in a map of one entry whose key is no name.
pub uninterp spec fn cbor_name_fault(bytes: Seq<u8>) -> Fault;

/// The outcome of a read.
pub open spec fn outcome<T>(r: Result<(T, usize), Error<std::io::Error>>) -> Result<
    (T, nat),
    Fault,
> {
    match r {
        Ok((value, left)) => Ok((value, left as nat)),
        Err(e) => Err(fault_of(e)),
    }
}

/// The outcome of a read of a text.
pub open spec fn outcome_text(r: Result<(String, usize), Error<std::io::Error>>) -> Result<
    (Seq<char>, nat),
    Fault,
> {
    match r {
        Ok((value, left)) => Ok((value@, left as nat)),
        Err(e) => Err(fault_of(e)),
    }
}

/// The outcome of a read of a list of texts.
pub open spec fn outcome_texts(r: Result<(Vec<String>, usize), Error<std::io::Error>>) -> Result<
    (Seq<Seq<char>>, nat),
    Fault,
> {
    match r {
        Ok((value, left)) => Ok((texts(value@), left as nat)),
        Err(e) => Err(fault_of(e)),
    }
}

/// `ciborium::de::from_reader_with_recursion_limit` for `u8`: the outcome is a function
/// of the bytes and the limit, and no more bytes are left than there were.
#[verifier::external_body]
pub(crate) fn read_u8(bytes: &[u8], levels: usize) -> (r: Result<
    (u8, usize),
    Error<std::io::Error>,
>)
    ensures
        outcome(r) == cbor_u8(bytes@, levels as nat),
        r matches Ok(got) ==> got.1 <= bytes@.len(),
{
    let mut rest = bytes;
    let value: u8 = from_reader_with_recursion_limit(&mut rest, levels)?;
    Ok((value, rest.len()))
}

/// `ciborium::de::from_reader_with_recursion_limit` for `u32`: the outcome is a function
/// of the bytes and the limit, and no more bytes are left than there were.
#[verifier::external_body]
pub(crate) fn read_u32(bytes: &[u8], levels: usize) -> (r: Result<
    (u32, usize),
    Error<std::io::Error>,
>)
    ensures
        outcome(r) == cbor_u32(bytes@, levels as nat),
        r matches Ok(got) ==> got.1 <= bytes@.len(),
{
    let mut rest = bytes;
    let value: u32 = from_reader_with_recursion_limit(&mut rest, levels)?;
    Ok((value, rest.len()))
}

/// `ciborium::de::from_reader_with_recursion_limit` for `u64`: the outcome is a function
/// of the bytes and the limit, and no more bytes are left than there were.
#[verifier::external_body]
pub(crate) fn read_u64(bytes: &[u8], levels: usize) -> (r: Result<
    (u64, usize),
    Error<std::io::Error>,
>)
    ensures
        outcome(r) == cbor_u64(bytes@, levels as nat),
        r matches Ok(got) ==> got.1 <= bytes@.len(),
{
    let mut rest = bytes;
    let value: u64 = from_reader_with_recursion_limit(&mut rest, levels)?;
    Ok((value, rest.len()))
}

/// `ciborium::de::from_reader_with_recursion_limit` for `ByteArray<32>`: the outcome is a function
/// of the bytes and the limit, and no more bytes are left than there were.
#[verifier::external_body]
pub(crate) fn read_array_32(bytes: &[u8], levels: usize) -> (r: Result<
    ([u8; 32], usize),
    Error<std::io::Error>,
>)
    ensures
        outcome(r) == cbor_array_32(bytes@, levels as nat),
        r matches Ok(got) ==> got.1 <= bytes@.len(),
{
    let mut rest = bytes;
    let value: ByteArray<32> = from_reader_with_recursion_limit(&mut rest, levels)?;
    Ok((value.into_array(), rest.len()))
}

/// `ciborium::de::from_reader_with_recursion_limit` for `ByteArray<64>`: the outcome is a function
/// of the bytes and the limit, and no more bytes are left than there were.
#[verifier::external_body]
pub(crate) fn read_array_64(bytes: &[u8], levels: usize) -> (r: Result<
    ([u8; 64], usize),
    Error<std::io::Error>,
>)
    ensures
        outcome(r) == cbor_array_64(bytes@, levels as nat),
        r matches Ok(got) ==> got.1 <= bytes@.len(),
{
    let mut rest = bytes;
    let value: ByteArray<64> = from_reader_with_recursion_limit(&mut rest, levels)?;
    Ok((value.into_array(), rest.len()))
}

/// `ciborium::de::from_reader_with_recursion_limit` for `String`: the outcome is a function
/// of the bytes and the limit, and no more bytes are left than there were.
#[verifier::external_body]
pub(crate) fn read_string(bytes: &[u8], levels: usize) -> (r: Result<
    (String, usize),
    Error<std::io::Error>,
>)
    ensures
        outcome_text(r) == cbor_string(bytes@, levels as nat),
        r matches Ok(got) ==> got.1 <= bytes@.len(),
{
    let mut rest = bytes;
    let value: String = from_reader_with_recursion_limit(&mut rest, levels)?;
    Ok((value, rest.len()))
}

/// `ciborium::de::from_reader_with_recursion_limit` for `Vec<String>`: the outcome is a function
/// of the bytes and the limit, and no more bytes are left than there were.
#[verifier::external_body]
pub(crate) fn read_strings(bytes: &[u8], levels: usize) -> (r: Result<
    (Vec<String>, usize),
    Error<std::io::Error>,
>)
    ensures
        outcome_texts(r) == cbor_strings(bytes@, levels as nat),
        r matches Ok(got) ==> got.1 <= bytes@.len(),
{
    let mut rest = bytes;
    let value: Vec<String> = from_reader_with_recursion_limit(&mut rest, levels)?;
    Ok((value, rest.len()))
}

/// `ciborium::de::from_reader_with_recursion_limit` for `serde::de::IgnoredAny`, which takes an
/// item of any kind: the outcome is a function of the bytes and the limit, and no more bytes are
/// left than there were. A limit that is too high could exhaust the stack.
#[verifier::external_body]
pub(crate) fn skip_item(bytes: &[u8], levels: usize) -> (r: Result<
    ((), usize),
    Error<std::io::Error>,
>)
    requires
        levels <= MAX_LEVELS,
    ensures
        outcome(r) == cbor_skipped(bytes@, levels as nat),
        r matches Ok(got) ==> got.1 <= bytes@.len(),
{
    let mut rest = bytes;
    let _: IgnoredAny = from_reader_with_recursion_limit(&mut rest, levels)?;
    Ok(((), rest.len()))
}

// ---------------------------------------------------------------------------
// Heads
// ---------------------------------------------------------------------------

/// The number that big-endian bytes stand for.
pub open spec fn be_number(bytes: Seq<u8>) -> nat
    decreases bytes.len(),
{
    if bytes.len() == 0 {
        0
    } else {
        be_number(bytes.drop_last()) * 256 + bytes.last() as nat
    }
}

/// How an item begins: its kind, its number if it has one, and how many bytes that takes.
pub struct Head {
    pub major: nat,
    pub arg: Option<nat>,
    pub len: nat,
}

pub const MAJOR_BYTES: u8 = 2;

pub const MAJOR_TEXT: u8 = 3;

pub const MAJOR_MAP: u8 = 5;

pub const MAJOR_TAG: u8 = 6;

/// The byte that ends a map of unknown length.
pub const BREAK: u8 = 0xff;

/// Most levels of nesting that an item is read with.
pub const MAX_LEVELS: usize = 256;

/// Longest name of a field that is looked at.
pub const MAX_NAME_BYTES: usize = 4096;

/// How many bytes the number in a head takes, by the lower five bits of its first byte.
pub open spec fn arg_len(info: nat) -> Option<nat> {
    if info < 24 || info == 31 {
        Some(0)
    } else if info == 24 {
        Some(1)
    } else if info == 25 {
        Some(2)
    } else if info == 26 {
        Some(4)
    } else if info == 27 {
        Some(8)
    } else {
        None
    }
}

/// The head at the start of the bytes, if there is a whole one.
pub open spec fn head_of(b: Seq<u8>) -> Option<Head> {
    if b.len() == 0 {
        None
    } else {
        let info = b[0] as nat % 32;
        match arg_len(info) {
            None => None,
            Some(n) => if b.len() < 1 + n {
                None
            } else {
                Some(
                    Head {
                        major: b[0] as nat / 32,
                        arg: if info < 24 {
                            Some(info)
                        } else if info == 31 {
                            None
                        } else {
                            Some(be_number(b.subrange(1, (1 + n) as int)))
                        },
                        len: 1 + n,
                    },
                )
            },
        }
    }
}

/// The bytes behind all tags at the start.
pub open spec fn without_tags(b: Seq<u8>) -> Seq<u8>
    decreases b.len(),
{
    match head_of(b) {
        Some(h) => if h.major == MAJOR_TAG && h.arg is Some {
            without_tags(b.skip(h.len as int))
        } else {
            b
        },
        None => b,
    }
}

/// The map at the start of the bytes, if there is one: its number of entries, unless it is
/// ended by a mark, and the bytes of the entries.
pub open spec fn map_at(b: Seq<u8>) -> Option<(Option<nat>, Seq<u8>)> {
    let t = without_tags(b);
    match head_of(t) {
        Some(h) => if h.major == MAJOR_MAP && (h.arg matches Some(n) ==> n <= usize::MAX) {
            Some((h.arg, t.skip(h.len as int)))
        } else {
            None
        },
        None => None,
    }
}

/// What stands where the name of a field has to be.
pub enum NameAt {
    /// A name, and the bytes behind it.
    Name(Seq<u8>, Seq<u8>),
    /// A text that is no UTF-8, in the bytes given. Its head takes so many bytes more than it
    /// needs to.
    NoUtf8(Seq<u8>, nat),
    /// Something else.
    Other,
}

/// How many bytes a head with the number takes at least.
pub open spec fn least_head_len(n: nat) -> nat {
    if n < 24 {
        1
    } else if n < 0x100 {
        2
    } else {
        3
    }
}

/// The name at the start of the bytes. It is a text or a byte string of known length.
pub open spec fn name_at(b: Seq<u8>) -> NameAt {
    let t = without_tags(b);
    match head_of(t) {
        Some(h) => match h.arg {
            Some(n) => if (h.major == MAJOR_TEXT || h.major == MAJOR_BYTES) && n <= MAX_NAME_BYTES
                && h.len + n <= t.len() {
                let content = t.subrange(h.len as int, (h.len + n) as int);
                if h.major == MAJOR_TEXT && !valid_utf8(content) {
                    NameAt::NoUtf8(t, (h.len - least_head_len(n)) as nat)
                } else {
                    NameAt::Name(content, t.skip((h.len + n) as int))
                }
            } else {
                NameAt::Other
            },
            None => NameAt::Other,
        },
        None => NameAt::Other,
    }
}

/// What comes next in a map.
pub enum Next {
    /// The map is over; the bytes behind it.
    End(Seq<u8>),
    /// A name, and the bytes behind it.
    Name(Seq<u8>, Seq<u8>),
    /// No name.
    Fault(Fault),
}

/// What comes next in a map with so many entries to come, in an input of `total` bytes of which
/// `b` is left. In a map that is ended by a mark, the first head of an entry is looked at twice;
/// a place in it is then counted as if the head took no more bytes than it needs to.
pub open spec fn next_in_map(total: nat, count: Option<nat>, b: Seq<u8>) -> Next {
    if count == Some(0nat) {
        Next::End(b)
    } else if count is None && b.len() > 0 && b[0] == BREAK {
        Next::End(b.skip(1))
    } else {
        match name_at(b) {
            NameAt::Name(name, rest) => Next::Name(name, rest),
            NameAt::NoUtf8(t, slack) => Next::Fault(
                Fault::Syntax(
                    (total - t.len() + (if count is None && t.len() == b.len() {
                        slack as int
                    } else {
                        0
                    })) as usize,
                ),
            ),
            NameAt::Other => Next::Fault(
                fault_moved(
                    cbor_name_fault(seq![0xa1u8] + b),
                    (total - b.len()) as nat,
                    1,
                ),
            ),
        }
    }
}

/// A head.
struct HeadAt {
    major: u8,
    arg: Option<u64>,
    len: usize,
}

/// The number that the bytes from `from` to `to` stand for.
fn number_at(bytes: &[u8], from: usize, to: usize) -> (n: u64)
    requires
        from <= to <= bytes@.len(),
        to - from <= 8,
    ensures
        n == be_number(bytes@.subrange(from as int, to as int)),
{
    let mut n: u64 = 0;
    let mut i: usize = from;
    let ghost mut bound: nat = 1;
    let ghost all = bytes@.subrange(from as int, to as int);
    assert(all.take(0) =~= Seq::empty());
    while i < to
        invariant
            from <= i <= to <= bytes@.len(),
            to - from <= 8,
            all == bytes@.subrange(from as int, to as int),
            n == be_number(all.take(i - from)),
            n < bound,
            bound == pow256((i - from) as nat),
        decreases to - i,
    {
        proof {
            lemma_pow256((i - from) as nat);
            assert(all.take(i + 1 - from).drop_last() =~= all.take(i - from));
            assert(all.take(i + 1 - from).last() == bytes@[i as int]);
        }
        n = n * 256 + bytes[i] as u64;
        proof {
            bound = bound * 256;
        }
        i += 1;
    }
    assert(all.take(all.len() as int) =~= all);
    n
}

/// 256 to the power of `n`.
spec fn pow256(n: nat) -> nat
    decreases n,
{
    if n == 0 {
        1
    } else {
        pow256((n - 1) as nat) * 256
    }
}

proof fn lemma_pow256(n: nat)
    requires
        n < 8,
    ensures
        pow256(n) * 256 <= 0x1_0000_0000_0000_0000,
        pow256(n + 1) == pow256(n) * 256,
{
    reveal_with_fuel(pow256, 9);
}

/// The head at a place.
fn head_at(bytes: &[u8], pos: usize) -> (head: Option<HeadAt>)
    requires
        pos <= bytes@.len(),
    ensures
        match head {
            Some(h) => head_of(bytes@.skip(pos as int)) matches Some(want) && want.major == h.major
                && want.len == h.len && h.len >= 1 && pos + h.len <= bytes@.len() <= usize::MAX && (
            match h.arg {
                Some(n) => want.arg == Some(n as nat),
                None => want.arg is None,
            }),
            None => head_of(bytes@.skip(pos as int)) is None,
        },
{
    let ghost b = bytes@.skip(pos as int);
    if pos == bytes.len() {
        return None;
    }
    let first: u8 = bytes[pos];
    assert(b[0] == first);
    let info: u8 = first % 32;
    let major: u8 = first / 32;
    let n: usize = if info < 24 || info == 31 {
        0
    } else if info == 24 {
        1
    } else if info == 25 {
        2
    } else if info == 26 {
        4
    } else if info == 27 {
        8
    } else {
        return None;
    };
    if bytes.len() - pos < 1 + n {
        return None;
    }
    let arg: Option<u64> = if info < 24 {
        Some(info as u64)
    } else if info == 31 {
        None
    } else {
        assert(b.subrange(1, 1 + n) =~= bytes@.subrange(pos + 1, pos + 1 + n));
        Some(number_at(bytes, pos + 1, pos + 1 + n))
    };
    Some(HeadAt { major, arg, len: 1 + n })
}

/// The place behind all tags.
fn skip_tags(bytes: &[u8], pos: usize) -> (after: usize)
    requires
        pos <= bytes@.len(),
    ensures
        pos <= after <= bytes@.len(),
        bytes@.skip(after as int) == without_tags(bytes@.skip(pos as int)),
{
    let mut i: usize = pos;
    loop
        invariant
            pos <= i <= bytes@.len(),
            without_tags(bytes@.skip(i as int)) == without_tags(bytes@.skip(pos as int)),
        ensures
            pos <= i <= bytes@.len(),
            bytes@.skip(i as int) == without_tags(bytes@.skip(pos as int)),
        decreases bytes@.len() - i,
    {
        match head_at(bytes, i) {
            Some(h) => {
                if h.major == MAJOR_TAG && h.arg.is_some() {
                    assert(bytes@.skip(i as int).skip(h.len as int) =~= bytes@.skip(i + h.len));
                    i = i + h.len;
                } else {
                    break;
                }
            },
            None => {
                break;
            },
        }
    }
    i
}

/// The map at a place: its number of entries and where they begin.
pub(crate) fn find_map(bytes: &[u8], pos: usize) -> (map: Option<(Option<usize>, usize)>)
    requires
        pos <= bytes@.len(),
    ensures
        match map {
            Some((count, at)) => pos < at <= bytes@.len() && map_at(bytes@.skip(pos as int))
                == Some((count_of(count), bytes@.skip(at as int))),
            None => map_at(bytes@.skip(pos as int)) is None,
        },
{
    let t: usize = skip_tags(bytes, pos);
    match head_at(bytes, t) {
        Some(h) => if h.major == MAJOR_MAP {
            assert(bytes@.skip(t as int).skip(h.len as int) =~= bytes@.skip(t + h.len));
            match h.arg {
                Some(n) => if n <= usize::MAX as u64 {
                    Some((Some(n as usize), t + h.len))
                } else {
                    None
                },
                None => Some((None, t + h.len)),
            }
        } else {
            None
        },
        None => None,
    }
}

/// A number of entries.
pub open spec fn count_of(count: Option<usize>) -> Option<nat> {
    match count {
        Some(n) => Some(n as nat),
        None => None,
    }
}

/// `core::str::from_utf8`: whether the bytes are UTF-8.
#[verifier::external_body]
fn is_utf8(bytes: &[u8]) -> (yes: bool)
    ensures
        yes == valid_utf8(bytes@),
{
    core::str::from_utf8(bytes).is_ok()
}

/// `ciborium::from_reader` for a `BTreeMap`, of bytes that do not begin with a map: it fails
/// before it looks at any entry, and the fault is a function of the bytes.
#[verifier::external_body]
pub(crate) fn refuse_map(bytes: &[u8]) -> (e: Error<std::io::Error>)
    requires
        map_at(bytes@) is None,
    ensures
        fault_of(e) == cbor_map_fault(bytes@),
{
    ciborium::from_reader::<BTreeMap<String, String>, _>(bytes).expect_err("this is no map")
}

/// `ciborium::from_reader` for a `Result`, which is written as a map of one entry whose key is
/// the name of a variant, of bytes in which that key is no name: it fails at the key, and the
/// fault is a function of the bytes.
#[verifier::external_body]
fn refuse_name(bytes: &[u8]) -> (e: Error<std::io::Error>)
    requires
        bytes@.len() > 0,
        bytes@[0] == 0xa1,
        name_at(bytes@.skip(1)) is Other,
    ensures
        fault_of(e) == cbor_name_fault(bytes@),
{
    ciborium::from_reader::<Result<IgnoredAny, IgnoredAny>, _>(bytes).expect_err("this is no name")
}

/// What comes next in a map.
pub(crate) enum NextAt {
    /// The map is over; the place behind it.
    End(usize),
    /// A name from one place to another, which is also where the value begins.
    Name(usize, usize),
    /// No name.
    Fault(ReadFault),
}

/// What comes next at a place in a map.
#[verifier::rlimit(40)]
pub(crate) fn next_at(bytes: &[u8], count: Option<usize>, pos: usize) -> (next: NextAt)
    requires
        pos <= bytes@.len(),
    ensures
        match next {
            NextAt::End(at) => pos <= at <= bytes@.len() && next_in_map(
                bytes@.len(),
                count_of(count),
                bytes@.skip(pos as int),
            ) == Next::End(bytes@.skip(at as int)),
            NextAt::Name(from, to) => pos < to <= bytes@.len() && from <= to && next_in_map(
                bytes@.len(),
                count_of(count),
                bytes@.skip(pos as int),
            ) == Next::Name(bytes@.subrange(from as int, to as int), bytes@.skip(to as int)),
            NextAt::Fault(f) => next_in_map(
                bytes@.len(),
                count_of(count),
                bytes@.skip(pos as int),
            ) == Next::Fault(f@),
        },
{
    let ghost b = bytes@.skip(pos as int);
    match count {
        Some(n) => {
            if n == 0 {
                return NextAt::End(pos);
            }
        },
        None => {
            if pos < bytes.len() && bytes[pos] == BREAK {
                assert(b[0] == BREAK);
                assert(b.skip(1) =~= bytes@.skip(pos + 1));
                return NextAt::End(pos + 1);
            }
        },
    }
    let t: usize = skip_tags(bytes, pos);
    let ghost tb = bytes@.skip(t as int);
    if let Some(h) = head_at(bytes, t) {
        if h.major == MAJOR_TEXT || h.major == MAJOR_BYTES {
            if let Some(n) = h.arg {
                let from: usize = t + h.len;
                if n <= MAX_NAME_BYTES as u64 && n <= (bytes.len() - from) as u64 {
                    let to: usize = from + n as usize;
                    assert(tb.subrange(h.len as int, (h.len + n) as int) =~= bytes@.subrange(
                        from as int,
                        to as int,
                    ));
                    assert(tb.skip((h.len + n) as int) =~= bytes@.skip(to as int));
                    if h.major == MAJOR_TEXT && !is_utf8(slice_subrange(bytes, from, to)) {
                        let least: usize = if n < 24 {
                            1
                        } else if n < 0x100 {
                            2
                        } else {
                            3
                        };
                        proof {
                            lemma_head_len(tb);
                        }
                        let slack: usize = if count.is_none() && t == pos {
                            h.len - least
                        } else {
                            0
                        };
                        return NextAt::Fault(ReadFault::Syntax(t + slack));
                    }
                    return NextAt::Name(from, to);
                }
            }
        }
    }
    assert(name_at(b) is Other);
    let mut one: Vec<u8> = Vec::new();
    one.push(0xa1);
    one.extend_from_slice(slice_subrange(bytes, pos, bytes.len()));
    assert(bytes@.subrange(pos as int, bytes@.len() as int) =~= b);
    assert(one@ =~= seq![0xa1u8] + b);
    assert(one@.skip(1) =~= b);
    NextAt::Fault(open_error(refuse_name(one.as_slice())).moved(pos, 1))
}

/// A head takes no fewer bytes than its number needs.
proof fn lemma_head_len(b: Seq<u8>)
    requires
        head_of(b) matches Some(h) && h.arg is Some,
    ensures
        head_of(b)->0.len >= least_head_len(head_of(b)->0.arg->0),
{
    let h = head_of(b)->0;
    let part = b.subrange(1, h.len as int);
    if h.len == 2 {
        assert(part.drop_last() =~= Seq::empty());
        assert(be_number(part.drop_last()) == 0);
    }
}

// ---------------------------------------------------------------------------
// Values, written by ciborium
// ---------------------------------------------------------------------------

/// The lowest `k` bytes of a number, the highest first.
pub open spec fn be_bytes(n: nat, k: nat) -> Seq<u8>
    decreases k,
{
    if k == 0 {
        Seq::empty()
    } else {
        be_bytes(n / 256, (k - 1) as nat).push((n % 256) as u8)
    }
}

/// The shortest head of the kind with the number.
pub open spec fn head_bytes(major: u8, n: nat) -> Seq<u8> {
    if n < 24 {
        seq![(major * 32 + n) as u8]
    } else if n < 0x100 {
        seq![(major * 32 + 24) as u8] + be_bytes(n, 1)
    } else if n < 0x1_0000 {
        seq![(major * 32 + 25) as u8] + be_bytes(n, 2)
    } else if n < 0x1_0000_0000 {
        seq![(major * 32 + 26) as u8] + be_bytes(n, 4)
    } else {
        seq![(major * 32 + 27) as u8] + be_bytes(n, 8)
    }
}

/// A number as it is written.
pub open spec fn written_uint(n: nat) -> Seq<u8> {
    head_bytes(0, n)
}

/// A byte string as it is written.
pub open spec fn written_bytes(b: Seq<u8>) -> Seq<u8> {
    head_bytes(MAJOR_BYTES, b.len()) + b
}

/// A text as it is written.
pub open spec fn written_text(t: Seq<char>) -> Seq<u8> {
    head_bytes(MAJOR_TEXT, encode_utf8(t).len()) + encode_utf8(t)
}

/// Texts as they are written, one behind the other.
pub open spec fn written_all(list: Seq<Seq<char>>) -> Seq<u8>
    decreases list.len(),
{
    if list.len() == 0 {
        Seq::empty()
    } else {
        written_all(list.drop_last()) + written_text(list.last())
    }
}

/// A list of texts as it is written.
pub open spec fn written_texts(list: Seq<Seq<char>>) -> Seq<u8> {
    head_bytes(4, list.len()) + written_all(list)
}

/// The outcome of a read that finds a value with so many bytes behind it.
pub open spec fn found<T>(value: T, left: nat) -> Result<(T, nat), Fault> {
    Ok((value, left))
}

/// `ciborium::into_writer` for a number: the shortest form, from which the number is read back,
/// as a number of each size that it fits in, whatever comes behind it.
#[verifier::external_body]
pub(crate) fn write_uint(n: u64) -> (out: Vec<u8>)
    ensures
        out@ == written_uint(n as nat),
        forall|rest: Seq<u8>, levels: nat| #[trigger]
            cbor_u64(out@ + rest, levels) == found(n, rest.len()),
        forall|rest: Seq<u8>, levels: nat|
            n <= u32::MAX ==> #[trigger] cbor_u32(out@ + rest, levels) == found(
                n as u32,
                rest.len(),
            ),
        forall|rest: Seq<u8>, levels: nat|
            n <= u8::MAX ==> #[trigger] cbor_u8(out@ + rest, levels) == found(n as u8, rest.len()),
{
    let mut out = Vec::new();
    ciborium::into_writer(&n, &mut out).expect("writing to a vector does not fail");
    out
}

/// `ciborium::into_writer` for `serde_bytes::Bytes`: a byte string of known length, from which
/// an array of that length is read back, whatever comes behind it.
#[verifier::external_body]
pub(crate) fn write_bytes(b: &[u8]) -> (out: Vec<u8>)
    ensures
        out@ == written_bytes(b@),
        forall|a: [u8; 32], rest: Seq<u8>, levels: nat|
            a@ == b@ ==> #[trigger] cbor_array_32(out@ + rest, levels) == #[trigger] found(
                a,
                rest.len(),
            ),
        forall|a: [u8; 64], rest: Seq<u8>, levels: nat|
            a@ == b@ ==> #[trigger] cbor_array_64(out@ + rest, levels) == #[trigger] found(
                a,
                rest.len(),
            ),
{
    let mut out = Vec::new();
    ciborium::into_writer(Bytes::new(b), &mut out).expect("writing to a vector does not fail");
    out
}

/// `ciborium::into_writer` for a text: a text of known length, from which the text is read back,
/// whatever comes behind it.
#[verifier::external_body]
pub(crate) fn write_text(t: &str) -> (out: Vec<u8>)
    ensures
        out@ == written_text(t@),
        forall|rest: Seq<u8>, levels: nat| #[trigger]
            cbor_string(out@ + rest, levels) == found(t@, rest.len()),
{
    let mut out = Vec::new();
    ciborium::into_writer(t, &mut out).expect("writing to a vector does not fail");
    out
}

/// `ciborium::into_writer` for a list of texts: a list of known length, from which the texts are
/// read back as long as one level of nesting is left, whatever comes behind it.
#[verifier::external_body]
pub(crate) fn write_texts(list: &Vec<String>) -> (out: Vec<u8>)
    ensures
        out@ == written_texts(texts(list@)),
        forall|rest: Seq<u8>, levels: nat|
            levels > 0 ==> #[trigger] cbor_strings(out@ + rest, levels) == found(
                texts(list@),
                rest.len(),
            ),
{
    let mut out = Vec::new();
    ciborium::into_writer(list, &mut out).expect("writing to a vector does not fail");
    out
}

/// A short text with more bytes behind it is a name.
pub proof fn lemma_written_text_is_name(t: Seq<char>, rest: Seq<u8>)
    requires
        encode_utf8(t).len() < 24,
    ensures
        name_at(written_text(t) + rest) == NameAt::Name(encode_utf8(t), rest),
        written_text(t).len() == 1 + encode_utf8(t).len(),
        (written_text(t) + rest)[0] != BREAK,
{
    let u = encode_utf8(t);
    let b = written_text(t) + rest;
    assert(b[0] == (96 + u.len()) as u8);
    assert(b[0] as nat % 32 == u.len() && b[0] as nat / 32 == 3);
    assert(head_of(b) == Some(Head { major: 3, arg: Some(u.len()), len: 1 }));
    assert(without_tags(b) == b);
    vstd::utf8::encode_utf8_valid_utf8(t);
    assert(b.subrange(1, (1 + u.len()) as int) =~= u);
    assert(b.skip((1 + u.len()) as int) =~= rest);
}

/// The head of a short map with more bytes behind it is a map.
pub proof fn lemma_written_map(n: nat, rest: Seq<u8>)
    requires
        n < 24,
    ensures
        map_at(head_bytes(MAJOR_MAP, n) + rest) == Some((Some(n), rest)),
{
    let b = head_bytes(MAJOR_MAP, n) + rest;
    assert(b[0] == (160 + n) as u8);
    assert(b[0] as nat % 32 == n && b[0] as nat / 32 == 5);
    assert(head_of(b) == Some(Head { major: 5, arg: Some(n), len: 1 }));
    assert(without_tags(b) == b);
    assert(b.skip(1) =~= rest);
}

/// A map of known length is over when no entry is to come, another at the mark that ends it; as
/// long as neither is over, a name that stands there is the next one.
pub proof fn law_where_a_map_ends(total: nat, n: nat, b: Seq<u8>)
    ensures
        next_in_map(total, Some(0), b) == Next::End(b),
        b.len() > 0 && b[0] == 0xff ==> next_in_map(total, None, b) == Next::End(b.skip(1)),
        name_at(b) matches NameAt::Name(name, rest) ==> {
            &&& n > 0 ==> next_in_map(total, Some(n), b) == Next::Name(name, rest)
            &&& b.len() > 0 && b[0] != 0xff ==> next_in_map(total, None, b) == Next::Name(
                name,
                rest,
            )
        },
        !(name_at(b) is Name) && n > 0 ==> next_in_map(total, Some(n), b) is Fault,
{
}

} // verus!
