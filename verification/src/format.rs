//! The bytes of records. A record is a map with the fields `body` and `sig`, and a body is a map
//! with the fields of `RecordBody`, written in the order in which they are declared there. When a
//! record is read, the fields may come in any order and with others between them, which are
//! skipped; none may come twice and none may be missing.

use crate::bytes::same_bytes;
use crate::record::{BodyModel, Record, RecordBody, RecordModel};
use crate::text::texts;
use crate::cbor::{
    cbor_array_32, cbor_array_64, cbor_map_fault, cbor_skipped, cbor_string, cbor_strings,
    cbor_u32, cbor_u64, cbor_u8, count_of, fault_moved, fault_of, field_fault, find_map, found,
    head_bytes,
    lemma_written_map, lemma_written_text_is_name, map_at, next_at, next_in_map, open_error,
    read_array_32, read_array_64, read_string, read_strings, read_u32, read_u64, read_u8,
    refuse_map, skip_item, write_bytes, write_text, write_texts, write_uint, written_bytes,
    written_text, written_texts, written_uint, Fault, Next, NextAt, ReadFault, MAJOR_MAP,
};
use ciborium::de::Error;
use vstd::prelude::*;
use vstd::slice::slice_subrange;
use vstd::string::*;
use vstd::utf8::{encode_utf8, is_ascii_chars_encode_utf8};

verus! {

/// Levels of nesting that are left inside a record.
pub const RECORD_LEVELS: usize = 255;

/// Levels of nesting that are left inside a body.
pub const BODY_LEVELS: usize = 254;

// ---------------------------------------------------------------------------
// What is written
// ---------------------------------------------------------------------------

/// A field and what comes behind it.
pub open spec fn field_then(name: Seq<char>, value: Seq<u8>, rest: Seq<u8>) -> Seq<u8> {
    written_text(name) + (value + rest)
}

/// A body and what comes behind it.
pub open spec fn body_then(b: BodyModel, rest: Seq<u8>) -> Seq<u8> {
    head_bytes(MAJOR_MAP, 7) + field_then(
        "v"@,
        written_uint(b.v as nat),
        field_then(
            "pubkey"@,
            written_bytes(b.pubkey),
            field_then(
                "peer_id"@,
                written_text(b.peer_id),
                field_then(
                    "addrs"@,
                    written_texts(b.addrs),
                    field_then(
                        "vanity"@,
                        written_text(b.vanity),
                        field_then(
                            "ts"@,
                            written_uint(b.ts as nat),
                            field_then("ttl"@, written_uint(b.ttl as nat), rest),
                        ),
                    ),
                ),
            ),
        ),
    )
}

/// A record.
pub open spec fn record_bytes(r: RecordModel) -> Seq<u8> {
    head_bytes(MAJOR_MAP, 2) + (written_text("body"@) + body_then(
        r.body,
        field_then("sig"@, written_bytes(r.sig), Seq::empty()),
    ))
}

// ---------------------------------------------------------------------------
// What is read
// ---------------------------------------------------------------------------

/// The last `left` bytes.
pub open spec fn last_bytes(b: Seq<u8>, left: nat) -> Seq<u8> {
    if left <= b.len() {
        b.skip(b.len() - left)
    } else {
        b
    }
}

/// The value that was read at the start of `b`, which is what is left of an input of `total`
/// bytes, and the bytes behind it.
pub open spec fn value_at<T>(total: nat, b: Seq<u8>, read: Result<(T, nat), Fault>) -> Result<
    (T, Seq<u8>),
    Fault,
> {
    match read {
        Ok((value, left)) => Ok((value, last_bytes(b, left))),
        Err(f) => Err(fault_moved(f, (total - b.len()) as nat, 0)),
    }
}

/// One entry less to come.
pub open spec fn one_less(count: Option<nat>) -> Option<nat> {
    match count {
        Some(n) => if n > 0 {
            Some((n - 1) as nat)
        } else {
            Some(0)
        },
        None => None,
    }
}

/// The fields of a body that were read so far.
#[verifier::ext_equal]
pub struct BodySlots {
    pub v: Option<u8>,
    pub pubkey: Option<Seq<u8>>,
    pub peer_id: Option<Seq<char>>,
    pub addrs: Option<Seq<Seq<char>>>,
    pub vanity: Option<Seq<char>>,
    pub ts: Option<u64>,
    pub ttl: Option<u32>,
}

/// No field was read yet.
pub open spec fn no_fields() -> BodySlots {
    BodySlots {
        v: None,
        pubkey: None,
        peer_id: None,
        addrs: None,
        vanity: None,
        ts: None,
        ttl: None,
    }
}

/// The fields after one more was read: the one with the name, whose value is at the start of `b`.
pub open spec fn body_step(total: nat, s: BodySlots, name: Seq<u8>, b: Seq<u8>) -> Result<
    (BodySlots, Seq<u8>),
    Fault,
> {
    let levels = BODY_LEVELS as nat;
    if name == encode_utf8("v"@) {
        if s.v is Some {
            Err(field_fault("duplicate"@, "v"@))
        } else {
            match value_at(total, b, cbor_u8(b, levels)) {
                Ok((x, rest)) => Ok((BodySlots { v: Some(x), ..s }, rest)),
                Err(f) => Err(f),
            }
        }
    } else if name == encode_utf8("pubkey"@) {
        if s.pubkey is Some {
            Err(field_fault("duplicate"@, "pubkey"@))
        } else {
            match value_at(total, b, cbor_array_32(b, levels)) {
                Ok((x, rest)) => Ok((BodySlots { pubkey: Some(x@), ..s }, rest)),
                Err(f) => Err(f),
            }
        }
    } else if name == encode_utf8("peer_id"@) {
        if s.peer_id is Some {
            Err(field_fault("duplicate"@, "peer_id"@))
        } else {
            match value_at(total, b, cbor_string(b, levels)) {
                Ok((x, rest)) => Ok((BodySlots { peer_id: Some(x), ..s }, rest)),
                Err(f) => Err(f),
            }
        }
    } else if name == encode_utf8("addrs"@) {
        if s.addrs is Some {
            Err(field_fault("duplicate"@, "addrs"@))
        } else {
            match value_at(total, b, cbor_strings(b, levels)) {
                Ok((x, rest)) => Ok((BodySlots { addrs: Some(x), ..s }, rest)),
                Err(f) => Err(f),
            }
        }
    } else if name == encode_utf8("vanity"@) {
        if s.vanity is Some {
            Err(field_fault("duplicate"@, "vanity"@))
        } else {
            match value_at(total, b, cbor_string(b, levels)) {
                Ok((x, rest)) => Ok((BodySlots { vanity: Some(x), ..s }, rest)),
                Err(f) => Err(f),
            }
        }
    } else if name == encode_utf8("ts"@) {
        if s.ts is Some {
            Err(field_fault("duplicate"@, "ts"@))
        } else {
            match value_at(total, b, cbor_u64(b, levels)) {
                Ok((x, rest)) => Ok((BodySlots { ts: Some(x), ..s }, rest)),
                Err(f) => Err(f),
            }
        }
    } else if name == encode_utf8("ttl"@) {
        if s.ttl is Some {
            Err(field_fault("duplicate"@, "ttl"@))
        } else {
            match value_at(total, b, cbor_u32(b, levels)) {
                Ok((x, rest)) => Ok((BodySlots { ttl: Some(x), ..s }, rest)),
                Err(f) => Err(f),
            }
        }
    } else {
        match value_at(total, b, cbor_skipped(b, levels)) {
            Ok((_, rest)) => Ok((s, rest)),
            Err(f) => Err(f),
        }
    }
}

/// The fields after all entries to come were read, and the bytes behind the map. A name takes
/// bytes, so what is left after an entry is less than before it.
#[verifier::opaque]
pub open spec fn body_entries(total: nat, count: Option<nat>, b: Seq<u8>, s: BodySlots) -> Result<
    (BodySlots, Seq<u8>),
    Fault,
>
    decreases b.len(),
{
    match next_in_map(total, count, b) {
        Next::End(rest) => Ok((s, rest)),
        Next::Fault(f) => Err(f),
        Next::Name(name, value) => match body_step(total, s, name, value) {
            Err(f) => Err(f),
            Ok((s2, rest)) => if rest.len() < b.len() {
                body_entries(total, one_less(count), rest, s2)
            } else {
                Ok((s2, rest))
            },
        },
    }
}

/// The body with the fields. The first that is missing is named.
pub open spec fn body_of(s: BodySlots) -> Result<BodyModel, Fault> {
    if s.v is None {
        Err(field_fault("missing"@, "v"@))
    } else if s.pubkey is None {
        Err(field_fault("missing"@, "pubkey"@))
    } else if s.peer_id is None {
        Err(field_fault("missing"@, "peer_id"@))
    } else if s.addrs is None {
        Err(field_fault("missing"@, "addrs"@))
    } else if s.vanity is None {
        Err(field_fault("missing"@, "vanity"@))
    } else if s.ts is None {
        Err(field_fault("missing"@, "ts"@))
    } else if s.ttl is None {
        Err(field_fault("missing"@, "ttl"@))
    } else {
        Ok(
            BodyModel {
                v: s.v->0,
                pubkey: s.pubkey->0,
                peer_id: s.peer_id->0,
                addrs: s.addrs->0,
                vanity: s.vanity->0,
                ts: s.ts->0,
                ttl: s.ttl->0,
            },
        )
    }
}

/// The body at the start of `b`, which is what is left of an input of `total` bytes, and the
/// bytes behind it.
pub open spec fn body_at(total: nat, b: Seq<u8>) -> Result<(BodyModel, Seq<u8>), Fault> {
    match map_at(b) {
        None => Err(fault_moved(cbor_map_fault(b), (total - b.len()) as nat, 0)),
        Some((count, entries)) => match body_entries(total, count, entries, no_fields()) {
            Err(f) => Err(f),
            Ok((s, rest)) => match body_of(s) {
                Err(f) => Err(f),
                Ok(body) => Ok((body, rest)),
            },
        },
    }
}

/// The fields of a record that were read so far.
#[verifier::ext_equal]
pub struct RecordSlots {
    pub body: Option<BodyModel>,
    pub sig: Option<Seq<u8>>,
}

/// The fields after one more was read: the one with the name, whose value is at the start of `b`.
pub open spec fn record_step(total: nat, s: RecordSlots, name: Seq<u8>, b: Seq<u8>) -> Result<
    (RecordSlots, Seq<u8>),
    Fault,
> {
    let levels = RECORD_LEVELS as nat;
    if name == encode_utf8("body"@) {
        if s.body is Some {
            Err(field_fault("duplicate"@, "body"@))
        } else {
            match body_at(total, b) {
                Ok((x, rest)) => Ok((RecordSlots { body: Some(x), ..s }, rest)),
                Err(f) => Err(f),
            }
        }
    } else if name == encode_utf8("sig"@) {
        if s.sig is Some {
            Err(field_fault("duplicate"@, "sig"@))
        } else {
            match value_at(total, b, cbor_array_64(b, levels)) {
                Ok((x, rest)) => Ok((RecordSlots { sig: Some(x@), ..s }, rest)),
                Err(f) => Err(f),
            }
        }
    } else {
        match value_at(total, b, cbor_skipped(b, levels)) {
            Ok((_, rest)) => Ok((s, rest)),
            Err(f) => Err(f),
        }
    }
}

/// The fields after all entries to come were read. A name takes bytes, so what is left after an
/// entry is less than before it.
#[verifier::opaque]
pub open spec fn record_entries(
    total: nat,
    count: Option<nat>,
    b: Seq<u8>,
    s: RecordSlots,
) -> Result<RecordSlots, Fault>
    decreases b.len(),
{
    match next_in_map(total, count, b) {
        Next::End(_) => Ok(s),
        Next::Fault(f) => Err(f),
        Next::Name(name, value) => match record_step(total, s, name, value) {
            Err(f) => Err(f),
            Ok((s2, rest)) => if rest.len() < b.len() {
                record_entries(total, one_less(count), rest, s2)
            } else {
                Ok(s2)
            },
        },
    }
}

/// The record with the fields. The first that is missing is named.
pub open spec fn record_of(s: RecordSlots) -> Result<RecordModel, Fault> {
    if s.body is None {
        Err(field_fault("missing"@, "body"@))
    } else if s.sig is None {
        Err(field_fault("missing"@, "sig"@))
    } else {
        Ok(RecordModel { body: s.body->0, sig: s.sig->0 })
    }
}

/// The record at the start of the bytes. What comes behind it is not looked at.
pub open spec fn record_at(bytes: Seq<u8>) -> Result<RecordModel, Fault> {
    match map_at(bytes) {
        None => Err(fault_moved(cbor_map_fault(bytes), 0, 0)),
        Some((count, entries)) => match record_entries(
            bytes.len(),
            count,
            entries,
            RecordSlots { body: None, sig: None },
        ) {
            Err(f) => Err(f),
            Ok(s) => record_of(s),
        },
    }
}

// ---------------------------------------------------------------------------
// Reading
// ---------------------------------------------------------------------------

/// The fields of a body that were read so far.
struct BodyFields {
    v: Option<u8>,
    pubkey: Option<[u8; 32]>,
    peer_id: Option<String>,
    addrs: Option<Vec<String>>,
    vanity: Option<String>,
    ts: Option<u64>,
    ttl: Option<u32>,
}

impl View for BodyFields {
    type V = BodySlots;

    closed spec fn view(&self) -> BodySlots {
        BodySlots {
            v: self.v,
            pubkey: match self.pubkey {
                Some(key) => Some(key@),
                None => None,
            },
            peer_id: match self.peer_id {
                Some(text) => Some(text@),
                None => None,
            },
            addrs: match self.addrs {
                Some(list) => Some(texts(list@)),
                None => None,
            },
            vanity: match self.vanity {
                Some(text) => Some(text@),
                None => None,
            },
            ts: self.ts,
            ttl: self.ttl,
        }
    }
}

/// Counts the outcome of a read at a place from the start of the bytes.
fn placed<T>(bytes: &[u8], at: usize, r: Result<(T, usize), Error<std::io::Error>>) -> (out: Result<
    (T, usize),
    ReadFault,
>)
    requires
        at <= bytes@.len(),
        r matches Ok(got) ==> got.1 <= bytes@.len() - at,
    ensures
        match out {
            Ok((value, next)) => r matches Ok(got) && value == got.0 && at <= next <= bytes@.len()
                && bytes@.skip(next as int) == last_bytes(bytes@.skip(at as int), got.1 as nat),
            Err(f) => r matches Err(e) && f@ == fault_moved(fault_of(e), at as nat, 0),
        },
{
    match r {
        Ok((value, left)) => {
            let next: usize = bytes.len() - left;
            assert(bytes@.skip(next as int) =~= bytes@.skip(at as int).skip(
                bytes@.len() - at - left,
            ));
            Ok((value, next))
        },
        Err(e) => Err(open_error(e).moved(at, 0)),
    }
}

/// Whether the bytes from one place to another are the name.
fn is_name(bytes: &[u8], from: usize, to: usize, name: &str) -> (yes: bool)
    requires
        from <= to <= bytes@.len(),
    ensures
        yes == (bytes@.subrange(from as int, to as int) == encode_utf8(name@)),
{
    same_bytes(slice_subrange(bytes, from, to), name.as_bytes_vec().as_slice())
}

/// Reads the field of a body whose name stands between the two places.
fn read_body_field(bytes: &[u8], fields: BodyFields, from: usize, to: usize) -> (r: Result<
    (BodyFields, usize),
    ReadFault,
>)
    requires
        from <= to <= bytes@.len(),
    ensures
        ({
            let step = body_step(
                bytes@.len(),
                fields@,
                bytes@.subrange(from as int, to as int),
                bytes@.skip(to as int),
            );
            match r {
                Ok((after, next)) => to <= next <= bytes@.len() && step == Ok::<
                    (BodySlots, Seq<u8>),
                    Fault,
                >((after@, bytes@.skip(next as int))),
                Err(f) => step == Err::<(BodySlots, Seq<u8>), Fault>(f@),
            }
        }),
{
    let mut fields = fields;
    let value = slice_subrange(bytes, to, bytes.len());
    assert(value@ =~= bytes@.skip(to as int));
    if is_name(bytes, from, to, "v") {
        if fields.v.is_some() {
            return Err(ReadFault::of_field("duplicate", "v"));
        }
        match placed(bytes, to, read_u8(value, BODY_LEVELS)) {
            Ok((x, next)) => {
                fields.v = Some(x);
                Ok((fields, next))
            },
            Err(f) => Err(f),
        }
    } else if is_name(bytes, from, to, "pubkey") {
        if fields.pubkey.is_some() {
            return Err(ReadFault::of_field("duplicate", "pubkey"));
        }
        match placed(bytes, to, read_array_32(value, BODY_LEVELS)) {
            Ok((x, next)) => {
                fields.pubkey = Some(x);
                Ok((fields, next))
            },
            Err(f) => Err(f),
        }
    } else if is_name(bytes, from, to, "peer_id") {
        if fields.peer_id.is_some() {
            return Err(ReadFault::of_field("duplicate", "peer_id"));
        }
        match placed(bytes, to, read_string(value, BODY_LEVELS)) {
            Ok((x, next)) => {
                fields.peer_id = Some(x);
                Ok((fields, next))
            },
            Err(f) => Err(f),
        }
    } else if is_name(bytes, from, to, "addrs") {
        if fields.addrs.is_some() {
            return Err(ReadFault::of_field("duplicate", "addrs"));
        }
        match placed(bytes, to, read_strings(value, BODY_LEVELS)) {
            Ok((x, next)) => {
                fields.addrs = Some(x);
                Ok((fields, next))
            },
            Err(f) => Err(f),
        }
    } else if is_name(bytes, from, to, "vanity") {
        if fields.vanity.is_some() {
            return Err(ReadFault::of_field("duplicate", "vanity"));
        }
        match placed(bytes, to, read_string(value, BODY_LEVELS)) {
            Ok((x, next)) => {
                fields.vanity = Some(x);
                Ok((fields, next))
            },
            Err(f) => Err(f),
        }
    } else if is_name(bytes, from, to, "ts") {
        if fields.ts.is_some() {
            return Err(ReadFault::of_field("duplicate", "ts"));
        }
        match placed(bytes, to, read_u64(value, BODY_LEVELS)) {
            Ok((x, next)) => {
                fields.ts = Some(x);
                Ok((fields, next))
            },
            Err(f) => Err(f),
        }
    } else if is_name(bytes, from, to, "ttl") {
        if fields.ttl.is_some() {
            return Err(ReadFault::of_field("duplicate", "ttl"));
        }
        match placed(bytes, to, read_u32(value, BODY_LEVELS)) {
            Ok((x, next)) => {
                fields.ttl = Some(x);
                Ok((fields, next))
            },
            Err(f) => Err(f),
        }
    } else {
        match placed(bytes, to, skip_item(value, BODY_LEVELS)) {
            Ok((_, next)) => Ok((fields, next)),
            Err(f) => Err(f),
        }
    }
}

/// One entry less to come.
fn less_one(count: Option<usize>) -> (less: Option<usize>)
    ensures
        count_of(less) == one_less(count_of(count)),
{
    match count {
        Some(n) => if n > 0 {
            Some(n - 1)
        } else {
            Some(0)
        },
        None => None,
    }
}

/// Makes a body of its fields.
fn make_body(fields: BodyFields) -> (r: Result<RecordBody, ReadFault>)
    ensures
        match r {
            Ok(body) => body_of(fields@) == Ok::<BodyModel, Fault>(body@),
            Err(f) => body_of(fields@) == Err::<BodyModel, Fault>(f@),
        },
{
    let v: u8 = match fields.v {
        Some(x) => x,
        None => return Err(ReadFault::of_field("missing", "v")),
    };
    let pubkey = match fields.pubkey {
        Some(x) => x,
        None => return Err(ReadFault::of_field("missing", "pubkey")),
    };
    let peer_id = match fields.peer_id {
        Some(x) => x,
        None => return Err(ReadFault::of_field("missing", "peer_id")),
    };
    let addrs = match fields.addrs {
        Some(x) => x,
        None => return Err(ReadFault::of_field("missing", "addrs")),
    };
    let vanity = match fields.vanity {
        Some(x) => x,
        None => return Err(ReadFault::of_field("missing", "vanity")),
    };
    let ts: u64 = match fields.ts {
        Some(x) => x,
        None => return Err(ReadFault::of_field("missing", "ts")),
    };
    let ttl: u32 = match fields.ttl {
        Some(x) => x,
        None => return Err(ReadFault::of_field("missing", "ttl")),
    };
    Ok(RecordBody { v, pubkey, peer_id, addrs, vanity, ts, ttl })
}

/// Reads the body at a place, and gives the place behind it.
fn read_body_at(bytes: &[u8], pos: usize) -> (r: Result<(RecordBody, usize), ReadFault>)
    requires
        pos <= bytes@.len(),
    ensures
        match r {
            Ok((body, next)) => pos <= next <= bytes@.len() && body_at(
                bytes@.len(),
                bytes@.skip(pos as int),
            ) == Ok::<(BodyModel, Seq<u8>), Fault>((body@, bytes@.skip(next as int))),
            Err(f) => body_at(bytes@.len(), bytes@.skip(pos as int)) == Err::<
                (BodyModel, Seq<u8>),
                Fault,
            >(f@),
        },
{
    let (mut count, mut at) = match find_map(bytes, pos) {
        Some((count, at)) => (count, at),
        None => {
            let rest = slice_subrange(bytes, pos, bytes.len());
            assert(rest@ =~= bytes@.skip(pos as int));
            return Err(open_error(refuse_map(rest)).moved(pos, 0));
        },
    };
    let mut fields = BodyFields {
        v: None,
        pubkey: None,
        peer_id: None,
        addrs: None,
        vanity: None,
        ts: None,
        ttl: None,
    };
    let ghost all = body_entries(
        bytes@.len(),
        count_of(count),
        bytes@.skip(at as int),
        no_fields(),
    );
    loop
        invariant
            pos < at <= bytes@.len(),
            map_at(bytes@.skip(pos as int)) matches Some((n, entries)) && all == body_entries(
                bytes@.len(),
                n,
                entries,
                no_fields(),
            ),
            all == body_entries(
                bytes@.len(),
                count_of(count),
                bytes@.skip(at as int),
                fields@,
            ),
        decreases bytes@.len() - at,
    {
        proof {
            reveal(body_entries);
        }
        match next_at(bytes, count, at) {
            NextAt::End(end) => {
                return match make_body(fields) {
                    Ok(body) => Ok((body, end)),
                    Err(f) => Err(f),
                };
            },
            NextAt::Fault(f) => {
                return Err(f);
            },
            NextAt::Name(from, to) => match read_body_field(bytes, fields, from, to) {
                Err(f) => {
                    return Err(f);
                },
                Ok((after, next)) => {
                    fields = after;
                    count = less_one(count);
                    at = next;
                },
            },
        }
    }
}

/// The fields of a record that were read so far.
struct RecordFields {
    body: Option<RecordBody>,
    sig: Option<[u8; 64]>,
}

impl View for RecordFields {
    type V = RecordSlots;

    closed spec fn view(&self) -> RecordSlots {
        RecordSlots {
            body: match self.body {
                Some(body) => Some(body@),
                None => None,
            },
            sig: match self.sig {
                Some(sig) => Some(sig@),
                None => None,
            },
        }
    }
}

/// Reads the field of a record whose name stands between the two places.
fn read_record_field(bytes: &[u8], fields: RecordFields, from: usize, to: usize) -> (r: Result<
    (RecordFields, usize),
    ReadFault,
>)
    requires
        from <= to <= bytes@.len(),
    ensures
        ({
            let step = record_step(
                bytes@.len(),
                fields@,
                bytes@.subrange(from as int, to as int),
                bytes@.skip(to as int),
            );
            match r {
                Ok((after, next)) => to <= next <= bytes@.len() && step == Ok::<
                    (RecordSlots, Seq<u8>),
                    Fault,
                >((after@, bytes@.skip(next as int))),
                Err(f) => step == Err::<(RecordSlots, Seq<u8>), Fault>(f@),
            }
        }),
{
    let mut fields = fields;
    let value = slice_subrange(bytes, to, bytes.len());
    assert(value@ =~= bytes@.skip(to as int));
    if is_name(bytes, from, to, "body") {
        if fields.body.is_some() {
            return Err(ReadFault::of_field("duplicate", "body"));
        }
        match read_body_at(bytes, to) {
            Ok((x, next)) => {
                fields.body = Some(x);
                Ok((fields, next))
            },
            Err(f) => Err(f),
        }
    } else if is_name(bytes, from, to, "sig") {
        if fields.sig.is_some() {
            return Err(ReadFault::of_field("duplicate", "sig"));
        }
        match placed(bytes, to, read_array_64(value, RECORD_LEVELS)) {
            Ok((x, next)) => {
                fields.sig = Some(x);
                Ok((fields, next))
            },
            Err(f) => Err(f),
        }
    } else {
        match placed(bytes, to, skip_item(value, RECORD_LEVELS)) {
            Ok((_, next)) => Ok((fields, next)),
            Err(f) => Err(f),
        }
    }
}

/// Makes a record of its fields.
fn make_record(fields: RecordFields) -> (r: Result<Record, ReadFault>)
    ensures
        match r {
            Ok(record) => record_of(fields@) == Ok::<RecordModel, Fault>(record@),
            Err(f) => record_of(fields@) == Err::<RecordModel, Fault>(f@),
        },
{
    let body = match fields.body {
        Some(x) => x,
        None => return Err(ReadFault::of_field("missing", "body")),
    };
    let sig = match fields.sig {
        Some(x) => x,
        None => return Err(ReadFault::of_field("missing", "sig")),
    };
    Ok(Record { body, sig })
}

/// Reads the record at the start of the bytes.
pub(crate) fn read_record_bytes(bytes: &[u8]) -> (r: Result<Record, ReadFault>)
    ensures
        match r {
            Ok(record) => record_at(bytes@) == Ok::<RecordModel, Fault>(record@),
            Err(f) => record_at(bytes@) == Err::<RecordModel, Fault>(f@),
        },
{
    assert(bytes@.skip(0) =~= bytes@);
    let (mut count, mut at) = match find_map(bytes, 0) {
        Some((count, at)) => (count, at),
        None => {
            return Err(open_error(refuse_map(bytes)).moved(0, 0));
        },
    };
    let mut fields = RecordFields { body: None, sig: None };
    let ghost all = record_entries(
        bytes@.len(),
        count_of(count),
        bytes@.skip(at as int),
        fields@,
    );
    loop
        invariant
            at <= bytes@.len(),
            map_at(bytes@) matches Some((n, entries)) && all == record_entries(
                bytes@.len(),
                n,
                entries,
                RecordSlots { body: None, sig: None },
            ),
            all == record_entries(
                bytes@.len(),
                count_of(count),
                bytes@.skip(at as int),
                fields@,
            ),
        decreases bytes@.len() - at,
    {
        proof {
            reveal(record_entries);
        }
        match next_at(bytes, count, at) {
            NextAt::End(_) => {
                return make_record(fields);
            },
            NextAt::Fault(f) => {
                return Err(f);
            },
            NextAt::Name(from, to) => match read_record_field(bytes, fields, from, to) {
                Err(f) => {
                    return Err(f);
                },
                Ok((after, next)) => {
                    fields = after;
                    count = less_one(count);
                    at = next;
                },
            },
        }
    }
}

// ---------------------------------------------------------------------------
// Writing
// ---------------------------------------------------------------------------

/// Each field of the body is read back from what is written of it, whatever comes behind it.
pub open spec fn fields_read_back(b: BodyModel) -> bool {
    let levels = BODY_LEVELS as nat;
    &&& forall|rest: Seq<u8>|
        #[trigger] cbor_u8(written_uint(b.v as nat) + rest, levels) == found(b.v, rest.len())
    &&& forall|rest: Seq<u8>|
        (#[trigger] cbor_array_32(written_bytes(b.pubkey) + rest, levels) matches Ok((key, left))
            && key@ == b.pubkey && left == rest.len())
    &&& forall|rest: Seq<u8>|
        #[trigger] cbor_string(written_text(b.peer_id) + rest, levels) == found(
            b.peer_id,
            rest.len(),
        )
    &&& forall|rest: Seq<u8>|
        #[trigger] cbor_strings(written_texts(b.addrs) + rest, levels) == found(
            b.addrs,
            rest.len(),
        )
    &&& forall|rest: Seq<u8>|
        #[trigger] cbor_string(written_text(b.vanity) + rest, levels) == found(b.vanity, rest.len())
    &&& forall|rest: Seq<u8>|
        #[trigger] cbor_u64(written_uint(b.ts as nat) + rest, levels) == found(b.ts, rest.len())
    &&& forall|rest: Seq<u8>|
        #[trigger] cbor_u32(written_uint(b.ttl as nat) + rest, levels) == found(b.ttl, rest.len())
}

/// The signature of the record is read back from what is written of it.
pub open spec fn sig_reads_back(r: RecordModel) -> bool {
    forall|rest: Seq<u8>|
        (#[trigger] cbor_array_64(written_bytes(r.sig) + rest, RECORD_LEVELS as nat) matches Ok(
            (sig, left),
        ) && sig@ == r.sig && left == rest.len())
}

/// Writes a field in front of what comes behind it.
fn field_before(name: &str, value: Vec<u8>, rest: Vec<u8>) -> (out: Vec<u8>)
    ensures
        out@ == field_then(name@, value@, rest@),
{
    let mut out: Vec<u8> = write_text(name);
    let mut value = value;
    let mut rest = rest;
    let ghost parts = (out@, value@, rest@);
    out.append(&mut value);
    out.append(&mut rest);
    assert(out@ =~= parts.0 + (parts.1 + parts.2));
    out
}

/// Writes the head of a map in front of its entries.
fn map_before(entries: usize, rest: Vec<u8>) -> (out: Vec<u8>)
    requires
        entries < 24,
    ensures
        out@ == head_bytes(MAJOR_MAP, entries as nat) + rest@,
{
    let mut out: Vec<u8> = Vec::new();
    out.push(MAJOR_MAP * 32 + entries as u8);
    assert(out@ =~= head_bytes(MAJOR_MAP, entries as nat));
    let mut rest = rest;
    out.append(&mut rest);
    out
}

/// Writes a body in front of what comes behind it.
pub(crate) fn body_before(body: &RecordBody, rest: Vec<u8>) -> (out: Vec<u8>)
    ensures
        out@ == body_then(body@, rest@),
        fields_read_back(body@),
{
    let v: Vec<u8> = write_uint(body.v as u64);
    let pubkey: Vec<u8> = write_bytes(body.pubkey.as_slice());
    let peer_id: Vec<u8> = write_text(body.peer_id.as_str());
    let addrs: Vec<u8> = write_texts(&body.addrs);
    let vanity: Vec<u8> = write_text(body.vanity.as_str());
    let ts: Vec<u8> = write_uint(body.ts);
    let ttl: Vec<u8> = write_uint(body.ttl as u64);
    assert(fields_read_back(body@)) by {
        assert forall|rest: Seq<u8>|
            (#[trigger] cbor_array_32(
                written_bytes(body@.pubkey) + rest,
                BODY_LEVELS as nat,
            ) matches Ok((key, left)) && key@ == body@.pubkey && left == rest.len()) by {
            let _ = found(body.pubkey, rest.len());
        }
    }
    let rest = field_before("ttl", ttl, rest);
    let rest = field_before("ts", ts, rest);
    let rest = field_before("vanity", vanity, rest);
    let rest = field_before("addrs", addrs, rest);
    let rest = field_before("peer_id", peer_id, rest);
    let rest = field_before("pubkey", pubkey, rest);
    let rest = field_before("v", v, rest);
    map_before(7, rest)
}

/// Writes a record.
pub(crate) fn write_record(record: &Record) -> (out: Vec<u8>)
    ensures
        out@ == record_bytes(record@),
        fields_read_back(record@.body),
        sig_reads_back(record@),
{
    let sig: Vec<u8> = write_bytes(record.sig.as_slice());
    assert(sig_reads_back(record@)) by {
        assert forall|rest: Seq<u8>|
            (#[trigger] cbor_array_64(
                written_bytes(record@.sig) + rest,
                RECORD_LEVELS as nat,
            ) matches Ok((sig, left)) && sig@ == record@.sig && left == rest.len()) by {
            let _ = found(record.sig, rest.len());
        }
    }
    let mut body: Vec<u8> = body_before(&record.body, field_before("sig", sig, Vec::new()));
    let mut entries: Vec<u8> = write_text("body");
    entries.append(&mut body);
    map_before(2, entries)
}

// ---------------------------------------------------------------------------
// What is written reads back
// ---------------------------------------------------------------------------

/// The name of a field that is written comes next.
proof fn lemma_field_next(total: nat, count: nat, name: Seq<char>, value: Seq<u8>, rest: Seq<u8>)
    requires
        count > 0,
        encode_utf8(name).len() < 24,
    ensures
        next_in_map(total, Some(count), field_then(name, value, rest)) == Next::Name(
            encode_utf8(name),
            value + rest,
        ),
        rest.len() < field_then(name, value, rest).len(),
        last_bytes(value + rest, rest.len()) == rest,
{
    lemma_written_text_is_name(name, value + rest);
    assert((value + rest).skip(value.len() as int) =~= rest);
}

/// One field of a body is read.
proof fn lemma_body_field(
    total: nat,
    count: nat,
    name: Seq<char>,
    value: Seq<u8>,
    rest: Seq<u8>,
    s: BodySlots,
    s2: BodySlots,
)
    requires
        count > 0,
        encode_utf8(name).len() < 24,
        last_bytes(value + rest, rest.len()) == rest ==> body_step(
            total,
            s,
            encode_utf8(name),
            value + rest,
        ) == Ok::<(BodySlots, Seq<u8>), Fault>((s2, rest)),
    ensures
        body_entries(total, Some(count), field_then(name, value, rest), s) == body_entries(
            total,
            Some((count - 1) as nat),
            rest,
            s2,
        ),
{
    reveal(body_entries);
    lemma_field_next(total, count, name, value, rest);
}

/// The names of the fields of a body are short and differ.
proof fn lemma_body_names()
    ensures
        encode_utf8("v"@).len() == 1,
        encode_utf8("pubkey"@).len() == 6,
        encode_utf8("peer_id"@).len() == 7,
        encode_utf8("addrs"@).len() == 5,
        encode_utf8("vanity"@).len() == 6,
        encode_utf8("ts"@).len() == 2,
        encode_utf8("ttl"@).len() == 3,
        encode_utf8("pubkey"@) != encode_utf8("vanity"@),
{
    reveal_strlit("v");
    reveal_strlit("pubkey");
    reveal_strlit("peer_id");
    reveal_strlit("addrs");
    reveal_strlit("vanity");
    reveal_strlit("ts");
    reveal_strlit("ttl");
    is_ascii_chars_encode_utf8("v"@);
    is_ascii_chars_encode_utf8("pubkey"@);
    is_ascii_chars_encode_utf8("peer_id"@);
    is_ascii_chars_encode_utf8("addrs"@);
    is_ascii_chars_encode_utf8("vanity"@);
    is_ascii_chars_encode_utf8("ts"@);
    is_ascii_chars_encode_utf8("ttl"@);
    assert("pubkey"@[0] == 'p' && "vanity"@[0] == 'v');
    assert(encode_utf8("pubkey"@)[0] != encode_utf8("vanity"@)[0]);
}

/// The field `v` is read.
proof fn lemma_v_is_read(total: nat, count: nat, b: BodyModel, rest: Seq<u8>, s: BodySlots)
    requires
        count > 0,
        s.v is None,
        fields_read_back(b),
    ensures
        body_entries(total, Some(count), field_then("v"@, written_uint(b.v as nat), rest), s)
            == body_entries(
            total,
            Some((count - 1) as nat),
            rest,
            BodySlots { v: Some(b.v), ..s },
        ),
{
    lemma_body_names();
    lemma_body_field(
        total,
        count,
        "v"@,
        written_uint(b.v as nat),
        rest,
        s,
        BodySlots { v: Some(b.v), ..s },
    );
}

/// The field `pubkey` is read.
proof fn lemma_pubkey_is_read(total: nat, count: nat, b: BodyModel, rest: Seq<u8>, s: BodySlots)
    requires
        count > 0,
        s.pubkey is None,
        fields_read_back(b),
    ensures
        body_entries(total, Some(count), field_then("pubkey"@, written_bytes(b.pubkey), rest), s)
            == body_entries(
            total,
            Some((count - 1) as nat),
            rest,
            BodySlots { pubkey: Some(b.pubkey), ..s },
        ),
{
    lemma_body_names();
    lemma_body_field(
        total,
        count,
        "pubkey"@,
        written_bytes(b.pubkey),
        rest,
        s,
        BodySlots { pubkey: Some(b.pubkey), ..s },
    );
}

/// The field `peer_id` is read.
proof fn lemma_peer_id_is_read(total: nat, count: nat, b: BodyModel, rest: Seq<u8>, s: BodySlots)
    requires
        count > 0,
        s.peer_id is None,
        fields_read_back(b),
    ensures
        body_entries(total, Some(count), field_then("peer_id"@, written_text(b.peer_id), rest), s)
            == body_entries(
            total,
            Some((count - 1) as nat),
            rest,
            BodySlots { peer_id: Some(b.peer_id), ..s },
        ),
{
    lemma_body_names();
    lemma_body_field(
        total,
        count,
        "peer_id"@,
        written_text(b.peer_id),
        rest,
        s,
        BodySlots { peer_id: Some(b.peer_id), ..s },
    );
}

/// The field `addrs` is read.
proof fn lemma_addrs_is_read(total: nat, count: nat, b: BodyModel, rest: Seq<u8>, s: BodySlots)
    requires
        count > 0,
        s.addrs is None,
        fields_read_back(b),
    ensures
        body_entries(total, Some(count), field_then("addrs"@, written_texts(b.addrs), rest), s)
            == body_entries(
            total,
            Some((count - 1) as nat),
            rest,
            BodySlots { addrs: Some(b.addrs), ..s },
        ),
{
    lemma_body_names();
    lemma_body_field(
        total,
        count,
        "addrs"@,
        written_texts(b.addrs),
        rest,
        s,
        BodySlots { addrs: Some(b.addrs), ..s },
    );
}

/// The field `vanity` is read.
proof fn lemma_vanity_is_read(total: nat, count: nat, b: BodyModel, rest: Seq<u8>, s: BodySlots)
    requires
        count > 0,
        s.vanity is None,
        fields_read_back(b),
    ensures
        body_entries(total, Some(count), field_then("vanity"@, written_text(b.vanity), rest), s)
            == body_entries(
            total,
            Some((count - 1) as nat),
            rest,
            BodySlots { vanity: Some(b.vanity), ..s },
        ),
{
    lemma_body_names();
    lemma_body_field(
        total,
        count,
        "vanity"@,
        written_text(b.vanity),
        rest,
        s,
        BodySlots { vanity: Some(b.vanity), ..s },
    );
}

/// The field `ts` is read.
proof fn lemma_ts_is_read(total: nat, count: nat, b: BodyModel, rest: Seq<u8>, s: BodySlots)
    requires
        count > 0,
        s.ts is None,
        fields_read_back(b),
    ensures
        body_entries(total, Some(count), field_then("ts"@, written_uint(b.ts as nat), rest), s)
            == body_entries(
            total,
            Some((count - 1) as nat),
            rest,
            BodySlots { ts: Some(b.ts), ..s },
        ),
{
    lemma_body_names();
    lemma_body_field(
        total,
        count,
        "ts"@,
        written_uint(b.ts as nat),
        rest,
        s,
        BodySlots { ts: Some(b.ts), ..s },
    );
}

/// The field `ttl` is read.
proof fn lemma_ttl_is_read(total: nat, count: nat, b: BodyModel, rest: Seq<u8>, s: BodySlots)
    requires
        count > 0,
        s.ttl is None,
        fields_read_back(b),
    ensures
        body_entries(total, Some(count), field_then("ttl"@, written_uint(b.ttl as nat), rest), s)
            == body_entries(
            total,
            Some((count - 1) as nat),
            rest,
            BodySlots { ttl: Some(b.ttl), ..s },
        ),
{
    lemma_body_names();
    lemma_body_field(
        total,
        count,
        "ttl"@,
        written_uint(b.ttl as nat),
        rest,
        s,
        BodySlots { ttl: Some(b.ttl), ..s },
    );
}

/// A body reads back, whatever comes behind it.
pub proof fn lemma_body_reads_back(total: nat, b: BodyModel, rest: Seq<u8>)
    requires
        fields_read_back(b),
    ensures
        body_at(total, body_then(b, rest)) == Ok::<(BodyModel, Seq<u8>), Fault>((b, rest)),
{
    lemma_body_names();
    let s0 = no_fields();
    let s1 = BodySlots { v: Some(b.v), ..s0 };
    let s2 = BodySlots { pubkey: Some(b.pubkey), ..s1 };
    let s3 = BodySlots { peer_id: Some(b.peer_id), ..s2 };
    let s4 = BodySlots { addrs: Some(b.addrs), ..s3 };
    let s5 = BodySlots { vanity: Some(b.vanity), ..s4 };
    let s6 = BodySlots { ts: Some(b.ts), ..s5 };
    let s7 = BodySlots { ttl: Some(b.ttl), ..s6 };
    let ttl = field_then("ttl"@, written_uint(b.ttl as nat), rest);
    let ts = field_then("ts"@, written_uint(b.ts as nat), ttl);
    let vanity = field_then("vanity"@, written_text(b.vanity), ts);
    let addrs = field_then("addrs"@, written_texts(b.addrs), vanity);
    let peer_id = field_then("peer_id"@, written_text(b.peer_id), addrs);
    let pubkey = field_then("pubkey"@, written_bytes(b.pubkey), peer_id);
    let v = field_then("v"@, written_uint(b.v as nat), pubkey);
    lemma_written_map(7, v);
    lemma_v_is_read(total, 7, b, pubkey, s0);
    lemma_pubkey_is_read(total, 6, b, peer_id, s1);
    lemma_peer_id_is_read(total, 5, b, addrs, s2);
    lemma_addrs_is_read(total, 4, b, vanity, s3);
    lemma_vanity_is_read(total, 3, b, ts, s4);
    lemma_ts_is_read(total, 2, b, ttl, s5);
    lemma_ttl_is_read(total, 1, b, rest, s6);
    assert(body_entries(total, Some(0), rest, s7) == Ok::<(BodySlots, Seq<u8>), Fault>((s7, rest)))
        by {
        reveal(body_entries);
    }
}

/// The field `body` is read.
proof fn lemma_body_is_read(total: nat, b: BodyModel, value: Seq<u8>, rest: Seq<u8>)
    requires
        body_at(total, value) == Ok::<(BodyModel, Seq<u8>), Fault>((b, rest)),
        rest.len() < value.len(),
    ensures
        record_entries(
            total,
            Some(2),
            written_text("body"@) + value,
            RecordSlots { body: None, sig: None },
        ) == record_entries(total, Some(1), rest, RecordSlots { body: Some(b), sig: None }),
{
    reveal(record_entries);
    reveal_strlit("body");
    is_ascii_chars_encode_utf8("body"@);
    lemma_written_text_is_name("body"@, value);
}

/// One field of a record is read.
proof fn lemma_record_field(
    total: nat,
    count: nat,
    name: Seq<char>,
    value: Seq<u8>,
    rest: Seq<u8>,
    s: RecordSlots,
    s2: RecordSlots,
)
    requires
        count > 0,
        encode_utf8(name).len() < 24,
        record_step(total, s, encode_utf8(name), value + rest) == Ok::<
            (RecordSlots, Seq<u8>),
            Fault,
        >((s2, rest)),
    ensures
        record_entries(total, Some(count), field_then(name, value, rest), s) == record_entries(
            total,
            Some((count - 1) as nat),
            rest,
            s2,
        ),
{
    reveal(record_entries);
    lemma_field_next(total, count, name, value, rest);
}

/// The step at the field `sig`.
proof fn lemma_sig_step(total: nat, r: RecordModel, rest: Seq<u8>)
    requires
        sig_reads_back(r),
        last_bytes(written_bytes(r.sig) + rest, rest.len()) == rest,
    ensures
        record_step(
            total,
            RecordSlots { body: Some(r.body), sig: None },
            encode_utf8("sig"@),
            written_bytes(r.sig) + rest,
        ) == Ok::<(RecordSlots, Seq<u8>), Fault>(
            (RecordSlots { body: Some(r.body), sig: Some(r.sig) }, rest),
        ),
{
    lemma_record_names();
    let read = cbor_array_64(written_bytes(r.sig) + rest, RECORD_LEVELS as nat);
    assert(read matches Ok((sig, left)) && sig@ == r.sig && left == rest.len());
}

/// The names of the fields of a record are short and differ.
proof fn lemma_record_names()
    ensures
        encode_utf8("body"@).len() == 4,
        encode_utf8("sig"@).len() == 3,
{
    reveal_strlit("body");
    reveal_strlit("sig");
    is_ascii_chars_encode_utf8("body"@);
    is_ascii_chars_encode_utf8("sig"@);
}

/// The field `sig` is read.
proof fn lemma_sig_is_read(total: nat, r: RecordModel, rest: Seq<u8>)
    requires
        sig_reads_back(r),
    ensures
        record_entries(
            total,
            Some(1),
            field_then("sig"@, written_bytes(r.sig), rest),
            RecordSlots { body: Some(r.body), sig: None },
        ) == record_entries(
            total,
            Some(0),
            rest,
            RecordSlots { body: Some(r.body), sig: Some(r.sig) },
        ),
{
    lemma_record_names();
    assert((written_bytes(r.sig) + rest).skip(written_bytes(r.sig).len() as int) =~= rest);
    lemma_sig_step(total, r, rest);
    lemma_record_field(
        total,
        1,
        "sig"@,
        written_bytes(r.sig),
        rest,
        RecordSlots { body: Some(r.body), sig: None },
        RecordSlots { body: Some(r.body), sig: Some(r.sig) },
    );
}

/// A map with no more entries is over.
proof fn lemma_record_ends(total: nat, b: Seq<u8>, s: RecordSlots)
    ensures
        record_entries(total, Some(0), b, s) == Ok::<RecordSlots, Fault>(s),
{
    reveal(record_entries);
}

/// A record reads back.
pub proof fn lemma_record_reads_back(r: RecordModel)
    requires
        fields_read_back(r.body),
        sig_reads_back(r),
    ensures
        record_at(record_bytes(r)) == Ok::<RecordModel, Fault>(r),
{
    let total = record_bytes(r).len();
    let sig = field_then("sig"@, written_bytes(r.sig), Seq::empty());
    lemma_written_map(2, written_text("body"@) + body_then(r.body, sig));
    lemma_body_reads_back(total, r.body, sig);
    lemma_body_then_len(r.body, sig);
    lemma_body_is_read(total, r.body, body_then(r.body, sig), sig);
    lemma_sig_is_read(total, r, Seq::empty());
    lemma_record_ends(total, Seq::empty(), RecordSlots { body: Some(r.body), sig: Some(r.sig) });
}

/// A body takes more bytes than what comes behind it.
proof fn lemma_body_then_len(b: BodyModel, rest: Seq<u8>)
    ensures
        body_then(b, rest).len() > rest.len(),
{
}

// ---------------------------------------------------------------------------
// Laws
// ---------------------------------------------------------------------------

/// The entries of a body are read one after the other, as many as there are: the next entry is
/// read, and then the rest.
pub proof fn law_body_is_read_entry_by_entry(
    total: nat,
    count: Option<nat>,
    b: Seq<u8>,
    s: BodySlots,
)
    ensures
        next_in_map(total, count, b) matches Next::End(rest) ==> body_entries(total, count, b, s)
            == Ok::<(BodySlots, Seq<u8>), Fault>((s, rest)),
        next_in_map(total, count, b) matches Next::Fault(f) ==> body_entries(total, count, b, s)
            == Err::<(BodySlots, Seq<u8>), Fault>(f),
        next_in_map(total, count, b) matches Next::Name(name, value) ==> {
            &&& body_step(total, s, name, value) matches Err(f) ==> body_entries(total, count, b, s)
                == Err::<(BodySlots, Seq<u8>), Fault>(f)
            &&& body_step(total, s, name, value) matches Ok((s2, rest)) ==> rest.len() < b.len()
                ==> body_entries(total, count, b, s) == body_entries(
                total,
                (match count {
                    Some(n) => Some(if n > 0 {
                        (n - 1) as nat
                    } else {
                        0
                    }),
                    None => None,
                }),
                rest,
                s2,
            )
        },
{
    reveal(body_entries);
}

/// A field that has no name of a body is skipped, whatever it holds: what was read stays as it is.
pub proof fn law_unknown_fields_of_a_body_are_skipped(
    total: nat,
    s: BodySlots,
    name: Seq<u8>,
    b: Seq<u8>,
)
    requires
        name != encode_utf8("v"@),
        name != encode_utf8("pubkey"@),
        name != encode_utf8("peer_id"@),
        name != encode_utf8("addrs"@),
        name != encode_utf8("vanity"@),
        name != encode_utf8("ts"@),
        name != encode_utf8("ttl"@),
    ensures
        cbor_skipped(b, 254) matches Ok((_, left)) ==> body_step(total, s, name, b) == Ok::<
            (BodySlots, Seq<u8>),
            Fault,
        >((s, last_bytes(b, left))),
        cbor_skipped(b, 254) matches Err(f) ==> body_step(total, s, name, b) == Err::<
            (BodySlots, Seq<u8>),
            Fault,
        >(fault_moved(f, (total - b.len()) as nat, 0)),
{
}

/// A field of a body is read once, as a value of its type; one that comes again is refused.
pub proof fn law_fields_of_a_body_are_read_once(total: nat, s: BodySlots, b: Seq<u8>)
    ensures
        s.v is Some ==> body_step(total, s, encode_utf8("v"@), b) == Err::<
            (BodySlots, Seq<u8>),
            Fault,
        >(field_fault("duplicate"@, "v"@)),
        s.v is None ==> (cbor_u8(b, 254) matches Ok((x, left)) ==> body_step(
            total,
            s,
            encode_utf8("v"@),
            b,
        ) == Ok::<(BodySlots, Seq<u8>), Fault>(
            (BodySlots { v: Some(x), ..s }, last_bytes(b, left)),
        )),
        s.v is None ==> (cbor_u8(b, 254) matches Err(f) ==> body_step(
            total,
            s,
            encode_utf8("v"@),
            b,
        ) == Err::<(BodySlots, Seq<u8>), Fault>(fault_moved(f, (total - b.len()) as nat, 0))),
        s.pubkey is Some ==> body_step(total, s, encode_utf8("pubkey"@), b) == Err::<
            (BodySlots, Seq<u8>),
            Fault,
        >(field_fault("duplicate"@, "pubkey"@)),
        s.pubkey is None ==> (cbor_array_32(b, 254) matches Ok((x, left)) ==> body_step(
            total,
            s,
            encode_utf8("pubkey"@),
            b,
        ) == Ok::<(BodySlots, Seq<u8>), Fault>(
            (BodySlots { pubkey: Some(x@), ..s }, last_bytes(b, left)),
        )),
        s.pubkey is None ==> (cbor_array_32(b, 254) matches Err(f) ==> body_step(
            total,
            s,
            encode_utf8("pubkey"@),
            b,
        ) == Err::<(BodySlots, Seq<u8>), Fault>(fault_moved(f, (total - b.len()) as nat, 0))),
        s.peer_id is Some ==> body_step(total, s, encode_utf8("peer_id"@), b) == Err::<
            (BodySlots, Seq<u8>),
            Fault,
        >(field_fault("duplicate"@, "peer_id"@)),
        s.peer_id is None ==> (cbor_string(b, 254) matches Ok((x, left)) ==> body_step(
            total,
            s,
            encode_utf8("peer_id"@),
            b,
        ) == Ok::<(BodySlots, Seq<u8>), Fault>(
            (BodySlots { peer_id: Some(x), ..s }, last_bytes(b, left)),
        )),
        s.peer_id is None ==> (cbor_string(b, 254) matches Err(f) ==> body_step(
            total,
            s,
            encode_utf8("peer_id"@),
            b,
        ) == Err::<(BodySlots, Seq<u8>), Fault>(fault_moved(f, (total - b.len()) as nat, 0))),
        s.addrs is Some ==> body_step(total, s, encode_utf8("addrs"@), b) == Err::<
            (BodySlots, Seq<u8>),
            Fault,
        >(field_fault("duplicate"@, "addrs"@)),
        s.addrs is None ==> (cbor_strings(b, 254) matches Ok((x, left)) ==> body_step(
            total,
            s,
            encode_utf8("addrs"@),
            b,
        ) == Ok::<(BodySlots, Seq<u8>), Fault>(
            (BodySlots { addrs: Some(x), ..s }, last_bytes(b, left)),
        )),
        s.addrs is None ==> (cbor_strings(b, 254) matches Err(f) ==> body_step(
            total,
            s,
            encode_utf8("addrs"@),
            b,
        ) == Err::<(BodySlots, Seq<u8>), Fault>(fault_moved(f, (total - b.len()) as nat, 0))),
        s.vanity is Some ==> body_step(total, s, encode_utf8("vanity"@), b) == Err::<
            (BodySlots, Seq<u8>),
            Fault,
        >(field_fault("duplicate"@, "vanity"@)),
        s.vanity is None ==> (cbor_string(b, 254) matches Ok((x, left)) ==> body_step(
            total,
            s,
            encode_utf8("vanity"@),
            b,
        ) == Ok::<(BodySlots, Seq<u8>), Fault>(
            (BodySlots { vanity: Some(x), ..s }, last_bytes(b, left)),
        )),
        s.vanity is None ==> (cbor_string(b, 254) matches Err(f) ==> body_step(
            total,
            s,
            encode_utf8("vanity"@),
            b,
        ) == Err::<(BodySlots, Seq<u8>), Fault>(fault_moved(f, (total - b.len()) as nat, 0))),
        s.ts is Some ==> body_step(total, s, encode_utf8("ts"@), b) == Err::<
            (BodySlots, Seq<u8>),
            Fault,
        >(field_fault("duplicate"@, "ts"@)),
        s.ts is None ==> (cbor_u64(b, 254) matches Ok((x, left)) ==> body_step(
            total,
            s,
            encode_utf8("ts"@),
            b,
        ) == Ok::<(BodySlots, Seq<u8>), Fault>(
            (BodySlots { ts: Some(x), ..s }, last_bytes(b, left)),
        )),
        s.ts is None ==> (cbor_u64(b, 254) matches Err(f) ==> body_step(
            total,
            s,
            encode_utf8("ts"@),
            b,
        ) == Err::<(BodySlots, Seq<u8>), Fault>(fault_moved(f, (total - b.len()) as nat, 0))),
        s.ttl is Some ==> body_step(total, s, encode_utf8("ttl"@), b) == Err::<
            (BodySlots, Seq<u8>),
            Fault,
        >(field_fault("duplicate"@, "ttl"@)),
        s.ttl is None ==> (cbor_u32(b, 254) matches Ok((x, left)) ==> body_step(
            total,
            s,
            encode_utf8("ttl"@),
            b,
        ) == Ok::<(BodySlots, Seq<u8>), Fault>(
            (BodySlots { ttl: Some(x), ..s }, last_bytes(b, left)),
        )),
        s.ttl is None ==> (cbor_u32(b, 254) matches Err(f) ==> body_step(
            total,
            s,
            encode_utf8("ttl"@),
            b,
        ) == Err::<(BodySlots, Seq<u8>), Fault>(fault_moved(f, (total - b.len()) as nat, 0))),
{
    lemma_body_names();
}

/// A body has all its fields, each as it was read; the first that is missing is named.
pub proof fn law_a_body_has_all_its_fields(s: BodySlots)
    ensures
        body_of(s) matches Ok(b) ==> {
            &&& s.v == Some(b.v)
            &&& s.pubkey == Some(b.pubkey)
            &&& s.peer_id == Some(b.peer_id)
            &&& s.addrs == Some(b.addrs)
            &&& s.vanity == Some(b.vanity)
            &&& s.ts == Some(b.ts)
            &&& s.ttl == Some(b.ttl)
        },
        body_of(s) is Ok <==> s.v is Some && s.pubkey is Some && s.peer_id is Some && s.addrs is Some
            && s.vanity is Some && s.ts is Some && s.ttl is Some,
        s.v is None ==> body_of(s) == Err::<BodyModel, Fault>(
            field_fault("missing"@, "v"@),
        ),
        s.v is Some && s.pubkey is None ==> body_of(s) == Err::<BodyModel, Fault>(
            field_fault("missing"@, "pubkey"@),
        ),
        s.v is Some && s.pubkey is Some && s.peer_id is None ==> body_of(s) == Err::<BodyModel, Fault>(
            field_fault("missing"@, "peer_id"@),
        ),
        s.v is Some && s.pubkey is Some && s.peer_id is Some && s.addrs is None ==> body_of(s) == Err::<BodyModel, Fault>(
            field_fault("missing"@, "addrs"@),
        ),
        s.v is Some && s.pubkey is Some && s.peer_id is Some && s.addrs is Some && s.vanity is None ==> body_of(s) == Err::<BodyModel, Fault>(
            field_fault("missing"@, "vanity"@),
        ),
        s.v is Some && s.pubkey is Some && s.peer_id is Some && s.addrs is Some && s.vanity is Some && s.ts is None ==> body_of(s) == Err::<BodyModel, Fault>(
            field_fault("missing"@, "ts"@),
        ),
        s.v is Some && s.pubkey is Some && s.peer_id is Some && s.addrs is Some && s.vanity is Some && s.ts is Some && s.ttl is None ==> body_of(s) == Err::<BodyModel, Fault>(
            field_fault("missing"@, "ttl"@),
        ),
{
}

/// A record is read in the same way: one entry after the other, the body and the signature once
/// each, what is unknown skipped, what is missing named.
pub proof fn law_record_is_read_entry_by_entry(
    total: nat,
    count: Option<nat>,
    b: Seq<u8>,
    s: RecordSlots,
)
    ensures
        next_in_map(total, count, b) matches Next::End(_) ==> record_entries(total, count, b, s)
            == Ok::<RecordSlots, Fault>(s),
        next_in_map(total, count, b) matches Next::Fault(f) ==> record_entries(total, count, b, s)
            == Err::<RecordSlots, Fault>(f),
        next_in_map(total, count, b) matches Next::Name(name, value) ==> {
            &&& record_step(total, s, name, value) matches Err(f) ==> record_entries(
                total,
                count,
                b,
                s,
            ) == Err::<RecordSlots, Fault>(f)
            &&& record_step(total, s, name, value) matches Ok((s2, rest)) ==> rest.len() < b.len()
                ==> record_entries(total, count, b, s) == record_entries(
                total,
                (match count {
                    Some(n) => Some(if n > 0 {
                        (n - 1) as nat
                    } else {
                        0
                    }),
                    None => None,
                }),
                rest,
                s2,
            )
        },
{
    reveal(record_entries);
}

/// The fields of a record are read once each, and any other field is skipped.
pub proof fn law_fields_of_a_record(total: nat, s: RecordSlots, name: Seq<u8>, b: Seq<u8>)
    ensures
        s.body is Some ==> record_step(total, s, encode_utf8("body"@), b) == Err::<
            (RecordSlots, Seq<u8>),
            Fault,
        >(field_fault("duplicate"@, "body"@)),
        s.body is None ==> (body_at(total, b) matches Ok((x, rest)) ==> record_step(
            total,
            s,
            encode_utf8("body"@),
            b,
        ) == Ok::<(RecordSlots, Seq<u8>), Fault>((RecordSlots { body: Some(x), ..s }, rest))),
        s.body is None ==> (body_at(total, b) matches Err(f) ==> record_step(
            total,
            s,
            encode_utf8("body"@),
            b,
        ) == Err::<(RecordSlots, Seq<u8>), Fault>(f)),
        s.sig is Some ==> record_step(total, s, encode_utf8("sig"@), b) == Err::<
            (RecordSlots, Seq<u8>),
            Fault,
        >(field_fault("duplicate"@, "sig"@)),
        s.sig is None ==> (cbor_array_64(b, 255) matches Ok((x, left)) ==> record_step(
            total,
            s,
            encode_utf8("sig"@),
            b,
        ) == Ok::<(RecordSlots, Seq<u8>), Fault>(
            (RecordSlots { sig: Some(x@), ..s }, last_bytes(b, left)),
        )),
        s.sig is None ==> (cbor_array_64(b, 255) matches Err(f) ==> record_step(
            total,
            s,
            encode_utf8("sig"@),
            b,
        ) == Err::<(RecordSlots, Seq<u8>), Fault>(fault_moved(f, (total - b.len()) as nat, 0))),
        name != encode_utf8("body"@) && name != encode_utf8("sig"@) ==> (cbor_skipped(b, 255) matches Ok(
            (_, left),
        ) ==> record_step(total, s, name, b) == Ok::<(RecordSlots, Seq<u8>), Fault>(
            (s, last_bytes(b, left)),
        )),
        record_of(s) is Ok <==> s.body is Some && s.sig is Some,
        record_of(s) matches Ok(r) ==> s.body == Some(r.body) && s.sig == Some(r.sig),
        s.body is None ==> record_of(s) == Err::<RecordModel, Fault>(
            field_fault("missing"@, "body"@),
        ),
        s.body is Some && s.sig is None ==> record_of(s) == Err::<RecordModel, Fault>(
            field_fault("missing"@, "sig"@),
        ),
{
    lemma_record_names();
}

/// What is left behind a value are the last bytes, as many as are left.
pub proof fn law_last_bytes(b: Seq<u8>, left: nat)
    requires
        left <= b.len(),
    ensures
        last_bytes(b, left).len() == left,
        last_bytes(b, left) == b.subrange(b.len() - left, b.len() as int),
{
    assert(last_bytes(b, left) =~= b.subrange(b.len() - left, b.len() as int));
}

/// A record or a body is a map; what begins with none is refused, and what is behind a record is
/// not looked at.
pub proof fn law_records_are_maps(bytes: Seq<u8>, total: nat, b: Seq<u8>)
    ensures
        map_at(bytes) matches Some((count, entries)) ==> (record_entries(
            bytes.len(),
            count,
            entries,
            RecordSlots { body: None, sig: None },
        ) matches Ok(s) ==> record_at(bytes) == record_of(s)),
        map_at(bytes) matches Some((count, entries)) ==> (record_entries(
            bytes.len(),
            count,
            entries,
            RecordSlots { body: None, sig: None },
        ) matches Err(f) ==> record_at(bytes) == Err::<RecordModel, Fault>(f)),
        map_at(bytes) is None ==> record_at(bytes) is Err,
        map_at(b) is None ==> body_at(total, b) is Err,
        body_at(total, b) matches Ok((body, rest)) ==> (map_at(b) matches Some((count, entries))
            && (body_entries(total, count, entries, no_fields()) matches Ok((s, r)) && r == rest
            && body_of(s) == Ok::<BodyModel, Fault>(body))),
        no_fields().v is None && no_fields().pubkey is None && no_fields().peer_id is None
            && no_fields().addrs is None && no_fields().vanity is None && no_fields().ts is None
            && no_fields().ttl is None,
{
}

} // verus!
