//! Records are read as `serde` reads a struct of the same shape.

use mc_tunnel::error::VerifyError;
use mc_tunnel::record::{Record, RecordBody};
use serde::de::{Deserialize, Deserializer, Error, IgnoredAny, MapAccess, Visitor};
use serde_bytes::ByteArray;
use std::fmt;

/// The name of a field: its place in a list, or none.
struct Field(Option<usize>);

struct FieldVisitor(&'static [&'static str]);

impl<'de> Visitor<'de> for FieldVisitor {
    type Value = Field;

    fn expecting(&self, f: &mut fmt::Formatter) -> fmt::Result {
        f.write_str("field identifier")
    }

    fn visit_u64<E: Error>(self, i: u64) -> Result<Field, E> {
        Ok(Field(Some(i as usize).filter(|i| *i < self.0.len())))
    }

    fn visit_str<E: Error>(self, s: &str) -> Result<Field, E> {
        Ok(Field(self.0.iter().position(|n| *n == s)))
    }

    fn visit_bytes<E: Error>(self, b: &[u8]) -> Result<Field, E> {
        Ok(Field(self.0.iter().position(|n| n.as_bytes() == b)))
    }
}

const BODY: &[&str] = &["v", "pubkey", "peer_id", "addrs", "vanity", "ts", "ttl"];
const RECORD: &[&str] = &["body", "sig"];

struct BodyField(Field);
impl<'de> Deserialize<'de> for BodyField {
    fn deserialize<D: Deserializer<'de>>(d: D) -> Result<Self, D::Error> {
        d.deserialize_identifier(FieldVisitor(BODY)).map(BodyField)
    }
}

struct RecordField(Field);
impl<'de> Deserialize<'de> for RecordField {
    fn deserialize<D: Deserializer<'de>>(d: D) -> Result<Self, D::Error> {
        d.deserialize_identifier(FieldVisitor(RECORD)).map(RecordField)
    }
}

/// Reads the value of a field that must not have been read before.
fn once<'de, T: Deserialize<'de>, A: MapAccess<'de>>(
    slot: &mut Option<T>,
    name: &'static str,
    map: &mut A,
) -> Result<(), A::Error> {
    if slot.is_some() {
        return Err(A::Error::duplicate_field(name));
    }
    *slot = Some(map.next_value()?);
    Ok(())
}

struct Body(RecordBody);

struct BodyVisitor;

impl<'de> Visitor<'de> for BodyVisitor {
    type Value = Body;

    fn expecting(&self, f: &mut fmt::Formatter) -> fmt::Result {
        f.write_str("struct RecordBody")
    }

    fn visit_map<A: MapAccess<'de>>(self, mut map: A) -> Result<Body, A::Error> {
        let mut v: Option<u8> = None;
        let mut pubkey: Option<ByteArray<32>> = None;
        let mut peer_id: Option<String> = None;
        let mut addrs: Option<Vec<String>> = None;
        let mut vanity: Option<String> = None;
        let mut ts: Option<u64> = None;
        let mut ttl: Option<u32> = None;
        while let Some(BodyField(Field(place))) = map.next_key()? {
            match place {
                Some(0) => once(&mut v, "v", &mut map)?,
                Some(1) => once(&mut pubkey, "pubkey", &mut map)?,
                Some(2) => once(&mut peer_id, "peer_id", &mut map)?,
                Some(3) => once(&mut addrs, "addrs", &mut map)?,
                Some(4) => once(&mut vanity, "vanity", &mut map)?,
                Some(5) => once(&mut ts, "ts", &mut map)?,
                Some(6) => once(&mut ttl, "ttl", &mut map)?,
                _ => {
                    map.next_value::<IgnoredAny>()?;
                }
            }
        }
        Ok(Body(RecordBody {
            v: v.ok_or_else(|| A::Error::missing_field("v"))?,
            pubkey: pubkey
                .ok_or_else(|| A::Error::missing_field("pubkey"))?
                .into_array(),
            peer_id: peer_id.ok_or_else(|| A::Error::missing_field("peer_id"))?,
            addrs: addrs.ok_or_else(|| A::Error::missing_field("addrs"))?,
            vanity: vanity.ok_or_else(|| A::Error::missing_field("vanity"))?,
            ts: ts.ok_or_else(|| A::Error::missing_field("ts"))?,
            ttl: ttl.ok_or_else(|| A::Error::missing_field("ttl"))?,
        }))
    }
}

impl<'de> Deserialize<'de> for Body {
    fn deserialize<D: Deserializer<'de>>(d: D) -> Result<Self, D::Error> {
        d.deserialize_struct("RecordBody", BODY, BodyVisitor)
    }
}

struct Whole(Record);

struct RecordVisitor;

impl<'de> Visitor<'de> for RecordVisitor {
    type Value = Whole;

    fn expecting(&self, f: &mut fmt::Formatter) -> fmt::Result {
        f.write_str("struct Record")
    }

    fn visit_map<A: MapAccess<'de>>(self, mut map: A) -> Result<Whole, A::Error> {
        let mut body: Option<Body> = None;
        let mut sig: Option<ByteArray<64>> = None;
        while let Some(RecordField(Field(place))) = map.next_key()? {
            match place {
                Some(0) => once(&mut body, "body", &mut map)?,
                Some(1) => once(&mut sig, "sig", &mut map)?,
                _ => {
                    map.next_value::<IgnoredAny>()?;
                }
            }
        }
        Ok(Whole(Record {
            body: body.ok_or_else(|| A::Error::missing_field("body"))?.0,
            sig: sig
                .ok_or_else(|| A::Error::missing_field("sig"))?
                .into_array(),
        }))
    }
}

impl<'de> Deserialize<'de> for Whole {
    fn deserialize<D: Deserializer<'de>>(d: D) -> Result<Self, D::Error> {
        d.deserialize_struct("Record", RECORD, RecordVisitor)
    }
}

/// Checks that both readers agree, on the record or on the words.
fn agree(bytes: &[u8]) {
    let expected: Result<Whole, _> = ciborium::from_reader(bytes);
    match (expected, Record::from_bytes(bytes)) {
        (Ok(whole), Ok(record)) => assert_eq!(whole.0, record),
        (Err(e), Err(VerifyError::Malformed(why))) => {
            assert_eq!(e.to_string(), why, "{bytes:02x?}")
        }
        (Ok(_), other) => panic!("{other:?} {bytes:02x?}"),
        (Err(e), other) => panic!("{e} {other:?} {bytes:02x?}"),
    }
}

/// A deterministic source of numbers.
struct Rng(u64);

impl Rng {
    fn next(&mut self) -> u64 {
        self.0 ^= self.0 >> 12;
        self.0 ^= self.0 << 25;
        self.0 ^= self.0 >> 27;
        self.0.wrapping_mul(0x2545_f491_4f6c_dd1d)
    }

    fn below(&mut self, n: u64) -> u64 {
        (self.next() >> 16) % n
    }
}

/// A head, at times longer than it has to be.
fn head(rng: &mut Rng, major: u8, n: u64) -> Vec<u8> {
    let least = if n < 24 {
        0
    } else if n < 0x100 {
        1
    } else if n < 0x1_0000 {
        2
    } else if n < 0x1_0000_0000 {
        3
    } else {
        4
    };
    let form = if rng.below(4) == 0 { least + rng.below(5 - least) } else { least };
    let m = major << 5;
    let bytes = n.to_be_bytes();
    match form {
        0 => vec![m | n as u8],
        1 => vec![m | 24, bytes[7]],
        2 => [&[m | 25], &bytes[6..]].concat(),
        3 => [&[m | 26], &bytes[4..]].concat(),
        _ => [&[m | 27], &bytes[..]].concat(),
    }
}

fn tags(rng: &mut Rng, out: &mut Vec<u8>) {
    while rng.below(6) == 0 {
        let tag = if rng.below(2) == 0 { 2 + rng.below(2) } else { rng.next() };
        out.extend(head(rng, 6, tag));
    }
}

fn string(rng: &mut Rng, major: u8, content: &[u8]) -> Vec<u8> {
    let mut out = Vec::new();
    tags(rng, &mut out);
    if rng.below(8) == 0 {
        out.push(major << 5 | 31);
        let cut = rng.below(content.len() as u64 + 1) as usize;
        for part in [&content[..cut], &content[cut..]] {
            out.extend(head(rng, major, part.len() as u64));
            out.extend_from_slice(part);
        }
        out.push(0xff);
    } else {
        out.extend(head(rng, major, content.len() as u64));
        out.extend_from_slice(content);
    }
    out
}

fn number(rng: &mut Rng) -> Vec<u8> {
    let mut out = Vec::new();
    tags(rng, &mut out);
    let shift = rng.below(64);
    let n = rng.next() >> shift;
    let major = if rng.below(10) == 0 { 1 } else { 0 };
    out.extend(head(rng, major, n));
    out
}

/// An item of any kind.
fn anything(rng: &mut Rng, depth: u64) -> Vec<u8> {
    let mut out = Vec::new();
    match rng.below(if depth == 0 { 7 } else { 10 }) {
        0 | 1 => out = number(rng),
        2 => {
            let len = rng.below(70) as usize;
            let content: Vec<u8> = (0..len).map(|_| rng.next() as u8).collect();
            out = string(rng, 2, &content);
        }
        3 => {
            let len = rng.below(40) as usize;
            out = string(rng, 3, &vec![b'x'; len]);
        }
        4 => {
            let len = rng.below(8) as usize;
            let content: Vec<u8> = (0..len).map(|_| rng.next() as u8).collect();
            out = string(rng, 3, &content);
        }
        5 => {
            let n = 20 + rng.below(12) as u8;
            out.push(0xe0 | n);
            let more = match n {
                24 => 1,
                25 => 2,
                26 => 4,
                27 => 8,
                _ => 0,
            };
            for _ in 0..more {
                out.push(rng.next() as u8);
            }
        }
        6 => out.push(rng.next() as u8),
        k => {
            tags(rng, &mut out);
            let n = rng.below(4);
            let (major, each) = if k == 9 { (5, 2) } else { (4, 1) };
            let open = rng.below(4) == 0;
            if open {
                out.push(major << 5 | 31);
            } else {
                out.extend(head(rng, major, n));
            }
            for _ in 0..n * each {
                out.extend(anything(rng, depth - 1));
            }
            if open {
                out.push(0xff);
            }
        }
    }
    out
}

/// The name of a field, in one of the forms that it may come in.
fn name(rng: &mut Rng, s: &str) -> Vec<u8> {
    match rng.below(40) {
        0 => anything(rng, 1),
        1 => string(rng, 2, s.as_bytes()),
        2 => string(rng, 3, &vec![b'n'; 4090 + rng.0 as usize % 12]),
        3 => string(rng, 3, &[b'a', 0xff, 0xc0]),
        4 => {
            let extra = 24 + rng.below(300) as usize;
            let mut content = s.as_bytes().to_vec();
            content.resize(extra, 0xfe);
            string(rng, 3, &content)
        }
        5 => {
            let mut out = Vec::new();
            tags(rng, &mut out);
            out.extend(string(rng, 3, s.as_bytes()));
            out
        }
        _ => {
            let mut out = head(rng, 3, s.len() as u64);
            out.extend_from_slice(s.as_bytes());
            out
        }
    }
}

fn value(rng: &mut Rng, s: &str) -> Vec<u8> {
    if rng.below(25) == 0 {
        return anything(rng, 3);
    }
    match s {
        "v" => vec![rng.below(24) as u8],
        "pubkey" | "sig" => {
            let len: usize = if s == "sig" { 64 } else { 32 };
            let len = if rng.below(20) == 0 { len + rng.below(3) as usize - 1 } else { len };
            let content: Vec<u8> = (0..len).map(|_| rng.next() as u8).collect();
            if rng.below(5) == 0 {
                let mut out = head(rng, 4, len as u64);
                for b in content {
                    out.extend(head(rng, 0, b as u64));
                }
                out
            } else {
                string(rng, 2, &content)
            }
        }
        "peer_id" | "vanity" => {
            if rng.below(6) == 0 {
                string(rng, 2, b"name")
            } else {
                string(rng, 3, "n\u{e4}me".as_bytes())
            }
        }
        "addrs" => {
            let mut out = Vec::new();
            tags(rng, &mut out);
            let n = rng.below(4);
            if rng.below(5) == 0 {
                out.push(0x9f);
                for _ in 0..n {
                    out.extend(string(rng, 3, b"/a"));
                }
                out.push(0xff);
            } else if rng.below(8) == 0 {
                let len = rng.below(3) as usize;
                out.extend(string(rng, 2, &[1, 2][..len]));
            } else {
                out.extend(head(rng, 4, n));
                for _ in 0..n {
                    out.extend(string(rng, 3, b"/a"));
                }
            }
            out
        }
        _ => {
            if rng.below(8) == 0 {
                number(rng)
            } else if s == "ttl" {
                let n = rng.below(1 << 32);
                head(rng, 0, n)
            } else {
                let n = rng.next();
                head(rng, 0, n)
            }
        }
    }
}

/// A map with the names, at times in another order, with others, or without some.
fn map(rng: &mut Rng, names: &[&str], inner: &dyn Fn(&mut Rng, &str) -> Vec<u8>) -> Vec<u8> {
    let mut list: Vec<&str> = names.to_vec();
    while rng.below(3) == 0 {
        let i = rng.below(list.len() as u64) as usize;
        let j = rng.below(list.len() as u64) as usize;
        list.swap(i, j);
    }
    if rng.below(12) == 0 {
        list.remove(rng.below(list.len() as u64) as usize);
    }
    if rng.below(12) == 0 {
        list.push(names[rng.below(names.len() as u64) as usize]);
    }
    while rng.below(4) == 0 {
        list.insert(rng.below(list.len() as u64 + 1) as usize, "other");
    }
    let mut out = Vec::new();
    tags(rng, &mut out);
    let open = rng.below(4) == 0;
    if open {
        out.push(0xbf);
    } else {
        let n = list.len() as u64 + u64::from(rng.below(30) == 0);
        out.extend(head(rng, 5, n));
    }
    for n in list {
        out.extend(name(rng, n));
        if n == "other" {
            out.extend(anything(rng, 3));
        } else {
            out.extend(inner(rng, n));
        }
    }
    if open && rng.below(30) != 0 {
        out.push(0xff);
    }
    out
}

fn record(rng: &mut Rng) -> Vec<u8> {
    map(rng, RECORD, &|rng, n| {
        if n == "body" && rng.below(40) != 0 {
            map(rng, BODY, &|rng, n| value(rng, n))
        } else {
            value(rng, n)
        }
    })
}

#[test]
fn any_records_are_read_alike() {
    let mut rng = Rng(0x9e37_79b9_7f4a_7c15);
    let mut good = 0;
    for _ in 0..60_000 {
        let bytes = record(&mut rng);
        if bytes.len() > 8192 {
            continue;
        }
        agree(&bytes);
        good += usize::from(Record::from_bytes(&bytes).is_ok());
    }
    assert!(good > 2_000, "{good}");
}

#[test]
fn broken_records_are_read_alike() {
    let mut rng = Rng(0x0123_4567_89ab_cdef);
    for _ in 0..30_000 {
        let mut bytes = record(&mut rng);
        for _ in 0..=rng.below(3) {
            let at = rng.below(bytes.len() as u64) as usize;
            match rng.below(4) {
                0 => bytes.truncate(at),
                1 => bytes[at] = rng.next() as u8,
                2 => bytes.insert(at, rng.next() as u8),
                _ => {
                    bytes.remove(at);
                }
            }
            if bytes.is_empty() {
                break;
            }
        }
        if bytes.len() <= 8192 {
            agree(&bytes);
        }
    }
}

#[test]
fn random_bytes_are_read_alike() {
    let mut rng = Rng(0xfeed_face_cafe_beef);
    for _ in 0..60_000 {
        let len = rng.below(40) as usize;
        let mut bytes: Vec<u8> = (0..len).map(|_| rng.next() as u8).collect();
        if rng.below(2) == 0 && len > 0 {
            bytes[0] = [0xa1, 0xa2, 0xbf, 0xc2, 0xb9][rng.below(5) as usize];
        }
        agree(&bytes);
    }
}

#[test]
fn deep_nesting_is_read_alike() {
    for depth in [0usize, 1, 100, 252, 253, 254, 255, 256, 257, 300, 1000] {
        for item in [0x81u8, 0xc0, 0x9f] {
            let mut nested = vec![item; depth];
            nested.push(0);
            // Beside a body, inside a body, and as each field of a body.
            let mut outer = vec![0xa1, 0x61, b'x'];
            outer.extend_from_slice(&nested);
            agree(&outer);
            for field in ["x", "v", "pubkey", "peer_id", "addrs", "vanity", "ts", "ttl"] {
                let mut inner = vec![0xa1, 0x64, b'b', b'o', b'd', b'y', 0xa1];
                inner.push(0x60 + field.len() as u8);
                inner.extend_from_slice(field.as_bytes());
                inner.extend_from_slice(&nested);
                agree(&inner);
            }
            let mut whole = vec![item; depth];
            whole.extend_from_slice(&[0xa1, 0x61, b'x', 0]);
            agree(&whole);
            let mut body = vec![0xa1, 0x64, b'b', b'o', b'd', b'y'];
            body.extend_from_slice(&whole);
            agree(&body);
        }
    }
}
