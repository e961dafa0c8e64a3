//! What a DHT node stores. A record sent by another node is taken only if it is signed, if its
//! key hashes to the place it is meant for, if it is not dated too far in the future, and if it
//! is newer than what is stored there.

use crate::bytes::array_32;
use crate::record::{
    authorizes_storage_key, owns_storage_key, read_record, Record, RecordModel, MAX_RECORD_BYTES,
};
use vstd::prelude::*;

verus! {

/// How many seconds a record may be dated ahead of the node's clock.
pub const MAX_FUTURE_SKEW: u64 = 600;

/// The record that may be stored at the place, if the bytes hold one.
pub open spec fn storable(key: Seq<u8>, value: Seq<u8>) -> Option<RecordModel> {
    match read_record(value) {
        Some(record) => if key.len() == 32 && record.signature_valid() && owns_storage_key(
            record.body.pubkey,
            key,
        ) {
            Some(record)
        } else {
            None
        },
        None => None,
    }
}

/// A record issued at `ts` is newer than what is stored. Bytes that are no record count as
/// older than any.
pub open spec fn newer_than(ts: u64, stored: Option<Seq<u8>>) -> bool {
    match stored {
        Some(bytes) => match read_record(bytes) {
            Some(record) => ts > record.body.ts,
            None => true,
        },
        None => true,
    }
}

/// The seconds that are left at `now` of a record issued at `ts` for `ttl` seconds.
pub open spec fn remaining_life(ts: u64, ttl: u32, now: u64) -> u64 {
    if ts + ttl <= now {
        0
    } else if ts + ttl - now <= u64::MAX {
        (ts + ttl - now) as u64
    } else {
        u64::MAX
    }
}

/// The seconds that are left of the record in a value, if there is one.
pub open spec fn value_lifetime(value: Seq<u8>, now: u64) -> Option<u64> {
    match read_record(value) {
        Some(record) => Some(remaining_life(record.body.ts, record.body.ttl, now)),
        None => None,
    }
}

/// What becomes of a record that another node sent.
#[derive(Debug, Clone, Copy, PartialEq, Eq, Structural)]
pub enum Inbound {
    /// It is not a record, not signed, or not at its place.
    Invalid,
    /// It is dated too far in the future.
    FromFuture,
    /// It is not newer than what is stored.
    NotNewer,
    /// It is stored and dropped again after so many seconds.
    Store(u64),
}

/// What becomes of a value sent for the place, where `stored` is what is there.
pub open spec fn inbound(key: Seq<u8>, value: Seq<u8>, stored: Option<Seq<u8>>, now: u64) -> Inbound {
    match storable(key, value) {
        None => Inbound::Invalid,
        Some(record) => if record.body.ts > now + MAX_FUTURE_SKEW {
            Inbound::FromFuture
        } else if newer_than(record.body.ts, stored) {
            Inbound::Store(remaining_life(record.body.ts, record.body.ttl, now))
        } else {
            Inbound::NotNewer
        },
    }
}

/// The bytes, if there are any.
pub open spec fn bytes_of(stored: Option<Vec<u8>>) -> Option<Seq<u8>> {
    match stored {
        Some(bytes) => Some(bytes@),
        None => None,
    }
}

/// Reads the record in a value sent for the place, or rejects it.
pub fn validate_inbound_record(key: &[u8], value: &[u8]) -> (r: Option<Record>)
    ensures
        match r {
            Some(record) => storable(key@, value@) == Some(record@),
            None => storable(key@, value@) is None,
        },
{
    let place = match array_32(key) {
        Some(place) => place,
        None => return None,
    };
    match Record::from_bytes(value) {
        Ok(record) => if authorizes_storage_key(&record, &place) {
            Some(record)
        } else {
            None
        },
        Err(_) => None,
    }
}

/// Whether a record issued at `ts` is newer than what is stored.
pub fn is_newer_than_stored(stored: &Option<Vec<u8>>, ts: u64) -> (newer: bool)
    ensures
        newer == newer_than(ts, bytes_of(*stored)),
{
    match stored {
        Some(bytes) => match Record::from_bytes(bytes.as_slice()) {
            Ok(record) => ts > record.body.ts,
            Err(_) => true,
        },
        None => true,
    }
}

/// How many seconds are left of a record at `now`.
pub fn seconds_left(ts: u64, ttl: u32, now: u64) -> (left: u64)
    ensures
        left == remaining_life(ts, ttl, now),
{
    if ts >= now {
        (ts - now).saturating_add(ttl as u64)
    } else if now - ts >= ttl as u64 {
        0
    } else {
        ttl as u64 - (now - ts)
    }
}

/// Decides on a value that another node sent for the place.
pub fn decide_inbound(key: &[u8], value: &[u8], stored: &Option<Vec<u8>>, now: u64) -> (d: Inbound)
    ensures
        d == inbound(key@, value@, bytes_of(*stored), now),
{
    match validate_inbound_record(key, value) {
        None => Inbound::Invalid,
        Some(record) => if record.body.ts > now.saturating_add(MAX_FUTURE_SKEW) {
            Inbound::FromFuture
        } else if is_newer_than_stored(stored, record.body.ts) {
            Inbound::Store(seconds_left(record.body.ts, record.body.ttl, now))
        } else {
            Inbound::NotNewer
        },
    }
}

/// How long a value that this node puts in the DHT is kept: as long as the record in it is
/// valid, or without a limit if it is no record.
pub fn lifetime_of(value: &[u8], now: u64) -> (left: Option<u64>)
    ensures
        left == value_lifetime(value@, now),
{
    match Record::from_bytes(value) {
        Ok(record) => Some(seconds_left(record.body.ts, record.body.ttl, now)),
        Err(_) => None,
    }
}

// ---------------------------------------------------------------------------
// Laws
// ---------------------------------------------------------------------------

/// A stored value is a record of the version this library knows, signed by a key that hashes to
/// the place.
pub proof fn law_only_the_owner_stores(
    key: Seq<u8>,
    value: Seq<u8>,
    stored: Option<Seq<u8>>,
    now: u64,
)
    requires
        inbound(key, value, stored, now) is Store,
    ensures
        value.len() <= MAX_RECORD_BYTES,
        read_record(value) matches Some(record) && record.signature_valid() && owns_storage_key(
            record.body.pubkey,
            key,
        ) && record.body.ts <= now + MAX_FUTURE_SKEW,
{
}

/// What is stored at a place only gets newer: a value that takes the place of a record has a
/// later date, so sending an older record again, or the same one, changes nothing.
pub proof fn law_stored_only_gets_newer(key: Seq<u8>, value: Seq<u8>, stored: Seq<u8>, now: u64)
    requires
        inbound(key, value, Some(stored), now) is Store,
    ensures
        read_record(stored) matches Some(before) ==> (read_record(value) matches Some(after)
            && after.body.ts > before.body.ts),
{
}

/// A value that was stored is not stored a second time.
pub proof fn law_storing_twice_is_refused(
    key: Seq<u8>,
    value: Seq<u8>,
    stored: Option<Seq<u8>>,
    now: u64,
    later: u64,
)
    requires
        inbound(key, value, stored, now) is Store,
        now <= later,
    ensures
        inbound(key, value, Some(value), later) == Inbound::NotNewer,
{
}

/// A stored record is dropped when its time is over: no later than `MAX_FUTURE_SKEW` seconds
/// more than its own time to live from now.
pub proof fn law_stored_records_age_out(
    key: Seq<u8>,
    value: Seq<u8>,
    stored: Option<Seq<u8>>,
    now: u64,
)
    requires
        inbound(key, value, stored, now) is Store,
    ensures
        read_record(value) matches Some(record) && inbound(key, value, stored, now)->Store_0
            <= record.body.ttl + MAX_FUTURE_SKEW,
{
}

/// What is at a place after a value was sent for it.
pub open spec fn place_after(
    key: Seq<u8>,
    stored: Option<Seq<u8>>,
    value: Seq<u8>,
    now: u64,
) -> Option<Seq<u8>> {
    if inbound(key, value, stored, now) is Store {
        Some(value)
    } else {
        stored
    }
}

/// What is at a place after several values were sent for it, each at its time.
pub open spec fn place_after_all(key: Seq<u8>, sent: Seq<(Seq<u8>, u64)>) -> Option<Seq<u8>>
    decreases sent.len(),
{
    if sent.len() == 0 {
        None
    } else {
        let (value, now) = sent.last();
        place_after(key, place_after_all(key, sent.drop_last()), value, now)
    }
}

/// Whatever is sent for a place, nothing but a record of its owner is ever there.
pub proof fn law_place_holds_only_the_owners_records(key: Seq<u8>, sent: Seq<(Seq<u8>, u64)>)
    ensures
        place_after_all(key, sent) matches Some(value) ==> storable(key, value) is Some,
    decreases sent.len(),
{
    if sent.len() > 0 {
        law_place_holds_only_the_owners_records(key, sent.drop_last());
    }
}

/// A record that may be stored, and is not from the future when it is sent, is there afterwards
/// or something at least as new is, whatever else is sent before and later.
pub proof fn law_place_keeps_up(key: Seq<u8>, sent: Seq<(Seq<u8>, u64)>, i: int)
    requires
        0 <= i < sent.len(),
        storable(key, sent[i].0) matches Some(record) && record.body.ts <= sent[i].1
            + MAX_FUTURE_SKEW,
    ensures
        place_after_all(key, sent) matches Some(value) && (storable(key, value) matches Some(newest)
            && newest.body.ts >= storable(key, sent[i].0)->0.body.ts),
    decreases sent.len(),
{
    let rest = sent.drop_last();
    law_place_holds_only_the_owners_records(key, rest);
    if i < sent.len() - 1 {
        assert(rest[i] == sent[i]);
        law_place_keeps_up(key, rest, i);
    } else {
        assert(sent.last() == sent[i]);
    }
}

/// Of two records of different dates the newer one is there in the end, in whichever order they
/// are sent.
pub proof fn law_order_of_arrival_does_not_matter(key: Seq<u8>, a: Seq<u8>, b: Seq<u8>, now: u64)
    requires
        storable(key, a) matches Some(older) && older.body.ts <= now + MAX_FUTURE_SKEW,
        storable(key, b) matches Some(newer) && newer.body.ts <= now + MAX_FUTURE_SKEW,
        storable(key, a)->0.body.ts < storable(key, b)->0.body.ts,
    ensures
        place_after(key, place_after(key, None, a, now), b, now) == Some(b),
        place_after(key, place_after(key, None, b, now), a, now) == Some(b),
{
}

/// A value may be stored at a place if and only if it is read as a record that is signed and
/// whose key has the place, which has 32 bytes.
pub proof fn law_storable_records(key: Seq<u8>, value: Seq<u8>, record: RecordModel)
    ensures
        storable(key, value) == Some(record) <==> {
            &&& read_record(value) == Some(record)
            &&& key.len() == 32
            &&& record.signature_valid()
            &&& owns_storage_key(record.body.pubkey, key)
        },
{
}

/// A record is newer than what is stored if and only if nothing is stored, or no record, or one
/// of an earlier date.
pub proof fn law_newer_than_stored(ts: u64, stored: Seq<u8>)
    ensures
        newer_than(ts, None),
        newer_than(ts, Some(stored)) <==> (read_record(stored) matches Some(before)
            ==> before.body.ts < ts),
{
}

/// What is left of the life of a record ends when its time to live after its date is over.
pub proof fn law_life_ends_after_its_time(ts: u64, ttl: u32, now: u64)
    ensures
        ts + ttl <= now ==> remaining_life(ts, ttl, now) == 0,
        ts + ttl > now && ts + ttl - now <= u64::MAX ==> now + remaining_life(ts, ttl, now) == ts
            + ttl,
        ts + ttl - now > u64::MAX ==> remaining_life(ts, ttl, now) == u64::MAX,
{
}

/// A value of this node lives as long as the record in it, and without a limit if it is none.
pub proof fn law_own_values_live_as_long_as_the_record(value: Seq<u8>, now: u64)
    ensures
        read_record(value) is None ==> value_lifetime(value, now) is None,
        read_record(value) matches Some(record) ==> value_lifetime(value, now) == Some(
            remaining_life(record.body.ts, record.body.ttl, now),
        ),
{
}

/// A value that another node sent is stored if and only if it may be stored at the place, is
/// dated at most 600 seconds ahead, and is newer than what is there, whether or not something is
/// there. It is then kept for the rest of its life. Otherwise the first of these is named that
/// does not hold.
pub proof fn law_inbound_values(key: Seq<u8>, value: Seq<u8>, stored: Option<Seq<u8>>, now: u64)
    ensures
        storable(key, value) is None ==> inbound(key, value, stored, now) == Inbound::Invalid,
        storable(key, value) matches Some(record) ==> {
            let ahead = record.body.ts > now + 600;
            let newer = stored matches Some(bytes) ==> (read_record(bytes) matches Some(before)
                ==> before.body.ts < record.body.ts);
            &&& ahead ==> inbound(key, value, stored, now) == Inbound::FromFuture
            &&& !ahead && !newer ==> inbound(key, value, stored, now) == Inbound::NotNewer
            &&& !ahead && newer ==> inbound(key, value, stored, now) == Inbound::Store(
                remaining_life(record.body.ts, record.body.ttl, now),
            )
        },
{
}

/// What is stored is seen as its bytes.
pub proof fn law_stored_is_seen_as_bytes(bytes: Vec<u8>)
    ensures
        bytes_of(Some(bytes)) == Some(bytes@),
        bytes_of(None) is None,
{
}

} // verus!
