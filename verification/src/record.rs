//! Signed records: the binding between a name and a current network location. A record is
//! trusted only after its version, its signature, the keyid of its key and its age have been
//! checked.

use crate::bytes::same_bytes;
use crate::crypto::{
    ed25519_public, ed25519_sign, ed25519_signature, ed25519_verifies, ed25519_verify, secret_of,
    sha256, sha256_digest,
};
use crate::error::VerifyError;
use crate::format::{
    body_at, body_before, body_then, lemma_body_reads_back, lemma_record_reads_back,
    read_record_bytes, record_at, record_bytes, write_record,
};
use crate::name::{keyid_from_pubkey, keyid_full, keyid_matches, keyid_matches_pubkey, keyid_of};
use crate::text::texts;
use crate::cbor::Fault;
use crate::{DHT_KEY_PREFIX, MAX_KEYID_LEN, RECORD_VERSION};
use ed25519_dalek::SigningKey;
use vstd::prelude::*;
use vstd::string::*;
use vstd::utf8::encode_utf8;

verus! {

/// Most bytes of a serialized record. A peer cannot make a reader hold more than this.
pub const MAX_RECORD_BYTES: usize = 8 * 1024;

// ---------------------------------------------------------------------------
// Model
// ---------------------------------------------------------------------------

/// What a record says.
pub struct BodyModel {
    pub v: u8,
    pub pubkey: Seq<u8>,
    pub peer_id: Seq<char>,
    pub addrs: Seq<Seq<char>>,
    pub vanity: Seq<char>,
    pub ts: u64,
    pub ttl: u32,
}

/// What a record says, and the signature on it.
pub struct RecordModel {
    pub body: BodyModel,
    pub sig: Seq<u8>,
}

impl BodyModel {
    /// The key has the length of an ed25519 public key.
    pub open spec fn well_formed(self) -> bool {
        self.pubkey.len() == 32
    }

    /// The bytes that are signed. The order of the fields in them is part of the format.
    pub open spec fn canonical(self) -> Seq<u8> {
        body_then(self, Seq::empty())
    }
}

impl RecordModel {
    /// Key and signature have the lengths that ed25519 gives them.
    pub open spec fn well_formed(self) -> bool {
        self.body.well_formed() && self.sig.len() == 64
    }

    /// The key in the record made the signature on the body.
    pub open spec fn signed(self) -> bool {
        ed25519_verifies(self.body.pubkey, self.body.canonical(), self.sig)
    }

    /// The record is of the right version and signed.
    pub open spec fn signature_valid(self) -> bool {
        self.body.v == RECORD_VERSION && self.signed()
    }
}

/// A body with the signature of a key on it.
pub open spec fn signed_by(secret: Seq<u8>, body: BodyModel) -> RecordModel {
    RecordModel { body, sig: ed25519_signature(secret, body.canonical())@ }
}

/// The record that a reader accepts from the bytes: oversized input is never looked at.
pub open spec fn read_record(bytes: Seq<u8>) -> Option<RecordModel> {
    if bytes.len() > MAX_RECORD_BYTES {
        None
    } else {
        record_at(bytes).ok()
    }
}

/// The distance between two points in time.
pub open spec fn time_distance(a: u64, b: u64) -> int {
    if a >= b {
        a - b
    } else {
        b - a
    }
}

/// The first check that a record fails, if it fails any.
pub open spec fn objection(
    record: RecordModel,
    expected_keyid: Seq<char>,
    now: u64,
    max_skew: u64,
) -> Option<VerifyError> {
    if record.body.v != RECORD_VERSION {
        Some(VerifyError::UnsupportedVersion(record.body.v))
    } else if !record.signed() {
        Some(VerifyError::BadSignature)
    } else if !keyid_matches(expected_keyid, record.body.pubkey) {
        Some(VerifyError::KeyidMismatch)
    } else if time_distance(now, record.body.ts) > max_skew {
        Some(VerifyError::StaleTimestamp { ts: record.body.ts, now, skew: max_skew })
    } else {
        None
    }
}

/// The place in the DHT for a keyid.
pub open spec fn storage_key(keyid: Seq<char>) -> Seq<u8> {
    sha256(encode_utf8(DHT_KEY_PREFIX@) + encode_utf8(keyid))@
}

/// The key hashes to `place` at some keyid length.
pub open spec fn owns_storage_key(pubkey: Seq<u8>, place: Seq<u8>) -> bool {
    exists|len: nat|
        1 <= len <= MAX_KEYID_LEN && #[trigger] storage_key(keyid_of(pubkey, len)) == place
}

/// The record in a candidate, if it passes all checks.
pub open spec fn verified(
    candidate: Seq<u8>,
    expected_keyid: Seq<char>,
    now: u64,
    max_skew: u64,
) -> Option<RecordModel> {
    match read_record(candidate) {
        Some(record) => if objection(record, expected_keyid, now, max_skew) is None {
            Some(record)
        } else {
            None
        },
        None => None,
    }
}

/// The newest record among the candidates that pass all checks; the last of several that are
/// equally new.
pub open spec fn selected(
    candidates: Seq<Seq<u8>>,
    expected_keyid: Seq<char>,
    now: u64,
    max_skew: u64,
) -> Option<RecordModel>
    decreases candidates.len(),
{
    if candidates.len() == 0 {
        None
    } else {
        let before = selected(candidates.drop_last(), expected_keyid, now, max_skew);
        match verified(candidates.last(), expected_keyid, now, max_skew) {
            None => before,
            Some(record) => match before {
                Some(best) if best.body.ts > record.body.ts => before,
                _ => Some(record),
            },
        }
    }
}

/// The bytes of each candidate.
pub open spec fn byte_strings(list: Seq<Vec<u8>>) -> Seq<Seq<u8>> {
    list.map_values(|b: Vec<u8>| b@)
}

// ---------------------------------------------------------------------------
// Types
// ---------------------------------------------------------------------------

/// The signed part of a record.
#[derive(Debug, Clone, PartialEq, Eq)]
pub struct RecordBody {
    /// Protocol version.
    pub v: u8,
    /// ed25519 public key of the owner.
    pub pubkey: [u8; 32],
    /// The owner's peer id, as text.
    pub peer_id: String,
    /// Addresses at which the owner can be reached now.
    pub addrs: Vec<String>,
    /// Vanity label; empty if there is none.
    pub vanity: String,
    /// When the record was issued, in seconds of Unix time.
    pub ts: u64,
    /// For how many seconds the record is valid.
    pub ttl: u32,
}

impl View for RecordBody {
    type V = BodyModel;

    open spec fn view(&self) -> BodyModel {
        BodyModel {
            v: self.v,
            pubkey: self.pubkey@,
            peer_id: self.peer_id@,
            addrs: texts(self.addrs@),
            vanity: self.vanity@,
            ts: self.ts,
            ttl: self.ttl,
        }
    }
}

/// A body and the signature on it, as stored in the DHT.
#[derive(Debug, Clone, PartialEq, Eq)]
pub struct Record {
    pub body: RecordBody,
    /// ed25519 signature on the canonical bytes of the body.
    pub sig: [u8; 64],
}

impl View for Record {
    type V = RecordModel;

    open spec fn view(&self) -> RecordModel {
        RecordModel { body: self.body@, sig: self.sig@ }
    }
}

// ---------------------------------------------------------------------------
// Records
// ---------------------------------------------------------------------------

impl RecordBody {
    /// The bytes that get signed and verified. They determine the body: no other body has them.
    pub fn canonical_bytes(&self) -> (bytes: Vec<u8>)
        ensures
            bytes@ == self@.canonical(),
            body_at(bytes@.len(), bytes@) == Ok::<(BodyModel, Seq<u8>), Fault>(
                (self@, Seq::empty()),
            ),
    {
        let bytes = body_before(self, Vec::new());
        proof {
            lemma_body_reads_back(bytes@.len(), self@, Seq::empty());
        }
        bytes
    }
}

impl Record {
    /// Signs a body.
    pub fn sign(body: RecordBody, signing_key: &SigningKey) -> (record: Self)
        ensures
            record.body == body,
            record@ == signed_by(secret_of(*signing_key)@, body@),
            body.pubkey@ == ed25519_public(secret_of(*signing_key)@)@ ==> record@.signed(),
    {
        let sig = ed25519_sign(signing_key, body.canonical_bytes().as_slice());
        Self { body, sig }
    }

    /// Serializes the record for the DHT. What was written reads back as this record.
    pub fn to_bytes(&self) -> (bytes: Vec<u8>)
        ensures
            bytes@ == record_bytes(self@),
            record_at(bytes@) == Ok::<RecordModel, Fault>(self@),
            bytes@.len() <= MAX_RECORD_BYTES ==> read_record(bytes@) == Some(self@),
    {
        let bytes = write_record(self);
        proof {
            lemma_record_reads_back(self@);
        }
        bytes
    }

    /// Reads an untrusted record. The size is checked before anything else.
    pub fn from_bytes(bytes: &[u8]) -> (r: Result<Self, VerifyError>)
        ensures
            match r {
                Ok(record) => bytes@.len() <= MAX_RECORD_BYTES && record_at(bytes@) == Ok::<
                    RecordModel,
                    Fault,
                >(record@),
                Err(VerifyError::TooLarge(limit)) => bytes@.len() > MAX_RECORD_BYTES && limit
                    == MAX_RECORD_BYTES,
                Err(VerifyError::Malformed(why)) => bytes@.len() <= MAX_RECORD_BYTES && (record_at(
                    bytes@,
                ) matches Err(fault) && why@ == fault.words()),
                Err(_) => false,
            },
    {
        if bytes.len() > MAX_RECORD_BYTES {
            return Err(VerifyError::TooLarge(MAX_RECORD_BYTES));
        }
        match read_record_bytes(bytes) {
            Err(fault) => Err(VerifyError::Malformed(fault.message())),
            Ok(record) => Ok(record),
        }
    }

    /// Checks the version, the signature, that the key belongs to the keyid that was asked for,
    /// and that the record was issued within `max_skew` seconds of `now`, in this order.
    pub fn verify(&self, expected_keyid: &str, now: u64, max_skew: u64) -> (r: Result<
        (),
        VerifyError,
    >)
        ensures
            match r {
                Ok(_) => objection(self@, expected_keyid@, now, max_skew) is None,
                Err(why) => objection(self@, expected_keyid@, now, max_skew) == Some(why),
            },
    {
        if self.body.v != RECORD_VERSION {
            return Err(VerifyError::UnsupportedVersion(self.body.v));
        }
        if !ed25519_verify(&self.body.pubkey, self.body.canonical_bytes().as_slice(), &self.sig) {
            return Err(VerifyError::BadSignature);
        }
        if !keyid_matches_pubkey(expected_keyid, &self.body.pubkey) {
            return Err(VerifyError::KeyidMismatch);
        }
        let distance: u64 = if now >= self.body.ts {
            now - self.body.ts
        } else {
            self.body.ts - now
        };
        if distance > max_skew {
            return Err(VerifyError::StaleTimestamp { ts: self.body.ts, now, skew: max_skew });
        }
        Ok(())
    }

    /// Checks the version and the signature only, for use where the keyid is not known.
    pub fn signature_valid(&self) -> (valid: bool)
        ensures
            valid == self@.signature_valid(),
    {
        if self.body.v != RECORD_VERSION {
            return false;
        }
        ed25519_verify(&self.body.pubkey, self.body.canonical_bytes().as_slice(), &self.sig)
    }
}

/// Whether a DHT node may store the record at `storage_key`: it is signed, and its key hashes to
/// that place at some keyid length. Freshness is left to whoever resolves the name.
pub fn authorizes_storage_key(record: &Record, storage_key: &[u8; 32]) -> (yes: bool)
    ensures
        yes == (record@.signature_valid() && owns_storage_key(record@.body.pubkey, storage_key@)),
{
    if !record.signature_valid() {
        return false;
    }
    let mut len: usize = 1;
    while len <= MAX_KEYID_LEN
        invariant
            1 <= len <= MAX_KEYID_LEN + 1,
            record@.body.pubkey == record.body.pubkey@,
            record@.signature_valid(),
            forall|l: nat|
                1 <= l < len ==> #[trigger] self::storage_key(keyid_of(record@.body.pubkey, l))
                    != storage_key@,
        decreases MAX_KEYID_LEN + 1 - len,
    {
        let keyid = keyid_from_pubkey(&record.body.pubkey, len);
        let place = dht_key(keyid.as_str());
        if same_bytes(place.as_slice(), storage_key.as_slice()) {
            assert(self::storage_key(keyid_of(record@.body.pubkey, len as nat)) == storage_key@);
            return true;
        }
        len += 1;
    }
    false
}

/// From what a DHT lookup returned, picks the newest record that passes all checks.
pub fn select_verified(
    candidates: &[Vec<u8>],
    expected_keyid: &str,
    now: u64,
    max_skew: u64,
) -> (best: Option<Record>)
    ensures
        match best {
            Some(record) => selected(byte_strings(candidates@), expected_keyid@, now, max_skew)
                == Some(record@),
            None => selected(byte_strings(candidates@), expected_keyid@, now, max_skew) is None,
        },
{
    let ghost all = byte_strings(candidates@);
    let mut best: Option<Record> = None;
    let mut i: usize = 0;
    while i < candidates.len()
        invariant
            i <= candidates@.len(),
            all == byte_strings(candidates@),
            match best {
                Some(record) => selected(all.take(i as int), expected_keyid@, now, max_skew)
                    == Some(record@),
                None => selected(all.take(i as int), expected_keyid@, now, max_skew) is None,
            },
        decreases candidates@.len() - i,
    {
        assert(all.take(i + 1).drop_last() =~= all.take(i as int));
        assert(all.take(i + 1).last() == candidates@[i as int]@);
        match Record::from_bytes(candidates[i].as_slice()) {
            Ok(record) => match record.verify(expected_keyid, now, max_skew) {
                Ok(_) => {
                    let newer = match &best {
                        Some(b) => b.body.ts <= record.body.ts,
                        None => true,
                    };
                    if newer {
                        best = Some(record);
                    }
                },
                Err(_) => {},
            },
            Err(_) => {},
        }
        i += 1;
    }
    assert(all.take(all.len() as int) =~= all);
    best
}

/// The place in the DHT for a keyid: the SHA-256 hash of the protocol's prefix and the keyid as
/// it stands in the name. The connecting side knows no more of the key than that.
pub fn dht_key(keyid: &str) -> (key: [u8; 32])
    ensures
        key@ == storage_key(keyid@),
{
    let mut message: Vec<u8> = DHT_KEY_PREFIX.as_bytes_vec();
    let mut tail: Vec<u8> = keyid.as_bytes_vec();
    message.append(&mut tail);
    sha256_digest(message.as_slice())
}

// ---------------------------------------------------------------------------
// Laws
// ---------------------------------------------------------------------------

/// A record that passes all checks is of this version, is signed by a key that has the keyid
/// that was asked for, and was issued within the allowed distance of now.
pub proof fn law_verified_record_is_bound(
    record: RecordModel,
    keyid: Seq<char>,
    now: u64,
    max_skew: u64,
)
    requires
        objection(record, keyid, now, max_skew) is None,
    ensures
        record.signature_valid(),
        keyid_matches(keyid, record.body.pubkey),
        record.body.ts - max_skew <= now <= record.body.ts + max_skew,
{
}

/// A signed record of this version passes under each keyid of its key, as long as it is fresh.
pub proof fn law_own_record_verifies(record: RecordModel, len: nat, now: u64, max_skew: u64)
    requires
        record.signature_valid(),
        record.body.ts - max_skew <= now <= record.body.ts + max_skew,
    ensures
        objection(record, keyid_of(record.body.pubkey, len), now, max_skew) is None,
{
}

/// A record of a key that does not have the keyid never passes, whoever signed it and whatever
/// the clock says.
pub proof fn law_foreign_key_is_rejected(
    record: RecordModel,
    keyid: Seq<char>,
    now: u64,
    max_skew: u64,
)
    requires
        !keyid_matches(keyid, record.body.pubkey),
    ensures
        objection(record, keyid, now, max_skew) is Some,
{
}

/// The owner of a key may store a signed record at the place of each of its keyids.
pub proof fn law_owner_may_store(record: RecordModel, len: nat)
    requires
        1 <= len <= MAX_KEYID_LEN,
    ensures
        owns_storage_key(record.body.pubkey, storage_key(keyid_of(record.body.pubkey, len))),
{
}

/// The candidates that pass all checks, in their order.
pub open spec fn passing(
    candidates: Seq<Seq<u8>>,
    keyid: Seq<char>,
    now: u64,
    max_skew: u64,
) -> Seq<Seq<u8>> {
    candidates.filter(|c: Seq<u8>| verified(c, keyid, now, max_skew) is Some)
}

proof fn lemma_only_passing_count(
    candidates: Seq<Seq<u8>>,
    keyid: Seq<char>,
    now: u64,
    max_skew: u64,
)
    ensures
        selected(candidates, keyid, now, max_skew) == selected(
            passing(candidates, keyid, now, max_skew),
            keyid,
            now,
            max_skew,
        ),
    decreases candidates.len(),
{
    reveal(Seq::filter);
    if candidates.len() > 0 {
        let rest = candidates.drop_last();
        lemma_only_passing_count(rest, keyid, now, max_skew);
        if verified(candidates.last(), keyid, now, max_skew) is Some {
            let kept = passing(rest, keyid, now, max_skew);
            assert(kept.push(candidates.last()).drop_last() =~= kept);
        }
    }
}

/// Candidates that fail a check have no influence on which record is selected, however many
/// there are and wherever they stand: only those that pass count.
pub proof fn law_junk_does_not_matter(
    candidates: Seq<Seq<u8>>,
    others: Seq<Seq<u8>>,
    keyid: Seq<char>,
    now: u64,
    max_skew: u64,
)
    requires
        passing(candidates, keyid, now, max_skew) == passing(others, keyid, now, max_skew),
    ensures
        selected(candidates, keyid, now, max_skew) == selected(others, keyid, now, max_skew),
        selected(candidates, keyid, now, max_skew) == selected(
            passing(candidates, keyid, now, max_skew),
            keyid,
            now,
            max_skew,
        ),
{
    lemma_only_passing_count(candidates, keyid, now, max_skew);
    lemma_only_passing_count(others, keyid, now, max_skew);
}

/// A record is selected if and only if a candidate passes all checks; it is then one of those,
/// and none of those is newer.
#[verifier::rlimit(40)]
pub proof fn law_selected_is_newest(
    candidates: Seq<Seq<u8>>,
    keyid: Seq<char>,
    now: u64,
    max_skew: u64,
)
    ensures
        match selected(candidates, keyid, now, max_skew) {
            None => forall|i: int|
                0 <= i < candidates.len() ==> verified(#[trigger] candidates[i], keyid, now, max_skew)
                    is None,
            Some(best) => {
                &&& exists|i: int|
                    0 <= i < candidates.len() && verified(
                        #[trigger] candidates[i],
                        keyid,
                        now,
                        max_skew,
                    ) == Some(best)
                &&& forall|i: int|
                    0 <= i < candidates.len() ==> (verified(
                        #[trigger] candidates[i],
                        keyid,
                        now,
                        max_skew,
                    ) matches Some(record) ==> record.body.ts <= best.body.ts)
            },
        },
    decreases candidates.len(),
{
    if candidates.len() > 0 {
        let rest = candidates.drop_last();
        law_selected_is_newest(rest, keyid, now, max_skew);
        assert forall|i: int| 0 <= i < rest.len() implies rest[i] == #[trigger] candidates[i] by {}
        let last = candidates.len() - 1;
        assert(candidates[last] == candidates.last());
        if let Some(best) = selected(rest, keyid, now, max_skew) {
            let i = choose|i: int|
                0 <= i < rest.len() && verified(#[trigger] rest[i], keyid, now, max_skew) == Some(
                    best,
                );
            assert(verified(candidates[i], keyid, now, max_skew) == Some(best));
        }
    }
}

/// A record that was stored or replayed under a name cannot displace one that is newer: with a
/// newer verified candidate present, the older one is not selected.
pub proof fn law_replay_loses(
    candidates: Seq<Seq<u8>>,
    newer: int,
    old_record: RecordModel,
    keyid: Seq<char>,
    now: u64,
    max_skew: u64,
)
    requires
        0 <= newer < candidates.len(),
        verified(candidates[newer], keyid, now, max_skew) matches Some(r) && r.body.ts
            > old_record.body.ts,
    ensures
        selected(candidates, keyid, now, max_skew) != Some(old_record),
{
    law_selected_is_newest(candidates, keyid, now, max_skew);
}

/// A record and its body are seen field by field.
pub proof fn law_records_are_seen_field_by_field(record: Record)
    ensures
        record@.sig == record.sig@,
        record@.body.v == record.body.v,
        record@.body.pubkey == record.body.pubkey@,
        record@.body.peer_id == record.body.peer_id@,
        record@.body.addrs.len() == record.body.addrs@.len(),
        forall|i: int|
            0 <= i < record.body.addrs@.len() ==> #[trigger] record@.body.addrs[i]
                == record.body.addrs@[i]@,
        record@.body.vanity == record.body.vanity@,
        record@.body.ts == record.body.ts,
        record@.body.ttl == record.body.ttl,
{
}

/// Candidates are seen as their bytes.
pub proof fn law_candidates_are_seen_as_bytes(list: Seq<Vec<u8>>)
    ensures
        byte_strings(list).len() == list.len(),
        forall|i: int| 0 <= i < list.len() ==> #[trigger] byte_strings(list)[i] == list[i]@,
{
}

/// Bytes are read as a record if and only if there are at most 8192 of them and they hold one.
pub proof fn law_only_small_inputs_are_read(bytes: Seq<u8>, record: RecordModel)
    ensures
        read_record(bytes) == Some(record) <==> bytes.len() <= 8192 && record_at(bytes) == Ok::<
            RecordModel,
            Fault,
        >(record),
{
}

/// A signature is valid if and only if the record is of the first version and the key in it made
/// the signature on the bytes of the body. Signing leaves the body as it is.
pub proof fn law_signature_is_on_the_body(record: RecordModel, secret: Seq<u8>)
    ensures
        record.signature_valid() <==> record.body.v == 1 && ed25519_verifies(
            record.body.pubkey,
            record.body.canonical(),
            record.sig,
        ),
        record.body.canonical() == body_then(record.body, Seq::empty()),
        signed_by(secret, record.body).body == record.body,
        signed_by(secret, record.body).sig == ed25519_signature(secret, record.body.canonical())@,
{
}

/// A record passes if and only if it is of the first version, its key made the signature on it,
/// its key has the keyid that was asked for, and its date is no further from now than allowed,
/// before or after. The first of these that does not hold is named.
pub proof fn law_checks_of_a_record(record: RecordModel, keyid: Seq<char>, now: u64, max_skew: u64)
    ensures
        ({
            let version = record.body.v == 1;
            let signed = ed25519_verifies(record.body.pubkey, record.body.canonical(), record.sig);
            let owner = keyid.is_prefix_of(keyid_full(record.body.pubkey));
            let fresh = now - record.body.ts <= max_skew && record.body.ts - now <= max_skew;
            let found = objection(record, keyid, now, max_skew);
            &&& found is None <==> version && signed && owner && fresh
            &&& !version ==> found == Some(VerifyError::UnsupportedVersion(record.body.v))
            &&& version && !signed ==> found == Some(VerifyError::BadSignature)
            &&& version && signed && !owner ==> found == Some(VerifyError::KeyidMismatch)
            &&& version && signed && owner && !fresh ==> found == Some(
                VerifyError::StaleTimestamp { ts: record.body.ts, now, skew: max_skew },
            )
        }),
{
}

/// The distance between two points in time is the same both ways and never negative.
pub proof fn law_time_distance(a: u64, b: u64)
    ensures
        time_distance(a, b) == time_distance(b, a),
        time_distance(a, b) >= 0,
        time_distance(a, b) == a - b || time_distance(a, b) == b - a,
{
}

/// The place of a keyid is the digest of the prefix of this protocol and the keyid.
pub proof fn law_place_of_a_keyid(keyid: Seq<char>)
    ensures
        storage_key(keyid) == sha256(encode_utf8("mc-tunnel:v1:"@) + encode_utf8(keyid))@,
{
}

/// The places of a key are those of its keyids of 1 to 52 characters, and no others.
pub proof fn law_places_of_a_key(pubkey: Seq<u8>, place: Seq<u8>)
    ensures
        owns_storage_key(pubkey, place) <==> exists|len: nat|
            1 <= len <= 52 && place == sha256(
                encode_utf8("mc-tunnel:v1:"@) + encode_utf8(#[trigger] keyid_of(pubkey, len)),
            )@,
{
    if owns_storage_key(pubkey, place) {
        let len = choose|len: nat|
            1 <= len <= MAX_KEYID_LEN && #[trigger] storage_key(keyid_of(pubkey, len)) == place;
        let _ = keyid_of(pubkey, len);
    }
    if exists|len: nat|
        1 <= len <= 52 && place == sha256(
            encode_utf8("mc-tunnel:v1:"@) + encode_utf8(#[trigger] keyid_of(pubkey, len)),
        )@ {
        let len = choose|len: nat|
            1 <= len <= 52 && place == sha256(
                encode_utf8("mc-tunnel:v1:"@) + encode_utf8(#[trigger] keyid_of(pubkey, len)),
            )@;
        assert(storage_key(keyid_of(pubkey, len)) == place);
    }
}

/// A candidate counts if and only if it is read as a record that passes all checks.
pub proof fn law_candidate_counts_if_it_passes(
    candidate: Seq<u8>,
    keyid: Seq<char>,
    now: u64,
    max_skew: u64,
    record: RecordModel,
)
    ensures
        verified(candidate, keyid, now, max_skew) == Some(record) <==> candidate.len() <= 8192
            && record_at(candidate) == Ok::<RecordModel, Fault>(record) && objection(
            record,
            keyid,
            now,
            max_skew,
        ) is None,
{
}

/// The record that is selected is that of a candidate before which none that counts is newer,
/// and behind which all that count are older.
#[verifier::rlimit(40)]
pub proof fn law_last_of_the_newest_is_selected(
    candidates: Seq<Seq<u8>>,
    keyid: Seq<char>,
    now: u64,
    max_skew: u64,
)
    ensures
        selected(candidates, keyid, now, max_skew) matches Some(best) ==> exists|i: int|
            {
                &&& 0 <= i < candidates.len()
                &&& verified(#[trigger] candidates[i], keyid, now, max_skew) == Some(best)
                &&& forall|j: int|
                    0 <= j < i ==> (verified(#[trigger] candidates[j], keyid, now, max_skew) matches Some(
                        other,
                    ) ==> other.body.ts <= best.body.ts)
                &&& forall|j: int|
                    i < j < candidates.len() ==> (verified(
                        #[trigger] candidates[j],
                        keyid,
                        now,
                        max_skew,
                    ) matches Some(other) ==> other.body.ts < best.body.ts)
            },
    decreases candidates.len(),
{
    if candidates.len() > 0 {
        let rest = candidates.drop_last();
        let last = candidates.len() - 1;
        assert(candidates[last] == candidates.last());
        assert forall|i: int| 0 <= i < rest.len() implies rest[i] == #[trigger] candidates[i] by {}
        law_last_of_the_newest_is_selected(rest, keyid, now, max_skew);
        law_selected_is_newest(rest, keyid, now, max_skew);
        let before = selected(rest, keyid, now, max_skew);
        let chosen = selected(candidates, keyid, now, max_skew);
        if chosen is Some && chosen == before && !(verified(
            candidates.last(),
            keyid,
            now,
            max_skew,
        ) matches Some(record) && record.body.ts >= chosen->0.body.ts) {
            let best = chosen->0;
            let i = choose|i: int|
                {
                    &&& 0 <= i < rest.len()
                    &&& verified(#[trigger] rest[i], keyid, now, max_skew) == Some(best)
                    &&& forall|j: int|
                        0 <= j < i ==> (verified(#[trigger] rest[j], keyid, now, max_skew) matches Some(
                            other,
                        ) ==> other.body.ts <= best.body.ts)
                    &&& forall|j: int|
                        i < j < rest.len() ==> (verified(
                            #[trigger] rest[j],
                            keyid,
                            now,
                            max_skew,
                        ) matches Some(other) ==> other.body.ts < best.body.ts)
                };
            assert(verified(candidates[i], keyid, now, max_skew) == Some(best));
            assert forall|j: int| 0 <= j < i implies (verified(
                #[trigger] candidates[j],
                keyid,
                now,
                max_skew,
            ) matches Some(other) ==> other.body.ts <= best.body.ts) by {
                assert(rest[j] == candidates[j]);
            }
            assert forall|j: int| i < j < candidates.len() implies (verified(
                #[trigger] candidates[j],
                keyid,
                now,
                max_skew,
            ) matches Some(other) ==> other.body.ts < best.body.ts) by {
                if j < last {
                    assert(rest[j] == candidates[j]);
                }
            }
        } else if chosen is Some {
            let best = chosen->0;
            assert(verified(candidates[last], keyid, now, max_skew) == Some(best));
            assert forall|j: int| 0 <= j < last implies (verified(
                #[trigger] candidates[j],
                keyid,
                now,
                max_skew,
            ) matches Some(other) ==> other.body.ts <= best.body.ts) by {
                assert(rest[j] == candidates[j]);
            }
        }
    }
}

} // verus!
