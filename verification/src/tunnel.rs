//! Publishing a server under a name and finding it again: what is put in the DHT and when, how
//! a name is resolved, which peer is then called, and what the user is told.

use crate::addr::{
    addr_texts, all_well_formed, copy_addr, ed25519_peer_id, multiaddr_components, parse_multiaddr,
    peer_id_from_ed25519, Multiaddr, NetError,
};
use crate::cbor::Fault;
use crate::crypto::{ed25519_verifies, sha256};
use crate::error::CoreError;
use crate::format::{record_at, record_bytes};
use crate::identity::Identity;
use crate::name::{keyid_len_objection, keyid_matches, keyid_of, vanity_objection, Name, NameModel};
use crate::node::{DoctorInfo, NetConfig};
use crate::order::{increasing, insert_sorted, law_increasing_lists_have_no_duplicates};
use crate::record::{
    byte_strings, dht_key, law_own_record_verifies, law_owner_may_store,
    law_selected_is_newest, read_record, select_verified, selected, signed_by, storage_key,
    time_distance, verified, BodyModel, Record, RecordBody, RecordModel,
};
use crate::store::{remaining_life, storable};
use crate::text::{
    contains, contains_text, decimal, decimal_of, join, joined, law_contained_text_stands_between,
    occurs_at, same_text, starts_with, texts,
};
use crate::{MAX_KEYID_LEN, RECORD_VERSION};
use vstd::prelude::*;
use vstd::string::*;
use vstd::utf8::encode_utf8;

verus! {

/// For how many seconds a record is valid.
pub const RECORD_TTL: u32 = 600;

/// How many seconds a record's date may be off when it is verified.
pub const MAX_SKEW: u64 = 300;

/// For how many seconds a name is looked for.
pub const RESOLVE_TIMEOUT_SECS: u64 = 45;

/// Seconds between two attempts to resolve a name.
pub const RESOLVE_PAUSE_SECS: u64 = 2;

/// Seconds until the next attempt to publish, after one that failed.
pub const RETRY_SECS: u64 = 5;

/// Seconds until a published record is replaced by a fresh one: half its time to live.
pub const REFRESH_SECS: u64 = 300;

/// Seconds that a new node gets to find out its addresses before it publishes or reports.
pub const SETTLE_SECS: u64 = 2;

/// Seconds that a new node gets before it is diagnosed.
pub const DOCTOR_SECS: u64 = 3;

// ---------------------------------------------------------------------------
// Configuration of the node
// ---------------------------------------------------------------------------

/// What shapes the configuration of a node.
pub struct NetOpts<'a> {
    pub bootstrap: &'a [String],
    pub relays: &'a [String],
    pub use_ipfs_dht: bool,
    pub enable_mdns: bool,
    /// Whether to reserve slots on relays, as publishers do.
    pub reserve: bool,
    /// Whether to be a relay.
    pub relay_server: bool,
}

/// The first text that is no multiaddr.
pub open spec fn first_invalid(list: Seq<Seq<char>>) -> Option<Seq<char>>
    decreases list.len(),
{
    if list.len() == 0 {
        None
    } else {
        match first_invalid(list.drop_last()) {
            Some(text) => Some(text),
            None => if multiaddr_components(list.last()) is Err {
                Some(list.last())
            } else {
                None
            },
        }
    }
}

proof fn lemma_first_invalid_stays(list: Seq<Seq<char>>, n: int)
    requires
        0 <= n <= list.len(),
        first_invalid(list.take(n)) is Some,
    ensures
        first_invalid(list) == first_invalid(list.take(n)),
    decreases list.len() - n,
{
    if n == list.len() {
        assert(list.take(n) =~= list);
    } else {
        assert(list.take(n + 1).drop_last() =~= list.take(n));
        lemma_first_invalid_stays(list, n + 1);
    }
}

/// Where slots are reserved: on the relays, or on the bootstrap nodes if no relays are given.
pub open spec fn reserved(opts: NetOpts) -> Seq<Seq<char>> {
    if !opts.reserve {
        Seq::empty()
    } else if opts.relays@.len() == 0 {
        texts(opts.bootstrap@)
    } else {
        texts(opts.relays@)
    }
}

/// The first address that is refused. Bootstrap nodes are looked at first.
pub open spec fn refused_addr(opts: NetOpts) -> Option<Seq<char>> {
    match first_invalid(texts(opts.bootstrap@)) {
        Some(text) => Some(text),
        None => first_invalid(reserved(opts)),
    }
}

/// The error says that the text is no multiaddr, and why.
pub open spec fn is_addr_error(text: Seq<char>, e: NetError) -> bool {
    e matches NetError::InvalidMultiaddr { text: t, why } && t@ == text && multiaddr_components(text)
        == Err::<Seq<Option<Seq<char>>>, Seq<char>>(why@)
}

/// Reads addresses; stops at the first that is none.
pub fn parse_addrs(strs: &[String]) -> (r: Result<Vec<Multiaddr>, NetError>)
    ensures
        match r {
            Ok(list) => first_invalid(texts(strs@)) is None && all_well_formed(list@)
                && addr_texts(list@) == texts(strs@),
            Err(e) => first_invalid(texts(strs@)) matches Some(text) && is_addr_error(text, e),
        },
{
    let ghost all = texts(strs@);
    let mut list: Vec<Multiaddr> = Vec::new();
    let mut i: usize = 0;
    assert(first_invalid(all.take(0)) is None);
    while i < strs.len()
        invariant
            i <= strs@.len(),
            all == texts(strs@),
            list@.len() == i,
            all_well_formed(list@),
            forall|k: int| 0 <= k < i ==> (#[trigger] list@[k]).text@ == strs@[k]@,
            first_invalid(all.take(i as int)) is None,
        decreases strs@.len() - i,
    {
        assert(all.take(i + 1).drop_last() =~= all.take(i as int));
        assert(all.take(i + 1).last() == strs@[i as int]@);
        match parse_multiaddr(strs[i].as_str()) {
            Ok(addr) => {
                list.push(addr);
            },
            Err(e) => {
                proof {
                    lemma_first_invalid_stays(all, i + 1);
                }
                return Err(e);
            },
        }
        i += 1;
    }
    assert(all.take(all.len() as int) =~= all);
    assert(addr_texts(list@) =~= texts(strs@));
    Ok(list)
}

/// A copy of a list of addresses.
fn copy_addrs(list: &Vec<Multiaddr>) -> (copy: Vec<Multiaddr>)
    requires
        all_well_formed(list@),
    ensures
        all_well_formed(copy@),
        addr_texts(copy@) == addr_texts(list@),
{
    let mut copy: Vec<Multiaddr> = Vec::new();
    let mut i: usize = 0;
    while i < list.len()
        invariant
            i <= list@.len(),
            all_well_formed(list@),
            all_well_formed(copy@),
            copy@.len() == i,
            forall|k: int| 0 <= k < i ==> (#[trigger] copy@[k]).text@ == list@[k].text@,
        decreases list@.len() - i,
    {
        copy.push(copy_addr(&list[i]));
        i += 1;
    }
    assert(addr_texts(copy@) =~= addr_texts(list@));
    copy
}

/// The configuration of a node, from addresses as text and from its role.
pub fn net_config(opts: NetOpts) -> (r: Result<NetConfig, NetError>)
    ensures
        match r {
            Ok(cfg) => {
                &&& refused_addr(opts) is None
                &&& cfg.well_formed()
                &&& addr_texts(cfg.bootstrap@) == texts(opts.bootstrap@)
                &&& cfg.listen@.len() == 0
                &&& addr_texts(cfg.reserve_relays@) == reserved(opts)
                &&& cfg.relay_server == opts.relay_server
                &&& cfg.enable_mdns == opts.enable_mdns
            },
            Err(e) => refused_addr(opts) matches Some(text) && is_addr_error(text, e),
        },
{
    let bootstrap = match parse_addrs(opts.bootstrap) {
        Ok(list) => list,
        Err(e) => return Err(e),
    };
    let reserve_relays = if !opts.reserve {
        let none: Vec<Multiaddr> = Vec::new();
        assert(addr_texts(none@) =~= reserved(opts));
        none
    } else if opts.relays.len() == 0 {
        copy_addrs(&bootstrap)
    } else {
        match parse_addrs(opts.relays) {
            Ok(list) => list,
            Err(e) => return Err(e),
        }
    };
    Ok(
        NetConfig {
            bootstrap,
            listen: Vec::new(),
            reserve_relays,
            relay_server: opts.relay_server,
            enable_mdns: opts.enable_mdns,
        },
    )
}

/// Where a relay listens: on the same port for TCP and for QUIC.
pub open spec fn relay_listen(port: u16) -> Seq<Seq<char>> {
    seq![
        "/ip4/0.0.0.0/tcp/"@ + decimal(port as nat),
        "/ip4/0.0.0.0/udp/"@ + decimal(port as nat) + "/quic-v1"@,
    ]
}

/// The configuration of a relay. Its port is fixed, so that its address can be handed on.
pub fn relay_config(listen_port: u16, enable_mdns: bool) -> (r: Result<NetConfig, NetError>)
    ensures
        match r {
            Ok(cfg) => {
                &&& first_invalid(relay_listen(listen_port)) is None
                &&& cfg.well_formed()
                &&& cfg.bootstrap@.len() == 0
                &&& addr_texts(cfg.listen@) == relay_listen(listen_port)
                &&& cfg.reserve_relays@.len() == 0
                &&& cfg.relay_server
                &&& cfg.enable_mdns == enable_mdns
            },
            Err(e) => first_invalid(relay_listen(listen_port)) matches Some(text) && is_addr_error(
                text,
                e,
            ),
        },
{
    let port = decimal_of(listen_port as u64);
    let mut list: Vec<String> = Vec::new();
    list.push("/ip4/0.0.0.0/tcp/".to_string().concat(port.as_str()));
    list.push("/ip4/0.0.0.0/udp/".to_string().concat(port.as_str()).concat("/quic-v1"));
    assert(texts(list@) =~= relay_listen(listen_port));
    match parse_addrs(list.as_slice()) {
        Ok(listen) => Ok(
            NetConfig {
                bootstrap: Vec::new(),
                listen,
                reserve_relays: Vec::new(),
                relay_server: true,
                enable_mdns,
            },
        ),
        Err(e) => Err(e),
    }
}

// ---------------------------------------------------------------------------
// Addresses for others
// ---------------------------------------------------------------------------

/// The address is one that others can call: it is not the address of all interfaces.
pub open spec fn dialable(addr: Seq<char>) -> bool {
    !contains_text(addr, "/0.0.0.0/"@) && !contains_text(addr, "/::/"@)
}

/// Whether others can call the address.
pub fn is_dialable(addr: &str) -> (yes: bool)
    ensures
        yes == dialable(addr@),
{
    !contains(addr, "/0.0.0.0/") && !contains(addr, "/::/")
}

/// Adds the addresses that others can call to a sorted list.
fn collect_dialable(list: &mut Vec<String>, addrs: &Vec<String>)
    requires
        increasing(texts(old(list)@)),
    ensures
        increasing(texts(final(list)@)),
        forall|t: Seq<char>|
            texts(final(list)@).contains(t) <==> (texts(old(list)@).contains(t) || (dialable(t)
                && texts(addrs@).contains(t))),
{
    let ghost all = texts(addrs@);
    let ghost before = texts(list@);
    let mut i: usize = 0;
    while i < addrs.len()
        invariant
            i <= addrs@.len(),
            all == texts(addrs@),
            increasing(texts(list@)),
            forall|t: Seq<char>| #[trigger]
                texts(list@).contains(t) <==> (before.contains(t) || (dialable(t) && all.take(
                    i as int,
                ).contains(t))),
        decreases addrs@.len() - i,
    {
        let ghost sofar = all.take(i as int);
        let ghost next = all.take(i + 1);
        let ghost a = addrs@[i as int]@;
        assert forall|t: Seq<char>| next.contains(t) <==> (sofar.contains(t) || t == a) by {
            assert(next =~= sofar.push(a));
            if next.contains(t) {
                let k = choose|k: int| 0 <= k < next.len() && next[k] == t;
                if k < sofar.len() {
                    assert(sofar[k] == t);
                }
            }
            if sofar.contains(t) {
                let k = choose|k: int| 0 <= k < sofar.len() && sofar[k] == t;
                assert(next[k] == t);
            }
            assert(next[i as int] == a);
        }
        let ghost was = texts(list@);
        if is_dialable(addrs[i].as_str()) {
            insert_sorted(list, addrs[i].as_str().to_string());
        }
        assert forall|t: Seq<char>| #[trigger]
            texts(list@).contains(t) <==> (before.contains(t) || (dialable(t) && next.contains(t))) by {
            assert(was.contains(t) <==> (before.contains(t) || (dialable(t) && sofar.contains(t))));
            assert(next.contains(t) <==> (sofar.contains(t) || t == a));
        }
        i += 1;
    }
    assert(all.take(all.len() as int) =~= all);
    assert forall|t: Seq<char>| #[trigger]
        texts(list@).contains(t) <==> (before.contains(t) || (dialable(t) && all.contains(t))) by {}
}

/// The addresses to put in a record: all that others can call, sorted, each once.
pub fn advertised_addrs(info: &DoctorInfo) -> (addrs: Vec<String>)
    ensures
        increasing(texts(addrs@)),
        forall|t: Seq<char>|
            texts(addrs@).contains(t) <==> (dialable(t) && (texts(info.listen_addrs@).contains(t)
                || texts(info.external_addrs@).contains(t))),
        forall|t: Seq<char>| #[trigger]
            texts(addrs@).contains(t) <==> (!contains_text(t, "/0.0.0.0/"@) && !contains_text(
                t,
                "/::/"@,
            ) && (texts(info.listen_addrs@).contains(t) || texts(info.external_addrs@).contains(t))),
        texts(addrs@).no_duplicates(),
{
    let mut addrs: Vec<String> = Vec::new();
    assert(texts(addrs@) =~= Seq::empty());
    collect_dialable(&mut addrs, &info.listen_addrs);
    collect_dialable(&mut addrs, &info.external_addrs);
    proof {
        law_increasing_lists_have_no_duplicates(texts(addrs@));
        assert forall|t: Seq<char>| #[trigger]
            texts(addrs@).contains(t) <==> (!contains_text(t, "/0.0.0.0/"@) && !contains_text(
                t,
                "/::/"@,
            ) && (texts(info.listen_addrs@).contains(t) || texts(info.external_addrs@).contains(t))) by {
            assert(texts(addrs@).contains(t) <==> (dialable(t) && (texts(
                info.listen_addrs@,
            ).contains(t) || texts(info.external_addrs@).contains(t))));
        }
    }
    addrs
}

// ---------------------------------------------------------------------------
// Publishing
// ---------------------------------------------------------------------------

/// What a record says of where a key is to be found.
pub open spec fn location(
    pubkey: Seq<u8>,
    vanity: Seq<char>,
    peer_id: Seq<char>,
    addrs: Seq<Seq<char>>,
    now: u64,
) -> BodyModel {
    BodyModel { v: RECORD_VERSION, pubkey, peer_id, addrs, vanity, ts: now, ttl: RECORD_TTL }
}

/// Signs a record that says where the identity is to be found now.
pub fn build_record(
    identity: &Identity,
    vanity: &str,
    peer_id: String,
    addrs: Vec<String>,
    now: u64,
) -> (record: Record)
    ensures
        record@ == signed_by(
            identity.secret(),
            location(identity.public(), vanity@, peer_id@, texts(addrs@), now),
        ),
        record@.signature_valid(),
        record@.body.v == 1,
        record@.body.pubkey == identity.public(),
        record@.body.peer_id == peer_id@,
        record@.body.addrs == texts(addrs@),
        record@.body.vanity == vanity@,
        record@.body.ts == now,
        record@.body.ttl == 600,
        ed25519_verifies(identity.public(), record@.body.canonical(), record@.sig),
{
    let body = RecordBody {
        v: RECORD_VERSION,
        pubkey: identity.public_bytes(),
        peer_id,
        addrs,
        vanity: vanity.to_string(),
        ts: now,
        ttl: RECORD_TTL,
    };
    Record::sign(body, identity.signing_key())
}

/// What a publisher puts where.
pub struct Publication {
    /// The name under which the server is published.
    pub name: Name,
    /// The place in the DHT that belongs to the name.
    pub key: [u8; 32],
}

/// Derives the name and the place in the DHT under which an identity publishes.
pub fn publication(identity: &Identity, vanity: &str, keyid_len: usize) -> (r: Result<
    Publication,
    CoreError,
>)
    ensures
        match r {
            Ok(p) => {
                &&& keyid_len_objection(keyid_len as nat) is None
                &&& vanity_objection(vanity@) is None
                &&& p.name@ == (NameModel {
                    vanity: vanity@,
                    keyid: keyid_of(identity.public(), keyid_len as nat),
                })
                &&& p.key@ == storage_key(keyid_of(identity.public(), keyid_len as nat))
                &&& p.key@ == sha256(
                    encode_utf8("mc-tunnel:v1:"@) + encode_utf8(p.name.keyid@),
                )@
            },
            Err(e) => if keyid_len_objection(keyid_len as nat) is Some {
                keyid_len_objection(keyid_len as nat) == Some(e)
            } else {
                vanity_objection(vanity@) == Some(e)
            },
        },
{
    match identity.name(vanity, keyid_len) {
        Ok(name) => {
            let key = dht_key(name.keyid.as_str());
            Ok(Publication { name, key })
        },
        Err(e) => Err(e),
    }
}

/// One round of publishing.
pub enum Round {
    /// There is nothing to publish yet: try again after `RETRY_SECS`.
    Retry,
    /// Put this record in the DHT.
    Put(Vec<u8>),
}

/// Prepares a round of publishing, from the addresses that were gathered, if that worked.
pub fn publish_round(
    identity: &Identity,
    vanity: &str,
    peer_id: &str,
    gathered: Option<Vec<String>>,
    now: u64,
) -> (round: Round)
    ensures
        match round {
            Round::Retry => gathered matches Some(addrs) ==> addrs@.len() == 0,
            Round::Put(bytes) => gathered matches Some(addrs) && addrs@.len() > 0 && {
                let record = signed_by(
                    identity.secret(),
                    location(identity.public(), vanity@, peer_id@, texts(addrs@), now),
                );
                &&& bytes@ == record_bytes(record)
                &&& record_at(bytes@) == Ok::<RecordModel, Fault>(record)
                &&& record.signature_valid()
                &&& record.body.v == 1
                &&& record.body.pubkey == identity.public()
                &&& record.body.peer_id == peer_id@
                &&& record.body.addrs == texts(addrs@)
                &&& record.body.vanity == vanity@
                &&& record.body.ts == now
                &&& record.body.ttl == 600
            },
        },
{
    match gathered {
        Some(addrs) => if addrs.len() == 0 {
            Round::Retry
        } else {
            let record = build_record(identity, vanity, peer_id.to_string(), addrs, now);
            Round::Put(record.to_bytes())
        },
        None => Round::Retry,
    }
}

/// The seconds until the next round, after one in which a record was put or not.
pub fn next_round_in(put: bool) -> (secs: u64)
    ensures
        secs == (if put {
            REFRESH_SECS
        } else {
            RETRY_SECS
        }),
{
    if put {
        REFRESH_SECS
    } else {
        RETRY_SECS
    }
}

/// The lines for the publisher.
pub open spec fn publish_lines(
    name: NameModel,
    peer_id: Seq<char>,
    target: Seq<char>,
) -> Seq<Seq<char>> {
    seq![
        "Publishing: "@ + name.text(),
        "  keyid   : "@ + name.keyid,
        "  peer id : "@ + peer_id,
        "  target  : "@ + target,
        "Share this address; connect with:  mc-tunnel connect "@ + name.text(),
        "Press Ctrl-C to stop."@,
    ]
}

/// What the publisher is told.
pub fn publish_banner(name: &Name, peer_id: &str, target: &str) -> (lines: Vec<String>)
    ensures
        texts(lines@) == publish_lines(name@, peer_id@, target@),
{
    let text = name.to_string();
    let mut lines: Vec<String> = Vec::new();
    lines.push("Publishing: ".to_string().concat(text.as_str()));
    lines.push("  keyid   : ".to_string().concat(name.keyid.as_str()));
    lines.push("  peer id : ".to_string().concat(peer_id));
    lines.push("  target  : ".to_string().concat(target));
    lines.push(
        "Share this address; connect with:  mc-tunnel connect ".to_string().concat(text.as_str()),
    );
    lines.push("Press Ctrl-C to stop.".to_string());
    assert(texts(lines@) =~= publish_lines(name@, peer_id@, target@));
    lines
}

// ---------------------------------------------------------------------------
// Resolving
// ---------------------------------------------------------------------------

/// What comes after a lookup.
pub enum ResolveStep {
    /// The name was resolved.
    Found(Record),
    /// Look again after `RESOLVE_PAUSE_SECS`.
    Again,
    /// Give up, with these words.
    GiveUp(String),
}

/// The words with which a name is given up.
pub open spec fn unresolved(name: NameModel) -> Seq<char> {
    "could not resolve "@ + name.text() + " within "@ + decimal(RESOLVE_TIMEOUT_SECS as nat)
        + "s (no record in the DHT — is the publisher running and on a reachable network?)"@
}

/// What comes after a lookup that returned the candidates, `elapsed_ms` milliseconds after the
/// first began: a record that passes all checks is taken however long it took.
pub fn resolve_step(
    name: &Name,
    candidates: &[Vec<u8>],
    now: u64,
    elapsed_ms: u64,
) -> (step: ResolveStep)
    ensures
        match step {
            ResolveStep::Found(record) => selected(
                byte_strings(candidates@),
                name.keyid@,
                now,
                MAX_SKEW,
            ) == Some(record@),
            ResolveStep::Again => selected(byte_strings(candidates@), name.keyid@, now, MAX_SKEW)
                is None && elapsed_ms < RESOLVE_TIMEOUT_SECS * 1000,
            ResolveStep::GiveUp(why) => selected(
                byte_strings(candidates@),
                name.keyid@,
                now,
                MAX_SKEW,
            ) is None && elapsed_ms >= RESOLVE_TIMEOUT_SECS * 1000 && why@ == unresolved(name@),
        },
{
    match select_verified(candidates, name.keyid.as_str(), now, MAX_SKEW) {
        Some(record) => ResolveStep::Found(record),
        None => if elapsed_ms >= RESOLVE_TIMEOUT_SECS * 1000 {
            ResolveStep::GiveUp(
                "could not resolve ".to_string().concat(name.to_string().as_str()).concat(
                    " within ",
                ).concat(decimal_of(RESOLVE_TIMEOUT_SECS).as_str()).concat(
                    "s (no record in the DHT — is the publisher running and on a reachable network?)",
                ),
            )
        } else {
            ResolveStep::Again
        },
    }
}

/// Why a record that was found is of no use.
#[derive(Debug, Clone, PartialEq, Eq)]
pub enum EstablishError {
    /// There is no peer for the key in the record.
    Key(NetError),
    /// The record sends us to a peer that does not belong to its key.
    PeerMismatch,
}

impl EstablishError {
    /// The words of the error.
    pub open spec fn words(self) -> Seq<char> {
        match self {
            EstablishError::Key(e) => e.words(),
            EstablishError::PeerMismatch =>
                "record peer_id does not match its signed pubkey — refusing to connect"@,
        }
    }

    /// Puts the error in words.
    pub fn message(&self) -> (text: String)
        ensures
            text@ == self.words(),
    {
        match self {
            EstablishError::Key(e) => e.message(),
            EstablishError::PeerMismatch =>
                "record peer_id does not match its signed pubkey — refusing to connect".to_string(),
        }
    }
}

/// Whom to call, and where.
pub struct DialPlan {
    pub peer: String,
    pub addrs: Vec<Multiaddr>,
}

/// The texts that are addresses, in order.
pub open spec fn valid_addrs(list: Seq<Seq<char>>) -> Seq<Seq<char>>
    decreases list.len(),
{
    if list.len() == 0 {
        Seq::empty()
    } else if multiaddr_components(list.last()) is Ok {
        valid_addrs(list.drop_last()).push(list.last())
    } else {
        valid_addrs(list.drop_last())
    }
}

/// Reads the texts that are addresses and leaves out the others.
pub fn keep_valid(strs: &Vec<String>) -> (list: Vec<Multiaddr>)
    ensures
        all_well_formed(list@),
        addr_texts(list@) == valid_addrs(texts(strs@)),
        addr_texts(list@) == texts(strs@).filter(|t: Seq<char>| multiaddr_components(t) is Ok),
{
    let ghost all = texts(strs@);
    let mut list: Vec<Multiaddr> = Vec::new();
    let mut i: usize = 0;
    assert(addr_texts(list@) =~= valid_addrs(all.take(0)));
    while i < strs.len()
        invariant
            i <= strs@.len(),
            all == texts(strs@),
            all_well_formed(list@),
            addr_texts(list@) == valid_addrs(all.take(i as int)),
        decreases strs@.len() - i,
    {
        assert(all.take(i + 1).drop_last() =~= all.take(i as int));
        assert(all.take(i + 1).last() == strs@[i as int]@);
        let ghost before = list@;
        match parse_multiaddr(strs[i].as_str()) {
            Ok(addr) => {
                list.push(addr);
                assert(addr_texts(list@) =~= addr_texts(before).push(strs@[i as int]@));
            },
            Err(_) => {},
        }
        i += 1;
    }
    assert(all.take(all.len() as int) =~= all);
    proof {
        law_dialled_addresses_are_those_that_are_addresses(all);
    }
    list
}

/// Whether the peer that belongs to the key of the record, as `peer` says, is the one that the
/// record names.
pub fn check_peer(record: &Record, peer: &str) -> (r: Result<(), EstablishError>)
    ensures
        r == (if peer@ == record.body.peer_id@ {
            Ok(())
        } else {
            Err(EstablishError::PeerMismatch)
        }),
{
    if same_text(peer, record.body.peer_id.as_str()) {
        Ok(())
    } else {
        Err(EstablishError::PeerMismatch)
    }
}

/// Whom to call for a record: the peer that belongs to its key, if it is the one that the record
/// names, at those of its addresses that can be read.
pub fn dial_plan(record: &Record) -> (r: Result<DialPlan, EstablishError>)
    ensures
        match r {
            Ok(plan) => {
                &&& ed25519_peer_id(record.body.pubkey@) == Ok::<Seq<char>, Seq<char>>(plan.peer@)
                &&& plan.peer@ == record.body.peer_id@
                &&& all_well_formed(plan.addrs@)
                &&& addr_texts(plan.addrs@) == valid_addrs(texts(record.body.addrs@))
                &&& addr_texts(plan.addrs@) == texts(record.body.addrs@).filter(
                    |t: Seq<char>| multiaddr_components(t) is Ok,
                )
            },
            Err(EstablishError::PeerMismatch) => ed25519_peer_id(record.body.pubkey@) matches Ok(id)
                && id != record.body.peer_id@,
            Err(EstablishError::Key(NetError::InvalidKey(why))) => ed25519_peer_id(
                record.body.pubkey@,
            ) == Err::<Seq<char>, Seq<char>>(why@),
            Err(_) => false,
        },
{
    let peer = match peer_id_from_ed25519(&record.body.pubkey) {
        Ok(peer) => peer,
        Err(e) => return Err(EstablishError::Key(e)),
    };
    match check_peer(record, peer.as_str()) {
        Ok(_) => Ok(DialPlan { peer, addrs: keep_valid(&record.body.addrs) }),
        Err(e) => Err(e),
    }
}

/// Whether a listen address can be reached from other machines. `loopback` says whether its IP
/// address is one of this machine only, if it is an IP address with a port.
pub fn exposed(listen: &str, loopback: Option<bool>) -> (yes: bool)
    ensures
        yes == (match loopback {
            Some(local) => !local,
            None => !"127."@.is_prefix_of(listen@) && !"[::1]"@.is_prefix_of(listen@),
        }),
{
    match loopback {
        Some(local) => !local,
        None => !starts_with(listen, "127.") && !starts_with(listen, "[::1]"),
    }
}

/// The lines for the user of a tunnel.
pub open spec fn connect_lines(peer: Seq<char>, listen: Seq<char>) -> Seq<Seq<char>> {
    seq![
        "Resolved to peer "@ + peer,
        "Local port : "@ + listen,
        "Add a Minecraft server pointing at "@ + listen + " and join."@,
        "Press Ctrl-C to stop."@,
    ]
}

/// What the user of a tunnel is told.
pub fn connect_banner(peer: &str, listen: &str) -> (lines: Vec<String>)
    ensures
        texts(lines@) == connect_lines(peer@, listen@),
{
    let mut lines: Vec<String> = Vec::new();
    lines.push("Resolved to peer ".to_string().concat(peer));
    lines.push("Local port : ".to_string().concat(listen));
    lines.push(
        "Add a Minecraft server pointing at ".to_string().concat(listen).concat(" and join."),
    );
    lines.push("Press Ctrl-C to stop.".to_string());
    assert(texts(lines@) =~= connect_lines(peer@, listen@));
    lines
}

// ---------------------------------------------------------------------------
// Reports
// ---------------------------------------------------------------------------

/// The lines, each moved to the right.
pub open spec fn indented(lines: Seq<Seq<char>>) -> Seq<Seq<char>> {
    lines.map_values(|line: Seq<char>| "  "@ + line)
}

/// Adds lines, each moved to the right.
fn push_indented(lines: &mut Vec<String>, more: &Vec<String>)
    ensures
        texts(final(lines)@) == texts(old(lines)@) + indented(texts(more@)),
{
    let ghost before = texts(lines@);
    let ghost all = texts(more@);
    let mut i: usize = 0;
    assert(texts(lines@) =~= before + indented(all.take(0)));
    while i < more.len()
        invariant
            i <= more@.len(),
            all == texts(more@),
            texts(lines@) == before + indented(all.take(i as int)),
        decreases more@.len() - i,
    {
        let ghost was = lines@;
        lines.push("  ".to_string().concat(more[i].as_str()));
        assert(texts(lines@) =~= texts(was).push("  "@ + more@[i as int]@));
        assert(indented(all.take(i + 1)) =~= indented(all.take(i as int)).push(
            "  "@ + more@[i as int]@,
        ));
        i += 1;
    }
    assert(all.take(all.len() as int) =~= all);
}

/// The addresses that others can call, each with the peer id behind it, in order.
pub open spec fn bootstrap_lines(addrs: Seq<Seq<char>>, peer_id: Seq<char>) -> Seq<Seq<char>>
    decreases addrs.len(),
{
    if addrs.len() == 0 {
        Seq::empty()
    } else {
        let before = bootstrap_lines(addrs.drop_last(), peer_id);
        if dialable(addrs.last()) {
            before.push("  "@ + addrs.last() + "/p2p/"@ + peer_id)
        } else {
            before
        }
    }
}

/// The first lines for somebody who runs a relay.
pub open spec fn relay_head(info: DoctorInfo) -> Seq<Seq<char>> {
    seq![
        "Relay/bootstrap node running."@,
        "  peer id : "@ + info.peer_id@,
        "Add one of these to other nodes' config.toml [network] bootstrap:"@,
    ]
}

/// What somebody who runs a relay is told.
pub open spec fn relay_lines(info: DoctorInfo) -> Seq<Seq<char>> {
    relay_head(info) + bootstrap_lines(texts(info.listen_addrs@), info.peer_id@) + seq!["Press Ctrl-C to stop."@]
}

/// What somebody who runs a relay is told: its addresses, for others to start from.
pub fn relay_report(info: &DoctorInfo) -> (lines: Vec<String>)
    ensures
        texts(lines@) == relay_lines(*info),
{
    let ghost all = texts(info.listen_addrs@);
    let mut lines: Vec<String> = Vec::new();
    lines.push("Relay/bootstrap node running.".to_string());
    lines.push("  peer id : ".to_string().concat(info.peer_id.as_str()));
    lines.push("Add one of these to other nodes' config.toml [network] bootstrap:".to_string());
    let ghost head = texts(lines@);
    let mut i: usize = 0;
    assert(texts(lines@) =~= head + bootstrap_lines(all.take(0), info.peer_id@));
    while i < info.listen_addrs.len()
        invariant
            i <= info.listen_addrs@.len(),
            all == texts(info.listen_addrs@),
            texts(lines@) == head + bootstrap_lines(all.take(i as int), info.peer_id@),
        decreases info.listen_addrs@.len() - i,
    {
        let ghost was = lines@;
        assert(all.take(i + 1).drop_last() =~= all.take(i as int));
        assert(all.take(i + 1).last() == info.listen_addrs@[i as int]@);
        let addr = info.listen_addrs[i].as_str();
        if is_dialable(addr) {
            lines.push(
                "  ".to_string().concat(addr).concat("/p2p/").concat(info.peer_id.as_str()),
            );
            assert(texts(lines@) =~= texts(was).push("  "@ + addr@ + "/p2p/"@ + info.peer_id@));
        }
        assert(texts(lines@) =~= head + bootstrap_lines(all.take(i + 1), info.peer_id@));
        i += 1;
    }
    assert(all.take(all.len() as int) =~= all);
    let ghost was = lines@;
    lines.push("Press Ctrl-C to stop.".to_string());
    assert(texts(lines@) =~= texts(was).push("Press Ctrl-C to stop."@));
    assert(head =~= relay_head(*info));
    assert(texts(lines@) =~= relay_lines(*info));
    lines
}

/// Each text between double quotes.
pub open spec fn in_quotes(list: Seq<Seq<char>>) -> Seq<Seq<char>> {
    list.map_values(|t: Seq<char>| "\""@ + t + "\""@)
}

/// The texts between double quotes, with commas between them.
fn quote_list(list: &Vec<String>) -> (out: String)
    ensures
        out@ == joined(in_quotes(texts(list@)), ","@),
{
    let mut parts: Vec<String> = Vec::new();
    let mut i: usize = 0;
    while i < list.len()
        invariant
            i <= list@.len(),
            parts@.len() == i,
            forall|k: int| 0 <= k < i ==> (#[trigger] parts@[k])@ == "\""@ + list@[k]@ + "\""@,
        decreases list@.len() - i,
    {
        parts.push("\"".to_string().concat(list[i].as_str()).concat("\""));
        i += 1;
    }
    assert(texts(parts@) =~= in_quotes(texts(list@)));
    join(&parts, ",")
}

/// The description of a node as JSON.
pub open spec fn doctor_json_text(info: DoctorInfo) -> Seq<char> {
    "{\"peer_id\":\""@ + info.peer_id@ + "\",\"connected_peers\":"@ + decimal(
        info.connected_peers as nat,
    ) + ",\"nat_status\":\""@ + info.nat_status@ + "\",\"listen_addrs\":["@ + joined(
        in_quotes(texts(info.listen_addrs@)),
        ","@,
    ) + "],\"external_addrs\":["@ + joined(in_quotes(texts(info.external_addrs@)), ","@) + "]}"@
}

/// Describes a node as JSON.
pub fn doctor_json(info: &DoctorInfo) -> (out: String)
    ensures
        out@ == doctor_json_text(*info),
{
    "{\"peer_id\":\"".to_string().concat(info.peer_id.as_str()).concat(
        "\",\"connected_peers\":",
    ).concat(decimal_of(info.connected_peers as u64).as_str()).concat(
        ",\"nat_status\":\"",
    ).concat(info.nat_status.as_str()).concat("\",\"listen_addrs\":[").concat(
        quote_list(&info.listen_addrs).as_str(),
    ).concat("],\"external_addrs\":[").concat(quote_list(&info.external_addrs).as_str()).concat(
        "]}",
    )
}

/// The first lines of the description of a node for people.
pub open spec fn doctor_head(info: DoctorInfo) -> Seq<Seq<char>> {
    seq![
        "peer id          : "@ + info.peer_id@,
        "connected peers  : "@ + decimal(info.connected_peers as nat),
        "NAT status       : "@ + info.nat_status@,
        "listen addrs     :"@,
    ]
}

/// The description of a node for people.
pub open spec fn doctor_lines(info: DoctorInfo) -> Seq<Seq<char>> {
    doctor_head(info) + indented(texts(info.listen_addrs@)) + seq!["external addrs   :"@] + (if
    info.external_addrs@.len() == 0 {
        seq!["  (none confirmed yet)"@]
    } else {
        indented(texts(info.external_addrs@))
    })
}

/// Describes a node for people.
pub fn doctor_report(info: &DoctorInfo) -> (lines: Vec<String>)
    ensures
        texts(lines@) == doctor_lines(*info),
{
    let mut lines: Vec<String> = Vec::new();
    lines.push("peer id          : ".to_string().concat(info.peer_id.as_str()));
    lines.push(
        "connected peers  : ".to_string().concat(decimal_of(info.connected_peers as u64).as_str()),
    );
    lines.push("NAT status       : ".to_string().concat(info.nat_status.as_str()));
    lines.push("listen addrs     :".to_string());
    assert(texts(lines@) =~= doctor_head(*info));
    push_indented(&mut lines, &info.listen_addrs);
    let ghost was = lines@;
    lines.push("external addrs   :".to_string());
    assert(texts(lines@) =~= texts(was) + seq!["external addrs   :"@]);
    if info.external_addrs.len() == 0 {
        let ghost was = lines@;
        lines.push("  (none confirmed yet)".to_string());
        assert(texts(lines@) =~= texts(was) + seq!["  (none confirmed yet)"@]);
    } else {
        push_indented(&mut lines, &info.external_addrs);
    }
    lines
}

// ---------------------------------------------------------------------------
// Laws
// ---------------------------------------------------------------------------

/// A record that was published under one of the keyids of its key may be stored at the place of
/// that keyid, and whoever looks the keyid up while the record is fresh gets it back.
pub proof fn law_published_record_is_found(
    record: RecordModel,
    bytes: Seq<u8>,
    len: nat,
    now: u64,
)
    requires
        read_record(bytes) == Some(record),
        record.signature_valid(),
        1 <= len <= MAX_KEYID_LEN,
        record.body.ts - MAX_SKEW <= now <= record.body.ts + MAX_SKEW,
    ensures
        storable(storage_key(keyid_of(record.body.pubkey, len)), bytes) == Some(record),
        verified(bytes, keyid_of(record.body.pubkey, len), now, MAX_SKEW) == Some(record),
        selected(seq![bytes], keyid_of(record.body.pubkey, len), now, MAX_SKEW) == Some(record),
{
    law_owner_may_store(record, len);
    law_own_record_verifies(record, len, now, MAX_SKEW);
    let one = seq![bytes];
    assert(one.drop_last() =~= Seq::empty());
    assert(one.last() == bytes);
    let keyid = keyid_of(record.body.pubkey, len);
    assert(selected(one.drop_last(), keyid, now, MAX_SKEW) is None);
}

/// A record that is refreshed after half its time to live never looks stale: at each moment
/// until the next round it is within the allowed distance, and its time is not over.
pub proof fn law_refreshed_in_time(record: RecordModel, now: u64)
    requires
        record.body.ttl == RECORD_TTL,
        record.body.ts <= now <= record.body.ts + REFRESH_SECS,
    ensures
        2 * REFRESH_SECS == RECORD_TTL,
        time_distance(now, record.body.ts) <= MAX_SKEW,
        remaining_life(record.body.ts, record.body.ttl, now) > 0,
{
}

/// Whatever others store under a name, a record to which it resolves is signed by a key that has
/// the keyid that was asked for.
pub proof fn law_resolved_key_has_the_keyid(
    candidates: Seq<Seq<u8>>,
    keyid: Seq<char>,
    now: u64,
)
    ensures
        selected(candidates, keyid, now, MAX_SKEW) matches Some(record) ==> keyid_matches(
            keyid,
            record.body.pubkey,
        ) && record.signature_valid(),
{
    law_selected_is_newest(candidates, keyid, now, MAX_SKEW);
}

/// Others can call an address if and only if neither of the two addresses that stand for all
/// interfaces is a part of it.
pub proof fn law_addresses_of_all_interfaces_cannot_be_called(addr: Seq<char>)
    ensures
        dialable(addr) <==> !(exists|before: Seq<char>, after: Seq<char>|
            addr == #[trigger] (before + "/0.0.0.0/"@ + after)) && !(exists|
            before: Seq<char>,
            after: Seq<char>,
        |
            addr == #[trigger] (before + "/::/"@ + after)),
{
    law_contained_text_stands_between(addr, "/0.0.0.0/"@);
    law_contained_text_stands_between(addr, "/::/"@);
}

/// A part that has a slash at both ends and no letter `p` stands in an address through a relay
/// only if it stands in the address of the relay and the slash behind it.
proof fn lemma_part_of_circuit(relay: Seq<char>, part: Seq<char>)
    requires
        part.len() > 0,
        part[0] == '/',
        !part.contains('p'),
        contains_text(relay + "/p2p-circuit"@, part),
    ensures
        contains_text(relay + seq!['/'], part),
{
    reveal_strlit("/p2p-circuit");
    let s = relay + "/p2p-circuit"@;
    let r = relay + seq!['/'];
    let n = relay.len() as int;
    let at = choose|at: int| occurs_at(s, part, at);
    assert forall|k: int| 0 <= k < part.len() implies s[at + k] == part[k] by {
        assert(s.subrange(at, at + part.len())[k] == part[k]);
    }
    assert(s[n + 1] == 'p');
    if at + part.len() > n + 1 {
        if at <= n + 1 {
            assert(part[n + 1 - at] == 'p');
        } else {
            assert(s[at] == '/');
            assert(s[at] == "/p2p-circuit"@[at - n]);
        }
    }
    assert(r.subrange(at, at + part.len()) =~= part) by {
        assert forall|k: int| 0 <= k < part.len() implies r[at + k] == part[k] by {
            assert(s[at + k] == r[at + k]);
        }
    }
    assert(occurs_at(r, part, at));
}

/// The address through a relay that names no unspecified interface can be called, so it is
/// advertised.
pub proof fn law_circuit_addresses_can_be_called(relay: Seq<char>)
    requires
        !contains_text(relay + seq!['/'], "/0.0.0.0/"@),
        !contains_text(relay + seq!['/'], "/::/"@),
    ensures
        dialable(relay + "/p2p-circuit"@),
{
    reveal_strlit("/0.0.0.0/");
    reveal_strlit("/::/");
    assert(!"/0.0.0.0/"@.contains('p'));
    assert(!"/::/"@.contains('p'));
    if contains_text(relay + "/p2p-circuit"@, "/0.0.0.0/"@) {
        lemma_part_of_circuit(relay, "/0.0.0.0/"@);
    }
    if contains_text(relay + "/p2p-circuit"@, "/::/"@) {
        lemma_part_of_circuit(relay, "/::/"@);
    }
}

/// The addresses of a record that are called are those that are addresses at all, each as often
/// as it stands there and in the same order. If all are, all are called.
pub proof fn law_dialled_addresses_are_those_that_are_addresses(list: Seq<Seq<char>>)
    ensures
        valid_addrs(list) == list.filter(|t: Seq<char>| multiaddr_components(t) is Ok),
        forall|t: Seq<char>| #[trigger]
            valid_addrs(list).contains(t) <==> list.contains(t) && multiaddr_components(t) is Ok,
        (forall|i: int| 0 <= i < list.len() ==> multiaddr_components(#[trigger] list[i]) is Ok)
            ==> valid_addrs(list) == list,
    decreases list.len(),
{
    reveal(Seq::filter);
    if list.len() > 0 {
        let rest = list.drop_last();
        law_dialled_addresses_are_those_that_are_addresses(rest);
        assert(list =~= rest.push(list.last()));
        assert(list[list.len() - 1] == list.last());
        assert forall|t: Seq<char>| #[trigger]
            valid_addrs(list).contains(t) <==> list.contains(t) && multiaddr_components(t) is Ok by {
            lemma_push_contains(rest, list.last(), t);
            lemma_push_contains(valid_addrs(rest), list.last(), t);
            assert(valid_addrs(rest).contains(t) <==> rest.contains(t) && multiaddr_components(t)
                is Ok);
        }
        if forall|i: int| 0 <= i < list.len() ==> multiaddr_components(#[trigger] list[i]) is Ok {
            assert forall|i: int| 0 <= i < rest.len() implies multiaddr_components(
                #[trigger] rest[i],
            ) is Ok by {
                assert(list[i] == rest[i]);
            }
        }
    } else {
        assert(valid_addrs(list) =~= list);
    }
}

proof fn lemma_push_contains(list: Seq<Seq<char>>, last: Seq<char>, t: Seq<char>)
    ensures
        list.push(last).contains(t) <==> list.contains(t) || t == last,
{
    let all = list.push(last);
    if all.contains(t) {
        let k = choose|k: int| 0 <= k < all.len() && all[k] == t;
        if k < list.len() {
            assert(list[k] == t);
        }
    }
    if list.contains(t) {
        let k = choose|k: int| 0 <= k < list.len() && list[k] == t;
        assert(all[k] == t);
    }
    assert(all[list.len() as int] == last);
}

/// A list is refused at the first text in it that is no address, and only then.
pub proof fn law_first_text_that_is_no_address(list: Seq<Seq<char>>)
    ensures
        first_invalid(list) is None <==> forall|i: int|
            0 <= i < list.len() ==> multiaddr_components(#[trigger] list[i]) is Ok,
        first_invalid(list) matches Some(text) ==> exists|i: int|
            {
                &&& 0 <= i < list.len()
                &&& #[trigger] list[i] == text
                &&& multiaddr_components(text) is Err
                &&& forall|j: int| 0 <= j < i ==> multiaddr_components(#[trigger] list[j]) is Ok
            },
    decreases list.len(),
{
    if list.len() > 0 {
        let rest = list.drop_last();
        let last = list.len() - 1;
        law_first_text_that_is_no_address(rest);
        assert(list[last] == list.last());
        assert forall|i: int| 0 <= i < rest.len() implies rest[i] == #[trigger] list[i] by {}
        if first_invalid(rest) is Some {
            let text = first_invalid(rest)->0;
            let i = choose|i: int|
                {
                    &&& 0 <= i < rest.len()
                    &&& #[trigger] rest[i] == text
                    &&& multiaddr_components(text) is Err
                    &&& forall|j: int| 0 <= j < i ==> multiaddr_components(#[trigger] rest[j]) is Ok
                };
            assert(list[i] == text);
            assert forall|j: int| 0 <= j < i implies multiaddr_components(#[trigger] list[j]) is Ok by {
                assert(rest[j] == list[j]);
            }
        } else {
            assert forall|j: int| 0 <= j < last implies multiaddr_components(#[trigger] list[j]) is Ok by {
                assert(rest[j] == list[j]);
            }
        }
    }
}

/// Only those who ask for it reserve slots: on all relays that are given, or on all nodes to
/// start from if none is. A configuration is refused if and only if one of the addresses that it
/// uses is none; those to start from are looked at first.
pub proof fn law_reserved_slots(opts: NetOpts)
    ensures
        !opts.reserve ==> reserved(opts).len() == 0,
        opts.reserve && opts.relays@.len() > 0 ==> reserved(opts) == texts(opts.relays@),
        opts.reserve && opts.relays@.len() == 0 ==> reserved(opts) == texts(opts.bootstrap@),
        first_invalid(texts(opts.bootstrap@)) is Some ==> refused_addr(opts) == first_invalid(
            texts(opts.bootstrap@),
        ),
        first_invalid(texts(opts.bootstrap@)) is None ==> refused_addr(opts) == first_invalid(
            reserved(opts),
        ),
{
}

/// An error about an address names the address and what is wrong with it.
pub proof fn law_address_errors(text: Seq<char>, e: NetError)
    ensures
        is_addr_error(text, e) <==> (e matches NetError::InvalidMultiaddr { text: t, why } && t@ == text
            && multiaddr_components(text) == Err::<Seq<Option<Seq<char>>>, Seq<char>>(why@)),
{
}

/// A relay listens on all interfaces at the port it was given, for TCP and for QUIC.
pub proof fn law_relay_listens_at_its_port(port: u16)
    ensures
        relay_listen(port).len() == 2,
        relay_listen(port)[0] == "/ip4/0.0.0.0/tcp/"@ + decimal(port as nat),
        relay_listen(port)[1] == "/ip4/0.0.0.0/udp/"@ + decimal(port as nat) + "/quic-v1"@,
{
}

/// What a record says of a key is what was handed in, in the first version and for 600 seconds.
pub proof fn law_location_says_what_was_handed_in(
    pubkey: Seq<u8>,
    vanity: Seq<char>,
    peer_id: Seq<char>,
    addrs: Seq<Seq<char>>,
    now: u64,
)
    ensures
        ({
            let body = location(pubkey, vanity, peer_id, addrs, now);
            &&& body.v == 1
            &&& body.pubkey == pubkey
            &&& body.vanity == vanity
            &&& body.peer_id == peer_id
            &&& body.addrs == addrs
            &&& body.ts == now
            &&& body.ttl == 600
        }),
{
}

/// A record is valid for 600 seconds and may be off by 300, it is replaced after 300, and tried
/// again after 5; a name is looked for every 2 seconds for 45.
pub proof fn law_times()
    ensures
        RECORD_TTL == 600,
        MAX_SKEW == 300,
        REFRESH_SECS == 300,
        RETRY_SECS == 5,
        RESOLVE_TIMEOUT_SECS == 45,
        RESOLVE_PAUSE_SECS == 2,
{
}

/// Each line is moved to the right, and each text put between quotes; none is left out.
pub proof fn law_lines_of_a_report(lines: Seq<Seq<char>>)
    ensures
        indented(lines).len() == lines.len(),
        forall|i: int| 0 <= i < lines.len() ==> #[trigger] indented(lines)[i] == "  "@ + lines[i],
        in_quotes(lines).len() == lines.len(),
        forall|i: int|
            0 <= i < lines.len() ==> #[trigger] in_quotes(lines)[i] == seq!['"'] + lines[i] + seq!['"'],
{
    reveal_strlit("\"");
    assert("\""@ =~= seq!['"']);
}

/// A relay tells each of its addresses that others can call, with its peer id behind it, and no
/// other; of two lists first those of the one, then those of the other.
pub proof fn law_relay_tells_its_addresses(
    addr: Seq<char>,
    a: Seq<Seq<char>>,
    b: Seq<Seq<char>>,
    peer_id: Seq<char>,
)
    ensures
        dialable(addr) ==> bootstrap_lines(seq![addr], peer_id) == seq![
            "  "@ + addr + "/p2p/"@ + peer_id,
        ],
        !dialable(addr) ==> bootstrap_lines(seq![addr], peer_id).len() == 0,
        bootstrap_lines(a + b, peer_id) == bootstrap_lines(a, peer_id) + bootstrap_lines(b, peer_id),
    decreases b.len(),
{
    assert(seq![addr].drop_last() =~= Seq::empty());
    assert(bootstrap_lines(seq![addr].drop_last(), peer_id) =~= Seq::empty());
    if b.len() == 0 {
        assert(a + b =~= a);
        assert(bootstrap_lines(a, peer_id) + bootstrap_lines(b, peer_id) =~= bootstrap_lines(
            a,
            peer_id,
        ));
    } else {
        law_relay_tells_its_addresses(addr, a, b.drop_last(), peer_id);
        assert((a + b).drop_last() =~= a + b.drop_last());
        assert(bootstrap_lines(a + b, peer_id) =~= bootstrap_lines(a, peer_id) + bootstrap_lines(
            b,
            peer_id,
        ));
    }
}

/// The description of a node shows each of its addresses on a line, those at which it listens
/// and then those at which others reached it.
pub proof fn law_description_shows_all_addresses(info: DoctorInfo)
    ensures
        ({
            let lines = doctor_lines(info);
            let n = info.listen_addrs@.len();
            let m = info.external_addrs@.len();
            &&& lines[0] == "peer id          : "@ + info.peer_id@
            &&& lines[1] == "connected peers  : "@ + decimal(info.connected_peers as nat)
            &&& lines[2] == "NAT status       : "@ + info.nat_status@
            &&& lines.len() == 5 + n + (if m == 0 {
                1
            } else {
                m
            })
            &&& forall|i: int|
                #![trigger info.listen_addrs@[i]]
                0 <= i < n ==> lines[4 + i] == "  "@ + info.listen_addrs@[i]@
            &&& forall|i: int|
                #![trigger info.external_addrs@[i]]
                0 <= i < m ==> lines[5 + n + i] == "  "@ + info.external_addrs@[i]@
        }),
{
}

/// What somebody who runs a relay is told holds its peer id and the lines with its addresses.
pub proof fn law_relay_report(info: DoctorInfo)
    ensures
        ({
            let lines = relay_lines(info);
            let told = bootstrap_lines(texts(info.listen_addrs@), info.peer_id@);
            &&& lines.len() == told.len() + 4
            &&& lines[1] == "  peer id : "@ + info.peer_id@
            &&& lines.subrange(3, lines.len() - 1) == told
        }),
{
    let lines = relay_lines(info);
    let told = bootstrap_lines(texts(info.listen_addrs@), info.peer_id@);
    assert(lines.subrange(3, lines.len() - 1) =~= told);
}

/// The publisher is told the name, its keyid, the peer id and the server, and how to connect;
/// whoever connects is told the peer and where to point the game.
pub proof fn law_what_users_are_told(
    name: NameModel,
    peer: Seq<char>,
    target: Seq<char>,
    listen: Seq<char>,
)
    ensures
        publish_lines(name, peer, target).len() == 6,
        publish_lines(name, peer, target)[0] == "Publishing: "@ + name.text(),
        publish_lines(name, peer, target)[1] == "  keyid   : "@ + name.keyid,
        publish_lines(name, peer, target)[2] == "  peer id : "@ + peer,
        publish_lines(name, peer, target)[3] == "  target  : "@ + target,
        publish_lines(name, peer, target)[4]
            == "Share this address; connect with:  mc-tunnel connect "@ + name.text(),
        connect_lines(peer, listen).len() == 4,
        connect_lines(peer, listen)[0] == "Resolved to peer "@ + peer,
        connect_lines(peer, listen)[1] == "Local port : "@ + listen,
        connect_lines(peer, listen)[2] == "Add a Minecraft server pointing at "@ + listen
            + " and join."@,
{
}

/// The description of a node as JSON holds its peer id, how many peers are connected, its NAT
/// status, and all its addresses.
pub proof fn law_description_in_json(info: DoctorInfo)
    ensures
        doctor_json_text(info) == "{\"peer_id\":\""@ + info.peer_id@ + "\",\"connected_peers\":"@
            + decimal(info.connected_peers as nat) + ",\"nat_status\":\""@ + info.nat_status@
            + "\",\"listen_addrs\":["@ + joined(in_quotes(texts(info.listen_addrs@)), ","@)
            + "],\"external_addrs\":["@ + joined(in_quotes(texts(info.external_addrs@)), ","@)
            + "]}"@,
{
}

/// A name that is given up, and a record that is of no use, are refused in these words.
pub proof fn law_words_of_refused_connections(name: NameModel, e: NetError)
    ensures
        unresolved(name) == "could not resolve "@ + name.text() + " within "@ + decimal(45)
            + "s (no record in the DHT — is the publisher running and on a reachable network?)"@,
        EstablishError::PeerMismatch.words()
            == "record peer_id does not match its signed pubkey — refusing to connect"@,
        EstablishError::Key(e).words() == e.words(),
{
}

} // verus!
