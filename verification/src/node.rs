//! The decisions of a network node: where it listens, whom it asks for help, what it does on an
//! event of the network, and how commands and the queries they start are answered. Whatever
//! touches the network is done elsewhere, on the actions that are returned here.

use crate::addr::{
    addr_texts, all_well_formed, circuit_text, peer_id_from_multiaddr, text_options, trailing_peer,
    Multiaddr,
};
use crate::record::{byte_strings, owns_storage_key, read_record, MAX_RECORD_BYTES};
use crate::store::{
    bytes_of, decide_inbound, inbound, law_inbound_values, law_place_holds_only_the_owners_records,
    law_place_keeps_up, law_storable_records, lifetime_of, place_after, place_after_all,
    remaining_life, storable, value_lifetime, Inbound,
};
use crate::text::{same_text, texts};
use std::collections::{HashMap, HashSet};
use vstd::hash_map::StringHashMap;
use vstd::prelude::*;
use vstd::string::*;

verus! {

broadcast use vstd::std_specs::hash::group_hash_axioms;

/// Protocol of the streams that carry a tunnel.
pub const TUNNEL_PROTOCOL: &'static str = "/mc-tunnel/1.0.0";

/// Protocol under which nodes tell each other who they are.
pub const IDENTIFY_PROTO: &'static str = "/mc-tunnel/id/1.0.0";

/// What a node calls itself.
pub const AGENT_VERSION: &'static str = "mc-tunnel/1.0.0";

/// Seconds between two pings, short enough for a live display.
pub const PING_INTERVAL_SECS: u64 = 2;

/// Seconds after which an idle connection is closed.
pub const IDLE_TIMEOUT_SECS: u64 = 60;

/// Where a node listens for TCP if nothing else is asked for.
pub const DEFAULT_LISTEN_TCP: &'static str = "/ip4/0.0.0.0/tcp/0";

/// Where a node listens for QUIC if nothing else is asked for.
pub const DEFAULT_LISTEN_QUIC: &'static str = "/ip4/0.0.0.0/udp/0/quic-v1";

// ---------------------------------------------------------------------------
// Configuration
// ---------------------------------------------------------------------------

/// How a node listens and finds others.
#[derive(Clone, Debug)]
pub struct NetConfig {
    /// Nodes to start from. Each address has to name a peer.
    pub bootstrap: Vec<Multiaddr>,
    /// Where to listen. If empty, on TCP and QUIC on all interfaces.
    pub listen: Vec<Multiaddr>,
    /// Relays on which to reserve a slot, to be reachable behind a NAT.
    pub reserve_relays: Vec<Multiaddr>,
    /// Whether to be a relay for others.
    pub relay_server: bool,
    /// Whether to find nodes on the local network.
    pub enable_mdns: bool,
}

impl NetConfig {
    /// All addresses are well formed.
    pub open spec fn well_formed(self) -> bool {
        all_well_formed(self.bootstrap@) && all_well_formed(self.listen@) && all_well_formed(
            self.reserve_relays@,
        )
    }
}

impl Default for NetConfig {
    fn default() -> (cfg: Self)
        ensures
            cfg.bootstrap@.len() == 0,
            cfg.listen@.len() == 0,
            cfg.reserve_relays@.len() == 0,
            !cfg.relay_server,
            cfg.enable_mdns,
            cfg.well_formed(),
    {
        NetConfig {
            bootstrap: Vec::new(),
            listen: Vec::new(),
            reserve_relays: Vec::new(),
            relay_server: false,
            enable_mdns: true,
        }
    }
}

/// Where a node with this configuration listens.
pub open spec fn listen_texts(cfg: NetConfig) -> Seq<Seq<char>> {
    if cfg.listen@.len() == 0 {
        seq![DEFAULT_LISTEN_TCP@, DEFAULT_LISTEN_QUIC@]
    } else {
        addr_texts(cfg.listen@)
    }
}

/// Where to listen.
pub fn start_listening(cfg: &NetConfig) -> (addrs: Vec<String>)
    ensures
        texts(addrs@) == listen_texts(*cfg),
{
    let mut addrs: Vec<String> = Vec::new();
    if cfg.listen.len() == 0 {
        addrs.push(DEFAULT_LISTEN_TCP.to_string());
        addrs.push(DEFAULT_LISTEN_QUIC.to_string());
        assert(texts(addrs@) =~= listen_texts(*cfg));
        return addrs;
    }
    let mut i: usize = 0;
    while i < cfg.listen.len()
        invariant
            i <= cfg.listen@.len(),
            addrs@.len() == i,
            forall|k: int| 0 <= k < i ==> (#[trigger] addrs@[k])@ == cfg.listen@[k].text@,
        decreases cfg.listen@.len() - i,
    {
        addrs.push(cfg.listen[i].text.as_str().to_string());
        i += 1;
    }
    assert(texts(addrs@) =~= listen_texts(*cfg));
    addrs
}

/// A peer and an address at which it can be reached.
#[derive(Clone, Debug, PartialEq, Eq)]
pub struct PeerAddr {
    pub peer: String,
    pub addr: String,
}

impl View for PeerAddr {
    type V = (Seq<char>, Seq<char>);

    open spec fn view(&self) -> (Seq<char>, Seq<char>) {
        (self.peer@, self.addr@)
    }
}

/// The peers and addresses in a list.
pub open spec fn peer_addrs(list: Seq<PeerAddr>) -> Seq<(Seq<char>, Seq<char>)> {
    list.map_values(|p: PeerAddr| p@)
}

/// The addresses that name a peer, with the peer, in order.
pub open spec fn named_peers(addrs: Seq<Multiaddr>) -> Seq<(Seq<char>, Seq<char>)>
    decreases addrs.len(),
{
    if addrs.len() == 0 {
        Seq::empty()
    } else {
        let before = named_peers(addrs.drop_last());
        match trailing_peer(text_options(addrs.last().components@)) {
            Some(peer) => before.push((peer, addrs.last().text@)),
            None => before,
        }
    }
}

/// The addresses that name no peer, in order.
pub open spec fn nameless(addrs: Seq<Multiaddr>) -> Seq<Seq<char>>
    decreases addrs.len(),
{
    if addrs.len() == 0 {
        Seq::empty()
    } else {
        let before = nameless(addrs.drop_last());
        match trailing_peer(text_options(addrs.last().components@)) {
            Some(_) => before,
            None => before.push(addrs.last().text@),
        }
    }
}

/// How to join the network.
pub struct Bootstrap {
    /// The peers to make known to the DHT.
    pub peers: Vec<PeerAddr>,
    /// The addresses that cannot be used because they name no peer.
    pub skipped: Vec<String>,
    /// Whether to ask the DHT for more peers: only if any is known.
    pub query: bool,
}

/// Plans how to join the network.
pub fn add_bootstrap(cfg: &NetConfig) -> (plan: Bootstrap)
    ensures
        peer_addrs(plan.peers@) == named_peers(cfg.bootstrap@),
        texts(plan.skipped@) == nameless(cfg.bootstrap@),
        plan.query == (named_peers(cfg.bootstrap@).len() > 0),
{
    let ghost all = cfg.bootstrap@;
    let mut peers: Vec<PeerAddr> = Vec::new();
    let mut skipped: Vec<String> = Vec::new();
    let mut i: usize = 0;
    assert(peer_addrs(peers@) =~= named_peers(all.take(0)));
    assert(texts(skipped@) =~= nameless(all.take(0)));
    while i < cfg.bootstrap.len()
        invariant
            i <= cfg.bootstrap@.len(),
            all == cfg.bootstrap@,
            peer_addrs(peers@) == named_peers(all.take(i as int)),
            texts(skipped@) == nameless(all.take(i as int)),
        decreases cfg.bootstrap@.len() - i,
    {
        let addr = &cfg.bootstrap[i];
        assert(all.take(i + 1).drop_last() =~= all.take(i as int));
        assert(all.take(i + 1).last() == *addr);
        let ghost peers_before = peers@;
        let ghost skipped_before = skipped@;
        match peer_id_from_multiaddr(addr) {
            Some(peer) => {
                peers.push(PeerAddr { peer, addr: addr.text.as_str().to_string() });
                assert(peer_addrs(peers@) =~= peer_addrs(peers_before).push(peers@.last()@));
            },
            None => {
                skipped.push(addr.text.as_str().to_string());
                assert(texts(skipped@) =~= texts(skipped_before).push(skipped@.last()@));
            },
        }
        i += 1;
    }
    assert(all.take(all.len() as int) =~= all);
    let query = peers.len() > 0;
    assert(peer_addrs(peers@).len() == peers@.len());
    Bootstrap { peers, skipped, query }
}

/// How to get a slot on a relay.
pub struct Reservation {
    /// The relay itself, if its address names a peer, to be made known to the DHT.
    pub relay: Option<PeerAddr>,
    /// Where to listen: through the relay.
    pub circuit: String,
}

/// The reservation that belongs to a relay.
pub open spec fn reserves(r: Reservation, relay: Multiaddr) -> bool {
    &&& r.circuit@ == relay.text@ + "/p2p-circuit"@
    &&& match trailing_peer(text_options(relay.components@)) {
        Some(peer) => r.relay matches Some(known) && known@ == (peer, relay.text@),
        None => r.relay is None,
    }
}

/// Plans a reservation on each relay.
pub fn reserve_relays(cfg: &NetConfig) -> (plan: Vec<Reservation>)
    ensures
        plan@.len() == cfg.reserve_relays@.len(),
        forall|i: int|
            0 <= i < plan@.len() ==> reserves(#[trigger] plan@[i], cfg.reserve_relays@[i]),
{
    let mut plan: Vec<Reservation> = Vec::new();
    let mut i: usize = 0;
    while i < cfg.reserve_relays.len()
        invariant
            i <= cfg.reserve_relays@.len(),
            plan@.len() == i,
            forall|k: int| 0 <= k < i ==> reserves(#[trigger] plan@[k], cfg.reserve_relays@[k]),
        decreases cfg.reserve_relays@.len() - i,
    {
        let relay = &cfg.reserve_relays[i];
        let known = match peer_id_from_multiaddr(relay) {
            Some(peer) => Some(PeerAddr { peer, addr: relay.text.as_str().to_string() }),
            None => None,
        };
        plan.push(Reservation { relay: known, circuit: circuit_text(relay) });
        i += 1;
    }
    plan
}

// ---------------------------------------------------------------------------
// State
// ---------------------------------------------------------------------------

/// What a node remembers.
#[verifier::ext_equal]
pub struct NodeModel {
    /// Addresses at which others reached the node, in the order in which they were confirmed.
    pub external: Seq<Seq<char>>,
    /// The last round trip time to each peer, in milliseconds.
    pub rtt: Map<Seq<char>, u64>,
    /// Queries that store a record and are not over.
    pub puts: Set<u64>,
    /// Queries that look for records and are not over, with what they found so far.
    pub gets: Map<u64, Seq<Seq<u8>>>,
}

impl NodeModel {
    /// No address is listed twice, and nothing found is larger than a record.
    pub open spec fn ok(self) -> bool {
        &&& self.external.no_duplicates()
        &&& forall|q: u64, i: int|
            #![trigger self.gets[q][i]]
            self.gets.contains_key(q) && 0 <= i < self.gets[q].len() ==> self.gets[q][i].len()
                <= MAX_RECORD_BYTES
    }
}

/// The memory of a node. Queries are numbered by whoever runs them.
pub struct NodeState {
    external: Vec<String>,
    rtt: StringHashMap<u64>,
    puts: HashSet<u64>,
    gets: HashMap<u64, Vec<Vec<u8>>>,
}

impl View for NodeState {
    type V = NodeModel;

    closed spec fn view(&self) -> NodeModel {
        NodeModel {
            external: texts(self.external@),
            rtt: self.rtt@,
            puts: self.puts@,
            gets: self.gets@.map_values(|v: Vec<Vec<u8>>| byte_strings(v@)),
        }
    }
}

/// What happens on the network.
pub enum NetEvent {
    /// A peer answered a ping after so many milliseconds.
    Ping { peer: String, millis: u128 },
    /// A connection to a peer is over, and so many are left.
    ConnectionClosed { peer: String, remaining: u32 },
    /// Others can reach the node at this address.
    ExternalAddress { address: String },
    /// A peer said where it listens.
    Identified { peer: String, listen_addrs: Vec<String> },
    /// Peers were found on the local network.
    Discovered { peers: Vec<PeerAddr> },
    /// A query that stores a record is over, with an error if it failed.
    PutFinished { query: u64, error: Option<String> },
    /// A query found a record.
    RecordFound { query: u64, value: Vec<u8> },
    /// A query that looks for records is over, however it ended.
    GetFinished { query: u64 },
    /// Another node wants a value stored, where `stored` is what is at the place.
    InboundPut { key: Vec<u8>, value: Vec<u8>, stored: Option<Vec<u8>>, now: u64 },
    /// Something that asks for nothing.
    Other,
}

/// What has to be done on the network or for a caller.
pub enum NetAction {
    /// Make an address of a peer known to the DHT.
    AddAddress(PeerAddr),
    /// Connect to an address.
    Dial(String),
    /// Tell the caller how storing a record went.
    AnswerPut { query: u64, result: Result<(), String> },
    /// Hand the caller all that was found.
    AnswerGet { query: u64, records: Vec<Vec<u8>> },
    /// Store a value and drop it after so many seconds.
    Store { key: Vec<u8>, value: Vec<u8>, expires_in: u64 },
}

/// An action, in mathematical values.
pub enum ActionModel {
    AddAddress(Seq<char>, Seq<char>),
    Dial(Seq<char>),
    AnswerPut(u64, Option<Seq<char>>),
    AnswerGet(u64, Seq<Seq<u8>>),
    Store(Seq<u8>, Seq<u8>, u64),
}

impl View for NetAction {
    type V = ActionModel;

    open spec fn view(&self) -> ActionModel {
        match self {
            NetAction::AddAddress(p) => ActionModel::AddAddress(p.peer@, p.addr@),
            NetAction::Dial(addr) => ActionModel::Dial(addr@),
            NetAction::AnswerPut { query, result } => ActionModel::AnswerPut(
                *query,
                match result {
                    Ok(_) => None,
                    Err(why) => Some(why@),
                },
            ),
            NetAction::AnswerGet { query, records } => ActionModel::AnswerGet(
                *query,
                byte_strings(records@),
            ),
            NetAction::Store { key, value, expires_in } => ActionModel::Store(
                key@,
                value@,
                *expires_in,
            ),
        }
    }
}

/// The actions in a list.
pub open spec fn actions(list: Seq<NetAction>) -> Seq<ActionModel> {
    list.map_values(|a: NetAction| a@)
}

/// What is done with peers found on the local network: each is made known and called.
pub open spec fn discovery_actions(peers: Seq<(Seq<char>, Seq<char>)>) -> Seq<ActionModel>
    decreases peers.len(),
{
    if peers.len() == 0 {
        Seq::empty()
    } else {
        let (peer, addr) = peers.last();
        discovery_actions(peers.drop_last()).push(ActionModel::AddAddress(peer, addr)).push(
            ActionModel::Dial(addr),
        )
    }
}

/// The memory after an event.
pub open spec fn state_after(s: NodeModel, event: NetEvent) -> NodeModel {
    match event {
        NetEvent::Ping { peer, millis } => NodeModel {
            rtt: s.rtt.insert(peer@, millis as u64),
            ..s
        },
        NetEvent::ConnectionClosed { peer, remaining } => if remaining == 0 {
            NodeModel { rtt: s.rtt.remove(peer@), ..s }
        } else {
            s
        },
        NetEvent::ExternalAddress { address } => if s.external.contains(address@) {
            s
        } else {
            NodeModel { external: s.external.push(address@), ..s }
        },
        NetEvent::PutFinished { query, .. } => NodeModel { puts: s.puts.remove(query), ..s },
        NetEvent::RecordFound { query, value } => if value@.len() <= MAX_RECORD_BYTES
            && s.gets.contains_key(query) {
            NodeModel { gets: s.gets.insert(query, s.gets[query].push(value@)), ..s }
        } else {
            s
        },
        NetEvent::GetFinished { query } => NodeModel { gets: s.gets.remove(query), ..s },
        _ => s,
    }
}

/// What is done on an event.
pub open spec fn actions_after(s: NodeModel, event: NetEvent) -> Seq<ActionModel> {
    match event {
        NetEvent::Identified { peer, listen_addrs } => texts(listen_addrs@).map_values(
            |addr: Seq<char>| ActionModel::AddAddress(peer@, addr),
        ),
        NetEvent::Discovered { peers } => discovery_actions(peer_addrs(peers@)),
        NetEvent::PutFinished { query, error } => if s.puts.contains(query) {
            seq![
                ActionModel::AnswerPut(
                    query,
                    match error {
                        Some(why) => Some("put failed: "@ + why@),
                        None => None,
                    },
                ),
            ]
        } else {
            seq![]
        },
        NetEvent::GetFinished { query } => if s.gets.contains_key(query) {
            seq![ActionModel::AnswerGet(query, s.gets[query])]
        } else {
            seq![]
        },
        NetEvent::InboundPut { key, value, stored, now } => match inbound(
            key@,
            value@,
            bytes_of(stored),
            now,
        ) {
            Inbound::Store(expires_in) => seq![ActionModel::Store(key@, value@, expires_in)],
            _ => seq![],
        },
        _ => seq![],
    }
}

/// Whether an address is in the list.
fn lists(list: &Vec<String>, address: &str) -> (found: bool)
    ensures
        found == texts(list@).contains(address@),
{
    let mut i: usize = 0;
    while i < list.len()
        invariant
            i <= list@.len(),
            forall|k: int| 0 <= k < i ==> #[trigger] list@[k]@ != address@,
        decreases list@.len() - i,
    {
        if same_text(list[i].as_str(), address) {
            assert(texts(list@)[i as int] == address@);
            return true;
        }
        i += 1;
    }
    assert(forall|k: int| 0 <= k < list@.len() ==> #[trigger] texts(list@)[k] == list@[k]@);
    false
}

/// A number of milliseconds in 64 bits.
fn shown_millis(millis: u128) -> (shown: u64)
    ensures
        shown == millis as u64,
{
    #[verifier::truncate] (millis as u64)
}

impl NodeState {
    /// The memory of a new node.
    pub fn new() -> (state: Self)
        ensures
            state@ == (NodeModel {
                external: Seq::empty(),
                rtt: Map::empty(),
                puts: Set::empty(),
                gets: Map::empty(),
            }),
            state@.ok(),
    {
        let state = NodeState {
            external: Vec::new(),
            rtt: StringHashMap::new(),
            puts: HashSet::new(),
            gets: HashMap::new(),
        };
        assert(state@.external =~= Seq::empty());
        assert(state@.gets =~= Map::empty());
        state
    }

    /// Takes note of an event and says what has to be done.
    pub fn handle_event(&mut self, event: NetEvent) -> (todo: Vec<NetAction>)
        ensures
            final(self)@ == state_after(old(self)@, event),
            actions(todo@) == actions_after(old(self)@, event),
    {
        let mut todo: Vec<NetAction> = Vec::new();
        assert(actions(todo@) =~= seq![]);
        match event {
            NetEvent::Ping { peer, millis } => {
                self.rtt.insert(peer, shown_millis(millis));
            },
            NetEvent::ConnectionClosed { peer, remaining } => {
                if remaining == 0 {
                    self.rtt.remove(peer.as_str());
                }
            },
            NetEvent::ExternalAddress { address } => {
                if !lists(&self.external, address.as_str()) {
                    let ghost before = self.external@;
                    self.external.push(address);
                    assert(texts(self.external@) =~= texts(before).push(address@));
                }
            },
            NetEvent::Identified { peer, listen_addrs } => {
                todo = identified_actions(peer.as_str(), &listen_addrs);
            },
            NetEvent::Discovered { peers } => {
                todo = discovered_actions(&peers);
            },
            NetEvent::PutFinished { query, error } => {
                if self.puts.remove(&query) {
                    let result = match error {
                        Some(why) => Err("put failed: ".to_string().concat(why.as_str())),
                        None => Ok(()),
                    };
                    todo.push(NetAction::AnswerPut { query, result });
                    assert(actions(todo@) =~= actions_after(old(self)@, event));
                }
                assert(self@.puts =~= old(self)@.puts.remove(query));
            },
            NetEvent::RecordFound { query, value } => {
                self.found(query, value);
            },
            NetEvent::GetFinished { query } => {
                if let Some(records) = self.gets.remove(&query) {
                    todo.push(NetAction::AnswerGet { query, records });
                    assert(actions(todo@) =~= actions_after(old(self)@, event));
                }
                assert(self@.gets =~= old(self)@.gets.remove(query));
            },
            NetEvent::InboundPut { key, value, stored, now } => {
                match decide_inbound(key.as_slice(), value.as_slice(), &stored, now) {
                    Inbound::Store(expires_in) => {
                        todo.push(NetAction::Store { key, value, expires_in });
                        assert(actions(todo@) =~= actions_after(old(self)@, event));
                    },
                    _ => {},
                }
            },
            NetEvent::Other => {},
        }
        todo
    }

    /// Keeps a record that a query found, unless it is too large.
    fn found(&mut self, query: u64, value: Vec<u8>)
        ensures
            final(self)@ == state_after(old(self)@, (NetEvent::RecordFound { query, value })),
    {
        if value.len() <= MAX_RECORD_BYTES {
            if let Some(mut records) = self.gets.remove(&query) {
                let ghost before = records@;
                let ghost bytes = value@;
                records.push(value);
                assert(byte_strings(records@) =~= byte_strings(before).push(bytes));
                self.gets.insert(query, records);
                assert(self@.gets =~= old(self)@.gets.insert(
                    query,
                    old(self)@.gets[query].push(bytes),
                ));
            } else {
                assert(self@.gets =~= old(self)@.gets);
            }
        }
    }
}

/// What is done with the addresses that a peer told.
fn identified_actions(peer: &str, addrs: &Vec<String>) -> (todo: Vec<NetAction>)
    ensures
        actions(todo@) == texts(addrs@).map_values(
            |addr: Seq<char>| ActionModel::AddAddress(peer@, addr),
        ),
{
    let mut todo: Vec<NetAction> = Vec::new();
    let mut i: usize = 0;
    while i < addrs.len()
        invariant
            i <= addrs@.len(),
            todo@.len() == i,
            forall|k: int|
                0 <= k < i ==> (#[trigger] todo@[k])@ == ActionModel::AddAddress(
                    peer@,
                    addrs@[k]@,
                ),
        decreases addrs@.len() - i,
    {
        todo.push(
            NetAction::AddAddress(
                PeerAddr { peer: peer.to_string(), addr: addrs[i].as_str().to_string() },
            ),
        );
        i += 1;
    }
    assert(actions(todo@) =~= texts(addrs@).map_values(
        |addr: Seq<char>| ActionModel::AddAddress(peer@, addr),
    ));
    todo
}

/// What is done with peers found on the local network.
fn discovered_actions(peers: &Vec<PeerAddr>) -> (todo: Vec<NetAction>)
    ensures
        actions(todo@) == discovery_actions(peer_addrs(peers@)),
{
    let ghost all = peer_addrs(peers@);
    let mut todo: Vec<NetAction> = Vec::new();
    let mut i: usize = 0;
    assert(actions(todo@) =~= discovery_actions(all.take(0)));
    while i < peers.len()
        invariant
            i <= peers@.len(),
            all == peer_addrs(peers@),
            actions(todo@) == discovery_actions(all.take(i as int)),
        decreases peers@.len() - i,
    {
        let p = &peers[i];
        let ghost before = todo@;
        assert(all.take(i + 1).drop_last() =~= all.take(i as int));
        assert(all.take(i + 1).last() == p@);
        let peer = p.peer.as_str().to_string();
        let addr = p.addr.as_str().to_string();
        todo.push(NetAction::AddAddress(PeerAddr { peer, addr }));
        todo.push(NetAction::Dial(p.addr.as_str().to_string()));
        assert(actions(todo@) =~= actions(before).push(
            ActionModel::AddAddress(p.peer@, p.addr@),
        ).push(ActionModel::Dial(p.addr@)));
        i += 1;
    }
    assert(all.take(all.len() as int) =~= all);
    todo
}

// ---------------------------------------------------------------------------
// Commands
// ---------------------------------------------------------------------------

/// A point-in-time view of a node.
#[derive(Clone, Debug)]
pub struct DoctorInfo {
    pub peer_id: String,
    pub listen_addrs: Vec<String>,
    pub external_addrs: Vec<String>,
    pub connected_peers: usize,
    pub nat_status: String,
}

impl Default for DoctorInfo {
    fn default() -> (info: Self)
        ensures
            info.peer_id@.len() == 0,
            info.listen_addrs@.len() == 0,
            info.external_addrs@.len() == 0,
            info.connected_peers == 0,
            info.nat_status@.len() == 0,
    {
        DoctorInfo {
            peer_id: String::new(),
            listen_addrs: Vec::new(),
            external_addrs: Vec::new(),
            connected_peers: 0,
            nat_status: String::new(),
        }
    }
}

/// What a caller asks of the node.
pub enum NetCommand {
    /// Store a value in the DHT.
    PutRecord { key: Vec<u8>, value: Vec<u8> },
    /// Look for all values at a place of the DHT.
    GetRecord { key: Vec<u8> },
    /// Connect to an address.
    Dial { addr: String },
    /// Describe the node.
    Doctor,
}

/// What has to be done on the network for a command.
pub enum CommandStep {
    /// Store a value, and have it dropped after so many seconds.
    Put { key: Vec<u8>, value: Vec<u8>, expires_in: Option<u64> },
    /// Look for values.
    Get { key: Vec<u8> },
    /// Connect.
    Dial { addr: String },
    /// Find out what the network knows of the node.
    Survey,
}

/// What the network knows of the node.
pub struct Survey {
    pub peer_id: String,
    pub listen_addrs: Vec<String>,
    pub connected_peers: usize,
    pub nat_status: String,
}

/// What came of a step.
pub enum StepOutcome {
    /// A query that stores a value runs under this number.
    PutStarted(u64),
    /// The value could not be stored.
    PutRefused(String),
    /// A query that looks for values runs under this number.
    GetStarted(u64),
    /// The connection is on its way.
    Dialed,
    /// The connection cannot be made.
    DialRefused(String),
    /// What was found out.
    Surveyed(Survey),
}

/// What the caller of a command is told at once.
pub enum Reply {
    /// Nothing yet: the query will tell.
    Wait,
    /// It is done, or it failed.
    Done(Result<(), String>),
    /// The description that was asked for.
    Report(DoctorInfo),
}

/// The step for a command.
pub open spec fn is_step(cmd: NetCommand, now: u64, step: CommandStep) -> bool {
    match cmd {
        NetCommand::PutRecord { key, value } => step == (CommandStep::Put {
            key,
            value,
            expires_in: value_lifetime(value@, now),
        }),
        NetCommand::GetRecord { key } => step == (CommandStep::Get { key }),
        NetCommand::Dial { addr } => step == (CommandStep::Dial { addr }),
        NetCommand::Doctor => step == CommandStep::Survey,
    }
}

/// The memory after the outcome of a step.
pub open spec fn state_after_step(s: NodeModel, outcome: StepOutcome) -> NodeModel {
    match outcome {
        StepOutcome::PutStarted(query) => NodeModel { puts: s.puts.insert(query), ..s },
        StepOutcome::GetStarted(query) => NodeModel {
            gets: s.gets.insert(query, Seq::empty()),
            ..s
        },
        _ => s,
    }
}

/// The reply to the outcome of a step.
pub open spec fn is_reply(s: NodeModel, outcome: StepOutcome, reply: Reply) -> bool {
    match outcome {
        StepOutcome::PutStarted(_) => reply == Reply::Wait,
        StepOutcome::GetStarted(_) => reply == Reply::Wait,
        StepOutcome::PutRefused(why) => reply matches Reply::Done(Err(text)) && text@
            == "put_record failed: "@ + why@,
        StepOutcome::Dialed => reply == Reply::Done(Ok(())),
        StepOutcome::DialRefused(why) => reply matches Reply::Done(Err(text)) && text@
            == "dial failed: "@ + why@,
        StepOutcome::Surveyed(survey) => reply matches Reply::Report(info) && info.peer_id
            == survey.peer_id && info.listen_addrs == survey.listen_addrs && texts(
            info.external_addrs@,
        ) == s.external && info.connected_peers == survey.connected_peers && info.nat_status
            == survey.nat_status,
    }
}

/// The step that a command asks for.
pub fn handle_command(cmd: NetCommand, now: u64) -> (step: CommandStep)
    ensures
        is_step(cmd, now, step),
{
    match cmd {
        NetCommand::PutRecord { key, value } => {
            let expires_in = lifetime_of(value.as_slice(), now);
            CommandStep::Put { key, value, expires_in }
        },
        NetCommand::GetRecord { key } => CommandStep::Get { key },
        NetCommand::Dial { addr } => CommandStep::Dial { addr },
        NetCommand::Doctor => CommandStep::Survey,
    }
}

/// A copy of a list of texts.
pub(crate) fn copy_texts(list: &Vec<String>) -> (copy: Vec<String>)
    ensures
        texts(copy@) == texts(list@),
{
    let mut copy: Vec<String> = Vec::new();
    let mut i: usize = 0;
    while i < list.len()
        invariant
            i <= list@.len(),
            copy@.len() == i,
            forall|k: int| 0 <= k < i ==> (#[trigger] copy@[k])@ == list@[k]@,
        decreases list@.len() - i,
    {
        copy.push(list[i].as_str().to_string());
        i += 1;
    }
    assert(texts(copy@) =~= texts(list@));
    copy
}

impl NodeState {
    /// Takes note of the outcome of a step and says what the caller is told.
    pub fn finish_command(&mut self, outcome: StepOutcome) -> (reply: Reply)
        ensures
            final(self)@ == state_after_step(old(self)@, outcome),
            is_reply(old(self)@, outcome, reply),
    {
        match outcome {
            StepOutcome::PutStarted(query) => {
                self.puts.insert(query);
                Reply::Wait
            },
            StepOutcome::GetStarted(query) => {
                let records: Vec<Vec<u8>> = Vec::new();
                assert(byte_strings(records@) =~= Seq::empty());
                self.gets.insert(query, records);
                assert(self@.gets =~= old(self)@.gets.insert(query, Seq::empty()));
                Reply::Wait
            },
            StepOutcome::PutRefused(why) => Reply::Done(
                Err("put_record failed: ".to_string().concat(why.as_str())),
            ),
            StepOutcome::Dialed => Reply::Done(Ok(())),
            StepOutcome::DialRefused(why) => Reply::Done(
                Err("dial failed: ".to_string().concat(why.as_str())),
            ),
            StepOutcome::Surveyed(survey) => Reply::Report(
                DoctorInfo {
                    peer_id: survey.peer_id,
                    listen_addrs: survey.listen_addrs,
                    external_addrs: copy_texts(&self.external),
                    connected_peers: survey.connected_peers,
                    nat_status: survey.nat_status,
                },
            ),
        }
    }

    /// The last round trip time to a peer, in milliseconds, if the peer is connected and has
    /// answered.
    pub fn rtt_ms(&self, peer: &str) -> (ms: Option<u64>)
        ensures
            ms == (if self@.rtt.contains_key(peer@) {
                Some(self@.rtt[peer@])
            } else {
                None
            }),
    {
        match self.rtt.get(peer) {
            Some(ms) => Some(*ms),
            None => None,
        }
    }
}

// ---------------------------------------------------------------------------
// Laws
// ---------------------------------------------------------------------------

/// Like a new node, a node lists no address twice and keeps nothing too large after any event.
pub proof fn law_events_keep_node_ok(s: NodeModel, event: NetEvent)
    requires
        s.ok(),
    ensures
        state_after(s, event).ok(),
{
    let t = state_after(s, event);
    assert forall|q: u64, i: int|
        #![trigger t.gets[q][i]]
        t.gets.contains_key(q) && 0 <= i < t.gets[q].len() implies t.gets[q][i].len()
        <= MAX_RECORD_BYTES by {
        match event {
            NetEvent::RecordFound { query, value } => {
                if q == query && value@.len() <= MAX_RECORD_BYTES && s.gets.contains_key(query) {
                    if i < s.gets[q].len() {
                        assert(s.gets[q][i].len() <= MAX_RECORD_BYTES);
                    }
                } else {
                    assert(s.gets[q][i].len() <= MAX_RECORD_BYTES);
                }
            },
            _ => {
                assert(s.gets[q][i].len() <= MAX_RECORD_BYTES);
            },
        }
    }
}

/// The same holds after the outcome of any step.
pub proof fn law_steps_keep_node_ok(s: NodeModel, outcome: StepOutcome)
    requires
        s.ok(),
    ensures
        state_after_step(s, outcome).ok(),
{
    let t = state_after_step(s, outcome);
    assert forall|q: u64, i: int|
        #![trigger t.gets[q][i]]
        t.gets.contains_key(q) && 0 <= i < t.gets[q].len() implies t.gets[q][i].len()
        <= MAX_RECORD_BYTES by {
        assert(s.gets[q][i].len() <= MAX_RECORD_BYTES);
    }
}

/// After the last connection to a peer is gone no round trip time is shown for it, whatever was
/// measured before.
pub proof fn law_gone_peer_has_no_rtt(s: NodeModel, peer: String)
    ensures
        !state_after(s, (NetEvent::ConnectionClosed { peer, remaining: 0 })).rtt.contains_key(peer@),
{
}

/// The memory after several events.
pub open spec fn state_after_all(s: NodeModel, events: Seq<NetEvent>) -> NodeModel
    decreases events.len(),
{
    if events.len() == 0 {
        s
    } else {
        state_after(state_after_all(s, events.drop_last()), events.last())
    }
}

/// The records that the events bring for a query, oversized ones left out.
pub open spec fn found_for(query: u64, events: Seq<NetEvent>) -> Seq<Seq<u8>>
    decreases events.len(),
{
    if events.len() == 0 {
        Seq::empty()
    } else {
        let before = found_for(query, events.drop_last());
        match events.last() {
            NetEvent::RecordFound { query: q, value } => if q == query && value@.len()
                <= MAX_RECORD_BYTES {
                before.push(value@)
            } else {
                before
            },
            _ => before,
        }
    }
}

/// A lookup hands back every record that came in between its start and its end, in order and
/// without the oversized ones, whatever else happens in between.
pub proof fn law_lookup_returns_all_candidates(s: NodeModel, query: u64, events: Seq<NetEvent>)
    requires
        forall|i: int|
            0 <= i < events.len() ==> #[trigger] events[i] != (NetEvent::GetFinished { query }),
    ensures
        ({
            let started = state_after_step(s, StepOutcome::GetStarted(query));
            let end = state_after_all(started, events);
            actions_after(end, (NetEvent::GetFinished { query })) == seq![
                ActionModel::AnswerGet(query, found_for(query, events)),
            ]
        }),
{
    lemma_gathered(s, query, events);
}

proof fn lemma_gathered(s: NodeModel, query: u64, events: Seq<NetEvent>)
    requires
        forall|i: int|
            0 <= i < events.len() ==> #[trigger] events[i] != (NetEvent::GetFinished { query }),
    ensures
        ({
            let started = state_after_step(s, StepOutcome::GetStarted(query));
            let end = state_after_all(started, events);
            end.gets.contains_key(query) && end.gets[query] == found_for(query, events)
        }),
    decreases events.len(),
{
    if events.len() > 0 {
        lemma_gathered(s, query, events.drop_last());
        assert(events[events.len() - 1] == events.last());
    }
}

/// A query is answered once: after its answer it is forgotten, and a second end of it is not
/// answered.
pub proof fn law_query_is_answered_once(s: NodeModel, query: u64, error: Option<String>)
    ensures
        ({
            let t = state_after(s, (NetEvent::GetFinished { query }));
            actions_after(t, (NetEvent::GetFinished { query })) == Seq::<ActionModel>::empty()
        }),
        ({
            let t = state_after(s, (NetEvent::PutFinished { query, error }));
            actions_after(t, (NetEvent::PutFinished { query, error }))
                == Seq::<ActionModel>::empty()
        }),
{
}

/// An action is seen as what it says.
pub proof fn law_actions_are_seen_as_they_are(action: NetAction, todo: Seq<NetAction>)
    ensures
        action matches NetAction::AddAddress(p) ==> action@ == ActionModel::AddAddress(
            p.peer@,
            p.addr@,
        ),
        action matches NetAction::Dial(addr) ==> action@ == ActionModel::Dial(addr@),
        action matches NetAction::AnswerPut { query, result } ==> (action@ matches ActionModel::AnswerPut(
            q,
            error,
        ) && q == query && (result is Ok <==> error is None) && (result matches Err(why) ==> error
            == Some(why@))),
        action matches NetAction::AnswerGet { query, records } ==> (action@ matches ActionModel::AnswerGet(
            q,
            values,
        ) && q == query && values.len() == records@.len() && (forall|i: int|
            0 <= i < values.len() ==> #[trigger] values[i] == records@[i]@)),
        action matches NetAction::Store { key, value, expires_in } ==> action@
            == ActionModel::Store(key@, value@, expires_in),
        actions(todo).len() == todo.len(),
        forall|i: int| 0 <= i < todo.len() ==> #[trigger] actions(todo)[i] == todo[i]@,
{
}

/// A value that another node sends is stored, exactly once and as it is, if and only if it is a
/// signed record at a place of its key, dated at most 600 seconds ahead, and newer than what is
/// stored there, whether or not anything is. Otherwise nothing is done. Nothing is remembered
/// either way.
pub proof fn law_inbound_put_is_stored_if_newer(
    s: NodeModel,
    key: Vec<u8>,
    value: Vec<u8>,
    stored: Option<Vec<u8>>,
    now: u64,
)
    ensures
        ({
            let event = NetEvent::InboundPut { key, value, stored, now };
            let todo = actions_after(s, event);
            let fits = read_record(value@) matches Some(record) && key@.len() == 32
                && record.signature_valid() && owns_storage_key(record.body.pubkey, key@)
                && record.body.ts <= now + 600 && (stored matches Some(bytes) ==> (read_record(
                bytes@,
            ) matches Some(before) ==> before.body.ts < record.body.ts));
            &&& state_after(s, event) == s
            &&& fits ==> todo.len() == 1 && (todo[0] matches ActionModel::Store(k, v, secs) && k
                == key@ && v == value@ && secs == remaining_life(
                read_record(value@)->0.body.ts,
                read_record(value@)->0.body.ttl,
                now,
            ))
            &&& !fits ==> todo.len() == 0
        }),
{
    law_inbound_values(key@, value@, bytes_of(stored), now);
}

/// The refresh of a publisher replaces the record that is stored: a record that may be stored at
/// the place is stored if what is there is a record of an earlier date.
pub proof fn law_refresh_replaces_stored(
    s: NodeModel,
    key: Vec<u8>,
    value: Vec<u8>,
    stored: Vec<u8>,
    now: u64,
)
    requires
        storable(key@, value@) matches Some(record) && record.body.ts <= now + 600 && (read_record(
            stored@,
        ) matches Some(before) && before.body.ts < record.body.ts),
    ensures
        exists|secs: u64| #[trigger]
            actions_after(s, (NetEvent::InboundPut { key, value, stored: Some(stored), now })).contains(
                ActionModel::Store(key@, value@, secs),
            ),
{
    law_storable_records(key@, value@, storable(key@, value@)->0);
    law_inbound_put_is_stored_if_newer(s, key, value, Some(stored), now);
    let todo = actions_after(s, (NetEvent::InboundPut { key, value, stored: Some(stored), now }));
    let secs = todo[0]->Store_2;
    assert(todo[0] == ActionModel::Store(key@, value@, secs));
    assert(todo.contains(ActionModel::Store(key@, value@, secs)));
}

/// What is at a place after the node did what it decided on a value sent for it.
pub open spec fn place_after_event(
    s: NodeModel,
    key: Vec<u8>,
    value: Vec<u8>,
    stored: Option<Vec<u8>>,
    now: u64,
) -> Option<Vec<u8>> {
    if exists|secs: u64| #[trigger]
        actions_after(s, (NetEvent::InboundPut { key, value, stored, now })).contains(
            ActionModel::Store(key@, value@, secs),
        ) {
        Some(value)
    } else {
        stored
    }
}

/// What is at a place after the node did so on several values, each sent at its time.
pub open spec fn place_after_events(
    s: NodeModel,
    key: Vec<u8>,
    sent: Seq<(Vec<u8>, u64)>,
) -> Option<Vec<u8>>
    decreases sent.len(),
{
    if sent.len() == 0 {
        None
    } else {
        let (value, now) = sent.last();
        place_after_event(s, key, value, place_after_events(s, key, sent.drop_last()), now)
    }
}

proof fn lemma_place_after_event(
    s: NodeModel,
    key: Vec<u8>,
    value: Vec<u8>,
    stored: Option<Vec<u8>>,
    now: u64,
)
    ensures
        bytes_of(place_after_event(s, key, value, stored, now)) == place_after(
            key@,
            bytes_of(stored),
            value@,
            now,
        ),
{
    let todo = actions_after(s, (NetEvent::InboundPut { key, value, stored, now }));
    match inbound(key@, value@, bytes_of(stored), now) {
        Inbound::Store(secs) => {
            assert(todo[0] == ActionModel::Store(key@, value@, secs));
            assert(todo.contains(ActionModel::Store(key@, value@, secs)));
        },
        _ => {
            assert(todo.len() == 0);
        },
    }
}

/// Values with their times, as bytes.
pub open spec fn sent_bytes(sent: Seq<(Vec<u8>, u64)>) -> Seq<(Seq<u8>, u64)> {
    sent.map_values(|p: (Vec<u8>, u64)| (p.0@, p.1))
}

proof fn lemma_place_after_events(s: NodeModel, key: Vec<u8>, sent: Seq<(Vec<u8>, u64)>)
    ensures
        bytes_of(place_after_events(s, key, sent)) == place_after_all(key@, sent_bytes(sent)),
    decreases sent.len(),
{
    if sent.len() > 0 {
        lemma_place_after_events(s, key, sent.drop_last());
        assert(sent_bytes(sent).drop_last() =~= sent_bytes(sent.drop_last()));
        let (value, now) = sent.last();
        lemma_place_after_event(
            s,
            key,
            value,
            place_after_events(s, key, sent.drop_last()),
            now,
        );
    }
}

/// Whatever others send a node for a place, after each record that may be stored there and was
/// not dated too far ahead the place holds a record of its owner at least as new.
pub proof fn law_node_keeps_up(s: NodeModel, key: Vec<u8>, sent: Seq<(Vec<u8>, u64)>, i: int)
    requires
        0 <= i < sent.len(),
        storable(key@, sent[i].0@) matches Some(record) && record.body.ts <= sent[i].1 + 600,
    ensures
        place_after_events(s, key, sent) matches Some(value) && (storable(key@, value@) matches Some(
            newest,
        ) && newest.body.ts >= storable(key@, sent[i].0@)->0.body.ts),
{
    lemma_place_after_events(s, key, sent);
    let bytes = sent_bytes(sent);
    assert(bytes[i] == (sent[i].0@, sent[i].1));
    law_place_keeps_up(key@, bytes, i);
}

/// Whatever others send a node for a place, nothing but a record of its owner is ever there.
pub proof fn law_node_holds_only_the_owners_records(
    s: NodeModel,
    key: Vec<u8>,
    sent: Seq<(Vec<u8>, u64)>,
)
    ensures
        place_after_events(s, key, sent) matches Some(value) ==> storable(key@, value@) is Some,
{
    lemma_place_after_events(s, key, sent);
    law_place_holds_only_the_owners_records(key@, sent_bytes(sent));
}

/// The round trip time of a ping is shown for its peer until the next; those of others stay.
pub proof fn law_ping_is_noted(s: NodeModel, peer: String, millis: u128, other: Seq<char>)
    requires
        other != peer@,
    ensures
        ({
            let event = NetEvent::Ping { peer, millis };
            let t = state_after(s, event);
            &&& t.rtt.contains_key(peer@)
            &&& millis <= u64::MAX ==> t.rtt[peer@] == millis
            &&& t.rtt.contains_key(other) == s.rtt.contains_key(other)
            &&& s.rtt.contains_key(other) ==> t.rtt[other] == s.rtt[other]
            &&& t.external == s.external && t.puts == s.puts && t.gets == s.gets
            &&& actions_after(s, event).len() == 0
        }),
{
}

/// A closed connection to a peer with others left changes nothing; after the last one the time
/// of that peer is forgotten, and of no other.
pub proof fn law_closed_connection(s: NodeModel, peer: String, remaining: u32, other: Seq<char>)
    requires
        other != peer@,
    ensures
        ({
            let event = NetEvent::ConnectionClosed { peer, remaining };
            let t = state_after(s, event);
            &&& remaining > 0 ==> t == s
            &&& remaining == 0 ==> !t.rtt.contains_key(peer@)
            &&& t.rtt.contains_key(other) == s.rtt.contains_key(other)
            &&& s.rtt.contains_key(other) ==> t.rtt[other] == s.rtt[other]
            &&& t.external == s.external && t.puts == s.puts && t.gets == s.gets
            &&& actions_after(s, event).len() == 0
        }),
{
}

/// An address at which the node was reached is listed behind the others, once.
pub proof fn law_external_address_is_listed(s: NodeModel, address: String)
    ensures
        ({
            let event = NetEvent::ExternalAddress { address };
            let t = state_after(s, event);
            &&& s.external.contains(address@) ==> t == s
            &&& !s.external.contains(address@) ==> t.external.len() == s.external.len() + 1
                && t.external.take(s.external.len() as int) == s.external && t.external.last()
                == address@
            &&& t.rtt == s.rtt && t.puts == s.puts && t.gets == s.gets
            &&& actions_after(s, event).len() == 0
        }),
{
    let t = state_after(s, (NetEvent::ExternalAddress { address }));
    if !s.external.contains(address@) {
        assert(t.external.take(s.external.len() as int) =~= s.external);
    }
}

/// Each address that a peer tells is made known as one of that peer, in order.
pub proof fn law_told_addresses_are_made_known(
    s: NodeModel,
    peer: String,
    listen_addrs: Vec<String>,
)
    ensures
        ({
            let event = NetEvent::Identified { peer, listen_addrs };
            let todo = actions_after(s, event);
            &&& state_after(s, event) == s
            &&& todo.len() == listen_addrs@.len()
            &&& forall|i: int|
                0 <= i < todo.len() ==> #[trigger] todo[i] == ActionModel::AddAddress(
                    peer@,
                    listen_addrs@[i]@,
                )
        }),
{
}

/// Each peer that is found on the local network is made known and called, in order.
pub proof fn law_found_peers_are_called(s: NodeModel, peers: Vec<PeerAddr>)
    ensures
        ({
            let event = NetEvent::Discovered { peers };
            let todo = actions_after(s, event);
            &&& state_after(s, event) == s
            &&& todo.len() == 2 * peers@.len()
            &&& forall|i: int|
                #![trigger peers@[i]]
                0 <= i < peers@.len() ==> todo[2 * i] == ActionModel::AddAddress(
                    peers@[i].peer@,
                    peers@[i].addr@,
                ) && todo[2 * i + 1] == ActionModel::Dial(peers@[i].addr@)
        }),
{
    let all = peer_addrs(peers@);
    lemma_discovery(all);
    assert forall|i: int|
        #![trigger peers@[i]]
        0 <= i < peers@.len() implies discovery_actions(all)[2 * i] == ActionModel::AddAddress(
        peers@[i].peer@,
        peers@[i].addr@,
    ) && discovery_actions(all)[2 * i + 1] == ActionModel::Dial(peers@[i].addr@) by {
        assert(all[i] == (peers@[i].peer@, peers@[i].addr@));
    }
}

proof fn lemma_discovery(peers: Seq<(Seq<char>, Seq<char>)>)
    ensures
        discovery_actions(peers).len() == 2 * peers.len(),
        forall|i: int|
            #![trigger peers[i]]
            0 <= i < peers.len() ==> discovery_actions(peers)[2 * i] == ActionModel::AddAddress(
                peers[i].0,
                peers[i].1,
            ) && discovery_actions(peers)[2 * i + 1] == ActionModel::Dial(peers[i].1),
    decreases peers.len(),
{
    if peers.len() > 0 {
        let rest = peers.drop_last();
        lemma_discovery(rest);
        assert forall|i: int|
            #![trigger peers[i]]
            0 <= i < peers.len() implies discovery_actions(peers)[2 * i] == ActionModel::AddAddress(
            peers[i].0,
            peers[i].1,
        ) && discovery_actions(peers)[2 * i + 1] == ActionModel::Dial(peers[i].1) by {
            if i < rest.len() {
                assert(rest[i] == peers[i]);
            } else {
                assert(peers[i] == peers.last());
            }
        }
    }
}

/// Whoever started a query that stores a record is told once how it ended, with the reason if it
/// failed; a query that was not started is not answered. Other queries go on.
pub proof fn law_put_is_answered(s: NodeModel, query: u64, error: Option<String>, other: u64)
    requires
        other != query,
    ensures
        ({
            let event = NetEvent::PutFinished { query, error };
            let t = state_after(s, event);
            let todo = actions_after(s, event);
            &&& !s.puts.contains(query) ==> todo.len() == 0
            &&& s.puts.contains(query) ==> todo.len() == 1 && (todo[0] matches ActionModel::AnswerPut(
                q,
                why,
            ) && q == query && (error is None <==> why is None) && (error matches Some(text)
                ==> why == Some("put failed: "@ + text@)))
            &&& !t.puts.contains(query)
            &&& t.puts.contains(other) == s.puts.contains(other)
            &&& t.external == s.external && t.rtt == s.rtt && t.gets == s.gets
        }),
{
}

/// A record that a query finds is kept behind those found before, unless it is larger than 8192
/// bytes or nobody asked; other queries do not see it, and nobody is answered yet.
pub proof fn law_found_record_is_kept(s: NodeModel, query: u64, value: Vec<u8>, other: u64)
    requires
        other != query,
    ensures
        ({
            let event = NetEvent::RecordFound { query, value };
            let t = state_after(s, event);
            &&& t.gets.contains_key(query) == s.gets.contains_key(query)
            &&& s.gets.contains_key(query) && value@.len() <= 8192 ==> t.gets[query]
                == s.gets[query].push(value@)
            &&& s.gets.contains_key(query) && value@.len() > 8192 ==> t.gets[query]
                == s.gets[query]
            &&& t.gets.contains_key(other) == s.gets.contains_key(other)
            &&& s.gets.contains_key(other) ==> t.gets[other] == s.gets[other]
            &&& t.external == s.external && t.rtt == s.rtt && t.puts == s.puts
            &&& actions_after(s, event).len() == 0
        }),
{
}

/// When a query that looks for records is over, whoever started it gets all that was found, and
/// the query is forgotten; other queries go on.
pub proof fn law_get_is_answered(s: NodeModel, query: u64, other: u64)
    requires
        other != query,
    ensures
        ({
            let event = NetEvent::GetFinished { query };
            let t = state_after(s, event);
            let todo = actions_after(s, event);
            &&& !s.gets.contains_key(query) ==> todo.len() == 0
            &&& s.gets.contains_key(query) ==> todo.len() == 1 && todo[0]
                == ActionModel::AnswerGet(query, s.gets[query])
            &&& !t.gets.contains_key(query)
            &&& t.gets.contains_key(other) == s.gets.contains_key(other)
            &&& s.gets.contains_key(other) ==> t.gets[other] == s.gets[other]
            &&& t.external == s.external && t.rtt == s.rtt && t.puts == s.puts
        }),
{
}

/// What asks for nothing changes nothing.
pub proof fn law_other_events_change_nothing(s: NodeModel)
    ensures
        state_after(s, NetEvent::Other) == s,
        actions_after(s, NetEvent::Other).len() == 0,
{
}

/// A command becomes the step that does it, with the key, value or address as it is. A value is
/// kept as long as the record in it lives.
pub proof fn law_command_becomes_its_step(cmd: NetCommand, now: u64, step: CommandStep)
    requires
        is_step(cmd, now, step),
    ensures
        cmd matches NetCommand::PutRecord { key, value } ==> (step matches CommandStep::Put {
            key: k,
            value: v,
            expires_in,
        } && k@ == key@ && v@ == value@ && (match read_record(value@) {
            Some(record) => expires_in == Some(
                remaining_life(record.body.ts, record.body.ttl, now),
            ),
            None => expires_in is None,
        })),
        cmd matches NetCommand::GetRecord { key } ==> (step matches CommandStep::Get { key: k } && k@
            == key@),
        cmd matches NetCommand::Dial { addr } ==> (step matches CommandStep::Dial { addr: a } && a@
            == addr@),
        cmd is Doctor ==> step is Survey,
{
}

/// Whoever starts a query waits for it, and the query is known from then on; a step that is
/// refused is answered with the reason, one that is done with success, and a survey with what
/// was found out and the addresses that the node remembers.
pub proof fn law_outcome_is_told(s: NodeModel, outcome: StepOutcome, reply: Reply, other: u64)
    requires
        is_reply(s, outcome, reply),
    ensures
        ({
            let t = state_after_step(s, outcome);
            &&& outcome matches StepOutcome::PutStarted(query) ==> reply is Wait && t.puts.contains(
                query,
            ) && (other != query ==> t.puts.contains(other) == s.puts.contains(other)) && t.gets
                == s.gets
            &&& outcome matches StepOutcome::GetStarted(query) ==> reply is Wait
                && t.gets.contains_key(query) && t.gets[query].len() == 0 && (other != query ==> (
            t.gets.contains_key(other) == s.gets.contains_key(other) && (s.gets.contains_key(other)
                ==> t.gets[other] == s.gets[other]))) && t.puts == s.puts
            &&& outcome matches StepOutcome::PutRefused(why) ==> (reply matches Reply::Done(
                Err(text),
            ) && text@ == "put_record failed: "@ + why@)
            &&& outcome matches StepOutcome::DialRefused(why) ==> (reply matches Reply::Done(
                Err(text),
            ) && text@ == "dial failed: "@ + why@)
            &&& outcome is Dialed ==> (reply matches Reply::Done(Ok(_)))
            &&& outcome matches StepOutcome::Surveyed(survey) ==> (reply matches Reply::Report(info)
                && info.peer_id@ == survey.peer_id@ && info.listen_addrs@ == survey.listen_addrs@
                && texts(info.external_addrs@) == s.external && info.connected_peers
                == survey.connected_peers && info.nat_status@ == survey.nat_status@)
            &&& !(outcome is PutStarted) && !(outcome is GetStarted) ==> t == s
            &&& t.external == s.external && t.rtt == s.rtt
        }),
{
}

/// A node listens where it is told to, and on TCP and QUIC on all interfaces if it is not.
pub proof fn law_listening(cfg: NetConfig)
    ensures
        cfg.listen@.len() > 0 ==> listen_texts(cfg).len() == cfg.listen@.len() && (forall|i: int|
            0 <= i < cfg.listen@.len() ==> #[trigger] listen_texts(cfg)[i] == cfg.listen@[i].text@),
        cfg.listen@.len() == 0 ==> listen_texts(cfg) == seq![
            "/ip4/0.0.0.0/tcp/0"@,
            "/ip4/0.0.0.0/udp/0/quic-v1"@,
        ],
{
}

/// Each address to start from is used with the peer that it names, or skipped if it names none;
/// of two lists one behind the other first those of the one are used or skipped, then those of
/// the other.
pub proof fn law_each_start_address_is_used_or_skipped(
    addr: Multiaddr,
    a: Seq<Multiaddr>,
    b: Seq<Multiaddr>,
)
    ensures
        trailing_peer(text_options(addr.components@)) matches Some(peer) ==> named_peers(seq![addr])
            == seq![(peer, addr.text@)] && nameless(seq![addr]).len() == 0,
        trailing_peer(text_options(addr.components@)) is None ==> named_peers(seq![addr]).len() == 0
            && nameless(seq![addr]) == seq![addr.text@],
        named_peers(a + b) == named_peers(a) + named_peers(b),
        nameless(a + b) == nameless(a) + nameless(b),
        named_peers(a).len() + nameless(a).len() == a.len(),
    decreases b.len() + a.len(),
{
    assert(seq![addr].drop_last() =~= Seq::empty());
    assert(named_peers(seq![addr].drop_last()) =~= Seq::empty());
    assert(nameless(seq![addr].drop_last()) =~= Seq::empty());
    if a.len() > 0 {
        law_each_start_address_is_used_or_skipped(addr, a.drop_last(), Seq::empty());
    }
    if b.len() == 0 {
        assert(a + b =~= a);
        assert(named_peers(a) + named_peers(b) =~= named_peers(a));
        assert(nameless(a) + nameless(b) =~= nameless(a));
    } else {
        law_each_start_address_is_used_or_skipped(addr, a, b.drop_last());
        assert((a + b).drop_last() =~= a + b.drop_last());
        assert((a + b).last() == b.last());
        assert(named_peers(a + b) =~= named_peers(a) + named_peers(b));
        assert(nameless(a + b) =~= nameless(a) + nameless(b));
    }
}

/// A slot is reserved by listening at the address of the relay followed by the mark of a circuit,
/// and the relay is made known if its address names a peer.
pub proof fn law_reservation(r: Reservation, relay: Multiaddr)
    requires
        reserves(r, relay),
    ensures
        r.circuit@ == relay.text@ + "/p2p-circuit"@,
        trailing_peer(text_options(relay.components@)) is None ==> r.relay is None,
        trailing_peer(text_options(relay.components@)) matches Some(peer) ==> (r.relay matches Some(
            known,
        ) && known.peer@ == peer && known.addr@ == relay.text@),
{
}

/// Peers and addresses are seen as their texts.
pub proof fn law_peers_are_seen_as_texts(list: Seq<PeerAddr>)
    ensures
        peer_addrs(list).len() == list.len(),
        forall|i: int|
            0 <= i < list.len() ==> #[trigger] peer_addrs(list)[i] == (list[i].peer@, list[i].addr@),
{
}

} // verus!
