//! Settings, as they stand in the configuration file.

use crate::DEFAULT_KEYID_LEN;
use vstd::prelude::*;
use vstd::string::*;

verus! {

/// Name of the configuration file.
pub const CONFIG_FILE: &'static str = "config.toml";

/// Where a Minecraft server listens unless it is told otherwise.
pub const DEFAULT_TARGET: &'static str = "127.0.0.1:25565";

/// Where the connecting side listens unless it is told otherwise.
pub const DEFAULT_LISTEN: &'static str = "127.0.0.1:25566";

/// All settings.
#[derive(Debug)]
pub struct Config {
    pub network: NetworkCfg,
    pub publish: PublishCfg,
    pub connect: ConnectCfg,
}

/// Settings of the node.
#[derive(Debug)]
pub struct NetworkCfg {
    /// Nodes to start from. Each address has to name a peer.
    pub bootstrap: Vec<String>,
    /// Relays on which to reserve a slot; the bootstrap nodes if empty.
    pub relays: Vec<String>,
    /// Whether to use the public DHT of IPFS.
    pub use_ipfs_dht: bool,
    /// Whether to find nodes on the local network.
    pub mdns: bool,
    pub keyid_len: usize,
}

/// Settings for publishing.
#[derive(Debug)]
pub struct PublishCfg {
    pub target: String,
    pub vanity: String,
    pub max_conns: usize,
    /// Most new tunnels per second.
    pub max_conn_rate: u32,
}

/// Settings for connecting.
#[derive(Debug)]
pub struct ConnectCfg {
    pub listen: String,
}

impl NetworkCfg {
    /// No other node is known, and the local network is searched.
    pub open spec fn is_default(self) -> bool {
        &&& self.bootstrap@.len() == 0
        &&& self.relays@.len() == 0
        &&& !self.use_ipfs_dht
        &&& self.mdns
        &&& self.keyid_len == DEFAULT_KEYID_LEN
    }
}

impl PublishCfg {
    /// The server on this machine is published without a vanity label.
    pub open spec fn is_default(self) -> bool {
        &&& self.target@ == DEFAULT_TARGET@
        &&& self.vanity@.len() == 0
        &&& self.max_conns == 32
        &&& self.max_conn_rate == 16
    }
}

impl ConnectCfg {
    /// Only this machine can use the tunnel.
    pub open spec fn is_default(self) -> bool {
        self.listen@ == DEFAULT_LISTEN@
    }
}

impl Default for NetworkCfg {
    fn default() -> (cfg: Self)
        ensures
            cfg.is_default(),
    {
        NetworkCfg {
            bootstrap: Vec::new(),
            relays: Vec::new(),
            use_ipfs_dht: false,
            mdns: true,
            keyid_len: DEFAULT_KEYID_LEN,
        }
    }
}

impl Default for PublishCfg {
    fn default() -> (cfg: Self)
        ensures
            cfg.is_default(),
    {
        PublishCfg {
            target: DEFAULT_TARGET.to_string(),
            vanity: String::new(),
            max_conns: 32,
            max_conn_rate: 16,
        }
    }
}

impl Default for ConnectCfg {
    fn default() -> (cfg: Self)
        ensures
            cfg.is_default(),
    {
        ConnectCfg { listen: DEFAULT_LISTEN.to_string() }
    }
}

impl Default for Config {
    fn default() -> (cfg: Self)
        ensures
            cfg.network.is_default(),
            cfg.publish.is_default(),
            cfg.connect.is_default(),
    {
        Config {
            network: NetworkCfg::default(),
            publish: PublishCfg::default(),
            connect: ConnectCfg::default(),
        }
    }
}

/// Without a file a node knows no other and searches the local network, the server at port 25565
/// of this machine is published for at most 32 tunnels and 16 new ones per second, and tunnels
/// are offered to this machine at port 25566.
pub proof fn law_default_settings(network: NetworkCfg, publish: PublishCfg, connect: ConnectCfg)
    ensures
        network.is_default() <==> network.bootstrap@.len() == 0 && network.relays@.len() == 0
            && !network.use_ipfs_dht && network.mdns && network.keyid_len == 26,
        publish.is_default() <==> publish.target@ == "127.0.0.1:25565"@ && publish.vanity@.len() == 0
            && publish.max_conns == 32 && publish.max_conn_rate == 16,
        connect.is_default() <==> connect.listen@ == "127.0.0.1:25566"@,
{
}

} // verus!
