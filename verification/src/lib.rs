//! Self-certifying names and signed location records for Minecraft tunnels.
//!
//! A name commits to a public key, and a record signed by that key says where its owner is to be
//! found. This library decides everything that does not need the network itself: how names are
//! derived and parsed, which records are written, trusted and stored, what a node does on an
//! event, who may open a tunnel, and how the local control endpoint answers.

pub mod addr;
pub mod agent;
pub mod bytes;
pub mod cbor;
pub mod cli;
pub mod config;
pub mod crypto;
pub mod error;
pub mod format;
pub mod grind;
pub mod identity;
pub mod json;
pub mod keystore;
pub mod name;
pub mod node;
pub mod order;
pub mod proxy;
pub mod record;
pub mod store;
pub mod text;
pub mod tunnel;

pub use error::CoreError;
pub use identity::Identity;
pub use name::{keyid_from_pubkey, keyid_full_from_pubkey, Name};
pub use record::{dht_key, Record, RecordBody};
use vstd::prelude::*;

verus! {

/// Length of a keyid, in base32 characters, unless another is asked for. 26 characters are
/// 130 bits of the digest.
pub const DEFAULT_KEYID_LEN: usize = 26;

/// Shortest accepted keyid: 16 characters are 80 bits.
pub const MIN_KEYID_LEN: usize = 16;

/// Longest keyid: 52 characters hold the whole 256-bit digest.
pub const MAX_KEYID_LEN: usize = 52;

/// Longest vanity label.
pub const MAX_VANITY_LEN: usize = 8;

/// Last label of every name.
pub const SUFFIX: &'static str = "minecraft";

/// What is hashed before the keyid to make a DHT key.
pub const DHT_KEY_PREFIX: &'static str = "mc-tunnel:v1:";

/// The record version that this library writes and accepts.
pub const RECORD_VERSION: u8 = 1;

} // verus!
