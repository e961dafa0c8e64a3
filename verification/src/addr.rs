//! Peer ids and network addresses, as text. Peer ids are computed and addresses are read by
//! `libp2p`.

use crate::text::{debug_quoted, quoted};
use libp2p::identity::ed25519::PublicKey as PeerKey;
use libp2p::multiaddr::Protocol;
use vstd::prelude::*;
use vstd::string::*;

verus! {

// ---------------------------------------------------------------------------
// Outside functions
// ---------------------------------------------------------------------------

/// The peer id of an ed25519 public key, in its base58 form, or why the bytes are no key.
pub uninterp spec fn ed25519_peer_id(key: Seq<u8>) -> Result<Seq<char>, Seq<char>>;

/// What a text holds as a multiaddr, or why it is none: for each component, in order, the peer
/// id in base58 if it is `/p2p/<peer id>`, and nothing for a component of another kind.
pub uninterp spec fn multiaddr_components(text: Seq<char>) -> Result<
    Seq<Option<Seq<char>>>,
    Seq<char>,
>;

/// The text in an option.
pub open spec fn text_option(text: Option<String>) -> Option<Seq<char>> {
    match text {
        Some(t) => Some(t@),
        None => None,
    }
}

/// The texts in a list of options.
pub open spec fn text_options(list: Seq<Option<String>>) -> Seq<Option<Seq<char>>> {
    list.map_values(|t: Option<String>| text_option(t))
}

/// `libp2p::identity::ed25519::PublicKey::try_from_bytes`, then `PublicKey::to_peer_id` and the
/// text of the peer id. Result and error text are functions of the key.
#[verifier::external_body]
fn peer_id_text(key: &[u8; 32]) -> (r: Result<String, String>)
    ensures
        match r {
            Ok(id) => ed25519_peer_id(key@) matches Ok(text) && text == id@,
            Err(why) => ed25519_peer_id(key@) matches Err(text) && text == why@,
        },
{
    match PeerKey::try_from_bytes(key) {
        Ok(public) => Ok(libp2p::identity::PublicKey::from(public).to_peer_id().to_string()),
        Err(e) => Err(e.to_string()),
    }
}

/// `<libp2p::Multiaddr as FromStr>::from_str`, then `Multiaddr::iter`, with the text of the peer
/// id in each `Protocol::P2p`. Result and error text are functions of the text.
#[verifier::external_body]
fn read_components(text: &str) -> (r: Result<Vec<Option<String>>, String>)
    ensures
        match r {
            Ok(list) => multiaddr_components(text@) matches Ok(c) && c == text_options(list@),
            Err(why) => multiaddr_components(text@) matches Err(w) && w == why@,
        },
{
    match text.parse::<libp2p::Multiaddr>() {
        Ok(addr) => Ok(addr.iter().map(|p| match p {
            Protocol::P2p(id) => Some(id.to_string()),
            _ => None,
        }).collect()),
        Err(e) => Err(e.to_string()),
    }
}

// ---------------------------------------------------------------------------
// Addresses
// ---------------------------------------------------------------------------

/// Why a key or an address cannot be used.
#[derive(Debug, Clone, PartialEq, Eq)]
pub enum NetError {
    /// The bytes are no ed25519 public key.
    InvalidKey(String),
    /// The text is no multiaddr.
    InvalidMultiaddr { text: String, why: String },
}

impl NetError {
    /// The words of the error.
    pub open spec fn words(self) -> Seq<char> {
        match self {
            NetError::InvalidKey(why) => "invalid ed25519 public key: "@ + why@,
            NetError::InvalidMultiaddr { text, why } => "invalid multiaddr "@ + quoted(text@)
                + ": "@ + why@,
        }
    }

    /// Puts the error in words.
    pub fn message(&self) -> (text: String)
        ensures
            text@ == self.words(),
    {
        match self {
            NetError::InvalidKey(why) => "invalid ed25519 public key: ".to_string().concat(
                why.as_str(),
            ),
            NetError::InvalidMultiaddr { text, why } => "invalid multiaddr ".to_string().concat(
                debug_quoted(text.as_str()).as_str(),
            ).concat(": ").concat(why.as_str()),
        }
    }
}

/// A network address.
#[derive(Debug, Clone, PartialEq, Eq)]
pub struct Multiaddr {
    /// The address as it was written.
    pub text: String,
    /// For each component the peer id it names, if it names one.
    pub components: Vec<Option<String>>,
}

impl Multiaddr {
    /// The components are those of the text.
    pub open spec fn well_formed(self) -> bool {
        multiaddr_components(self.text@) == Ok::<Seq<Option<Seq<char>>>, Seq<char>>(
            text_options(self.components@),
        )
    }
}

/// The texts of addresses.
pub open spec fn addr_texts(list: Seq<Multiaddr>) -> Seq<Seq<char>> {
    list.map_values(|a: Multiaddr| a.text@)
}

/// All addresses are well formed.
pub open spec fn all_well_formed(list: Seq<Multiaddr>) -> bool {
    forall|i: int| 0 <= i < list.len() ==> (#[trigger] list[i]).well_formed()
}

/// The last peer id among the components: that of the node at which the address ends.
pub open spec fn trailing_peer(components: Seq<Option<Seq<char>>>) -> Option<Seq<char>>
    decreases components.len(),
{
    if components.len() == 0 {
        None
    } else if components.last() is Some {
        components.last()
    } else {
        trailing_peer(components.drop_last())
    }
}

/// The peer id of the key.
pub fn peer_id_from_ed25519(pubkey: &[u8; 32]) -> (r: Result<String, NetError>)
    ensures
        match r {
            Ok(id) => ed25519_peer_id(pubkey@) == Ok::<Seq<char>, Seq<char>>(id@),
            Err(NetError::InvalidKey(why)) => ed25519_peer_id(pubkey@) == Err::<
                Seq<char>,
                Seq<char>,
            >(why@),
            Err(_) => false,
        },
{
    match peer_id_text(pubkey) {
        Ok(id) => Ok(id),
        Err(why) => Err(NetError::InvalidKey(why)),
    }
}

/// Reads an address.
pub fn parse_multiaddr(s: &str) -> (r: Result<Multiaddr, NetError>)
    ensures
        match r {
            Ok(addr) => addr.well_formed() && addr.text@ == s@,
            Err(NetError::InvalidMultiaddr { text, why }) => text@ == s@ && multiaddr_components(
                s@,
            ) == Err::<Seq<Option<Seq<char>>>, Seq<char>>(why@),
            Err(_) => false,
        },
{
    match read_components(s) {
        Ok(components) => Ok(Multiaddr { text: s.to_string(), components }),
        Err(why) => Err(NetError::InvalidMultiaddr { text: s.to_string(), why }),
    }
}

/// The peer id in an address: the last that a component names.
pub fn peer_id_from_multiaddr(addr: &Multiaddr) -> (peer: Option<String>)
    ensures
        text_option(peer) == trailing_peer(text_options(addr.components@)),
{
    let ghost all = text_options(addr.components@);
    let mut i: usize = addr.components.len();
    assert(all.take(i as int) =~= all);
    while i > 0
        invariant
            i <= addr.components@.len(),
            all == text_options(addr.components@),
            trailing_peer(all) == trailing_peer(all.take(i as int)),
        decreases i,
    {
        i -= 1;
        assert(all.take(i + 1).last() == all[i as int]);
        assert(all.take(i + 1).drop_last() =~= all.take(i as int));
        if let Some(id) = &addr.components[i] {
            return Some(id.as_str().to_string());
        }
    }
    None
}

/// The address through a relay: that of the relay, and the component that says so.
pub fn circuit_text(relay: &Multiaddr) -> (text: String)
    ensures
        text@ == relay.text@ + "/p2p-circuit"@,
{
    relay.text.as_str().to_string().concat("/p2p-circuit")
}

/// A copy of an address.
pub fn copy_addr(addr: &Multiaddr) -> (r: Multiaddr)
    ensures
        r.text@ == addr.text@,
        text_options(r.components@) == text_options(addr.components@),
        addr.well_formed() ==> r.well_formed(),
{
    let mut components: Vec<Option<String>> = Vec::new();
    let mut i: usize = 0;
    while i < addr.components.len()
        invariant
            i <= addr.components@.len(),
            components@.len() == i,
            forall|k: int|
                0 <= k < i ==> text_option(#[trigger] components@[k]) == text_option(
                    addr.components@[k],
                ),
        decreases addr.components@.len() - i,
    {
        components.push(
            match &addr.components[i] {
                Some(id) => Some(id.as_str().to_string()),
                None => None,
            },
        );
        i += 1;
    }
    assert(text_options(components@) =~= text_options(addr.components@));
    Multiaddr { text: addr.text.as_str().to_string(), components }
}

// ---------------------------------------------------------------------------
// Laws
// ---------------------------------------------------------------------------

/// The peer of an address is named by a component behind which no other names one; an address
/// has none if and only if no component names one.
pub proof fn law_last_named_peer_counts(components: Seq<Option<Seq<char>>>)
    ensures
        trailing_peer(components) is None <==> forall|i: int|
            0 <= i < components.len() ==> #[trigger] components[i] is None,
        trailing_peer(components) matches Some(peer) ==> exists|i: int|
            {
                &&& 0 <= i < components.len()
                &&& #[trigger] components[i] == Some(peer)
                &&& forall|j: int| i < j < components.len() ==> #[trigger] components[j] is None
            },
    decreases components.len(),
{
    if components.len() > 0 {
        let last = components.len() - 1;
        assert(components[last] == components.last());
        if components.last() is None {
            let rest = components.drop_last();
            law_last_named_peer_counts(rest);
            assert forall|i: int| 0 <= i < rest.len() implies rest[i] == #[trigger] components[i] by {}
            if trailing_peer(components) is None {
                assert forall|i: int| 0 <= i < components.len() implies #[trigger] components[i]
                    is None by {
                    if i < last {
                        assert(rest[i] is None);
                    }
                }
            } else {
                let peer = trailing_peer(components)->0;
                let i = choose|i: int|
                    {
                        &&& 0 <= i < rest.len()
                        &&& #[trigger] rest[i] == Some(peer)
                        &&& forall|j: int| i < j < rest.len() ==> #[trigger] rest[j] is None
                    };
                assert(components[i] == Some(peer));
                assert forall|j: int| i < j < components.len() implies #[trigger] components[j]
                    is None by {
                    if j < last {
                        assert(rest[j] is None);
                    }
                }
            }
        }
    }
}

/// A list of addresses is seen as their texts, and a list of options as the texts in them.
pub proof fn law_lists_are_seen_as_texts(addrs: Seq<Multiaddr>, names: Seq<Option<String>>)
    ensures
        addr_texts(addrs).len() == addrs.len(),
        forall|i: int| 0 <= i < addrs.len() ==> #[trigger] addr_texts(addrs)[i] == addrs[i].text@,
        text_options(names).len() == names.len(),
        forall|i: int|
            0 <= i < names.len() ==> (#[trigger] text_options(names)[i] is None <==> names[i] is None),
        forall|i: int|
            0 <= i < names.len() ==> (names[i] matches Some(name) ==> #[trigger] text_options(
                names,
            )[i] == Some(name@)),
        all_well_formed(addrs) <==> forall|i: int|
            0 <= i < addrs.len() ==> multiaddr_components((#[trigger] addrs[i]).text@) == Ok::<
                Seq<Option<Seq<char>>>,
                Seq<char>,
            >(text_options(addrs[i].components@)),
{
    if forall|i: int|
        0 <= i < addrs.len() ==> multiaddr_components((#[trigger] addrs[i]).text@) == Ok::<
            Seq<Option<Seq<char>>>,
            Seq<char>,
        >(text_options(addrs[i].components@)) {
        assert forall|i: int| 0 <= i < addrs.len() implies (#[trigger] addrs[i]).well_formed() by {}
    }
}

/// A key and an address are refused in these words.
pub proof fn law_words_of_refused_addresses(text: String, why: String)
    ensures
        NetError::InvalidKey(why).words() == "invalid ed25519 public key: "@ + why@,
        (NetError::InvalidMultiaddr { text, why }).words() == "invalid multiaddr "@ + quoted(text@)
            + ": "@ + why@,
{
}

} // verus!
