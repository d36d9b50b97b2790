//! What the node keeps about each peer.

use vstd::prelude::*;

use crate::local_address::LocalAddress;
use crate::net_addr::BitcoinSocketAddr;
use crate::service_flags::ServiceFlags;

verus! {

/// Number of a connection to a peer
pub type PeerId = u32;

/// The kind of connection we see this peer as.
#[derive(Debug, Clone, Copy, PartialEq, Eq, Structural)]
pub enum ConnectionKind {
    /// A feeler connection is a short-lived connection used to check whether this peer is alive.
    ///
    /// After handshake, we ask for addresses and when we receive an answer we just disconnect,
    /// marking this peer as alive in our address manager.
    Feeler,
    /// A regular peer, used to send requests to and learn about transactions and blocks.
    Regular(ServiceFlags),
    /// An extra peer specially created if our tip hasn't moved for too long.
    ///
    /// If too much time has passed since the last processed block, we use this to make sure we
    /// are not in a partitioned subnet, unable to learn about new blocks.
    Extra,
    /// A connection that was manually requested by our user. This type of peer won't be banned on
    /// misbehaving, and won't respect the service requirements when creating a connection.
    Manual,
}

impl ConnectionKind {
    /// The name of the kind.
    pub fn name(&self) -> (r: &'static str)
        ensures
            r@ == (match *self {
                ConnectionKind::Feeler => "feeler"@,
                ConnectionKind::Regular(_) => "regular"@,
                ConnectionKind::Extra => "extra"@,
                ConnectionKind::Manual => "manual"@,
            }),
    {
        match self {
            ConnectionKind::Feeler => "feeler",
            ConnectionKind::Regular(_) => "regular",
            ConnectionKind::Extra => "extra",
            ConnectionKind::Manual => "manual",
        }
    }
}

/// How far a connection to a peer has come
#[derive(Debug, Clone, Copy, PartialEq, Eq, Structural)]
pub enum PeerStatus {
    Awaiting,
    Ready,
    Banned,
}

/// The protocol a connection runs over
#[derive(Debug, Clone, Copy, PartialEq, Eq, Structural)]
pub enum TransportProtocol {
    /// The plain one
    V1,
    /// The encrypted one
    V2,
}

/// What a peer tells about itself in the handshake
#[derive(Debug, PartialEq, Eq)]
pub struct Version {
    /// The number of the connection
    pub id: PeerId,
    /// The id of the peer's address in our address manager
    pub address_id: usize,
    /// The services the peer offers
    pub services: ServiceFlags,
    /// The software it runs
    pub user_agent: String,
    /// The height of its chain
    pub blocks: u32,
    /// How far its clock is off ours, in seconds
    pub time_offset: i64,
    /// The kind of connection we opened
    pub kind: ConnectionKind,
    /// The protocol the connection runs over
    pub transport_protocol: TransportProtocol,
}

/// Local information kept about each peer
#[derive(Debug)]
pub struct LocalPeerView {
    /// Average time the peer takes to answer, in nanoseconds, once it answered something
    pub message_time: Option<u64>,
    /// The state in which this peer is, e.g., awaiting handshake, ready, banned, etc.
    pub state: PeerStatus,
    /// Whether the peer still takes requests
    pub takes_requests: bool,
    /// Services this peer claims to support
    pub services: ServiceFlags,
    /// A version string that identifies which software this peer is running
    pub user_agent: String,
    /// This peer's address
    pub address: LocalAddress,
    /// The kind of connection we have with this peer
    ///
    /// We use different connections with different goals, e.g., feeler connections,
    /// regular connections, extra connections to find about new tips, etc.
    pub kind: ConnectionKind,
    /// The latest height this peer has announced to us
    pub height: u32,
    /// The peer time offset in seconds, computed from its version message timestamp
    pub time_offset: i64,
    /// The banscore of this peer
    ///
    /// This is a score kept for each peer, every time this peer misbehaves, we
    /// increase this score. If the score reaches a certain threshold, we ban
    /// the peer.
    pub banscore: u32,
    /// The transport protocol this peer is using (v1 or v2)
    pub transport_protocol: TransportProtocol,
}

impl LocalPeerView {
    /// Whether this peer advertises any of some services.
    pub open spec fn offers_any(self, services: Seq<ServiceFlags>) -> bool {
        exists|i: int|
            0 <= i < services.len() && self.services.includes(#[trigger] services[i])
    }

    /// Whether the connection is expected to remain open if the peer doesn't die.
    pub open spec fn long_lived(self) -> bool {
        self.kind is Manual || self.kind is Regular
    }

    /// Whether this peer advertises any service in `services`.
    pub fn has_any_service(&self, services: &[ServiceFlags]) -> (r: bool)
        ensures
            r == self.offers_any(services@),
    {
        let mut i: usize = 0;
        while i < services.len()
            invariant
                i <= services@.len(),
                forall|j: int| 0 <= j < i ==> !self.services.includes(#[trigger] services@[j]),
            decreases services@.len() - i,
        {
            if self.services.has(services[i]) {
                assert(self.services.includes(services@[i as int]));
                return true;
            }
            i = i + 1;
        }
        false
    }

    /// Whether this is a manually added peer
    pub fn is_manual_peer(&self) -> (r: bool)
        ensures
            r == (self.kind is Manual),
    {
        matches!(self.kind, ConnectionKind::Manual)
    }

    /// Whether this is a regular peer
    pub fn is_regular_peer(&self) -> (r: bool)
        ensures
            r == (self.kind is Regular),
    {
        matches!(self.kind, ConnectionKind::Regular(_))
    }

    /// Whether the connection is expected to remain open if the peer doesn't die
    pub fn is_long_lived(&self) -> (r: bool)
        ensures
            r == self.long_lived(),
    {
        self.is_manual_peer() || self.is_regular_peer()
    }
}

/// A simple struct of added peers, used to track the ones we added manually by
/// `addnode <ip:port> add` command.
#[derive(Debug)]
pub struct AddedPeerInfo {
    /// The address of the peer
    pub address: BitcoinSocketAddr,
    /// Whether we should allow V1 fallback for this connection
    pub v1_fallback: bool,
}

/// What is told about a peer to our user
#[derive(Debug, PartialEq, Eq)]
pub struct PeerInfo {
    pub id: PeerId,
    pub address: BitcoinSocketAddr,
    pub services: String,
    pub services_names: Vec<String>,
    pub relay_txs: bool,
    pub user_agent: String,
    pub inbound: bool,
    pub bip152_hb_to: bool,
    pub bip152_hb_from: bool,
    pub initial_height: u32,
    pub time_offset: i64,
    pub state: PeerStatus,
    pub kind: ConnectionKind,
    pub permissions: Vec<String>,
    pub transport_protocol: TransportProtocol,
}

} // verus!
