//! The state of the node, and what it says.

use std::collections::HashMap;
use vstd::prelude::*;
use vstd::std_specs::hash::*;

use crate::address_man::{views, AddressMan};
use crate::book::BookView;
use crate::buckets::{bucket, keys_of, lemma_push_contains, Buckets};
use crate::chain_data::BlockHash;
use crate::clock::{Clock, Instant};
use crate::disk::Network;
use crate::local_address::{LocalAddress, LocalAddressView};
use crate::net_addr::{BitcoinSocketAddr, SocketView};
use crate::node::messages::{
    InflightRequests, NodeRequest, NodeResponse, RequestView, UserRequest, UserWaiting, WireError,
};
use crate::node::peer::{AddedPeerInfo, LocalPeerView, PeerStatus};
use crate::request_table::Table;
use crate::service_flags::{ServiceFlags, COMPACT_FILTERS, UTREEXO};

verus! {

broadcast use group_hash_axioms;

/// How the node behaves; it changes with what the node is busy with. Times are in seconds.
#[derive(Debug, Clone, Copy, PartialEq, Eq, Structural)]
pub struct NodeContext {
    /// How many long-lived connections we want at most
    pub max_outgoing_peers: usize,
    /// How long a peer has to complete the handshake
    pub connection_timeout: u64,
    /// How long a peer has to answer a request
    pub request_timeout: u64,
    /// How long a peer is banned
    pub ban_time: u64,
    /// How often what we know about peers is saved
    pub peer_db_dump_interval: u64,
}

/// The state of the node, whatever it is busy with.
pub struct NodeCommon {
    /// The blocks we have, but could not process yet
    pub blocks: Vec<BlockHash>,
    /// The block whose compact filter we got last
    pub last_filter: BlockHash,
    /// How many connections were opened so far
    pub peer_id_count: u32,
    /// The peers that completed the handshake and are here to stay
    pub peer_ids: Vec<u32>,
    /// All the peers there is a connection to
    pub peers: HashMap<u32, LocalPeerView>,
    /// The peers that completed the handshake, by the services they offer
    pub peer_by_service: Buckets<u32>,
    /// The score at which a peer is banned
    pub max_banscore: u32,
    /// The addresses we know
    pub address_man: AddressMan,
    /// The peers our user added
    pub added_peers: Vec<AddedPeerInfo>,
    /// The only peers to connect to, if there are any
    pub fixed_peers: Vec<LocalAddress>,
    /// The requests that peers have not answered yet, with the peer and the time
    pub inflight: Table<InflightRequests, (u32, Instant)>,
    /// The requests of our user that are not answered yet
    pub inflight_user_requests: Table<UserRequest, UserWaiting>,
    /// When our chain last grew
    pub last_tip_update: Instant,
    /// When a connection was last opened
    pub last_connection: Instant,
    /// When what we know about peers was last saved
    pub last_peer_db_dump: Instant,
    /// The height of the last block that was asked for
    pub last_block_request: u32,
    /// When we last asked for addresses
    pub last_get_address_request: Instant,
    /// When we last told peers about addresses
    pub last_send_addresses: Instant,
    /// When a feeler was last opened
    pub last_feeler: Instant,
    /// When the node was started
    pub startup_time: Instant,
    /// When DNS seeds were last asked
    pub last_dns_seed_call: Instant,
    /// Whether the hard-coded addresses are in use
    pub used_fixed_addresses: bool,
    /// The network the node runs on
    pub network: Network,
    /// The clock that times requests
    pub clock: Clock,
    /// The requests to hand over to peers, oldest first
    pub outbox: Vec<(u32, NodeRequest)>,
    /// The answers to hand over to our user, oldest first
    pub responses: Vec<(u64, NodeResponse)>,
}

/// The main node that operates while the program is up.
pub struct UtreexoNode {
    /// The state of the node
    pub common: NodeCommon,
    /// What the node is busy with
    pub context: NodeContext,
}

/// When the node did what it does from time to time, but for saving what it knows about peers.
pub struct NodeTimes {
    pub last_tip_update: Instant,
    pub last_connection: Instant,
    pub last_get_address_request: Instant,
    pub last_send_addresses: Instant,
    pub last_feeler: Instant,
    pub startup_time: Instant,
    pub last_dns_seed_call: Instant,
}

/// What a node says, but for what its clock reads.
pub struct NodeView {
    pub blocks: Seq<BlockHash>,
    pub last_filter: BlockHash,
    pub peer_id_count: u32,
    pub peer_ids: Seq<u32>,
    pub peers: Map<u32, LocalPeerView>,
    pub peer_by_service: Map<u64, Seq<u32>>,
    pub max_banscore: u32,
    pub book: BookView,
    pub added_peers: Seq<(SocketView, bool)>,
    pub fixed_peers: Seq<LocalAddressView>,
    pub inflight: Map<InflightRequests, (u32, Instant)>,
    pub inflight_user_requests: Map<UserRequest, UserWaiting>,
    pub times: NodeTimes,
    pub last_peer_db_dump: Instant,
    pub last_block_request: u32,
    pub used_fixed_addresses: bool,
    pub network: Network,
    pub outbox: Seq<(u32, RequestView)>,
    pub responses: Seq<(u64, NodeResponse)>,
    pub context: NodeContext,
}

/// Queued requests as they read.
pub open spec fn request_views(outbox: Seq<(u32, NodeRequest)>) -> Seq<(u32, RequestView)> {
    outbox.map_values(|entry: (u32, NodeRequest)| (entry.0, entry.1@))
}

/// Added peers as they read.
pub open spec fn added_views(added: Seq<AddedPeerInfo>) -> Seq<(SocketView, bool)> {
    added.map_values(|info: AddedPeerInfo| (info.address@, info.v1_fallback))
}

impl View for UtreexoNode {
    type V = NodeView;

    open spec fn view(&self) -> NodeView {
        NodeView {
            blocks: self.common.blocks@,
            last_filter: self.common.last_filter,
            peer_id_count: self.common.peer_id_count,
            peer_ids: self.common.peer_ids@,
            peers: self.common.peers@,
            peer_by_service: self.common.peer_by_service@,
            max_banscore: self.common.max_banscore,
            book: self.common.address_man@,
            added_peers: added_views(self.common.added_peers@),
            fixed_peers: views(self.common.fixed_peers@),
            inflight: self.common.inflight@,
            inflight_user_requests: self.common.inflight_user_requests@,
            times: NodeTimes {
                last_tip_update: self.common.last_tip_update,
                last_connection: self.common.last_connection,
                last_get_address_request: self.common.last_get_address_request,
                last_send_addresses: self.common.last_send_addresses,
                last_feeler: self.common.last_feeler,
                startup_time: self.common.startup_time,
                last_dns_seed_call: self.common.last_dns_seed_call,
            },
            last_peer_db_dump: self.common.last_peer_db_dump,
            last_block_request: self.common.last_block_request,
            used_fixed_addresses: self.common.used_fixed_addresses,
            network: self.common.network,
            outbox: request_views(self.common.outbox@),
            responses: self.common.responses@,
            context: self.context,
        }
    }
}

/// Something some of the peers have in common.
pub enum PeerFilter<'a> {
    /// Completed the handshake
    Ready,
    /// Completed the handshake, and is here to stay
    Connected,
    /// Completed the handshake, offers a service and has answered something
    Measured(ServiceFlags),
    /// Is a regular peer that offers none of some services
    Expendable(&'a [ServiceFlags]),
    /// Is at an address
    At(&'a BitcoinSocketAddr),
}

impl<'a> PeerFilter<'a> {
    /// Whether a peer passes.
    pub open spec fn accepts(self, peer: LocalPeerView) -> bool {
        match self {
            PeerFilter::Ready => peer.state is Ready,
            PeerFilter::Connected => peer.state is Ready && peer.long_lived(),
            PeerFilter::Measured(service) => {
                &&& peer.state is Ready
                &&& peer.services.includes(service)
                &&& peer.message_time is Some
            },
            PeerFilter::Expendable(services) => peer.kind is Regular && !peer.offers_any(services@),
            PeerFilter::At(socket) => peer.address@.address == socket@,
        }
    }

    /// Whether a peer passes.
    fn passes(&self, peer: &LocalPeerView) -> (r: bool)
        ensures
            r == self.accepts(*peer),
    {
        match self {
            PeerFilter::Ready => peer.state == PeerStatus::Ready,
            PeerFilter::Connected => peer.state == PeerStatus::Ready && peer.is_long_lived(),
            PeerFilter::Measured(service) => peer.state == PeerStatus::Ready && peer.services.has(
                *service,
            ) && peer.message_time.is_some(),
            PeerFilter::Expendable(services) => peer.is_regular_peer() && !peer.has_any_service(
                services,
            ),
            PeerFilter::At(socket) => peer.address.address.same_as(socket),
        }
    }
}

impl NodeView {
    /// The peers that pass.
    pub open spec fn peers_where(self, filter: PeerFilter) -> Set<u32> {
        self.peers.dom().filter(|id: u32| filter.accepts(self.peers[id]))
    }

    /// The node with one more peer, or with another one in its place.
    pub open spec fn with_peer(self, id: u32, peer: LocalPeerView) -> NodeView {
        NodeView { peers: self.peers.insert(id, peer), ..self }
    }

    /// The node after a request was queued for a peer.
    pub open spec fn queued(self, id: u32, request: RequestView) -> NodeView {
        NodeView { outbox: self.outbox.push((id, request)), ..self }
    }

    /// What comes of handing a request over to a peer there is a connection to: it is queued,
    /// unless the peer does not take requests any more.
    pub open spec fn handed_over(self, id: u32, request: RequestView) -> (
        NodeView,
        Result<(), WireError>,
    ) {
        if self.peers[id].takes_requests {
            (self.queued(id, request), Ok(()))
        } else {
            (self, Err(WireError::ChannelSend))
        }
    }

    /// What comes of sending a request to a peer: nothing, if there is no connection to it or
    /// the handshake is not complete.
    pub open spec fn sent(self, id: u32, request: RequestView) -> (
        NodeView,
        Result<(), WireError>,
    ) {
        if self.peers.contains_key(id) && !(self.peers[id].state is Awaiting) {
            self.handed_over(id, request)
        } else {
            (self, Ok(()))
        }
    }

    /// The peers to ask for a service.
    pub open spec fn offering(self, service: ServiceFlags) -> Seq<u32> {
        bucket(self.peer_by_service, service)
    }
}

impl UtreexoNode {
    /// The peer with a number.
    pub fn peer(&self, id: u32) -> (r: Option<&LocalPeerView>)
        ensures
            match r {
                Some(peer) => self@.peers.contains_key(id) && *peer == self@.peers[id],
                None => !self@.peers.contains_key(id),
            },
    {
        self.common.peers.get(&id)
    }

    /// Takes a peer out, and nothing else.
    pub(crate) fn take_peer(&mut self, id: u32) -> (r: Option<LocalPeerView>)
        ensures
            final(self)@ == (NodeView { peers: old(self)@.peers.remove(id), ..old(self)@ }),
            match r {
                Some(peer) => old(self)@.peers.contains_key(id) && peer == old(self)@.peers[id],
                None => !old(self)@.peers.contains_key(id),
            },
    {
        let r = self.common.peers.remove(&id);
        assert(self@.peers =~= old(self)@.peers.remove(id));
        r
    }

    /// Puts a peer in.
    pub(crate) fn put_peer(&mut self, id: u32, peer: LocalPeerView)
        ensures
            final(self)@ == old(self)@.with_peer(id, peer),
    {
        self.common.peers.insert(id, peer);
    }

    /// Puts a peer back that was just taken out.
    pub(crate) fn put_back(&mut self, id: u32, peer: LocalPeerView, Ghost(before): Ghost<NodeView>)
        requires
            old(self)@ == (NodeView { peers: before.peers.remove(id), ..before }),
        ensures
            final(self)@ == before.with_peer(id, peer),
    {
        self.put_peer(id, peer);
        assert(self@.peers =~= before.peers.insert(id, peer));
    }

    /// The peers that pass, each once, in any order.
    pub(crate) fn peers_where(&self, filter: &PeerFilter) -> (r: Vec<u32>)
        ensures
            r@.no_duplicates(),
            r@.to_set() == self@.peers_where(*filter),
            r@.len() == self@.peers_where(*filter).len(),
    {
        let ids = keys_of(&self.common.peers);
        let mut found: Vec<u32> = Vec::new();
        let mut i: usize = 0;
        while i < ids.len()
            invariant
                i <= ids@.len(),
                ids@.no_duplicates(),
                ids@.to_set() == self@.peers.dom(),
                found@.no_duplicates(),
                forall|id: u32| #[trigger]
                    found@.contains(id) <==> ids@.take(i as int).contains(id) && filter.accepts(
                        self@.peers[id],
                    ),
            decreases ids@.len() - i,
        {
            let id: u32 = ids[i];
            assert(ids@.to_set().contains(id));
            let ghost before = found@;
            assert(!ids@.take(i as int).contains(id));
            assert(!before.contains(id));
            if let Some(peer) = self.peer(id) {
                if filter.passes(peer) {
                    found.push(id);
                }
            }
            assert forall|x: u32| #[trigger]
                found@.contains(x) <==> ids@.take(i + 1).contains(x) && filter.accepts(
                    self@.peers[x],
                ) by {
                lemma_push_contains(ids@.take(i as int), id, x);
                assert(ids@.take(i + 1) =~= ids@.take(i as int).push(id));
                lemma_push_contains(before, id, x);
                assert(before.contains(x) <==> ids@.take(i as int).contains(x) && filter.accepts(
                    self@.peers[x],
                ));
            }
            i = i + 1;
        }
        assert(ids@.take(i as int) =~= ids@);
        proof {
            assert forall|id: u32| #[trigger]
                found@.to_set().contains(id) <==> self@.peers_where(*filter).contains(id) by {
                assert(found@.contains(id) <==> ids@.contains(id) && filter.accepts(
                    self@.peers[id],
                ));
                assert(ids@.contains(id) <==> ids@.to_set().contains(id));
            }
            assert(found@.to_set() =~= self@.peers_where(*filter));
            found@.unique_seq_to_set();
        }
        found
    }

    /// Whether the node was configured with a fixed peer list.
    ///
    /// When this is true, we connect *only* to those peers and skip the usual
    /// peer-discovery paths (address manager, feelers, hardcoded fallback).
    pub fn has_fixed_peers(&self) -> (r: bool)
        ensures
            r == (self@.fixed_peers.len() > 0),
    {
        assert(self@.fixed_peers.len() == self.common.fixed_peers@.len());
        !self.common.fixed_peers.is_empty()
    }

    /// Returns how many connected peers we have.
    ///
    /// This function will only count peers that completed handshake and are ready
    /// to be used.
    pub fn connected_peers(&self) -> (r: usize)
        ensures
            r == self@.peers_where(PeerFilter::Connected).len(),
    {
        self.peers_where(&PeerFilter::Connected).len()
    }

    /// Whether a peer that offers utreexo proofs is connected.
    pub fn has_utreexo_peers(&self) -> (r: bool)
        ensures
            r == (self@.offering(ServiceFlags(UTREEXO)).len() > 0),
    {
        match self.common.peer_by_service.get(ServiceFlags(UTREEXO)) {
            Some(peers) => !peers.is_empty(),
            None => false,
        }
    }

    /// Whether a peer that offers compact block filters is connected.
    pub fn has_compact_filters_peer(&self) -> (r: bool)
        ensures
            r == (self@.offering(ServiceFlags(COMPACT_FILTERS)).len() > 0),
    {
        match self.common.peer_by_service.get(ServiceFlags(COMPACT_FILTERS)) {
            Some(peers) => !peers.is_empty(),
            None => false,
        }
    }
}

} // verus!
