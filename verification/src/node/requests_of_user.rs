//! What our user can ask of the node about its peers.

use vstd::prelude::*;

use crate::book::BookView;
use crate::local_address::{AddressState, LocalAddress, LocalAddressView};
use crate::net_addr::{BitcoinSocketAddr, SocketView};
use crate::node::messages::{NodeRequest, RequestView, WireError};
use crate::node::peer::{AddedPeerInfo, ConnectionKind, PeerId, PeerInfo};
use crate::node::state::{added_views, NodeView, PeerFilter, UtreexoNode};
use crate::service_flags::{ServiceFlags, NETWORK_LIMITED, NONE, WITNESS};
use crate::text::{hex_text, padded_hex};

verus! {

/// The services a peer is taken to offer that our user asked us to connect to; without them its
/// address would not be kept.
pub const BARE_MINIMUM: u64 = NETWORK_LIMITED | WITNESS;

/// A connection to open.
#[derive(Debug)]
pub struct Connection {
    /// The kind of connection
    pub kind: ConnectionKind,
    /// Where to connect to
    pub address: LocalAddress,
    /// Whether the plain protocol will do if the peer does not speak the encrypted one
    pub allow_v1_fallback: bool,
}

/// Whether this is an address we just learned of, under any id.
pub open spec fn fresh(
    address: LocalAddressView,
    socket: SocketView,
    services: ServiceFlags,
) -> bool {
    &&& address.address == socket
    &&& address.state == AddressState::NeverTried
    &&& address.services == services
}

impl BookView {
    /// Whether `after` is this book once an address was offered to it that we just learned of.
    pub open spec fn learned_to(self, address: LocalAddressView, after: BookView) -> bool {
        self.pushed_all(seq![address]).pruned_to(after)
    }
}

impl NodeView {
    /// Where in the list of added peers an address stands, if it is there: the first place.
    pub open spec fn added_at(self, socket: SocketView, i: int) -> bool {
        &&& 0 <= i < self.added_peers.len()
        &&& self.added_peers[i].0 == socket
        &&& forall|j: int| 0 <= j < i ==> (#[trigger] self.added_peers[j]).0 != socket
    }

    /// Whether our user added an address.
    pub open spec fn is_added(self, socket: SocketView) -> bool {
        exists|i: int| #[trigger] self.added_at(socket, i)
    }
}

impl UtreexoNode {
    /// The first place of an address in the list of added peers.
    fn find_added(&self, address: &BitcoinSocketAddr) -> (r: Option<usize>)
        ensures
            match r {
                Some(i) => self@.added_at(address@, i as int),
                None => !self@.is_added(address@),
            },
    {
        let mut i: usize = 0;
        while i < self.common.added_peers.len()
            invariant
                i <= self.common.added_peers@.len(),
                forall|j: int| 0 <= j < i ==> (#[trigger] self@.added_peers[j]).0 != address@,
            decreases self.common.added_peers@.len() - i,
        {
            if self.common.added_peers[i].address.same_as(address) {
                assert(self@.added_at(address@, i as int));
                return Some(i);
            }
            i = i + 1;
        }
        None
    }

    /// The peers at an address, each once.
    pub fn peers_at(&self, address: &BitcoinSocketAddr) -> (r: Vec<PeerId>)
        ensures
            self@.lists(PeerFilter::At(address), r@),
    {
        self.peers_where(&PeerFilter::At(address))
    }

    /// Offers an address to the address manager that we just learned of.
    fn learn(&mut self, address: &LocalAddress)
        ensures
            old(self)@.book.learned_to(address@, final(self)@.book),
            final(self)@ == old(self)@.with_book(final(self)@.book),
    {
        let mut addresses: Vec<LocalAddress> = Vec::new();
        addresses.push(address.clone());
        assert(crate::address_man::views(addresses@) =~= seq![address@]);
        self.common.address_man.push_addresses(addresses.as_slice());
    }

    /// Handles addnode-RPC `Add` requests, adding a new peer to the `added_peers` list. This means
    /// the peer is marked as a "manually added peer". The caller then tries to connect to it, or
    /// retries later.
    pub fn handle_addnode_add_peer(
        &mut self,
        peer_address: BitcoinSocketAddr,
        v2_transport: bool,
    ) -> (r: Result<(), WireError>)
        ensures
            match r {
                Ok(_) => {
                    &&& !old(self)@.is_added(peer_address@)
                    &&& final(self)@ == (NodeView {
                        added_peers: old(self)@.added_peers.push((peer_address@, !v2_transport)),
                        book: final(self)@.book,
                        ..old(self)@
                    })
                    &&& exists|address: LocalAddressView|
                        fresh(address, peer_address@, ServiceFlags(BARE_MINIMUM)) && #[trigger]
                        old(self)@.book.learned_to(address, final(self)@.book)
                },
                Err(WireError::PeerAlreadyExists(address)) => {
                    &&& old(self)@.is_added(peer_address@)
                    &&& final(self)@ == old(self)@
                    &&& fresh(address@, peer_address@, ServiceFlags(BARE_MINIMUM))
                },
                Err(_) => false,
            },
    {
        // Add this address to our address manager for later
        // assume it has the bare-minimum services, otherwise `push_addresses` will ignore it
        let mut local_address = LocalAddress::from(peer_address.clone());
        local_address.set_services(ServiceFlags(BARE_MINIMUM));
        // Check if the peer already exists
        if self.find_added(&peer_address).is_some() {
            return Err(WireError::PeerAlreadyExists(local_address));
        }
        self.learn(&local_address);
        let ghost before = self.common.added_peers@;
        // Add a simple reference to the peer
        let info = AddedPeerInfo { address: peer_address, v1_fallback: !v2_transport };
        self.common.added_peers.push(info);
        assert(added_views(before.push(info)) =~= added_views(before).push(
            (peer_address@, !v2_transport),
        ));
        Ok(())
    }

    /// Handles remove node requests, removing a peer from the node.
    ///
    /// Removes a node from the `added_peers` list but does not
    /// disconnect the node if it was already connected.  It only ensures
    /// that the node is no longer treated as a manually added node
    /// (i.e., it won't be reconnected if disconnected).
    ///
    /// If someone wants to remove a peer, it should be done using the
    /// `disconnectnode`.
    pub fn handle_addnode_remove_peer(&mut self, addr: BitcoinSocketAddr) -> (r: Result<
        (),
        WireError,
    >)
        ensures
            match r {
                Ok(_) => exists|i: int| #[trigger]
                    old(self)@.added_at(addr@, i) && final(self)@ == (NodeView {
                        added_peers: old(self)@.added_peers.remove(i),
                        ..old(self)@
                    }),
                Err(WireError::PeerNotFoundAtAddress(address)) => {
                    &&& !old(self)@.is_added(addr@)
                    &&& final(self)@ == old(self)@
                    &&& address@ == addr@
                },
                Err(_) => false,
            },
    {
        match self.find_added(&addr) {
            None => Err(WireError::PeerNotFoundAtAddress(addr)),
            Some(index) => {
                let ghost before = self.common.added_peers@;
                let _ = self.common.added_peers.remove(index);
                assert(added_views(before.remove(index as int)) =~= added_views(before).remove(
                    index as int,
                ));
                assert(old(self)@.added_at(addr@, index as int));
                Ok(())
            },
        }
    }

    /// Handles the node request for immediate disconnection from a peer.
    pub fn handle_disconnect_peer(&mut self, addr: BitcoinSocketAddr) -> (r: Result<(), WireError>)
        ensures
            match r {
                Err(WireError::PeerNotFoundAtAddress(address)) => {
                    &&& old(self)@.peers_where(PeerFilter::At(&addr)).len() == 0
                    &&& final(self)@ == old(self)@
                    &&& address@ == addr@
                },
                _ => exists|id: u32|
                    old(self)@.peers_where(PeerFilter::At(&addr)).contains(id) && (
                    final(self)@,
                    r,
                ) == #[trigger] old(self)@.sent(id, RequestView::Shutdown),
            },
    {
        let peers = self.peers_at(&addr);
        proof {
            peers@.unique_seq_to_set();
        }
        if peers.is_empty() {
            return Err(WireError::PeerNotFoundAtAddress(addr));
        }
        assert(peers@.to_set().contains(peers@[0]));
        self.send_to_peer(peers[0], NodeRequest::Shutdown)
    }

    /// Handles addnode onetry requests: tells which connection to open to the given address and
    /// port. The node is not put on the added_peers list (e.g., it won't be reconnected if
    /// disconnected).
    pub fn handle_addnode_onetry_peer(
        &mut self,
        peer_address: BitcoinSocketAddr,
        v2_transport: bool,
    ) -> (r: Result<Connection, WireError>)
        ensures
            match r {
                Ok(connection) => {
                    &&& old(self)@.peers_where(PeerFilter::At(&peer_address)).len() == 0
                    &&& connection.kind == ConnectionKind::Manual
                    &&& fresh(connection.address@, peer_address@, ServiceFlags(BARE_MINIMUM))
                    &&& connection.allow_v1_fallback == !v2_transport
                    &&& final(self)@ == old(self)@.with_book(final(self)@.book)
                    &&& old(self)@.book.learned_to(connection.address@, final(self)@.book)
                },
                Err(WireError::PeerAlreadyExists(address)) => {
                    &&& old(self)@.peers_where(PeerFilter::At(&peer_address)).len() > 0
                    &&& final(self)@ == old(self)@
                    &&& fresh(address@, peer_address@, ServiceFlags(NONE))
                },
                Err(_) => false,
            },
    {
        let mut local_address = LocalAddress::from(peer_address.clone());
        let peers = self.peers_at(&peer_address);
        proof {
            peers@.unique_seq_to_set();
        }
        // Check if the peer already exists
        if !peers.is_empty() {
            return Err(WireError::PeerAlreadyExists(local_address));
        }
        // Add this address to our address manager for later
        // assume it has the bare-minimum services, otherwise `push_addresses` will ignore it
        local_address.set_services(ServiceFlags(BARE_MINIMUM));
        self.learn(&local_address);
        // We allow V1 fallback iff the `v2` flag is not set
        Ok(
            Connection {
                kind: ConnectionKind::Manual,
                address: local_address,
                allow_v1_fallback: !v2_transport,
            },
        )
    }

    /// What there is to tell about a peer; `services_names` are the names of its services.
    pub fn get_peer_info(&self, peer_id: &u32, services_names: Vec<String>) -> (r: Option<PeerInfo>)
        ensures
            match r {
                None => !self@.peers.contains_key(*peer_id),
                Some(info) => self@.peers.contains_key(*peer_id) && {
                    let peer = self@.peers[*peer_id];
                    &&& info.id == *peer_id
                    &&& info.address@ == peer.address@.address
                    &&& info.services@ == padded_hex(peer.services.0 as nat, 16)
                    &&& info.services_names == services_names
                    &&& !info.relay_txs
                    &&& info.user_agent@ == peer.user_agent@
                    &&& !info.inbound
                    &&& !info.bip152_hb_to
                    &&& !info.bip152_hb_from
                    &&& info.initial_height == peer.height
                    &&& info.time_offset == peer.time_offset
                    &&& info.state == peer.state
                    &&& info.kind == peer.kind
                    &&& info.permissions@.len() == 0
                    &&& info.transport_protocol == peer.transport_protocol
                },
            },
    {
        match self.peer(*peer_id) {
            None => None,
            Some(peer) => Some(
                PeerInfo {
                    id: *peer_id,
                    address: peer.address.as_bitcoin_socket_addr().clone(),
                    services: hex_text(peer.services.0, 16),
                    services_names,
                    relay_txs: false,
                    user_agent: peer.user_agent.clone(),
                    inbound: false,
                    bip152_hb_to: false,
                    bip152_hb_from: false,
                    initial_height: peer.height,
                    time_offset: peer.time_offset,
                    state: peer.state,
                    kind: peer.kind,
                    permissions: Vec::new(),
                    transport_protocol: peer.transport_protocol,
                },
            ),
        }
    }
}

} // verus!
