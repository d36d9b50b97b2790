//! What happens once a peer completed the handshake.

use vstd::prelude::*;

use crate::book::BookView;
use crate::buckets::bucket;
use crate::chain_data::BlockHash;
use crate::clock::{unix_seconds, Instant};
use crate::local_address::AddressState;
use crate::node::messages::{
    copy_hashes, ChainAnswers, ChainError, InflightRequests, NodeRequest, RequestView, WireError,
};
use crate::node::peer::{ConnectionKind, LocalPeerView, PeerStatus, Version};
use crate::node::state::{NodeView, PeerFilter, UtreexoNode};
use crate::service_flags::{ServiceFlags, COMPACT_FILTERS, NETWORK, UTREEXO, UTREEXO_ARCHIVE};

verus! {

/// The peers by service once a peer joined that offers `services`: it is put at the end of the
/// bucket of `service`, if it offers that one.
pub open spec fn joined(
    buckets: Map<u64, Seq<u32>>,
    services: ServiceFlags,
    service: ServiceFlags,
    id: u32,
) -> Map<u64, Seq<u32>> {
    if services.includes(service) {
        buckets.insert(service.0, bucket(buckets, service).push(id))
    } else {
        buckets
    }
}

/// The peers by service once a peer joined all the buckets that are kept.
pub open spec fn joined_all(buckets: Map<u64, Seq<u32>>, services: ServiceFlags, id: u32) -> Map<
    u64,
    Seq<u32>,
> {
    let a = joined(buckets, services, ServiceFlags(UTREEXO), id);
    let b = joined(a, services, ServiceFlags(COMPACT_FILTERS), id);
    let c = joined(b, services, ServiceFlags(UTREEXO_ARCHIVE), id);
    joined(c, services, ServiceFlags(NETWORK), id)
}

impl ConnectionKind {
    /// Whether such connections may go beyond the most we want: those to utreexo peers, those
    /// our user asked for, and extra ones.
    pub open spec fn bypasses_limit(self) -> bool {
        match self {
            ConnectionKind::Regular(services) => services.includes(ServiceFlags(UTREEXO)),
            ConnectionKind::Manual => true,
            ConnectionKind::Extra => true,
            ConnectionKind::Feeler => false,
        }
    }
}

/// Whether a peer that is not banned has the services we need it for.
pub open spec fn peer_good(peer: LocalPeerView, needs: ServiceFlags) -> bool {
    !(peer.state is Banned) && peer.services.includes(needs)
}

impl NodeView {
    /// The node after a peer completed the handshake.
    pub open spec fn greeted(self, peer: u32) -> NodeView {
        NodeView {
            inflight: self.inflight.remove(InflightRequests::Connect(peer)),
            peers: if self.peers.contains_key(peer) {
                self.peers.insert(
                    peer,
                    LocalPeerView { state: PeerStatus::Ready, ..self.peers[peer] },
                )
            } else {
                self.peers
            },
            ..self
        }
    }

    /// The node that awaits the answer to a request.
    pub open spec fn awaiting(self, request: InflightRequests, peer: u32, since: Instant) -> NodeView {
        NodeView { inflight: self.inflight.insert(request, (peer, since)), ..self }
    }

    /// The node with another address book.
    pub open spec fn with_book(self, book: BookView) -> NodeView {
        NodeView { book, ..self }
    }

    /// The node after a peer was turned into a feeler.
    pub open spec fn made_feeler(self, peer: u32) -> NodeView {
        if self.peers.contains_key(peer) {
            self.with_peer(
                peer,
                LocalPeerView { kind: ConnectionKind::Feeler, ..self.peers[peer] },
            )
        } else {
            self
        }
    }

    /// What comes of asking a peer for headers.
    pub open spec fn headers_asked(
        self,
        peer: u32,
        locator: Result<Seq<BlockHash>, ChainError>,
        now: Instant,
    ) -> (NodeView, Result<(), WireError>) {
        match locator {
            Err(e) => (self, Err(WireError::Chain(e))),
            Ok(hashes) => {
                let (after, sent) = self.sent(peer, RequestView::GetHeaders(hashes));
                match sent {
                    Err(e) => (after, Err(e)),
                    Ok(_) => (after.awaiting(InflightRequests::Headers, peer, now), Ok(())),
                }
            },
        }
    }

    /// What we know of a peer that told about itself.
    pub open spec fn told(self, peer: u32, version: Version) -> LocalPeerView {
        LocalPeerView {
            services: version.services,
            user_agent: version.user_agent,
            height: version.blocks,
            time_offset: version.time_offset,
            transport_protocol: version.transport_protocol,
            ..self.peers[peer]
        }
    }

    /// What comes of taking note of what a peer told about itself: one that lacks what we need
    /// it for is disconnected, any other is one to send requests to from now on.
    pub open spec fn introduced(self, peer: u32, version: Version, secs: u64) -> (
        NodeView,
        Result<(), WireError>,
    ) {
        let data = self.told(peer, version);
        let noted = self.with_peer(peer, data);
        let id = version.address_id;
        if version.kind is Regular && !peer_good(data, version.kind->Regular_0) {
            let (after, sent) = noted.handed_over(peer, RequestView::Shutdown);
            match sent {
                Err(e) => (after, Err(e)),
                Ok(_) => (
                    after.with_book(
                        after.book.with_state(id, AddressState::Tried(secs), secs).with_services(
                            id,
                            version.services,
                        ),
                    ),
                    Ok(()),
                ),
            }
        } else {
            (
                NodeView {
                    peer_by_service: joined_all(noted.peer_by_service, data.services, peer),
                    book: noted.book.with_state(id, AddressState::Connected, secs).with_services(
                        id,
                        version.services,
                    ),
                    peer_ids: noted.peer_ids.push(peer),
                    ..noted
                },
                Ok(()),
            )
        }
    }

    /// What comes of a handshake once the peer was asked for addresses, by the kind of the
    /// connection.
    pub open spec fn settled(
        self,
        peer: u32,
        version: Version,
        locator: Result<Seq<BlockHash>, ChainError>,
        now: Instant,
        secs: u64,
    ) -> (NodeView, Result<(), WireError>) {
        let id = version.address_id;
        match version.kind {
            ConnectionKind::Feeler => (
                self.with_book(
                    self.book.with_services(id, version.services).with_state(
                        id,
                        AddressState::Tried(secs),
                        secs,
                    ),
                ),
                Ok(()),
            ),
            ConnectionKind::Extra => self.headers_asked(peer, locator, now),
            _ => {
                if self.peers.contains_key(peer) {
                    self.introduced(peer, version, secs)
                } else {
                    (self, Ok(()))
                }
            },
        }
    }

    /// Whether there are more connections than we want, and one of this kind is one too many.
    pub open spec fn over_limit(self, kind: ConnectionKind) -> bool {
        &&& self.peers_where(PeerFilter::Connected).len() > self.context.max_outgoing_peers
        &&& !kind.bypasses_limit()
    }

    /// What comes of a peer completing the handshake.
    pub open spec fn readied(
        self,
        peer: u32,
        version: Version,
        locator: Result<Seq<BlockHash>, ChainError>,
        now: Instant,
        secs: u64,
    ) -> (NodeView, Result<(), WireError>) {
        let (asked, sent) = self.greeted(peer).sent(peer, RequestView::GetAddresses);
        match sent {
            Err(e) => (asked, Err(e)),
            Ok(_) => {
                let asked = asked.awaiting(InflightRequests::GetAddresses, peer, now);
                if asked.over_limit(version.kind) {
                    asked.made_feeler(peer).settled(
                        peer,
                        Version { kind: ConnectionKind::Feeler, ..version },
                        locator,
                        now,
                        secs,
                    )
                } else {
                    asked.settled(peer, version, locator, now, secs)
                }
            },
        }
    }
}

impl ChainAnswers {
    /// The hashes that tell a peer which headers we have.
    pub open spec fn located(self) -> Result<Seq<BlockHash>, ChainError> {
        match self.locator {
            Ok(hashes) => Ok(hashes@),
            Err(e) => Err(e),
        }
    }
}

impl UtreexoNode {
    /// Whether a peer that is not banned has the services we need it for.
    pub fn is_peer_good(peer: &LocalPeerView, needs: ServiceFlags) -> (r: bool)
        ensures
            r == peer_good(*peer, needs),
    {
        if peer.state == PeerStatus::Banned {
            return false;
        }
        peer.services.has(needs)
    }

    /// Takes note that a peer completed the handshake.
    pub fn handle_peer_ready(&mut self, peer: u32, version: Version, chain: &ChainAnswers) -> (r:
        Result<(), WireError>)
        ensures
            exists|now: Instant, secs: u64|
                (final(self)@, r) == #[trigger] old(self)@.readied(
                    peer,
                    version,
                    chain.located(),
                    now,
                    secs,
                ),
    {
        let now = self.common.clock.now();
        let secs: u64 = unix_seconds();
        self.handle_peer_ready_at(peer, version, chain, now, secs)
    }

    /// Marks a peer as ready to communicate with.
    fn greet(&mut self, peer: u32)
        ensures
            final(self)@ == old(self)@.greeted(peer),
    {
        let _ = self.common.inflight.remove(InflightRequests::Connect(peer));
        let ghost before = self@;
        if let Some(mut data) = self.take_peer(peer) {
            data.state = PeerStatus::Ready;
            self.put_back(peer, data, Ghost(before));
        } else {
            assert(self@.peers =~= before.peers);
        }
    }

    /// Turns a peer into a feeler.
    fn make_feeler(&mut self, peer: u32)
        ensures
            final(self)@ == old(self)@.made_feeler(peer),
    {
        let ghost before = self@;
        if let Some(mut data) = self.take_peer(peer) {
            data.kind = ConnectionKind::Feeler;
            self.put_back(peer, data, Ghost(before));
        } else {
            assert(self@.peers =~= before.peers);
        }
    }

    /// Asks a peer for the headers we lack.
    fn ask_for_headers(&mut self, peer: u32, chain: &ChainAnswers, now: Instant) -> (r: Result<
        (),
        WireError,
    >)
        ensures
            (final(self)@, r) == old(self)@.headers_asked(peer, chain.located(), now),
    {
        match &chain.locator {
            Err(e) => Err(WireError::Chain(*e)),
            Ok(hashes) => {
                let request = NodeRequest::GetHeaders(copy_hashes(hashes));
                match self.send_to_peer(peer, request) {
                    Err(e) => Err(e),
                    Ok(()) => {
                        self.common.inflight.insert(InflightRequests::Headers, (peer, now));
                        Ok(())
                    },
                }
            },
        }
    }

    /// Puts a peer at the end of the bucket of a service, if it offers that one.
    fn join(&mut self, services: ServiceFlags, service: ServiceFlags, peer: u32)
        ensures
            final(self)@ == (NodeView {
                peer_by_service: joined(old(self)@.peer_by_service, services, service, peer),
                ..old(self)@
            }),
    {
        if services.has(service) {
            self.common.peer_by_service.push(service, peer);
        }
    }

    /// Takes note of what a peer told about itself.
    fn introduce(&mut self, peer: u32, version: Version, secs: u64) -> (r: Result<(), WireError>)
        requires
            old(self)@.peers.contains_key(peer),
        ensures
            (final(self)@, r) == old(self)@.introduced(peer, version, secs),
    {
        let id: usize = version.address_id;
        let services = version.services;
        let mut good = true;
        let ghost before = self@;
        if let Some(mut data) = self.take_peer(peer) {
            data.services = services;
            data.user_agent = version.user_agent;
            data.height = version.blocks;
            data.time_offset = version.time_offset;
            data.transport_protocol = version.transport_protocol;
            // If this peer doesn't have basic services, we disconnect it
            if let ConnectionKind::Regular(needs) = version.kind {
                good = Self::is_peer_good(&data, needs);
            }
            self.put_back(peer, data, Ghost(before));
        }
        let ghost noted = before.with_peer(peer, before.told(peer, version));
        assert(self@ == noted);
        if !good {
            match self.hand_over(peer, NodeRequest::Shutdown) {
                Err(e) => {
                    return Err(e);
                },
                Ok(()) => {},
            }
            self.common.address_man.update_set_state_at(
                id,
                AddressState::Tried(secs),
                secs,
            ).update_set_service_flag(id, services);
            return Ok(());
        }
        self.join(services, ServiceFlags(UTREEXO), peer);
        self.join(services, ServiceFlags(COMPACT_FILTERS), peer);
        self.join(services, ServiceFlags(UTREEXO_ARCHIVE), peer);
        // We can request historical blocks from this peer
        self.join(services, ServiceFlags(NETWORK), peer);
        self.common.address_man.update_set_state_at(
            id,
            AddressState::Connected,
            secs,
        ).update_set_service_flag(id, services);
        self.common.peer_ids.push(peer);
        Ok(())
    }

    /// Takes note at `now` that a peer completed the handshake.
    ///
    /// We ask for new addresses to populate our address manager. A peer beyond the most we want
    /// is turned into a feeler, so we can receive its addresses and then disconnect.
    pub fn handle_peer_ready_at(
        &mut self,
        peer: u32,
        version: Version,
        chain: &ChainAnswers,
        now: Instant,
        secs: u64,
    ) -> (r: Result<(), WireError>)
        ensures
            (final(self)@, r) == old(self)@.readied(peer, version, chain.located(), now, secs),
    {
        let mut version = version;
        self.greet(peer);
        match self.send_to_peer(peer, NodeRequest::GetAddresses) {
            Err(e) => {
                return Err(e);
            },
            Ok(()) => {},
        }
        self.common.inflight.insert(InflightRequests::GetAddresses, (peer, now));
        if self.connected_peers() > self.context.max_outgoing_peers {
            // We allow utreexo, extra and manual peers to bypass our connection limits
            let bypasses = match version.kind {
                ConnectionKind::Regular(services) => services.has(ServiceFlags(UTREEXO)),
                ConnectionKind::Manual => true,
                ConnectionKind::Extra => true,
                ConnectionKind::Feeler => false,
            };
            if !bypasses {
                self.make_feeler(peer);
                version.kind = ConnectionKind::Feeler;
            }
        }
        match version.kind {
            ConnectionKind::Feeler => {
                self.common.address_man.update_set_service_flag(
                    version.address_id,
                    version.services,
                ).update_set_state_at(version.address_id, AddressState::Tried(secs), secs);
                Ok(())
            },
            ConnectionKind::Extra => self.ask_for_headers(peer, chain, now),
            _ => {
                if self.peer(peer).is_some() {
                    self.introduce(peer, version, secs)
                } else {
                    Ok(())
                }
            },
        }
    }
}

} // verus!
