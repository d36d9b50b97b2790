//! Laws of what becomes of a peer that completed the handshake.

use vstd::prelude::*;

use crate::buckets::{bucket, lemma_push_contains};
use crate::chain_data::BlockHash;
use crate::clock::Instant;
use crate::local_address::AddressState;
use crate::node::handshake::{joined, joined_all, peer_good};
use crate::node::messages::{ChainError, InflightRequests, RequestView, WireError};
use crate::node::peer::{ConnectionKind, LocalPeerView, PeerStatus, Version};
use crate::node::state::{NodeView, PeerFilter};
use crate::service_flags::{ServiceFlags, COMPACT_FILTERS, NETWORK, UTREEXO, UTREEXO_ARCHIVE};
use crate::state_laws::{states_belong_to_one_address, services_belong_to_one_address};
use crate::terms::{has_bits, listed, services_are_sets_of_bits};

verus! {

/// What joining one list does to all of them.
proof fn lemma_joined(
    lists: Map<u64, Seq<u32>>,
    services: ServiceFlags,
    service: u64,
    id: u32,
    s: u64,
    other: u32,
)
    ensures
        listed(joined(lists, services, ServiceFlags(service), id), s, other) <==> listed(
            lists,
            s,
            other,
        ) || (s == service && other == id && has_bits(services, service)),
{
    services_are_sets_of_bits(services, service, 0);
    lemma_push_contains(bucket(lists, ServiceFlags(service)), id, other);
}

/// A peer joins the lists of those that serve utreexo proofs, compact filters, the utreexo
/// archive and the block chain, each just if it announced that it does.
proof fn lemma_joined_all(
    lists: Map<u64, Seq<u32>>,
    services: ServiceFlags,
    id: u32,
    s: u64,
    other: u32,
)
    ensures
        listed(joined_all(lists, services, id), s, other) <==> listed(lists, s, other) || (other
            == id && (s == 0x1000 || s == 0x40 || s == 0x2000 || s == 0x1) && has_bits(
            services,
            s,
        )),
{
    let a = joined(lists, services, ServiceFlags(UTREEXO), id);
    let b = joined(a, services, ServiceFlags(COMPACT_FILTERS), id);
    let c = joined(b, services, ServiceFlags(UTREEXO_ARCHIVE), id);
    lemma_joined(lists, services, UTREEXO, id, s, other);
    lemma_joined(a, services, COMPACT_FILTERS, id, s, other);
    lemma_joined(b, services, UTREEXO_ARCHIVE, id, s, other);
    lemma_joined(c, services, NETWORK, id, s, other);
}

/// The peers we are here to stay with once one of them completed the handshake.
pub open spec fn staying(node: NodeView, peer: u32) -> Set<u32> {
    node.peers.dom().filter(
        |id: u32|
            {
                &&& id == peer || node.peers[id].state is Ready
                &&& node.peers[id].kind is Manual || node.peers[id].kind is Regular
            },
    )
}

/// Whether a connection of some kind is one too many: there are more than we want, and it was
/// neither opened by our user, nor as an extra one, nor for utreexo proofs.
pub open spec fn one_too_many(node: NodeView, peer: u32, kind: ConnectionKind) -> bool {
    &&& staying(node, peer).len() > node.context.max_outgoing_peers
    &&& match kind {
        ConnectionKind::Feeler => true,
        ConnectionKind::Regular(needs) => !has_bits(needs, 0x1000),
        ConnectionKind::Extra => false,
        ConnectionKind::Manual => false,
    }
}

/// Whether a peer is one to send requests to from now on: there is a connection to it that is
/// not one too many, and it was opened by our user, or to get something that the peer serves.
pub open spec fn to_be_kept(node: NodeView, peer: u32, version: Version) -> bool {
    &&& node.peers.contains_key(peer)
    &&& node.peers[peer].takes_requests
    &&& !one_too_many(node, peer, version.kind)
    &&& match version.kind {
        ConnectionKind::Manual => true,
        ConnectionKind::Regular(needs) => has_bits(version.services, needs.0),
        _ => false,
    }
}

/// The node once the peer was asked for addresses.
spec fn asked_for_addresses(node: NodeView, peer: u32, now: Instant) -> NodeView {
    node.greeted(peer).queued(peer, RequestView::GetAddresses).awaiting(
        InflightRequests::GetAddresses,
        peer,
        now,
    )
}

/// How many connections there are does not depend on how they are counted.
proof fn lemma_limit(node: NodeView, peer: u32, kind: ConnectionKind, now: Instant)
    requires
        node.peers.contains_key(peer),
    ensures
        asked_for_addresses(node, peer, now).over_limit(kind) <==> one_too_many(node, peer, kind),
{
    let asked = asked_for_addresses(node, peer, now);
    assert(asked.peers_where(PeerFilter::Connected) =~= staying(node, peer));
    match kind {
        ConnectionKind::Regular(needs) => {
            services_are_sets_of_bits(needs, UTREEXO, 0);
        },
        _ => {},
    }
}

/// After a handshake a peer that was not listed before is kept just if it is one to keep. It is
/// then listed with those that serve utreexo proofs, compact filters, the utreexo archive or
/// the block chain just if it announced that it does; a peer that is not kept is listed with
/// none. No other peer is listed or delisted.
pub proof fn peers_are_listed_by_what_they_announced(
    node: NodeView,
    peer: u32,
    version: Version,
    locator: Result<Seq<BlockHash>, ChainError>,
    now: Instant,
    secs: u64,
    service: u64,
    other: u32,
)
    requires
        !node.peer_ids.contains(peer),
        !listed(node.peer_by_service, service, peer),
    ensures
        ({
            let after = node.readied(peer, version, locator, now, secs).0;
            &&& after.peer_ids.contains(peer) <==> to_be_kept(node, peer, version)
            &&& listed(after.peer_by_service, service, peer) <==> {
                &&& after.peer_ids.contains(peer)
                &&& service == 0x1000 || service == 0x40 || service == 0x2000 || service == 0x1
                &&& has_bits(version.services, service)
            }
            &&& other != peer ==> {
                &&& after.peer_ids.contains(other) <==> node.peer_ids.contains(other)
                &&& listed(after.peer_by_service, service, other) <==> listed(
                    node.peer_by_service,
                    service,
                    other,
                )
            }
        }),
{
    lemma_joined_all(node.peer_by_service, version.services, peer, service, peer);
    lemma_joined_all(node.peer_by_service, version.services, peer, service, other);
    lemma_push_contains(node.peer_ids, peer, peer);
    lemma_push_contains(node.peer_ids, peer, other);
    if node.peers.contains_key(peer) && node.peers[peer].takes_requests {
        lemma_limit(node, peer, version.kind, now);
        match version.kind {
            ConnectionKind::Regular(needs) => {
                services_are_sets_of_bits(version.services, needs.0, 0);
                assert(needs == ServiceFlags(needs.0));
            },
            _ => {},
        }
    }
}

/// Whether every peer on a list that we know the services of offers what the list is for.
pub open spec fn lists_are_true(node: NodeView) -> bool {
    forall|service: u64, id: u32| #[trigger]
        listed(node.peer_by_service, service, id) && node.peers.contains_key(id) ==> has_bits(
            node.peers[id].services,
            service,
        )
}

/// Every peer on a list offers what the list is for, and a handshake of one that is on none
/// leaves it so.
pub proof fn handshakes_keep_the_lists_true(
    node: NodeView,
    peer: u32,
    version: Version,
    locator: Result<Seq<BlockHash>, ChainError>,
    now: Instant,
    secs: u64,
)
    requires
        lists_are_true(node),
        !node.peer_ids.contains(peer),
        forall|service: u64| !#[trigger] listed(node.peer_by_service, service, peer),
    ensures
        lists_are_true(node.readied(peer, version, locator, now, secs).0),
{
    let after = node.readied(peer, version, locator, now, secs).0;
    assert forall|service: u64, id: u32| #[trigger]
        listed(after.peer_by_service, service, id) && after.peers.contains_key(
            id,
        ) implies has_bits(after.peers[id].services, service) by {
        peers_are_listed_by_what_they_announced(
            node,
            peer,
            version,
            locator,
            now,
            secs,
            service,
            id,
        );
        peers_are_known_by_what_they_told(node, peer, version, locator, now, secs, id);
        if id != peer {
            assert(listed(node.peer_by_service, service, id));
        }
    }
}

/// A handshake changes what we know of the peer it was with, and of no other: the peer is ready,
/// and one that there is a use for is known by what it told about itself. One connection too
/// many becomes a feeler. No peer comes or goes.
pub proof fn peers_are_known_by_what_they_told(
    node: NodeView,
    peer: u32,
    version: Version,
    locator: Result<Seq<BlockHash>, ChainError>,
    now: Instant,
    secs: u64,
    other: u32,
)
    ensures
        ({
            let after = node.readied(peer, version, locator, now, secs).0;
            &&& after.peers.contains_key(other) <==> node.peers.contains_key(other)
            &&& other != peer && node.peers.contains_key(other) ==> after.peers[other]
                == node.peers[other]
            &&& node.peers.contains_key(peer) ==> {
                let before = node.peers[peer];
                let known = after.peers[peer];
                let told = before.takes_requests && !one_too_many(node, peer, version.kind) && (
                version.kind is Manual || version.kind is Regular);
                &&& known.state is Ready
                &&& known.message_time == before.message_time
                &&& known.takes_requests == before.takes_requests
                &&& known.address == before.address
                &&& known.banscore == before.banscore
                &&& known.kind == if before.takes_requests && one_too_many(
                    node,
                    peer,
                    version.kind,
                ) {
                    ConnectionKind::Feeler
                } else {
                    before.kind
                }
                &&& told ==> {
                    &&& known.services == version.services
                    &&& known.user_agent == version.user_agent
                    &&& known.height == version.blocks
                    &&& known.time_offset == version.time_offset
                    &&& known.transport_protocol == version.transport_protocol
                }
                &&& !told ==> {
                    &&& known.services == before.services
                    &&& known.user_agent == before.user_agent
                    &&& known.height == before.height
                    &&& known.time_offset == before.time_offset
                    &&& known.transport_protocol == before.transport_protocol
                }
            }
        }),
{
    if node.peers.contains_key(peer) && node.peers[peer].takes_requests {
        lemma_limit(node, peer, version.kind, now);
    }
}

/// Once the handshake is complete the connection is not awaited any more, and the peer is asked
/// for addresses. An extra peer is also asked for headers; one that lacks what we need it for is
/// told to go. Nothing else is sent. A peer that takes no requests makes the handshake fail.
pub proof fn handshakes_ask_for_addresses(
    node: NodeView,
    peer: u32,
    version: Version,
    locator: Result<Seq<BlockHash>, ChainError>,
    now: Instant,
    secs: u64,
)
    requires
        node.peers.contains_key(peer),
    ensures
        ({
            let (after, result) = node.readied(peer, version, locator, now, secs);
            let waits = node.inflight.remove(InflightRequests::Connect(peer));
            let asked = node.outbox.push((peer, RequestView::GetAddresses));
            let asking = waits.insert(InflightRequests::GetAddresses, (peer, now));
            if !node.peers[peer].takes_requests {
                &&& result == Err::<(), WireError>(WireError::ChannelSend)
                &&& after.outbox == node.outbox
                &&& after.inflight == waits
                &&& after.book == node.book
            } else if version.kind is Extra {
                match locator {
                    Ok(hashes) => {
                        &&& result is Ok
                        &&& after.outbox == asked.push((peer, RequestView::GetHeaders(hashes)))
                        &&& after.inflight == asking.insert(InflightRequests::Headers, (peer, now))
                    },
                    Err(e) => {
                        &&& result == Err::<(), WireError>(WireError::Chain(e))
                        &&& after.outbox == asked
                        &&& after.inflight == asking
                    },
                }
            } else {
                &&& result is Ok
                &&& after.inflight == asking
                &&& after.outbox == if version.kind is Regular && !one_too_many(
                    node,
                    peer,
                    version.kind,
                ) && !to_be_kept(node, peer, version) {
                    asked.push((peer, RequestView::Shutdown))
                } else {
                    asked
                }
            }
        }),
{
    if node.peers[peer].takes_requests {
        lemma_limit(node, peer, version.kind, now);
        match version.kind {
            ConnectionKind::Regular(needs) => {
                services_are_sets_of_bits(version.services, needs.0, 0);
                assert(needs == ServiceFlags(needs.0));
            },
            _ => {},
        }
    }
}

/// A handshake with a peer there is no connection to changes nothing of what is sent or listed.
pub proof fn handshakes_of_strangers_change_nothing(
    node: NodeView,
    peer: u32,
    version: Version,
    locator: Result<Seq<BlockHash>, ChainError>,
    now: Instant,
    secs: u64,
)
    requires
        !node.peers.contains_key(peer),
    ensures
        ({
            let after = node.readied(peer, version, locator, now, secs).0;
            &&& after.outbox == node.outbox
            &&& after.peers == node.peers
            &&& after.peer_ids == node.peer_ids
            &&& after.peer_by_service == node.peer_by_service
        }),
{
}

/// The address of a peer that is kept counts as connected to, since now; that of a peer that was
/// only felt for, or that lacks what we need it for, as one that was met. Of a peer that serves
/// too little nothing is kept, and no other address changes.
pub proof fn handshakes_are_noted_in_the_book(
    node: NodeView,
    peer: u32,
    version: Version,
    locator: Result<Seq<BlockHash>, ChainError>,
    now: Instant,
    secs: u64,
    other: usize,
)
    requires
        node.peers.contains_key(peer),
        node.peers[peer].takes_requests,
        !(version.kind is Extra),
    ensures
        ({
            let after = node.readied(peer, version, locator, now, secs).0.book;
            let id = version.address_id;
            let enough = has_bits(version.services, 0x8) && has_bits(version.services, 0x400);
            &&& after.addresses.contains_key(other) <==> node.book.addresses.contains_key(other)
                && (enough || other != id)
            &&& other != id && node.book.addresses.contains_key(other) ==> after.addresses[other]
                == node.book.addresses[other]
            &&& enough && node.book.addresses.contains_key(id) ==> {
                &&& after.addresses[id].services == version.services
                &&& after.addresses[id].address == node.book.addresses[id].address
                &&& after.addresses[id].id == node.book.addresses[id].id
                &&& after.addresses[id].state == if to_be_kept(node, peer, version) {
                    AddressState::Connected
                } else {
                    AddressState::Tried(secs)
                }
                &&& after.addresses[id].last_connected == if to_be_kept(node, peer, version) {
                    secs
                } else {
                    node.book.addresses[id].last_connected
                }
            }
        }),
{
    lemma_limit(node, peer, version.kind, now);
    match version.kind {
        ConnectionKind::Regular(needs) => {
            services_are_sets_of_bits(version.services, needs.0, 0);
            assert(needs == ServiceFlags(needs.0));
        },
        _ => {},
    }
    let book = node.book;
    let id = version.address_id;
    let met = AddressState::Tried(secs);
    let up = AddressState::Connected;
    states_belong_to_one_address(book, id, up, secs, other);
    states_belong_to_one_address(book, id, up, secs, id);
    states_belong_to_one_address(book, id, met, secs, other);
    states_belong_to_one_address(book, id, met, secs, id);
    services_belong_to_one_address(book.with_state(id, up, secs), id, version.services, other);
    services_belong_to_one_address(book.with_state(id, up, secs), id, version.services, id);
    services_belong_to_one_address(book.with_state(id, met, secs), id, version.services, other);
    services_belong_to_one_address(book.with_state(id, met, secs), id, version.services, id);
    services_belong_to_one_address(book, id, version.services, other);
    services_belong_to_one_address(book, id, version.services, id);
    let served = book.with_services(id, version.services);
    states_belong_to_one_address(served, id, met, secs, other);
    states_belong_to_one_address(served, id, met, secs, id);
}

/// A peer has what we need it for if it is not banned and announced all of that.
pub proof fn good_peers_serve_what_is_needed(peer: LocalPeerView, needs: ServiceFlags)
    ensures
        peer_good(peer, needs) <==> peer.state != PeerStatus::Banned && has_bits(
            peer.services,
            needs.0,
        ),
{
    services_are_sets_of_bits(peer.services, needs.0, 0);
    assert(needs == ServiceFlags(needs.0));
}

/// A peer that is kept is put at the end of each list it joins, and at the end of all peers; the
/// lists it does not join stay as they were.
pub proof fn new_peers_are_listed_last(
    node: NodeView,
    peer: u32,
    version: Version,
    locator: Result<Seq<BlockHash>, ChainError>,
    now: Instant,
    secs: u64,
    service: u64,
)
    requires
        !node.peer_ids.contains(peer),
    ensures
        ({
            let after = node.readied(peer, version, locator, now, secs).0;
            let before = if node.peer_by_service.contains_key(service) {
                node.peer_by_service[service]
            } else {
                Seq::empty()
            };
            let joins = (service == 0x1000 || service == 0x40 || service == 0x2000 || service
                == 0x1) && has_bits(version.services, service);
            if !after.peer_ids.contains(peer) {
                &&& after.peer_ids == node.peer_ids
                &&& after.peer_by_service == node.peer_by_service
            } else {
                &&& after.peer_ids == node.peer_ids.push(peer)
                &&& joins ==> after.peer_by_service.contains_key(service)
                    && after.peer_by_service[service] == before.push(peer)
                &&& !joins ==> (after.peer_by_service.contains_key(service)
                    <==> node.peer_by_service.contains_key(service)) && (
                node.peer_by_service.contains_key(service) ==> after.peer_by_service[service]
                    == before)
            }
        }),
{
    services_are_sets_of_bits(version.services, UTREEXO, 0);
    services_are_sets_of_bits(version.services, COMPACT_FILTERS, 0);
    services_are_sets_of_bits(version.services, UTREEXO_ARCHIVE, 0);
    services_are_sets_of_bits(version.services, NETWORK, 0);
    lemma_push_contains(node.peer_ids, peer, peer);
}

/// A handshake changes the connections, the lists of peers, the book, and what is awaited and
/// queued, and nothing else.
pub proof fn handshakes_leave_the_rest_alone(
    node: NodeView,
    peer: u32,
    version: Version,
    locator: Result<Seq<BlockHash>, ChainError>,
    now: Instant,
    secs: u64,
)
    ensures
        ({
            let after = node.readied(peer, version, locator, now, secs).0;
            after == NodeView {
                peers: after.peers,
                peer_ids: after.peer_ids,
                peer_by_service: after.peer_by_service,
                book: after.book,
                inflight: after.inflight,
                outbox: after.outbox,
                ..node
            }
        }),
{
}

} // verus!
