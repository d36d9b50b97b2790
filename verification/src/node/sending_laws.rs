//! Laws of which peers are sent what, and of which are punished how.

use vstd::arithmetic::div_mod::lemma_fundamental_div_mod;
use vstd::prelude::*;

use crate::buckets::lemma_filtered_twice;
use crate::net_addr::BitcoinSocketAddr;
use crate::node::messages::{RequestView, WireError};
use crate::node::peer::{ConnectionKind, PeerStatus};
use crate::node::sending::{at_least_one, fastest, weights_of};
use crate::node::state::{NodeView, PeerFilter};
use crate::service_flags::ServiceFlags;
use crate::terms::{has_bits, listed, services_are_sets_of_bits};

verus! {

/// A peer is ready if it completed the handshake, and counts as connected if it is also a regular
/// one or one that our user asked for.
pub proof fn ready_peers_completed_the_handshake(node: NodeView, id: u32)
    ensures
        node.peers_where(PeerFilter::Ready).contains(id) <==> node.peers.contains_key(id)
            && node.peers[id].state == PeerStatus::Ready,
        node.peers_where(PeerFilter::Connected).contains(id) <==> node.peers.contains_key(id)
            && node.peers[id].state == PeerStatus::Ready && match node.peers[id].kind {
            ConnectionKind::Feeler => false,
            ConnectionKind::Extra => false,
            ConnectionKind::Regular(_) => true,
            ConnectionKind::Manual => true,
        },
{
}

/// A peer can be asked by speed if it completed the handshake, serves what is asked for, and
/// answered something before.
pub proof fn measured_peers_serve_and_answered(node: NodeView, service: ServiceFlags, id: u32)
    ensures
        node.peers_where(PeerFilter::Measured(service)).contains(id) <==> {
            &&& node.peers.contains_key(id)
            &&& node.peers[id].state == PeerStatus::Ready
            &&& has_bits(node.peers[id].services, service.0)
            &&& node.peers[id].message_time is Some
        },
{
    services_are_sets_of_bits(node.peers[id].services, service.0, 0);
    assert(service == ServiceFlags(service.0));
}

/// A peer may be sent away to make room if it is a regular one that serves none of what is
/// protected.
pub proof fn expendable_peers_serve_nothing_protected(
    node: NodeView,
    services: &[ServiceFlags],
    id: u32,
)
    ensures
        node.peers_where(PeerFilter::Expendable(services)).contains(id) <==> {
            &&& node.peers.contains_key(id)
            &&& node.peers[id].kind is Regular
            &&& forall|i: int|
                0 <= i < services@.len() ==> !has_bits(
                    node.peers[id].services,
                    (#[trigger] services@[i]).0,
                )
        },
{
    let offered = node.peers[id].services;
    assert forall|i: int| 0 <= i < services@.len() implies (offered.includes(
        #[trigger] services@[i],
    ) <==> has_bits(offered, services@[i].0)) by {
        services_are_sets_of_bits(offered, services@[i].0, 0);
        assert(services@[i] == ServiceFlags(services@[i].0));
    }
}

/// A peer is at an address if that is where its connection goes, port included.
pub proof fn peers_are_found_by_address_and_port(
    node: NodeView,
    socket: &BitcoinSocketAddr,
    id: u32,
)
    ensures
        node.peers_where(PeerFilter::At(socket)).contains(id) <==> {
            &&& node.peers.contains_key(id)
            &&& node.peers[id].address.address.addr@ == socket.addr@
            &&& node.peers[id].address.address.port == socket.port
        },
{
}

/// A random choice is among the peers listed for the service, or among all that were kept if any
/// will do. It comes out empty only if there are none, or no connection at all.
pub proof fn random_choices_are_among_the_listed(
    node: NodeView,
    service: ServiceFlags,
    pick: Option<u32>,
    id: u32,
)
    requires
        node.random_pick(service, pick),
        node.peers.len() > 0,
    ensures
        match pick {
            Some(chosen) => if service.0 == 0 {
                node.peer_ids.contains(chosen)
            } else {
                listed(node.peer_by_service, service.0, chosen)
            },
            None => if service.0 == 0 {
                !node.peer_ids.contains(id)
            } else {
                !listed(node.peer_by_service, service.0, id)
            },
        },
{
}

/// A request is queued once, at the end, for a peer that takes requests; any other peer makes it
/// fail and changes nothing.
pub proof fn requests_are_queued_last(node: NodeView, id: u32, request: RequestView)
    ensures
        ({
            let (after, result) = node.handed_over(id, request);
            if node.peers[id].takes_requests {
                &&& result is Ok
                &&& after == NodeView { outbox: node.outbox.push((id, request)), ..node }
            } else {
                &&& result == Err::<(), WireError>(WireError::ChannelSend)
                &&& after == node
            }
        }),
{
}

/// A request for a peer that did not complete the handshake, or that there is no connection to,
/// is dropped; any other is queued as for a peer that was chosen.
pub proof fn requests_wait_for_no_handshake(node: NodeView, id: u32, request: RequestView)
    ensures
        ({
            let (after, result) = node.sent(id, request);
            if !node.peers.contains_key(id) || node.peers[id].state == PeerStatus::Awaiting {
                after == node && result is Ok
            } else if node.peers[id].takes_requests {
                &&& result is Ok
                &&& after == NodeView { outbox: node.outbox.push((id, request)), ..node }
            } else {
                &&& result == Err::<(), WireError>(WireError::ChannelSend)
                &&& after == node
            }
        }),
{
}

/// What is sent to a peer that was chosen is queued for that one, which is named; without a
/// choice, or where there is no connection to it, sending fails.
pub proof fn requests_go_to_the_peer_chosen(
    node: NodeView,
    pick: Option<u32>,
    request: RequestView,
)
    ensures
        ({
            let (after, result) = node.sent_to_pick(pick, request);
            match pick {
                None => after == node && result == Err::<u32, WireError>(
                    WireError::NoPeersAvailable,
                ),
                Some(id) => if !node.peers.contains_key(id) {
                    after == node && result == Err::<u32, WireError>(WireError::NoPeersAvailable)
                } else if node.peers[id].takes_requests {
                    &&& result == Ok::<u32, WireError>(id)
                    &&& after == NodeView { outbox: node.outbox.push((id, request)), ..node }
                } else {
                    &&& result == Err::<u32, WireError>(WireError::ChannelSend)
                    &&& after == node
                },
            }
        }),
{
}

/// A request for several peers is queued for each of them that takes requests, once and in
/// their order, and nothing else changes.
pub proof fn requests_for_all_reach_each_once(node: NodeView, ids: Seq<u32>, request: RequestView)
    ensures
        node.handed_to_all(ids, request) == (NodeView {
            outbox: node.outbox + ids.filter(|id: u32| node.peers[id].takes_requests).map_values(
                |id: u32| (id, request),
            ),
            ..node
        }),
    decreases ids.len(),
{
    reveal(Seq::filter);
    let takes = |id: u32| node.peers[id].takes_requests;
    let entry = |id: u32| (id, request);
    let all = ids.filter(takes).map_values(entry);
    if ids.len() == 0 {
        assert(all =~= Seq::empty());
        assert(node.outbox + all =~= node.outbox);
    } else {
        let rest = ids.drop_last();
        let last = ids.last();
        requests_for_all_reach_each_once(node, rest, request);
        let fewer = rest.filter(takes).map_values(entry);
        if takes(last) {
            assert(all =~= fewer.push((last, request)));
            assert(node.outbox + all =~= (node.outbox + fewer).push((last, request)));
        }
    }
}

/// A request for several peers that should have completed the handshake is queued for each of
/// those that have, once and in their order.
pub proof fn requests_for_all_wait_for_no_handshake(
    node: NodeView,
    ids: Seq<u32>,
    request: RequestView,
)
    ensures
        node.sent_to_all(ids, request) == (NodeView {
            outbox: node.outbox + ids.filter(
                |id: u32|
                    node.peers.contains_key(id) && node.peers[id].state != PeerStatus::Awaiting
                        && node.peers[id].takes_requests,
            ).map_values(|id: u32| (id, request)),
            ..node
        }),
{
    let greeted = |id: u32| node.peers.contains_key(id) && !(node.peers[id].state is Awaiting);
    let takes = |id: u32| node.peers[id].takes_requests;
    let both = |id: u32|
        node.peers.contains_key(id) && node.peers[id].state != PeerStatus::Awaiting
            && node.peers[id].takes_requests;
    requests_for_all_reach_each_once(node, ids.filter(greeted), request);
    lemma_filtered_twice(ids, greeted, takes, both);
}

/// The peers that pass are listed each once, and a sample of them has as many as were asked for,
/// or all if there are fewer.
pub proof fn samples_hold_as_many_as_asked_for(
    node: NodeView,
    filter: PeerFilter,
    n: usize,
    ids: Seq<u32>,
    all: Seq<u32>,
    i: int,
)
    requires
        node.samples(filter, n, ids),
        node.lists(filter, all),
    ensures
        ids.no_duplicates(),
        all.no_duplicates(),
        ids.len() <= n,
        ids.len() < n ==> ids.len() == all.len(),
        0 <= i < ids.len() ==> all.contains(ids[i]),
{
    all.unique_seq_to_set();
    if 0 <= i < ids.len() {
        assert(ids.to_set().contains(ids[i]));
        assert(all.to_set().contains(ids[i]));
    }
}

/// The time a peer takes, or one nanosecond if the clock cannot tell.
pub open spec fn time_taken(time: u64) -> int {
    if time == 0 {
        1
    } else {
        time as int
    }
}

/// The weight of each of some times is the greatest that, times how long it is, does not exceed
/// the full weight times the shortest of them: peers weigh by how many of their answers fit in
/// the time of the fastest.
pub proof fn weights_are_inverse_to_time(times: Seq<u64>, shortest: int, i: int)
    requires
        0 <= i < times.len(),
        0 <= shortest < times.len(),
        forall|j: int|
            0 <= j < times.len() ==> time_taken(times[shortest]) <= time_taken(
                #[trigger] times[j],
            ),
    ensures
        weights_of(times).len() == times.len(),
        weights_of(times)[i] * time_taken(times[i]) <= time_taken(times[shortest])
            * 0x1_0000_0000_0000_0000,
        time_taken(times[shortest]) * 0x1_0000_0000_0000_0000 < (weights_of(times)[i] + 1)
            * time_taken(times[i]),
        time_taken(times[i]) == time_taken(times[shortest]) ==> weights_of(times)[i]
            == 0x1_0000_0000_0000_0000,
{
    lemma_shortest(times, shortest);
    let t = time_taken(times[i]);
    let low = time_taken(times[shortest]);
    let full = 0x1_0000_0000_0000_0000int;
    let q = low * full / t;
    lemma_fundamental_div_mod(low * full, t);
    assert(q * t <= low * full && low * full < (q + 1) * t && 0 <= q) by (nonlinear_arith)
        requires
            low * full == t * q + (low * full) % t,
            0 <= (low * full) % t < t,
            low >= 1,
            full >= 0,
            t >= 1,
    ;
    assert(q <= full) by (nonlinear_arith)
        requires
            q * t <= low * full,
            low <= t,
            full >= 0,
            t >= 1,
    ;
    if t == low {
        assert(q >= full) by (nonlinear_arith)
            requires
                low * full < (q + 1) * t,
                t == low,
                t >= 1,
        ;
    }
}

/// The shortest of some times is the shortest there is.
proof fn lemma_shortest(times: Seq<u64>, shortest: int)
    requires
        0 <= shortest < times.len(),
        forall|j: int|
            0 <= j < times.len() ==> time_taken(times[shortest]) <= time_taken(
                #[trigger] times[j],
            ),
    ensures
        fastest(times) == time_taken(times[shortest]),
    decreases times.len(),
{
    lemma_fastest_is_one_of(times);
    let low = fastest(times);
    assert(low <= time_taken(times[shortest]));
}

/// The shortest of some times is one of them, and none is shorter.
proof fn lemma_fastest_is_one_of(times: Seq<u64>)
    ensures
        forall|j: int|
            0 <= j < times.len() ==> fastest(times) <= time_taken(
                #[trigger] times[j],
            ),
        times.len() > 0 ==> exists|j: int|
            0 <= j < times.len() && fastest(times) == time_taken(
                #[trigger] times[j],
            ),
    decreases times.len(),
{
    if times.len() > 0 {
        let rest = times.drop_last();
        lemma_fastest_is_one_of(rest);
        let low = fastest(times);
        assert forall|j: int| 0 <= j < times.len() implies low <= time_taken(
            #[trigger] times[j],
        ) by {
            if j < rest.len() {
                assert(rest[j] == times[j]);
            }
        }
        if at_least_one(times.last()) < fastest(rest) {
            assert(low == time_taken(times[times.len() - 1]));
        } else if rest.len() > 0 {
            let j = choose|j: int|
                0 <= j < rest.len() && fastest(rest) == time_taken(
                    #[trigger] rest[j],
                );
            assert(low == time_taken(times[j]));
        } else {
            assert(low == time_taken(times[times.len() - 1]));
        }
    }
}

/// A peer that misbehaves gets as many points as the offence is worth, up to the most that can be
/// counted. At the limit it is banned and told to go, an extra peer at once. Peers that our user
/// asked for get none, and no other peer is concerned.
pub proof fn offences_are_counted(node: NodeView, id: u32, factor: u32, other: u32)
    ensures
        ({
            let (after, result) = node.punished(id, factor);
            if !node.peers.contains_key(id) || node.peers[id].kind == ConnectionKind::Manual {
                after == node && result is Ok
            } else {
                let peer = node.peers[id];
                let points = peer.banscore + factor;
                let score = if points > 0xffff_ffff {
                    0xffff_ffff
                } else {
                    points
                };
                let banned = score >= node.max_banscore || peer.kind == ConnectionKind::Extra;
                &&& after.peers.contains_key(other) <==> node.peers.contains_key(other)
                &&& other != id && node.peers.contains_key(other) ==> after.peers[other]
                    == node.peers[other]
                &&& after.peers[id].banscore == score
                &&& after.peers[id].state == if banned {
                    PeerStatus::Banned
                } else {
                    peer.state
                }
                &&& after.peers[id].kind == peer.kind
                &&& after.peers[id].services == peer.services
                &&& after.peers[id].address == peer.address
                &&& after.peers[id].message_time == peer.message_time
                &&& after.peers[id].takes_requests == peer.takes_requests
                &&& after.outbox == if banned && peer.takes_requests {
                    node.outbox.push((id, RequestView::Shutdown))
                } else {
                    node.outbox
                }
                &&& result == if banned && !peer.takes_requests {
                    Err::<(), WireError>(WireError::ChannelSend)
                } else {
                    Ok(())
                }
                &&& after.book == node.book
                &&& after.inflight == node.inflight
                &&& after.peer_ids == node.peer_ids
                &&& after.peer_by_service == node.peer_by_service
            }
        }),
{
}

/// A peer that is banned is told to go and counts as banned, whatever its score, unless our user
/// asked for it.
pub proof fn bans_send_the_peer_away(node: NodeView, id: u32)
    requires
        node.peers.contains_key(id),
        node.peers[id].kind != ConnectionKind::Manual,
    ensures
        ({
            let (after, result) = node.banned(id);
            &&& after.peers.dom() == node.peers.dom()
            &&& after.peers[id].state == PeerStatus::Banned
            &&& after.peers[id].banscore == node.peers[id].banscore
            &&& after.peers[id].kind == node.peers[id].kind
            &&& after.peers[id].services == node.peers[id].services
            &&& if node.peers[id].takes_requests {
                &&& result is Ok
                &&& after.outbox == node.outbox.push((id, RequestView::Shutdown))
            } else {
                &&& result == Err::<(), WireError>(WireError::ChannelSend)
                &&& after.outbox == node.outbox
            }
        }),
{
    assert(node.banned(id).0.peers.dom() =~= node.peers.dom());
}

/// Punishing or banning a peer changes the connections and what is queued, and nothing else.
pub proof fn punishments_leave_the_rest_alone(node: NodeView, id: u32, factor: u32)
    ensures
        ({
            let after = node.punished(id, factor).0;
            after == NodeView { peers: after.peers, outbox: after.outbox, ..node }
        }),
        ({
            let after = node.banned(id).0;
            after == NodeView { peers: after.peers, outbox: after.outbox, ..node }
        }),
        node.peers.contains_key(id) && node.peers[id].kind == ConnectionKind::Manual
            ==> node.banned(id).0 == node,
{
}

} // verus!
