//! Laws of how requests are sent again.

use vstd::prelude::*;
use vstd::set_lib::lemma_len_subset;

use crate::buckets::{lemma_push_contains, without_drops_only_that_id};
use crate::clock::Instant;
use crate::local_address::AddressState;
use crate::node::handshake_laws::lists_are_true;
use crate::node::laws::retries_leave_the_rest_alone;
use crate::node::messages::{ChainAnswers, InflightRequests, RequestView, WireError};
use crate::node::peer::{LocalPeerView, PeerStatus};
use crate::node::retry::{Cause, Expiry, Redo};
use crate::node::state::{NodeView, PeerFilter};
use crate::service_flags::ServiceFlags;
use crate::state_laws::states_belong_to_one_address;
use crate::terms::{has_bits, listed, services_are_sets_of_bits};

verus! {

/// Whether a peer completed the handshake, answered something before, and serves what some bits
/// stand for.
pub open spec fn able(node: NodeView, id: u32, bits: u64) -> bool {
    &&& node.peers.contains_key(id)
    &&& node.peers[id].state is Ready
    &&& node.peers[id].message_time is Some
    &&& has_bits(node.peers[id].services, bits)
}

/// Whether this is what comes of sending a request to one of the peers that serve what some
/// bits stand for, and of awaiting the answer.
pub open spec fn sent_to_able_peer(
    node: NodeView,
    bits: u64,
    request: RequestView,
    pick: Option<u32>,
    awaited: InflightRequests,
    now: Instant,
    after: NodeView,
    result: Result<Redo, WireError>,
) -> bool {
    match pick {
        Some(id) => {
            &&& able(node, id, bits)
            &&& if node.peers[id].takes_requests {
                &&& result == Ok::<Redo, WireError>(Redo::Done)
                &&& after == NodeView {
                    outbox: node.outbox.push((id, request)),
                    inflight: node.inflight.insert(awaited, (id, now)),
                    ..node
                }
            } else {
                &&& result == Err::<Redo, WireError>(WireError::ChannelSend)
                &&& after == node
            }
        },
        None => {
            &&& result == Err::<Redo, WireError>(WireError::NoPeersAvailable)
            &&& after == node
            &&& forall|id: u32| !#[trigger] able(node, id, bits)
        },
    }
}

/// Whether no peer is listed for a service.
pub open spec fn nobody_listed(node: NodeView, service: u64) -> bool {
    !node.peer_by_service.contains_key(service) || node.peer_by_service[service].len() == 0
}

/// A choice by speed is among the peers that are able, and comes out empty only if none is.
pub proof fn fast_choices_are_able(
    node: NodeView,
    service: ServiceFlags,
    pick: Option<u32>,
    id: u32,
)
    requires
        node.peers.dom().finite(),
        node.fast_pick(service, pick),
    ensures
        match pick {
            Some(chosen) => able(node, chosen, service.0),
            None => !able(node, id, service.0),
        },
{
    let peers = node.peers_where(PeerFilter::Measured(service));
    assert(service == ServiceFlags(service.0));
    match pick {
        Some(chosen) => {
            services_are_sets_of_bits(node.peers[chosen].services, service.0, 0);
        },
        None => {
            services_are_sets_of_bits(node.peers[id].services, service.0, 0);
            assert(peers.finite());
            if able(node, id, service.0) {
                assert(peers.contains(id));
            }
        },
    }
}

/// A request that is sent again goes to a peer that is able to answer it: one for a utreexo
/// proof or state to a peer that serves those, one for filters to a peer that serves filters,
/// one for headers to any. It asks for what it asked for before, and fails for want of peers
/// only if none is able. Proofs of blocks that we do not have and filters that nobody serves are
/// not asked for; blocks are left to the caller; connections and addresses are not asked for
/// again.
pub proof fn requests_go_to_peers_that_can_answer(
    node: NodeView,
    req: InflightRequests,
    pick: Option<u32>,
    chain: ChainAnswers,
    now: Instant,
)
    requires
        node.peers.dom().finite(),
        node.fast_pick(req.service(), pick),
    ensures
        ({
            let (after, result) = node.redone(req, pick, chain, now);
            match req {
                InflightRequests::UtreexoState(_) => sent_to_able_peer(
                    node,
                    0x1000,
                    RequestView::GetUtreexoState(chain.genesis, 0),
                    pick,
                    InflightRequests::UtreexoState(pick->0),
                    now,
                    after,
                    result,
                ),
                InflightRequests::UtreexoProof(hash) => if nobody_listed(node, 0x1000)
                    || !node.blocks.contains(hash) || node.inflight.contains_key(req) {
                    after == node && result == Ok::<Redo, WireError>(Redo::Done)
                } else {
                    sent_to_able_peer(
                        node,
                        0x1000,
                        RequestView::GetBlockProof(hash, Seq::empty(), Seq::empty()),
                        pick,
                        req,
                        now,
                        after,
                        result,
                    )
                },
                InflightRequests::GetFilters => if nobody_listed(node, 0x40) {
                    after == node && result == Ok::<Redo, WireError>(Redo::Done)
                } else {
                    sent_to_able_peer(
                        node,
                        0x40,
                        RequestView::GetFilter(chain.genesis, 0),
                        pick,
                        req,
                        now,
                        after,
                        result,
                    )
                },
                InflightRequests::Headers => match chain.locator {
                    Ok(hashes) => sent_to_able_peer(
                        node,
                        0,
                        RequestView::GetHeaders(hashes@),
                        pick,
                        req,
                        now,
                        after,
                        result,
                    ),
                    Err(e) => after == node && result == Err::<Redo, WireError>(
                        WireError::Chain(e),
                    ),
                },
                InflightRequests::Blocks(hash) => after == node && result == Ok::<Redo, WireError>(
                    Redo::RequestBlock(hash),
                ),
                InflightRequests::Connect(_) => after == node && result == Ok::<Redo, WireError>(
                    Redo::Done,
                ),
                InflightRequests::GetAddresses => after == node && result == Ok::<Redo, WireError>(
                    Redo::Done,
                ),
            }
        }),
{
    let service = req.service();
    assert forall|id: u32| pick is None implies !#[trigger] able(node, id, service.0) by {
        fast_choices_are_able(node, service, pick, id);
    }
    fast_choices_are_able(node, service, pick, 0);
}

/// Whether a peer that a request is queued for is among some peers, and serves what the request
/// asks for. Only what was asked for before, and the word to go, is ever queued.
pub open spec fn fits(peers: Map<u32, LocalPeerView>, entry: (u32, RequestView)) -> bool {
    &&& peers.contains_key(entry.0)
    &&& match entry.1 {
        RequestView::GetUtreexoState(_, _) => has_bits(peers[entry.0].services, 0x1000),
        RequestView::GetBlockProof(_, _, _) => has_bits(peers[entry.0].services, 0x1000),
        RequestView::GetFilter(_, _) => has_bits(peers[entry.0].services, 0x40),
        RequestView::GetHeaders(_) => true,
        RequestView::Shutdown => true,
        _ => false,
    }
}

/// Whether the peers of a node are ones that another has, with the same services.
spec fn peers_among(peers: Map<u32, LocalPeerView>, after: NodeView) -> bool {
    forall|id: u32| #[trigger]
        after.peers.contains_key(id) ==> peers.contains_key(id) && peers[id].services
            == after.peers[id].services
}

/// Whether all that was queued since fits some peers.
pub open spec fn queues_what_fits(
    peers: Map<u32, LocalPeerView>,
    before: Seq<(u32, RequestView)>,
    after: Seq<(u32, RequestView)>,
) -> bool {
    &&& before.len() <= after.len()
    &&& forall|i: int| 0 <= i < before.len() ==> #[trigger] after[i] == before[i]
    &&& forall|i: int| before.len() <= i < after.len() ==> fits(peers, #[trigger] after[i])
}

/// Sending a request again queues only what fits.
proof fn lemma_redone_fits(
    peers: Map<u32, LocalPeerView>,
    node: NodeView,
    req: InflightRequests,
    pick: Option<u32>,
    chain: ChainAnswers,
    now: Instant,
)
    requires
        peers_among(peers, node),
        node.fast_pick(req.service(), pick),
    ensures
        peers_among(peers, node.redone(req, pick, chain, now).0),
        queues_what_fits(peers, node.outbox, node.redone(req, pick, chain, now).0.outbox),
{
    let service = req.service();
    assert(service == ServiceFlags(service.0));
    match pick {
        Some(id) => {
            assert(node.peers_where(PeerFilter::Measured(service)).contains(id));
            services_are_sets_of_bits(node.peers[id].services, service.0, 0);
        },
        None => {},
    }
}

/// Punishing a peer queues only what fits.
proof fn lemma_punished_fits(peers: Map<u32, LocalPeerView>, node: NodeView, id: u32, factor: u32)
    requires
        peers_among(peers, node),
    ensures
        peers_among(peers, node.punished(id, factor).0),
        queues_what_fits(peers, node.outbox, node.punished(id, factor).0.outbox),
{
}

/// One step queues only what fits.
proof fn lemma_step_fits(
    peers: Map<u32, LocalPeerView>,
    node: NodeView,
    before: Map<InflightRequests, (u32, Instant)>,
    cause: Cause,
    req: InflightRequests,
    pick: Option<u32>,
    chain: ChainAnswers,
    now: Instant,
)
    requires
        peers_among(peers, node),
        node.step_pick(cause, req, pick),
    ensures
        peers_among(peers, node.step(before, cause, req, pick, chain, now).0),
        queues_what_fits(
            peers,
            node.outbox,
            node.step(before, cause, req, pick, chain, now).0.outbox,
        ),
{
    if !node.deferred(cause, req) {
        match cause {
            Cause::Gone(_) => {
                lemma_redone_fits(peers, node.without_request(req), req, pick, chain, now);
            },
            Cause::Late => {
                let (mid, expiry) = node.expiry(req);
                if node.inflight.contains_key(req) {
                    let (peer, since) = node.inflight[req];
                    lemma_punished_fits(peers, node.without_request(req), peer, 1);
                    assert(peers_among(peers, mid));
                    assert(queues_what_fits(peers, node.outbox, mid.outbox));
                    if expiry matches Ok(Expiry::Retry(_, _)) {
                        lemma_redone_fits(peers, mid, req, pick, chain, now);
                    }
                }
            },
        }
    }
}

/// Choices that are valid for some requests are valid for all but the last of them.
proof fn lemma_fewer_picks(
    node: NodeView,
    cause: Cause,
    order: Seq<InflightRequests>,
    picks: Seq<Option<u32>>,
    chain: ChainAnswers,
    now: Instant,
)
    requires
        node.valid_picks(cause, order, picks, chain, now),
        order.len() > 0,
    ensures
        node.valid_picks(cause, order.drop_last(), picks.take(order.len() - 1), chain, now),
        node.pick_at(cause, order, picks, chain, now, order.len() - 1),
        order.take(order.len() - 1) == order.drop_last(),
{
    let rest = order.drop_last();
    let fewer = picks.take(order.len() - 1);
    assert(order.take(order.len() - 1) =~= rest);
    assert forall|i: int| 0 <= i < rest.len() implies #[trigger] node.pick_at(
        cause,
        rest,
        fewer,
        chain,
        now,
        i,
    ) by {
        assert(node.pick_at(cause, order, picks, chain, now, i));
        assert(order.take(i) =~= rest.take(i));
        assert(picks.take(i) =~= fewer.take(i));
    }
}

/// Going through requests queues only what fits.
proof fn lemma_processed_fits(
    node: NodeView,
    cause: Cause,
    order: Seq<InflightRequests>,
    picks: Seq<Option<u32>>,
    chain: ChainAnswers,
    now: Instant,
)
    requires
        node.valid_picks(cause, order, picks, chain, now),
    ensures
        peers_among(node.peers, node.processed(cause, order, picks, chain, now).0),
        queues_what_fits(
            node.peers,
            node.outbox,
            node.processed(cause, order, picks, chain, now).0.outbox,
        ),
    decreases order.len(),
{
    if order.len() > 0 {
        let rest = order.drop_last();
        let fewer = picks.take(order.len() - 1);
        lemma_fewer_picks(node, cause, order, picks, chain, now);
        lemma_processed_fits(node, cause, rest, fewer, chain, now);
        let (mid, result) = node.processed(cause, rest, fewer, chain, now);
        if result is Ok {
            lemma_step_fits(
                node.peers,
                mid,
                node.inflight,
                cause,
                order.last(),
                picks[order.len() - 1],
                chain,
                now,
            );
        }
    }
}

/// When a peer left or answers are late, every request for a utreexo proof or state that is
/// queued goes to a peer that serves those, and every one for filters to a peer that serves
/// filters. All goes to peers there is a connection to, and nothing queued before is lost.
pub proof fn requests_sent_again_fit_their_peers(
    node: NodeView,
    cause: Cause,
    chain: ChainAnswers,
    now: Instant,
    after: NodeView,
    result: Result<Seq<InflightRequests>, WireError>,
)
    requires
        node.all_processed(cause, chain, now, after, result),
    ensures
        queues_what_fits(node.peers, node.outbox, after.outbox),
{
    let (order, picks) = choose|order: Seq<InflightRequests>, picks: Seq<Option<u32>>|
        {
            &&& node.enumerates(cause, now, order)
            &&& #[trigger] node.valid_picks(cause, order, picks, chain, now)
            &&& after == node.processed(cause, order, picks, chain, now).0
            &&& match result {
                Ok(left) => {
                    &&& node.processed(cause, order, picks, chain, now).1 is Ok
                    &&& left == node.left_to_caller(cause, order, picks, chain, now)
                },
                Err(e) => node.processed(cause, order, picks, chain, now).1 == Err::<(), WireError>(
                    e,
                ),
            }
        };
    lemma_processed_fits(node, cause, order, picks, chain, now);
}

/// There is no connection to a peer that left, and its address notes how it went: that it was met
/// if the handshake was complete, that it failed if it was not, and for how long it is banned if
/// it is. What is queued and awaited stays.
pub proof fn leaving_is_noted(node: NodeView, peer: u32, idx: usize, secs: u64)
    requires
        node.peers.contains_key(peer),
        node.book.addresses.contains_key(idx),
    ensures
        ({
            let after = node.dropped(peer, idx, secs);
            &&& after.peers == node.peers.remove(peer)
            &&& after.outbox == node.outbox
            &&& after.inflight == node.inflight
            &&& after.book.addresses.contains_key(idx)
            &&& match (node.peers[peer].state, after.book.addresses[idx].state) {
                (PeerStatus::Ready, AddressState::Tried(when)) => when == secs,
                (PeerStatus::Awaiting, AddressState::Failed(when)) => when == secs,
                (PeerStatus::Banned, AddressState::Banned(until)) => {
                    &&& secs + node.context.ban_time <= u64::MAX ==> until == secs
                        + node.context.ban_time
                    &&& secs + node.context.ban_time > u64::MAX ==> until == u64::MAX
                },
                _ => false,
            }
        }),
{
    states_belong_to_one_address(node.book, idx, AddressState::Tried(secs), secs, idx);
    states_belong_to_one_address(node.book, idx, AddressState::Failed(secs), secs, idx);
    states_belong_to_one_address(
        node.book,
        idx,
        AddressState::Banned(node.ban_end(secs)),
        secs,
        idx,
    );
}

/// A peer that left is on no list; every other stays where it was.
pub proof fn leaving_delists_one_peer(
    node: NodeView,
    peer: u32,
    idx: usize,
    secs: u64,
    service: u64,
    other: u32,
)
    ensures
        ({
            let after = node.dropped(peer, idx, secs);
            &&& after.peer_ids.contains(other) <==> node.peer_ids.contains(other) && other != peer
            &&& listed(after.peer_by_service, service, other) <==> listed(
                node.peer_by_service,
                service,
                other,
            ) && other != peer
            &&& !node.peers.contains_key(peer) ==> after.book == node.book
        }),
{
    without_drops_only_that_id(node.peer_ids, peer);
    if node.peer_by_service.contains_key(service) {
        without_drops_only_that_id(node.peer_by_service[service], peer);
    }
}

/// Every peer on a list offers what the list is for, and one that leaves leaves it so.
pub proof fn leaving_keeps_the_lists_true(node: NodeView, peer: u32, idx: usize, secs: u64)
    requires
        lists_are_true(node),
    ensures
        lists_are_true(node.dropped(peer, idx, secs)),
{
    let after = node.dropped(peer, idx, secs);
    assert forall|service: u64, id: u32| #[trigger]
        listed(after.peer_by_service, service, id) && after.peers.contains_key(
            id,
        ) implies has_bits(after.peers[id].services, service) by {
        leaving_delists_one_peer(node, peer, idx, secs, service, id);
        assert(listed(node.peer_by_service, service, id));
    }
}

/// A request is late once more whole seconds have passed than we wait for an answer or, for a
/// connection, than we wait for one if that is less. It concerns a peer that left if it was sent
/// to that one.
pub proof fn answers_are_late_after_the_time_to_wait(
    node: NodeView,
    now: Instant,
    req: InflightRequests,
    peer: u32,
)
    requires
        node.inflight.contains_key(req),
    ensures
        ({
            let since = node.inflight[req].1;
            let second = 1_000_000_000int;
            &&& node.concerns(Cause::Late, now, req) <==> {
                ||| since.0 + (node.context.request_timeout + 1) * second <= now.0
                ||| req is Connect && since.0 + (node.context.connection_timeout + 1) * second
                    <= now.0
            }
            &&& node.concerns(Cause::Gone(peer), now, req) <==> node.inflight[req].0 == peer
        }),
{
    let since = node.inflight[req].1;
    let waited = now.secs_after(since);
    if since.0 <= now.0 {
        let passed = now.0 - since.0;
        assert(waited == passed / 1_000_000_000);
        assert(waited * 1_000_000_000 <= passed < (waited + 1) * 1_000_000_000);
    }
}

/// What is not awaited is not late.
pub proof fn what_is_not_awaited_is_not_late(
    node: NodeView,
    cause: Cause,
    now: Instant,
    req: InflightRequests,
)
    requires
        !node.inflight.contains_key(req),
    ensures
        !node.concerns(cause, now, req),
{
}

/// A late answer costs its peer a point and is asked for again; but feelers, and connections
/// that were not made in time, are told to go and are gone.
pub proof fn late_answers_cost_a_point(node: NodeView, req: InflightRequests)
    requires
        node.inflight.contains_key(req),
    ensures
        ({
            let (peer, since) = node.inflight[req];
            let (after, outcome) = node.expiry(req);
            let known = node.peers.contains_key(peer);
            let kind = node.peers[peer].kind;
            let greeted = known && !(node.peers[peer].state is Awaiting);
            let takes = node.peers[peer].takes_requests;
            &&& after.inflight == node.inflight.remove(req)
            &&& if known && kind is Feeler {
                if greeted && !takes {
                    &&& outcome == Err::<Expiry, WireError>(WireError::ChannelSend)
                    &&& after.peers == node.peers
                    &&& after.outbox == node.outbox
                } else {
                    &&& outcome == Ok::<Expiry, WireError>(Expiry::Settled)
                    &&& after.peers == node.peers.remove(peer)
                    &&& after.outbox == if greeted {
                        node.outbox.push((peer, RequestView::Shutdown))
                    } else {
                        node.outbox
                    }
                }
            } else if req is Connect {
                &&& outcome == Ok::<Expiry, WireError>(Expiry::Settled)
                &&& after.peers == node.peers.remove(peer)
                &&& after.outbox == if greeted && takes {
                    node.outbox.push((peer, RequestView::Shutdown))
                } else {
                    node.outbox
                }
            } else {
                &&& outcome == Ok::<Expiry, WireError>(Expiry::Retry(peer, since))
                &&& !known || kind is Manual ==> after.peers == node.peers && after.outbox
                    == node.outbox
                &&& known && !(kind is Manual) ==> {
                    &&& after.peers.dom() == node.peers.dom()
                    &&& after.peers[peer].banscore == if node.peers[peer].banscore == u32::MAX {
                        u32::MAX as int
                    } else {
                        node.peers[peer].banscore + 1
                    }
                }
            }
        }),
{
    let (peer, since) = node.inflight[req];
    if node.peers.contains_key(peer) {
        assert(node.without_request(req).punished(peer, 1).0.peers.dom() =~= node.peers.dom());
    }
}

/// Once a peer left and what it was asked for is dealt with, nothing is awaited from it but the
/// blocks that are left to the caller.
pub proof fn nothing_is_awaited_from_a_peer_that_left(
    node: NodeView,
    peer: u32,
    chain: ChainAnswers,
    now: Instant,
    after: NodeView,
    left: Seq<InflightRequests>,
    req: InflightRequests,
)
    requires
        !node.peers.contains_key(peer),
        node.all_processed(
            Cause::Gone(peer),
            chain,
            now,
            after,
            Ok::<Seq<InflightRequests>, WireError>(left),
        ),
        after.inflight.contains_key(req),
        after.inflight[req].0 == peer,
    ensures
        req is Blocks,
        left.contains(req),
        node.inflight.contains_key(req),
        node.inflight[req] == after.inflight[req],
{
    let cause = Cause::Gone(peer);
    let (order, picks) = choose|order: Seq<InflightRequests>, picks: Seq<Option<u32>>|
        {
            &&& node.enumerates(cause, now, order)
            &&& #[trigger] node.valid_picks(cause, order, picks, chain, now)
            &&& after == node.processed(cause, order, picks, chain, now).0
            &&& node.processed(cause, order, picks, chain, now).1 is Ok
            &&& left == node.left_to_caller(cause, order, picks, chain, now)
        };
    lemma_awaited_from(node, peer, order, picks, chain, now, req);
    assert(node.concerns(cause, now, req));
    assert(order.contains(req));
}

/// What is still awaited from a peer that left was awaited before, and if its turn came it is a
/// block left to the caller.
proof fn lemma_awaited_from(
    node: NodeView,
    peer: u32,
    order: Seq<InflightRequests>,
    picks: Seq<Option<u32>>,
    chain: ChainAnswers,
    now: Instant,
    req: InflightRequests,
)
    requires
        !node.peers.contains_key(peer),
        order.no_duplicates(),
        node.valid_picks(Cause::Gone(peer), order, picks, chain, now),
        node.processed(Cause::Gone(peer), order, picks, chain, now).1 is Ok,
    ensures
        ({
            let cause = Cause::Gone(peer);
            let after = node.processed(cause, order, picks, chain, now).0;
            after.inflight.contains_key(req) && after.inflight[req].0 == peer ==> {
                &&& node.inflight.contains_key(req)
                &&& node.inflight[req] == after.inflight[req]
                &&& order.contains(req) ==> req is Blocks && node.left_to_caller(
                    cause,
                    order,
                    picks,
                    chain,
                    now,
                ).contains(req)
            }
        }),
    decreases order.len(),
{
    let cause = Cause::Gone(peer);
    if order.len() > 0 {
        let rest = order.drop_last();
        let fewer = picks.take(order.len() - 1);
        let last = order.last();
        let pick = picks[order.len() - 1];
        lemma_fewer_picks(node, cause, order, picks, chain, now);
        lemma_awaited_from(node, peer, rest, fewer, chain, now, req);
        lemma_processed_fits(node, cause, rest, fewer, chain, now);
        let mid = node.processed(cause, rest, fewer, chain, now).0;
        assert(order =~= rest.push(last));
        lemma_push_contains(rest, last, req);
        let left = node.left_to_caller(cause, rest, fewer, chain, now);
        lemma_push_contains(left, last, req);
        if !mid.deferred(cause, last) {
            let taken = mid.without_request(last);
            assert(taken.fast_pick(last.service(), pick));
            match pick {
                Some(id) => {
                    assert(taken.peers_where(PeerFilter::Measured(last.service())).contains(id));
                    assert(mid.peers.contains_key(id));
                    assert(id != peer);
                },
                None => {},
            }
        }
    }
}

/// Once late answers are dealt with, each of them was asked for again just now, is not awaited
/// any more, or is a block that is left to the caller.
pub proof fn late_answers_are_dealt_with(
    node: NodeView,
    chain: ChainAnswers,
    now: Instant,
    after: NodeView,
    left: Seq<InflightRequests>,
    req: InflightRequests,
)
    requires
        node.all_processed(
            Cause::Late,
            chain,
            now,
            after,
            Ok::<Seq<InflightRequests>, WireError>(left),
        ),
        node.concerns(Cause::Late, now, req),
        after.inflight.contains_key(req),
    ensures
        after.inflight[req].1 == now || (req is Blocks && left.contains(req)),
{
    let cause = Cause::Late;
    let (order, picks) = choose|order: Seq<InflightRequests>, picks: Seq<Option<u32>>|
        {
            &&& node.enumerates(cause, now, order)
            &&& #[trigger] node.valid_picks(cause, order, picks, chain, now)
            &&& after == node.processed(cause, order, picks, chain, now).0
            &&& node.processed(cause, order, picks, chain, now).1 is Ok
            &&& left == node.left_to_caller(cause, order, picks, chain, now)
        };
    lemma_late(node, order, picks, chain, now, req);
    assert(order.contains(req));
}

/// What is still awaited of late answers whose turn came was asked for again, or is left to the
/// caller.
proof fn lemma_late(
    node: NodeView,
    order: Seq<InflightRequests>,
    picks: Seq<Option<u32>>,
    chain: ChainAnswers,
    now: Instant,
    req: InflightRequests,
)
    requires
        order.no_duplicates(),
        node.processed(Cause::Late, order, picks, chain, now).1 is Ok,
    ensures
        ({
            let after = node.processed(Cause::Late, order, picks, chain, now).0;
            order.contains(req) && after.inflight.contains_key(req) ==> after.inflight[req].1
                == now || (req is Blocks && node.left_to_caller(
                Cause::Late,
                order,
                picks,
                chain,
                now,
            ).contains(req))
        }),
    decreases order.len(),
{
    let cause = Cause::Late;
    if order.len() > 0 {
        let rest = order.drop_last();
        let fewer = picks.take(order.len() - 1);
        let last = order.last();
        lemma_late(node, rest, fewer, chain, now, req);
        assert(order =~= rest.push(last));
        lemma_push_contains(rest, last, req);
        let left = node.left_to_caller(cause, rest, fewer, chain, now);
        lemma_push_contains(left, last, req);
    }
}

/// Asking for a block again ends the request; where it failed the request is awaited as before,
/// and the error is handed on.
pub proof fn failed_blocks_are_awaited_as_before(
    node: NodeView,
    req: InflightRequests,
    held: (u32, Instant),
    outcome: Result<(), WireError>,
)
    ensures
        ({
            let (after, result) = node.block_settled(req, held, outcome);
            match outcome {
                Ok(_) => after == node && result is Ok,
                Err(e) => {
                    &&& result == Err::<(), WireError>(e)
                    &&& after.inflight == node.inflight.insert(req, held)
                    &&& after.peers == node.peers
                    &&& after.outbox == node.outbox
                    &&& after.book == node.book
                },
            }
        }),
{
}

/// What a peer has to serve to be sent such a request.
pub open spec fn needed_for(req: InflightRequests) -> u64 {
    match req {
        InflightRequests::UtreexoProof(_) => 0x1000,
        InflightRequests::UtreexoState(_) => 0x1000,
        InflightRequests::GetFilters => 0x40,
        InflightRequests::Headers => 0,
        InflightRequests::Blocks(_) => 0,
        InflightRequests::Connect(_) => 0,
        InflightRequests::GetAddresses => 0,
    }
}

/// Whether no peer of a node is able to answer one of some requests.
spec fn one_lacks_a_peer(node: NodeView, order: Seq<InflightRequests>) -> bool {
    exists|req: InflightRequests| #[trigger]
        order.contains(req) && forall|id: u32| !#[trigger] able(node, id, needed_for(req))
}

/// Sending a request again changes no peer, and fails for want of peers only if none is able.
proof fn lemma_redone_lacks(
    node: NodeView,
    req: InflightRequests,
    pick: Option<u32>,
    chain: ChainAnswers,
    now: Instant,
)
    requires
        node.peers.dom().finite(),
        node.fast_pick(req.service(), pick),
    ensures
        node.redone(req, pick, chain, now).0.peers == node.peers,
        node.redone(req, pick, chain, now).1 == Err::<Redo, WireError>(WireError::NoPeersAvailable)
            ==> forall|id: u32| !#[trigger] able(node, id, needed_for(req)),
{
    requests_go_to_peers_that_can_answer(node, req, pick, chain, now);
}

/// Going through requests fails for want of peers only if none is able to answer one of them.
proof fn lemma_processed_lacks(
    node: NodeView,
    cause: Cause,
    order: Seq<InflightRequests>,
    picks: Seq<Option<u32>>,
    chain: ChainAnswers,
    now: Instant,
)
    requires
        node.peers.dom().finite(),
        node.valid_picks(cause, order, picks, chain, now),
        node.processed(cause, order, picks, chain, now).1 == Err::<(), WireError>(
            WireError::NoPeersAvailable,
        ),
    ensures
        one_lacks_a_peer(node.processed(cause, order, picks, chain, now).0, order),
    decreases order.len(),
{
    if order.len() > 0 {
        let rest = order.drop_last();
        let fewer = picks.take(order.len() - 1);
        let last = order.last();
        let pick = picks[order.len() - 1];
        lemma_fewer_picks(node, cause, order, picks, chain, now);
        lemma_processed_fits(node, cause, rest, fewer, chain, now);
        let (mid, result) = node.processed(cause, rest, fewer, chain, now);
        assert(order =~= rest.push(last));
        lemma_push_contains(rest, last, last);
        if result is Ok {
            assert(mid.peers.dom().subset_of(node.peers.dom()));
            lemma_len_subset(mid.peers.dom(), node.peers.dom());
            match cause {
                Cause::Gone(_) => {
                    lemma_redone_lacks(mid.without_request(last), last, pick, chain, now);
                    assert(forall|id: u32| #[trigger]
                        able(mid.without_request(last), id, needed_for(last)) <==> able(
                            mid,
                            id,
                            needed_for(last),
                        ));
                },
                Cause::Late => {
                    let (next, expiry) = mid.expiry(last);
                    lemma_step_fits(
                        node.peers,
                        mid,
                        node.inflight,
                        cause,
                        last,
                        pick,
                        chain,
                        now,
                    );
                    if expiry matches Ok(Expiry::Retry(_, _)) {
                        late_answers_cost_a_point(mid, last);
                        assert(next.peers.dom().subset_of(mid.peers.dom()));
                        lemma_len_subset(next.peers.dom(), mid.peers.dom());
                        lemma_redone_lacks(next, last, pick, chain, now);
                    }
                },
            }
            let after = node.processed(cause, order, picks, chain, now).0;
            assert forall|id: u32| !#[trigger] able(after, id, needed_for(last)) by {
                let before = match cause {
                    Cause::Gone(_) => mid.without_request(last),
                    Cause::Late => mid.expiry(last).0,
                };
                assert(!able(before, id, needed_for(last)));
            }
        } else {
            lemma_processed_lacks(node, cause, rest, fewer, chain, now);
            let req = choose|req: InflightRequests| #[trigger]
                rest.contains(req) && forall|id: u32| !#[trigger] able(mid, id, needed_for(req));
            lemma_push_contains(rest, last, req);
            assert(order.contains(req));
        }
    }
}

/// When a peer left or answers are late, dealing with it fails for want of peers only if no peer
/// that completed the handshake and answered something before serves what one of the requests
/// asks for.
pub proof fn peers_are_wanting_only_if_none_is_able(
    node: NodeView,
    cause: Cause,
    chain: ChainAnswers,
    now: Instant,
    after: NodeView,
)
    requires
        node.peers.dom().finite(),
        node.all_processed(
            cause,
            chain,
            now,
            after,
            Err::<Seq<InflightRequests>, WireError>(WireError::NoPeersAvailable),
        ),
    ensures
        exists|req: InflightRequests| #[trigger]
            node.concerns(cause, now, req) && forall|id: u32| !#[trigger]
            able(after, id, needed_for(req)),
{
    let (order, picks) = choose|order: Seq<InflightRequests>, picks: Seq<Option<u32>>|
        {
            &&& node.enumerates(cause, now, order)
            &&& #[trigger] node.valid_picks(cause, order, picks, chain, now)
            &&& after == node.processed(cause, order, picks, chain, now).0
            &&& node.processed(cause, order, picks, chain, now).1 == Err::<(), WireError>(
                WireError::NoPeersAvailable,
            )
        };
    lemma_processed_lacks(node, cause, order, picks, chain, now);
    let req = choose|req: InflightRequests| #[trigger]
        order.contains(req) && forall|id: u32| !#[trigger] able(after, id, needed_for(req));
    assert(node.concerns(cause, now, req));
}

/// A peer that leaves changes the connections, the lists of peers and the book, and nothing else.
pub proof fn leaving_leaves_the_rest_alone(node: NodeView, peer: u32, idx: usize, secs: u64)
    ensures
        ({
            let after = node.dropped(peer, idx, secs);
            after == NodeView {
                peers: after.peers,
                peer_ids: after.peer_ids,
                peer_by_service: after.peer_by_service,
                book: after.book,
                ..node
            }
        }),
{
}

/// A request to a peer that left that cannot be sent again is awaited as it was at first, from
/// the same peer and since the same time, and nothing is sent.
pub proof fn requests_that_fail_are_awaited_as_at_first(
    node: NodeView,
    before: Map<InflightRequests, (u32, Instant)>,
    peer: u32,
    req: InflightRequests,
    pick: Option<u32>,
    chain: ChainAnswers,
    now: Instant,
)
    requires
        node.step(before, Cause::Gone(peer), req, pick, chain, now).1 is Err,
    ensures
        ({
            let after = node.step(before, Cause::Gone(peer), req, pick, chain, now).0;
            &&& after.inflight == node.inflight.insert(req, before[req])
            &&& after.outbox == node.outbox
            &&& after.peers == node.peers
        }),
{
    assert(node.inflight.remove(req).insert(req, before[req]) =~= node.inflight.insert(
        req,
        before[req],
    ));
}

/// A late request that cannot be sent again is awaited as it was, from the same peer and since
/// the same time, unless it was sent to a feeler.
pub proof fn late_requests_that_fail_are_awaited_as_before(
    node: NodeView,
    req: InflightRequests,
    pick: Option<u32>,
    chain: ChainAnswers,
    now: Instant,
)
    requires
        node.inflight.contains_key(req),
        node.expired(req, pick, chain, now).1 is Err,
    ensures
        ({
            let peer = node.inflight[req].0;
            let after = node.expired(req, pick, chain, now).0;
            &&& node.peers.contains_key(peer) && node.peers[peer].kind is Feeler ==> after.inflight
                == node.inflight.remove(req)
            &&& !(node.peers.contains_key(peer) && node.peers[peer].kind is Feeler)
                ==> after.inflight == node.inflight
        }),
{
    let held = node.inflight[req];
    assert(node.inflight.remove(req).insert(req, held) =~= node.inflight);
}

/// Where dealing with a peer that left fails, one of the requests it was sent is awaited as it was
/// before.
pub proof fn failing_keeps_what_was_awaited(
    node: NodeView,
    peer: u32,
    chain: ChainAnswers,
    now: Instant,
    after: NodeView,
    e: WireError,
)
    requires
        node.all_processed(
            Cause::Gone(peer),
            chain,
            now,
            after,
            Err::<Seq<InflightRequests>, WireError>(e),
        ),
    ensures
        exists|req: InflightRequests|
            {
                &&& #[trigger] node.concerns(Cause::Gone(peer), now, req)
                &&& after.inflight.contains_key(req)
                &&& after.inflight[req] == node.inflight[req]
            },
{
    let cause = Cause::Gone(peer);
    let (order, picks) = choose|order: Seq<InflightRequests>, picks: Seq<Option<u32>>|
        {
            &&& node.enumerates(cause, now, order)
            &&& #[trigger] node.valid_picks(cause, order, picks, chain, now)
            &&& after == node.processed(cause, order, picks, chain, now).0
            &&& node.processed(cause, order, picks, chain, now).1 == Err::<(), WireError>(e)
        };
    let req = lemma_failing_step(node, peer, order, picks, chain, now);
    assert(node.concerns(cause, now, req));
}

/// The request that going through some of them failed at.
proof fn lemma_failing_step(
    node: NodeView,
    peer: u32,
    order: Seq<InflightRequests>,
    picks: Seq<Option<u32>>,
    chain: ChainAnswers,
    now: Instant,
) -> (req: InflightRequests)
    requires
        node.processed(Cause::Gone(peer), order, picks, chain, now).1 is Err,
    ensures
        order.contains(req),
        node.processed(Cause::Gone(peer), order, picks, chain, now).0.inflight.contains_key(req),
        node.processed(Cause::Gone(peer), order, picks, chain, now).0.inflight[req]
            == node.inflight[req],
    decreases order.len(),
{
    let cause = Cause::Gone(peer);
    let rest = order.drop_last();
    let fewer = picks.take(order.len() - 1);
    let last = order.last();
    let (mid, result) = node.processed(cause, rest, fewer, chain, now);
    assert(order =~= rest.push(last));
    if result is Err {
        let req = lemma_failing_step(node, peer, rest, fewer, chain, now);
        lemma_push_contains(rest, last, req);
        req
    } else {
        lemma_push_contains(rest, last, last);
        requests_that_fail_are_awaited_as_at_first(
            mid,
            node.inflight,
            peer,
            last,
            picks[order.len() - 1],
            chain,
            now,
        );
        last
    }
}

/// Whether a request is for a block, and its time has not passed with a feeler: those are closed.
pub open spec fn block_to_ask_for_again(
    node: NodeView,
    cause: Cause,
    req: InflightRequests,
) -> bool {
    &&& req is Blocks
    &&& node.inflight.contains_key(req)
    &&& cause == Cause::Late ==> !(node.peers.contains_key(node.inflight[req].0)
        && node.peers[node.inflight[req].0].kind is Feeler)
}

/// Whether the peers of a node are ones that another has, of the same kind.
spec fn kinds_among(node: NodeView, after: NodeView) -> bool {
    forall|id: u32| #[trigger]
        after.peers.contains_key(id) ==> node.peers.contains_key(id) && node.peers[id].kind
            == after.peers[id].kind
}

/// Sending another request again leaves what is awaited of a block alone, and every peer.
proof fn lemma_redone_keeps_blocks(
    node: NodeView,
    other: InflightRequests,
    pick: Option<u32>,
    chain: ChainAnswers,
    now: Instant,
    req: InflightRequests,
)
    requires
        req is Blocks,
        other != req,
        node.inflight.contains_key(req),
    ensures
        ({
            let after = node.redone(other, pick, chain, now).0;
            &&& after.peers == node.peers
            &&& after.inflight.contains_key(req)
            &&& after.inflight[req] == node.inflight[req]
        }),
{
}

/// What comes first of another request that is late leaves what is awaited of a block alone, and
/// every peer of its kind.
proof fn lemma_expiry_keeps_blocks(node: NodeView, other: InflightRequests, req: InflightRequests)
    requires
        req is Blocks,
        other != req,
        node.inflight.contains_key(req),
    ensures
        ({
            let after = node.expiry(other).0;
            &&& kinds_among(node, after)
            &&& after.inflight.contains_key(req)
            &&& after.inflight[req] == node.inflight[req]
        }),
{
}

/// One step leaves what is awaited of a block alone, and every peer of its kind.
proof fn lemma_step_keeps_blocks(
    node: NodeView,
    mid: NodeView,
    before: Map<InflightRequests, (u32, Instant)>,
    cause: Cause,
    other: InflightRequests,
    pick: Option<u32>,
    chain: ChainAnswers,
    now: Instant,
    req: InflightRequests,
)
    requires
        block_to_ask_for_again(node, cause, req),
        kinds_among(node, mid),
        mid.inflight.contains_key(req),
        mid.inflight[req] == node.inflight[req],
    ensures
        ({
            let after = mid.step(before, cause, other, pick, chain, now).0;
            &&& kinds_among(node, after)
            &&& after.inflight.contains_key(req)
            &&& after.inflight[req] == node.inflight[req]
        }),
        other == req ==> mid.deferred(cause, req),
{
    if other == req {
        assert(mid.deferred(cause, req));
    } else if !mid.deferred(cause, other) {
        match cause {
            Cause::Gone(_) => {
                let taken = mid.without_request(other);
                lemma_redone_keeps_blocks(taken, other, pick, chain, now, req);
            },
            Cause::Late => {
                let (next, expiry) = mid.expiry(other);
                lemma_expiry_keeps_blocks(mid, other, req);
                if expiry matches Ok(Expiry::Retry(_, _)) {
                    lemma_redone_keeps_blocks(next, other, pick, chain, now, req);
                }
            },
        }
    }
}

/// Going through requests leaves what is awaited of a block alone, and leaves the block to the
/// caller if its turn came.
proof fn lemma_blocks_are_left(
    node: NodeView,
    cause: Cause,
    order: Seq<InflightRequests>,
    picks: Seq<Option<u32>>,
    chain: ChainAnswers,
    now: Instant,
    req: InflightRequests,
)
    requires
        block_to_ask_for_again(node, cause, req),
    ensures
        ({
            let (after, result) = node.processed(cause, order, picks, chain, now);
            &&& kinds_among(node, after)
            &&& after.inflight.contains_key(req)
            &&& after.inflight[req] == node.inflight[req]
            &&& result is Ok && order.contains(req) ==> node.left_to_caller(
                cause,
                order,
                picks,
                chain,
                now,
            ).contains(req)
        }),
    decreases order.len(),
{
    if order.len() > 0 {
        let rest = order.drop_last();
        let fewer = picks.take(order.len() - 1);
        let last = order.last();
        lemma_blocks_are_left(node, cause, rest, fewer, chain, now, req);
        let mid = node.processed(cause, rest, fewer, chain, now).0;
        lemma_step_keeps_blocks(
            node,
            mid,
            node.inflight,
            cause,
            last,
            picks[order.len() - 1],
            chain,
            now,
            req,
        );
        assert(order =~= rest.push(last));
        lemma_push_contains(rest, last, req);
        lemma_push_contains(node.left_to_caller(cause, rest, fewer, chain, now), last, req);
    }
}

/// Every block that was asked for from a peer that left, or that is late, is left to the caller,
/// who asks for it again, and is awaited as before until then; blocks that were asked for from
/// feelers are not when they are late.
pub proof fn blocks_are_left_to_the_caller(
    node: NodeView,
    cause: Cause,
    chain: ChainAnswers,
    now: Instant,
    after: NodeView,
    result: Result<Seq<InflightRequests>, WireError>,
    req: InflightRequests,
)
    requires
        node.all_processed(cause, chain, now, after, result),
        block_to_ask_for_again(node, cause, req),
    ensures
        after.inflight.contains_key(req),
        after.inflight[req] == node.inflight[req],
        node.concerns(cause, now, req) ==> (result matches Ok(left) ==> left.contains(req)),
{
    let (order, picks) = choose|order: Seq<InflightRequests>, picks: Seq<Option<u32>>|
        {
            &&& node.enumerates(cause, now, order)
            &&& #[trigger] node.valid_picks(cause, order, picks, chain, now)
            &&& after == node.processed(cause, order, picks, chain, now).0
            &&& match result {
                Ok(left) => {
                    &&& node.processed(cause, order, picks, chain, now).1 is Ok
                    &&& left == node.left_to_caller(cause, order, picks, chain, now)
                },
                Err(e) => node.processed(cause, order, picks, chain, now).1 == Err::<(), WireError>(
                    e,
                ),
            }
        };
    lemma_blocks_are_left(node, cause, order, picks, chain, now, req);
    if node.concerns(cause, now, req) {
        assert(order.contains(req));
    }
}

/// What is left to the caller are blocks that something has to be done about, and no other
/// requests.
pub proof fn only_blocks_are_left_to_the_caller(
    node: NodeView,
    cause: Cause,
    chain: ChainAnswers,
    now: Instant,
    after: NodeView,
    left: Seq<InflightRequests>,
    req: InflightRequests,
)
    requires
        node.all_processed(
            cause,
            chain,
            now,
            after,
            Ok::<Seq<InflightRequests>, WireError>(left),
        ),
        left.contains(req),
    ensures
        req is Blocks,
        node.concerns(cause, now, req),
{
    let (order, picks) = choose|order: Seq<InflightRequests>, picks: Seq<Option<u32>>|
        {
            &&& node.enumerates(cause, now, order)
            &&& #[trigger] node.valid_picks(cause, order, picks, chain, now)
            &&& after == node.processed(cause, order, picks, chain, now).0
            &&& node.processed(cause, order, picks, chain, now).1 is Ok
            &&& left == node.left_to_caller(cause, order, picks, chain, now)
        };
    lemma_left_are_blocks(node, cause, order, picks, chain, now, req);
    assert(order.contains(req));
}

/// What is left to the caller are blocks among the requests.
proof fn lemma_left_are_blocks(
    node: NodeView,
    cause: Cause,
    order: Seq<InflightRequests>,
    picks: Seq<Option<u32>>,
    chain: ChainAnswers,
    now: Instant,
    req: InflightRequests,
)
    requires
        node.left_to_caller(cause, order, picks, chain, now).contains(req),
    ensures
        req is Blocks,
        order.contains(req),
    decreases order.len(),
{
    if order.len() > 0 {
        let rest = order.drop_last();
        let fewer = picks.take(order.len() - 1);
        let last = order.last();
        let left = node.left_to_caller(cause, rest, fewer, chain, now);
        lemma_push_contains(left, last, req);
        assert(order =~= rest.push(last));
        lemma_push_contains(rest, last, req);
        if left.contains(req) {
            lemma_left_are_blocks(node, cause, rest, fewer, chain, now, req);
        }
    }
}

/// Whether a request to a peer asks for what is awaited.
pub open spec fn asks_for(chain: ChainAnswers, req: InflightRequests, request: RequestView) -> bool {
    match req {
        InflightRequests::Headers => chain.locator matches Ok(hashes) && request
            == RequestView::GetHeaders(hashes@),
        InflightRequests::GetFilters => request == RequestView::GetFilter(chain.genesis, 0),
        InflightRequests::UtreexoState(_) => request == RequestView::GetUtreexoState(
            chain.genesis,
            0,
        ),
        InflightRequests::UtreexoProof(hash) => request == RequestView::GetBlockProof(
            hash,
            Seq::empty(),
            Seq::empty(),
        ),
        _ => false,
    }
}

/// Whether what is awaited was asked for after some requests were queued.
pub open spec fn asked_since(
    from: nat,
    outbox: Seq<(u32, RequestView)>,
    chain: ChainAnswers,
    req: InflightRequests,
) -> bool {
    exists|i: int| from <= i < outbox.len() && asks_for(chain, req, (#[trigger] outbox[i]).1)
}

/// Whether a request is one to send again: for headers or a utreexo state, for filters that
/// somebody serves, or for the proof of a block that we have where somebody serves proofs. Late
/// requests to feelers are not.
pub open spec fn to_send_again(node: NodeView, cause: Cause, req: InflightRequests) -> bool {
    &&& node.inflight.contains_key(req)
    &&& match req {
        InflightRequests::Headers => true,
        InflightRequests::UtreexoState(_) => true,
        InflightRequests::GetFilters => !nobody_listed(node, 0x40),
        InflightRequests::UtreexoProof(hash) => !nobody_listed(node, 0x1000)
            && node.blocks.contains(hash),
        _ => false,
    }
    &&& cause == Cause::Late ==> !(node.peers.contains_key(node.inflight[req].0)
        && node.peers[node.inflight[req].0].kind is Feeler)
}

/// Sending a request again that succeeds asks for what is awaited.
proof fn lemma_redone_asks(
    node: NodeView,
    req: InflightRequests,
    pick: Option<u32>,
    chain: ChainAnswers,
    now: Instant,
)
    requires
        !node.inflight.contains_key(req),
        match req {
            InflightRequests::Headers => true,
            InflightRequests::UtreexoState(_) => true,
            InflightRequests::GetFilters => !nobody_listed(node, 0x40),
            InflightRequests::UtreexoProof(hash) => !nobody_listed(node, 0x1000)
                && node.blocks.contains(hash),
            _ => false,
        },
        node.redone(req, pick, chain, now).1 is Ok,
    ensures
        ({
            let after = node.redone(req, pick, chain, now).0;
            &&& after.outbox.len() == node.outbox.len() + 1
            &&& asks_for(chain, req, after.outbox.last().1)
        }),
{
}

/// Sending another request again changes what is awaited of one only by asking for it.
proof fn lemma_redone_otherwise_asks(
    node: NodeView,
    other: InflightRequests,
    pick: Option<u32>,
    chain: ChainAnswers,
    now: Instant,
    req: InflightRequests,
)
    requires
        other != req,
        node.inflight.contains_key(req),
    ensures
        ({
            let after = node.redone(other, pick, chain, now).0;
            ||| after.inflight.contains_key(req) && after.inflight[req] == node.inflight[req]
            ||| after.outbox.len() == node.outbox.len() + 1 && asks_for(
                chain,
                req,
                after.outbox.last().1,
            )
        }),
{
}

/// What comes first of another request that is late leaves what is awaited of one alone.
proof fn lemma_expiry_leaves_others(
    node: NodeView,
    other: InflightRequests,
    req: InflightRequests,
)
    requires
        other != req,
        node.inflight.contains_key(req),
    ensures
        node.expiry(other).0.inflight.contains_key(req),
        node.expiry(other).0.inflight[req] == node.inflight[req],
{
}

/// What comes first of a request that is late leaves every peer of its kind.
proof fn lemma_expiry_keeps_kinds(node: NodeView, other: InflightRequests)
    ensures
        kinds_among(node, node.expiry(other).0),
        node.expiry(other).0.blocks == node.blocks,
        node.expiry(other).0.peer_by_service == node.peer_by_service,
        node.outbox.len() <= node.expiry(other).0.outbox.len(),
{
}

/// One step asks for what is awaited if it is its turn and it succeeds, and else leaves it alone
/// or asks for it.
proof fn lemma_step_asks(
    node: NodeView,
    mid: NodeView,
    cause: Cause,
    other: InflightRequests,
    pick: Option<u32>,
    chain: ChainAnswers,
    now: Instant,
    req: InflightRequests,
)
    requires
        to_send_again(node, cause, req),
        kinds_among(node, mid),
        mid.blocks == node.blocks,
        mid.peer_by_service == node.peer_by_service,
        mid.inflight.contains_key(req),
        mid.inflight[req] == node.inflight[req],
        mid.step(node.inflight, cause, other, pick, chain, now).1 is Ok,
        node.outbox.len() <= mid.outbox.len(),
    ensures
        ({
            let after = mid.step(node.inflight, cause, other, pick, chain, now).0;
            let asked = asked_since(node.outbox.len(), after.outbox, chain, req);
            &&& other == req ==> asked
            &&& other != req ==> asked || (after.inflight.contains_key(req) && after.inflight[req]
                == node.inflight[req])
        }),
{
    let after = mid.step(node.inflight, cause, other, pick, chain, now).0;
    let last = after.outbox.len() - 1;
    match cause {
        Cause::Gone(_) => {
            let taken = mid.without_request(other);
            if other == req {
                lemma_redone_asks(taken, req, pick, chain, now);
                assert(asks_for(chain, req, after.outbox[last].1));
            } else if !mid.deferred(cause, other) {
                lemma_redone_otherwise_asks(taken, other, pick, chain, now, req);
                if !(after.inflight.contains_key(req) && after.inflight[req]
                    == node.inflight[req]) {
                    assert(asks_for(chain, req, after.outbox[last].1));
                }
            }
        },
        Cause::Late => {
            let (next, expiry) = mid.expiry(other);
            lemma_expiry_keeps_kinds(mid, other);
            if other == req {
                assert(expiry matches Ok(Expiry::Retry(_, _)));
                assert(!next.inflight.contains_key(req));
                lemma_redone_asks(next, req, pick, chain, now);
                assert(asks_for(chain, req, after.outbox[last].1));
            } else if !mid.deferred(cause, other) {
                lemma_expiry_leaves_others(mid, other, req);
                if expiry matches Ok(Expiry::Retry(_, _)) {
                    lemma_redone_otherwise_asks(next, other, pick, chain, now, req);
                    if !(after.inflight.contains_key(req) && after.inflight[req]
                        == node.inflight[req]) {
                        assert(asks_for(chain, req, after.outbox[last].1));
                    }
                }
            }
        },
    }
}

/// One step leaves every peer of its kind.
proof fn lemma_step_keeps_kinds(
    node: NodeView,
    mid: NodeView,
    cause: Cause,
    other: InflightRequests,
    pick: Option<u32>,
    chain: ChainAnswers,
    now: Instant,
)
    requires
        kinds_among(node, mid),
    ensures
        kinds_among(node, mid.step(node.inflight, cause, other, pick, chain, now).0),
{
    lemma_expiry_keeps_kinds(mid, other);
}

/// Going through requests asks for what is awaited once its turn came.
proof fn lemma_processed_asks(
    node: NodeView,
    cause: Cause,
    order: Seq<InflightRequests>,
    picks: Seq<Option<u32>>,
    chain: ChainAnswers,
    now: Instant,
    req: InflightRequests,
)
    requires
        to_send_again(node, cause, req),
        node.valid_picks(cause, order, picks, chain, now),
        node.processed(cause, order, picks, chain, now).1 is Ok,
    ensures
        ({
            let after = node.processed(cause, order, picks, chain, now).0;
            let asked = asked_since(node.outbox.len(), after.outbox, chain, req);
            &&& kinds_among(node, after)
            &&& order.contains(req) ==> asked
            &&& asked || (after.inflight.contains_key(req) && after.inflight[req]
                == node.inflight[req])
        }),
    decreases order.len(),
{
    if order.len() > 0 {
        let rest = order.drop_last();
        let fewer = picks.take(order.len() - 1);
        let last = order.last();
        let pick = picks[order.len() - 1];
        lemma_fewer_picks(node, cause, order, picks, chain, now);
        lemma_processed_asks(node, cause, rest, fewer, chain, now, req);
        lemma_processed_fits(node, cause, rest, fewer, chain, now);
        retries_leave_the_rest_alone(node, cause, rest, fewer, chain, now);
        let mid = node.processed(cause, rest, fewer, chain, now).0;
        let after = node.processed(cause, order, picks, chain, now).0;
        lemma_step_keeps_kinds(node, mid, cause, last, pick, chain, now);
        lemma_step_fits(node.peers, mid, node.inflight, cause, last, pick, chain, now);
        assert(order =~= rest.push(last));
        lemma_push_contains(rest, last, req);
        if asked_since(node.outbox.len(), mid.outbox, chain, req) {
            let i = choose|i: int|
                node.outbox.len() <= i < mid.outbox.len() && asks_for(
                    chain,
                    req,
                    (#[trigger] mid.outbox[i]).1,
                );
            assert(after.outbox[i] == mid.outbox[i]);
        } else {
            lemma_step_asks(node, mid, cause, last, pick, chain, now, req);
        }
    }
}

/// Every request that was sent to a peer that left, or that is late, and that is one to send
/// again, is: what is awaited was asked for anew, unless dealing with it failed.
pub proof fn what_is_awaited_is_asked_for_again(
    node: NodeView,
    cause: Cause,
    chain: ChainAnswers,
    now: Instant,
    after: NodeView,
    left: Seq<InflightRequests>,
    req: InflightRequests,
)
    requires
        node.all_processed(
            cause,
            chain,
            now,
            after,
            Ok::<Seq<InflightRequests>, WireError>(left),
        ),
        to_send_again(node, cause, req),
        node.concerns(cause, now, req),
    ensures
        asked_since(node.outbox.len(), after.outbox, chain, req),
{
    let (order, picks) = choose|order: Seq<InflightRequests>, picks: Seq<Option<u32>>|
        {
            &&& node.enumerates(cause, now, order)
            &&& #[trigger] node.valid_picks(cause, order, picks, chain, now)
            &&& after == node.processed(cause, order, picks, chain, now).0
            &&& node.processed(cause, order, picks, chain, now).1 is Ok
            &&& left == node.left_to_caller(cause, order, picks, chain, now)
        };
    lemma_processed_asks(node, cause, order, picks, chain, now, req);
    assert(order.contains(req));
}

} // verus!
