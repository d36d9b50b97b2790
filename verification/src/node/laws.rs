//! What holds of the node as a whole.

use vstd::prelude::*;

use crate::book::BookView;
use crate::book_laws::{
    adding_addresses_keeps_order, changing_services_keeps_order, changing_state_keeps_order,
};
use crate::buckets::{bucket, lemma_push_contains, without_drops_only_that_id};
use crate::chain_data::{BlockHash, Inventory};
use crate::clock::Instant;
use crate::disk::DiskLocalAddress;
use crate::local_address::{AddressState, LocalAddressView};
use crate::net_addr::SocketView;
use crate::node::inbox::asked_by_user;
use crate::node::messages::{
    ChainAnswers, ChainError, InflightRequests, NodeResponse, RequestView, UserRequest, WireError,
};
use crate::node::peer::Version;
use crate::node::punishment::increased;
use crate::node::retry::{Cause, Redo};
use crate::node::sending::{latency_weight, FULL_WEIGHT};
use crate::node::state::{NodeView, PeerFilter};
use crate::node::upkeep::first_occurrences;
use crate::service_flags::{ServiceFlags, UTREEXO};

verus! {

/// Connections our user asked for are exempt from being punished: nothing happens to them,
/// however often they misbehave.
pub proof fn manual_peers_are_never_punished(node: NodeView, id: u32, factor: u32)
    requires
        node.peers.contains_key(id),
        node.peers[id].kind is Manual,
    ensures
        node.punished(id, factor) == (node, Ok::<(), WireError>(())),
        node.banned(id) == (node, Ok::<(), WireError>(())),
{
}

/// The score of a peer never goes down, and misbehaving changes no other peer.
pub proof fn scores_only_grow(node: NodeView, id: u32, factor: u32, other: u32)
    requires
        node.peers.contains_key(other),
    ensures
        node.punished(id, factor).0.peers.contains_key(other),
        node.punished(id, factor).0.peers[other].banscore >= node.peers[other].banscore,
        other != id ==> node.punished(id, factor).0.peers[other] == node.peers[other],
{
}

/// A peer whose score reaches the limit is banned and told to go, and so is an extra peer at
/// once.
pub proof fn misbehaving_peers_are_banned(node: NodeView, id: u32, factor: u32)
    requires
        node.peers.contains_key(id),
        !(node.peers[id].kind is Manual),
        node.peers[id].kind is Extra || increased(node.peers[id].banscore, factor)
            >= node.max_banscore,
    ensures
        node.punished(id, factor).0.peers[id].state is Banned,
        node.peers[id].takes_requests ==> node.punished(id, factor).0.outbox == node.outbox.push(
            (id, RequestView::Shutdown),
        ),
{
}

/// Once a peer left it is nowhere: no request will be sent to it. Nothing changes about any
/// other peer.
pub proof fn gone_peers_are_nowhere(
    node: NodeView,
    peer: u32,
    idx: usize,
    secs: u64,
    service: ServiceFlags,
    other: u32,
)
    ensures
        ({
            let after = node.dropped(peer, idx, secs);
            &&& !after.peers.contains_key(peer)
            &&& !after.candidates(service).contains(peer)
            &&& !after.peers_where(PeerFilter::Measured(service)).contains(peer)
            &&& other != peer ==> {
                &&& after.peers.contains_key(other) <==> node.peers.contains_key(other)
                &&& node.peers.contains_key(other) ==> after.peers[other] == node.peers[other]
                &&& after.candidates(service).contains(other) <==> node.candidates(
                    service,
                ).contains(other)
            }
        }),
{
    without_drops_only_that_id(node.peer_ids, peer);
    without_drops_only_that_id(bucket(node.peer_by_service, service), peer);
    let after = node.dropped(peer, idx, secs);
    if !node.peer_by_service.contains_key(service.0) {
        assert(bucket(after.peer_by_service, service) =~= bucket(node.peer_by_service, service));
    }
}

/// A request that could not be sent again is never dropped: it is awaited as it was before.
pub proof fn requests_are_never_dropped(
    node: NodeView,
    req: InflightRequests,
    held: (u32, Instant),
    pick: Option<u32>,
    chain: ChainAnswers,
    now: Instant,
)
    requires
        node.redone_or_restored(req, held, pick, chain, now).1 is Err,
    ensures
        ({
            let after = node.redone_or_restored(req, held, pick, chain, now).0;
            after.inflight.contains_key(req) && after.inflight[req] == held
        }),
{
}

/// Dealing with one request keeps all the others.
proof fn lemma_step_keeps(
    node: NodeView,
    before: Map<InflightRequests, (u32, Instant)>,
    cause: Cause,
    req: InflightRequests,
    pick: Option<u32>,
    chain: ChainAnswers,
    now: Instant,
    other: InflightRequests,
)
    requires
        node.inflight.contains_key(other),
        other != req,
    ensures
        node.step(before, cause, req, pick, chain, now).0.inflight.contains_key(other),
{
    lemma_redone_keeps(node.without_request(req), req, pick, chain, now, other);
    lemma_redone_keeps(node.expiry(req).0, req, pick, chain, now, other);
}

/// Sending a request again keeps all the others.
proof fn lemma_redone_keeps(
    node: NodeView,
    req: InflightRequests,
    pick: Option<u32>,
    chain: ChainAnswers,
    now: Instant,
    other: InflightRequests,
)
    ensures
        node.inflight.contains_key(other) ==> node.redone(
            req,
            pick,
            chain,
            now,
        ).0.inflight.contains_key(other),
{
}

/// Requests that nothing has to be done about are awaited still: those of peers that did not
/// leave, and those that are not late.
pub proof fn other_requests_stay(
    node: NodeView,
    cause: Cause,
    order: Seq<InflightRequests>,
    picks: Seq<Option<u32>>,
    chain: ChainAnswers,
    now: Instant,
    other: InflightRequests,
)
    requires
        node.inflight.contains_key(other),
        !order.contains(other),
    ensures
        node.processed(cause, order, picks, chain, now).0.inflight.contains_key(other),
    decreases order.len(),
{
    if order.len() > 0 {
        let n = order.len() - 1;
        let rest = order.drop_last();
        assert(order.contains(order[n]));
        assert forall|i: int| 0 <= i < rest.len() implies rest[i] != other by {
            assert(order.contains(order[i]));
        }
        other_requests_stay(node, cause, rest, picks.take(n), chain, now, other);
        let after = node.processed(cause, rest, picks.take(n), chain, now).0;
        lemma_step_keeps(after, node.inflight, cause, order[n], picks[n], chain, now, other);
    }
}

/// A request that was not answered in time, and could not be sent again, is never dropped: it is
/// awaited as it was before. The exception is one sent to a feeler, which is closed.
pub proof fn late_requests_are_never_dropped(
    node: NodeView,
    req: InflightRequests,
    pick: Option<u32>,
    chain: ChainAnswers,
    now: Instant,
)
    requires
        node.inflight.contains_key(req),
        !node.sent_to_feeler(req),
        node.expired(req, pick, chain, now).1 is Err,
    ensures
        ({
            let after = node.expired(req, pick, chain, now).0;
            after.inflight.contains_key(req) && after.inflight[req] == node.inflight[req]
        }),
{
}

/// A block request is never dropped either: whatever happened in between, one that was taken out
/// is awaited as it was before where asking for the block again failed, and all others stay.
pub proof fn block_requests_are_never_dropped(
    between: NodeView,
    req: InflightRequests,
    held: (u32, Instant),
    error: WireError,
    other: InflightRequests,
)
    ensures
        ({
            let (after, result) = between.block_settled(req, held, Err(error));
            &&& result == Err::<(), WireError>(error)
            &&& after.inflight.contains_key(req)
            &&& after.inflight[req] == held
            &&& other != req ==> (after.inflight.contains_key(other)
                <==> between.inflight.contains_key(other))
        }),
{
}

/// A block request that is late is taken out before the block is asked for again; where that
/// fails at once, the node awaits just what it awaited before.
pub proof fn failed_block_requests_leave_what_is_awaited(
    node: NodeView,
    req: InflightRequests,
    pick: Option<u32>,
    chain: ChainAnswers,
    now: Instant,
    error: WireError,
)
    requires
        req is Blocks,
        node.deferred(Cause::Late, req),
    ensures
        node.expired(req, pick, chain, now).1 == Ok::<Redo, WireError>(
            Redo::RequestBlock(req->Blocks_0),
        ),
        !node.expired(req, pick, chain, now).0.inflight.contains_key(req),
        node.expired(req, pick, chain, now).0.block_settled(
            req,
            node.inflight[req],
            Err(error),
        ).0.inflight == node.inflight,
{
    assert(node.inflight.remove(req).insert(req, node.inflight[req]) =~= node.inflight);
}

/// Dealing with one request changes nothing about block requests that are left to the caller.
proof fn lemma_step_keeps_deferred(
    node: NodeView,
    before: Map<InflightRequests, (u32, Instant)>,
    cause: Cause,
    req: InflightRequests,
    pick: Option<u32>,
    chain: ChainAnswers,
    now: Instant,
    other: InflightRequests,
)
    requires
        node.inflight.contains_key(other),
        node.deferred(cause, other),
        other != req,
    ensures
        node.step(before, cause, req, pick, chain, now).0.inflight.contains_key(other),
        node.step(before, cause, req, pick, chain, now).0.deferred(cause, other),
{
    let after = node.step(before, cause, req, pick, chain, now).0;
    lemma_step_keeps(node, before, cause, req, pick, chain, now, other);
    if cause is Late && !node.deferred(cause, req) {
        let mid = node.expiry(req).0;
        lemma_expiry_keeps_holders(node, req, other);
        lemma_redone_keeps_holders(mid, req, pick, chain, now, other);
        assert(!after.sent_to_feeler(other));
    }
}

/// Whether a block request was sent to a feeler does not change by closing other connections.
proof fn lemma_expiry_keeps_holders(node: NodeView, req: InflightRequests, other: InflightRequests)
    requires
        node.inflight.contains_key(other),
        !node.sent_to_feeler(other),
        other != req,
    ensures
        node.expiry(req).0.inflight.contains_key(other),
        !node.expiry(req).0.sent_to_feeler(other),
{
}

/// Whether a block request was sent to a feeler does not change by sending others again.
proof fn lemma_redone_keeps_holders(
    node: NodeView,
    req: InflightRequests,
    pick: Option<u32>,
    chain: ChainAnswers,
    now: Instant,
    other: InflightRequests,
)
    requires
        other is Blocks,
        !node.sent_to_feeler(other),
        other != req,
    ensures
        !node.redone(req, pick, chain, now).0.sent_to_feeler(other),
{
}

/// The requests left to the caller are just those for which a block has to be asked for again:
/// they are awaited still, and were not sent to a feeler.
pub proof fn left_requests_need_a_block(
    node: NodeView,
    cause: Cause,
    order: Seq<InflightRequests>,
    picks: Seq<Option<u32>>,
    chain: ChainAnswers,
    now: Instant,
    req: InflightRequests,
)
    requires
        order.no_duplicates(),
        forall|i: int| 0 <= i < order.len() ==> node.inflight.contains_key(#[trigger] order[i]),
        node.processed(cause, order, picks, chain, now).1 is Ok,
        node.left_to_caller(cause, order, picks, chain, now).contains(req),
    ensures
        order.contains(req),
        req is Blocks,
        node.processed(cause, order, picks, chain, now).0.inflight.contains_key(req),
        node.processed(cause, order, picks, chain, now).0.deferred(cause, req),
    decreases order.len(),
{
    let n = order.len() - 1;
    let rest = order.drop_last();
    let fewer = picks.take(n);
    let last = order[n];
    let before = node.processed(cause, rest, fewer, chain, now).0;
    let left = node.left_to_caller(cause, rest, fewer, chain, now);
    assert forall|i: int| 0 <= i < rest.len() implies rest[i] != last by {
        assert(order[i] != order[n]);
    }
    lemma_push_contains(left, last, req);
    if left.contains(req) {
        left_requests_need_a_block(node, cause, rest, fewer, chain, now, req);
        let i = choose|i: int| 0 <= i < rest.len() && rest[i] == req;
        assert(order[i] == req);
        lemma_step_keeps_deferred(
            before,
            node.inflight,
            cause,
            last,
            picks[n],
            chain,
            now,
            req,
        );
    } else {
        other_requests_stay(node, cause, rest, fewer, chain, now, last);
    }
}

/// A feeler that leaves a request of any kind unanswered is closed: the request is not awaited any
/// more, the peer is gone, no other peer is punished and nothing is asked for again.
pub proof fn late_feelers_are_closed(
    node: NodeView,
    req: InflightRequests,
    pick: Option<u32>,
    chain: ChainAnswers,
    now: Instant,
)
    requires
        node.inflight.contains_key(req),
        node.sent_to_feeler(req),
        node.peers[node.inflight[req].0].takes_requests,
    ensures
        ({
            let peer = node.inflight[req].0;
            let (after, result) = node.step(node.inflight, Cause::Late, req, pick, chain, now);
            &&& result == Ok::<Redo, WireError>(Redo::Done)
            &&& after.peers == node.peers.remove(peer)
            &&& after.inflight == node.inflight.remove(req)
            &&& after.outbox == if node.peers[peer].state is Awaiting {
                node.outbox
            } else {
                node.outbox.push((peer, RequestView::Shutdown))
            }
        }),
{
}

/// When requests of a peer that left, or requests that are late, cannot be sent again, none is
/// lost: there is one that failed, and all that come after it are awaited still. So is the one
/// that failed, unless it is late and was sent to a feeler, which is closed.
pub proof fn failure_loses_no_request(
    node: NodeView,
    cause: Cause,
    order: Seq<InflightRequests>,
    picks: Seq<Option<u32>>,
    chain: ChainAnswers,
    now: Instant,
) -> (failed: int)
    requires
        order.no_duplicates(),
        picks.len() == order.len(),
        forall|i: int| 0 <= i < order.len() ==> node.inflight.contains_key(#[trigger] order[i]),
        node.processed(cause, order, picks, chain, now).1 is Err,
    ensures
        0 <= failed < order.len(),
        ({
            let before = node.processed(
                cause,
                order.take(failed),
                picks.take(failed),
                chain,
                now,
            );
            let after = node.processed(cause, order, picks, chain, now).0;
            &&& before.1 is Ok
            &&& forall|i: int|
                failed < i < order.len() ==> after.inflight.contains_key(#[trigger] order[i])
            &&& cause is Gone || !before.0.sent_to_feeler(order[failed])
                ==> after.inflight.contains_key(order[failed])
        }),
    decreases order.len(),
{
    let n = order.len() - 1;
    let rest = order.drop_last();
    let (after, result) = node.processed(cause, rest, picks.take(n), chain, now);
    assert(order.take(n) =~= rest);
    assert forall|i: int| 0 <= i < rest.len() implies rest[i] != order[n] by {
        assert(order[i] != order[n]);
    }
    other_requests_stay(node, cause, rest, picks.take(n), chain, now, order[n]);
    if result is Err {
        let failed = failure_loses_no_request(node, cause, rest, picks.take(n), chain, now);
        assert(rest.take(failed) =~= order.take(failed));
        assert(picks.take(n).take(failed) =~= picks.take(failed));
        assert forall|i: int| failed < i < order.len() implies after.inflight.contains_key(
            #[trigger] order[i],
        ) by {
            if i < n {
                assert(rest[i] == order[i]);
            }
        }
        failed
    } else {
        if !after.sent_to_feeler(order[n]) && cause is Late {
            late_requests_are_never_dropped(after, order[n], picks[n], chain, now);
        }
        n
    }
}

/// A peer that was banned and is gone stays banned for the ban time: until it is over its address
/// is banned however often bans are looked over, and then it is as if never tried.
pub proof fn bans_last_for_the_ban_time(
    node: NodeView,
    peer: u32,
    idx: usize,
    secs: u64,
    now: u64,
)
    requires
        node.peers.contains_key(peer),
        node.peers[peer].state is Banned,
        node.book.addresses.contains_key(idx),
        secs + node.context.ban_time <= u64::MAX,
    ensures
        ({
            let later = node.dropped(peer, idx, secs).book.rearranged(now);
            &&& later.addresses.contains_key(idx)
            &&& now <= secs + node.context.ban_time ==> later.addresses[idx].state is Banned
            &&& now > secs + node.context.ban_time ==> later.addresses[idx].state is NeverTried
        }),
{
}

/// A feeler that told us about addresses is told to go, and addresses are not awaited any more.
pub proof fn feelers_leave_once_they_told_addresses(node: NodeView, peer: u32, book: BookView)
    requires
        node.peers.contains_key(peer),
        node.peers[peer].kind is Feeler,
        node.peers[peer].state is Ready,
        node.peers[peer].takes_requests,
    ensures
        ({
            let (after, result) = node.addresses_taken(peer, book);
            &&& result is Ok
            &&& after.outbox == node.outbox.push((peer, RequestView::Shutdown))
            &&& !after.inflight.contains_key(InflightRequests::GetAddresses)
        }),
{
}

/// A request of our user is answered once: it is not waited for any more, and the same answer
/// again changes nothing.
pub proof fn users_are_answered_once(
    node: NodeView,
    request: UserRequest,
    response: NodeResponse,
    again: NodeResponse,
)
    ensures
        ({
            let after = node.answered(request, response).0;
            &&& !after.inflight_user_requests.contains_key(request)
            &&& after.answered(request, again) == (after, Ok::<(), WireError>(()))
        }),
{
    let after = node.answered(request, response).0;
    if !node.inflight_user_requests.contains_key(request) {
        assert(after.answered(request, again).0 == after);
    }
}

/// Whoever waits for something a peer does not have is told that there is none.
pub proof fn missing_things_are_answered_with_none(node: NodeView, inv: Inventory)
    requires
        asked_by_user(inv) matches Some((request, _))
            && node.inflight_user_requests.contains_key(request)
            && node.inflight_user_requests[request].listening,
    ensures
        ({
            let (request, response) = asked_by_user(inv)->0;
            let (after, result) = node.missed(inv);
            &&& result is Ok
            &&& after.responses == node.responses.push(
                (node.inflight_user_requests[request].responder, response),
            )
            &&& response == NodeResponse::Block(None) || response
                == NodeResponse::MempoolTransaction(None)
        }),
{
}

/// Removing an address that was just added leaves the list of added peers as it was.
pub proof fn removing_undoes_adding(node: NodeView, socket: SocketView, fallback: bool, i: int)
    requires
        !node.is_added(socket),
        ({
            let added = NodeView {
                added_peers: node.added_peers.push((socket, fallback)),
                ..node
            };
            added.added_at(socket, i)
        }),
    ensures
        node.added_peers.push((socket, fallback)).remove(i) == node.added_peers,
{
    let added = node.added_peers.push((socket, fallback));
    if i < node.added_peers.len() {
        assert forall|j: int| 0 <= j < i implies (#[trigger] node.added_peers[j]).0 != socket by {
            assert(added[j] == node.added_peers[j]);
        }
        assert(node.added_at(socket, i));
    }
    assert(added.remove(i) =~= node.added_peers);
}

/// An address that was added is refused when it is added again.
pub proof fn added_addresses_are_known(node: NodeView, socket: SocketView, fallback: bool)
    requires
        !node.is_added(socket),
    ensures
        (NodeView {
            added_peers: node.added_peers.push((socket, fallback)),
            ..node
        }).is_added(socket),
{
    let n = node.added_peers.len() as int;
    let added = NodeView { added_peers: node.added_peers.push((socket, fallback)), ..node };
    assert forall|j: int| 0 <= j < n implies (#[trigger] added.added_peers[j]).0 != socket by {
        lemma_not_added(node, socket, j);
    }
    assert(added.added_at(socket, n));
}

/// An address that was not added stands nowhere in the list of added peers.
proof fn lemma_not_added(node: NodeView, socket: SocketView, i: int)
    requires
        !node.is_added(socket),
        0 <= i < node.added_peers.len(),
    ensures
        node.added_peers[i].0 != socket,
    decreases i,
{
    if node.added_peers[i].0 == socket {
        assert forall|j: int| 0 <= j < i implies (#[trigger] node.added_peers[j]).0 != socket by {
            lemma_not_added(node, socket, j);
        }
        assert(node.added_at(socket, i));
    }
}

/// Dropping repetitions from a list leaves everything that is in it, once.
pub proof fn first_occurrences_have_no_repetition<T>(all: Seq<T>)
    ensures
        first_occurrences(all).no_duplicates(),
        forall|x: T| first_occurrences(all).contains(x) <==> all.contains(x),
        all.no_duplicates() ==> first_occurrences(all) == all,
    decreases all.len(),
{
    if all.len() > 0 {
        let rest = all.drop_last();
        let before = first_occurrences(rest);
        first_occurrences_have_no_repetition(rest);
        assert(all =~= rest.push(all.last()));
        assert forall|x: T| first_occurrences(all).contains(x) <==> all.contains(x) by {
            lemma_push_contains(rest, all.last(), x);
            lemma_push_contains(before, all.last(), x);
        }
        if all.no_duplicates() {
            assert(rest.no_duplicates());
            if rest.contains(all.last()) {
                let i = choose|i: int| 0 <= i < rest.len() && rest[i] == all.last();
                assert(all[i] == all[all.len() - 1]);
            }
        }
    }
}

/// A request that is handed over to some peers reaches every one of them that takes it, after all
/// that was queued before, and changes nothing else.
pub proof fn handing_over_reaches_all(node: NodeView, ids: Seq<u32>, request: RequestView)
    ensures
        ({
            let after = node.handed_to_all(ids, request);
            &&& after == NodeView { outbox: after.outbox, ..node }
            &&& node.outbox.is_prefix_of(after.outbox)
            &&& forall|i: int|
                0 <= i < ids.len() && node.peers[#[trigger] ids[i]].takes_requests
                    ==> after.outbox.contains((ids[i], request))
        }),
    decreases ids.len(),
{
    if ids.len() > 0 {
        let n = ids.len() - 1;
        let rest = ids.drop_last();
        handing_over_reaches_all(node, rest, request);
        let before = node.handed_to_all(rest, request);
        let after = node.handed_to_all(ids, request);
        assert forall|i: int|
            0 <= i < ids.len() && node.peers[#[trigger] ids[i]].takes_requests implies after.outbox.contains(
            (ids[i], request),
        ) by {
            if i < n {
                assert(rest[i] == ids[i]);
                let k = choose|k: int|
                    0 <= k < before.outbox.len() && before.outbox[k] == (ids[i], request);
                assert(after.outbox[k] == (ids[i], request));
            } else {
                assert(after.outbox[before.outbox.len() as int] == (ids[n], request));
            }
        }
    }
}

/// Shutting down tells every peer that completed the handshake, and still takes requests, to go.
pub proof fn shutting_down_reaches_all(node: NodeView, ids: Seq<u32>, request: RequestView)
    ensures
        ({
            let after = node.sent_to_all(ids, request);
            &&& after == NodeView { outbox: after.outbox, ..node }
            &&& node.outbox.is_prefix_of(after.outbox)
            &&& forall|i: int|
                0 <= i < ids.len() && node.peers.contains_key(#[trigger] ids[i])
                    && !(node.peers[ids[i]].state is Awaiting)
                    && node.peers[ids[i]].takes_requests ==> after.outbox.contains(
                    (ids[i], request),
                )
        }),
{
    let pred = |id: u32| node.peers.contains_key(id) && !(node.peers[id].state is Awaiting);
    let told = node.initialized(ids);
    assert(told == ids.filter(pred));
    handing_over_reaches_all(node, told, request);
    let after = node.sent_to_all(ids, request);
    assert forall|i: int|
        0 <= i < ids.len() && node.peers.contains_key(#[trigger] ids[i]) && !(
        node.peers[ids[i]].state is Awaiting)
            && node.peers[ids[i]].takes_requests implies after.outbox.contains(
        (ids[i], request),
    ) by {
        ids.lemma_filter_contains(pred, i);
        let k = choose|k: int| 0 <= k < told.len() && told[k] == ids[i];
        assert(after.outbox.contains((told[k], request)));
    }
}

/// Only peers of use become ones to send requests to: those our user asked for, and regular ones
/// with the services they are needed for. A peer beyond the most we want becomes a feeler.
pub proof fn only_peers_of_use_are_listed(
    node: NodeView,
    peer: u32,
    version: Version,
    locator: Result<Seq<BlockHash>, ChainError>,
    now: Instant,
    secs: u64,
)
    ensures
        ({
            let (after, result) = node.readied(peer, version, locator, now, secs);
            ||| after.peer_ids == node.peer_ids && after.peer_by_service == node.peer_by_service
            ||| {
                &&& after.peer_ids == node.peer_ids.push(peer)
                &&& version.kind is Manual || version.kind is Regular
                    && version.services.includes(version.kind->Regular_0)
            }
        }),
{
}

/// A peer that makes too many connections becomes a feeler, unless it may go beyond the limit.
pub proof fn excess_peers_become_feelers(
    node: NodeView,
    peer: u32,
    version: Version,
    locator: Result<Seq<BlockHash>, ChainError>,
    now: Instant,
    secs: u64,
)
    requires
        node.peers.contains_key(peer),
        node.peers[peer].takes_requests,
        node.greeted(peer).over_limit(version.kind),
    ensures
        ({
            let (after, result) = node.readied(peer, version, locator, now, secs);
            &&& result is Ok
            &&& after.peers[peer].kind is Feeler
            &&& after.peer_ids == node.peer_ids
        }),
{
    let greeted = node.greeted(peer);
    let asked = greeted.sent(peer, RequestView::GetAddresses).0.awaiting(
        InflightRequests::GetAddresses,
        peer,
        now,
    );
    assert(asked.peers_where(PeerFilter::Connected) =~= greeted.peers_where(
        PeerFilter::Connected,
    ));
}

/// A time twice as long halves the weight, and the shortest time has the whole weight: with 50ms
/// and 100ms the weights are two to one.
pub proof fn weights_fall_with_time(lowest: u64, time: u64)
    requires
        1 <= lowest <= time,
        2 * time <= u64::MAX,
    ensures
        latency_weight(lowest, lowest) == FULL_WEIGHT,
        latency_weight(lowest, (2 * time) as u64) == latency_weight(lowest, time) / 2,
{
    let n = lowest as int;
    let t = time as int;
    let full = FULL_WEIGHT as int;
    vstd::arithmetic::div_mod::lemma_div_multiples_vanish(full, n);
    assert(n * full / n == full) by {
        assert(n * full == full * n) by (nonlinear_arith);
    }
    vstd::arithmetic::div_mod::lemma_div_denominator(n * full, t, 2);
    assert(t * 2 == 2 * t);
    assert(0 <= n * full / t <= full) by {
        assert(n * full <= t * full) by (nonlinear_arith)
            requires
                n <= t,
                0 <= full,
        ;
        assert(0 <= (n * full) / t <= full) by (nonlinear_arith)
            requires
                0 < t,
                0 <= n * full <= t * full,
        ;
    }
}

/// A peer that answers faster weighs no less.
pub proof fn faster_peers_weigh_more(lowest: u64, fast: u64, slow: u64)
    requires
        1 <= lowest <= fast <= slow,
    ensures
        latency_weight(lowest, slow) <= latency_weight(lowest, fast) <= FULL_WEIGHT,
{
    let n = lowest as int;
    let full = FULL_WEIGHT as int;
    vstd::arithmetic::div_mod::lemma_div_is_ordered_by_denominator(
        n * full,
        fast as int,
        slow as int,
    );
    assert(n * full <= fast * full) by (nonlinear_arith)
        requires
            n <= fast,
            0 <= full,
    ;
    assert(0 <= (n * full) / fast as int <= full) by (nonlinear_arith)
        requires
            0 < fast,
            0 <= n * full <= fast * full,
    ;
    vstd::arithmetic::div_mod::lemma_div_pos_is_pos(n * full, slow as int);
}

/// Without a utreexo peer connected the anchors that were saved before stay.
pub proof fn no_utreexo_peers_keep_the_old_anchors(
    node: NodeView,
    anchors: Option<Vec<DiskLocalAddress>>,
)
    requires
        node.offering(ServiceFlags(UTREEXO)).len() == 0,
        node.anchored(anchors),
    ensures
        anchors is None,
{
    reveal(Seq::filter);
    assert(node.anchor_ids() =~= Seq::empty());
    assert(node.book.known(node.anchor_ids()).len() == 0);
}

/// The address book stays in order, and within its limit, when a peer completes the handshake.
pub proof fn handshakes_keep_the_book_in_order(
    node: NodeView,
    peer: u32,
    version: Version,
    locator: Result<Seq<BlockHash>, ChainError>,
    now: Instant,
    secs: u64,
)
    requires
        node.book.sound(),
        node.book.within_limit(),
    ensures
        node.readied(peer, version, locator, now, secs).0.book.sound(),
        node.readied(peer, version, locator, now, secs).0.book.within_limit(),
{
    let id = version.address_id;
    let book = node.book;
    changing_services_keeps_order(book, id, version.services);
    changing_state_keeps_order(
        book.with_services(id, version.services),
        id,
        AddressState::Tried(secs),
        secs,
    );
    changing_state_keeps_order(book, id, AddressState::Tried(secs), secs);
    changing_services_keeps_order(
        book.with_state(id, AddressState::Tried(secs), secs),
        id,
        version.services,
    );
    changing_state_keeps_order(book, id, AddressState::Connected, secs);
    changing_services_keeps_order(
        book.with_state(id, AddressState::Connected, secs),
        id,
        version.services,
    );
}

/// The address book stays in order, and within its limit, when a peer leaves.
pub proof fn leaving_keeps_the_book_in_order(node: NodeView, peer: u32, idx: usize, secs: u64)
    requires
        node.book.sound(),
        node.book.within_limit(),
    ensures
        node.dropped(peer, idx, secs).book.sound(),
        node.dropped(peer, idx, secs).book.within_limit(),
{
    changing_state_keeps_order(node.book, idx, AddressState::Tried(secs), secs);
    changing_state_keeps_order(node.book, idx, AddressState::Failed(secs), secs);
    changing_state_keeps_order(node.book, idx, AddressState::Banned(node.ban_end(secs)), secs);
}

/// The address book stays in order, and within its limit, when peers tell us about addresses.
pub proof fn hearing_keeps_the_book_in_order(
    node: NodeView,
    peer: u32,
    addresses: Seq<LocalAddressView>,
    after: NodeView,
    result: Result<(), WireError>,
)
    requires
        node.book.sound(),
        node.offered_to(peer, addresses, after, result),
    ensures
        after.book.sound(),
        after.book.within_limit(),
{
    let book = choose|book: BookView|
        node.book.pushed_all(addresses).pruned_to(book) && (after, result)
            == #[trigger] node.addresses_taken(peer, book);
    adding_addresses_keeps_order(node.book, addresses, book);
}

/// Whether two states of the node differ at most in the connections, and in what is awaited of
/// peers or queued for them.
pub open spec fn same_otherwise(before: NodeView, after: NodeView) -> bool {
    after == NodeView {
        peers: after.peers,
        inflight: after.inflight,
        outbox: after.outbox,
        ..before
    }
}

/// Sending a request again changes no more than what is awaited and queued.
proof fn lemma_redone_otherwise(
    node: NodeView,
    req: InflightRequests,
    pick: Option<u32>,
    chain: ChainAnswers,
    now: Instant,
)
    ensures
        same_otherwise(node, node.redone(req, pick, chain, now).0),
{
}

/// A request that is late changes no more than the connections, and what is awaited and queued.
proof fn lemma_expiry_otherwise(node: NodeView, req: InflightRequests)
    ensures
        same_otherwise(node, node.expiry(req).0),
{
}

/// Sending requests again leaves the address book, what our user asked for and everything else
/// alone but the connections, and what is awaited and queued.
pub proof fn retries_leave_the_rest_alone(
    node: NodeView,
    cause: Cause,
    order: Seq<InflightRequests>,
    picks: Seq<Option<u32>>,
    chain: ChainAnswers,
    now: Instant,
)
    ensures
        same_otherwise(node, node.processed(cause, order, picks, chain, now).0),
    decreases order.len(),
{
    if order.len() > 0 {
        let n = order.len() - 1;
        let rest = order.drop_last();
        retries_leave_the_rest_alone(node, cause, rest, picks.take(n), chain, now);
        let (after, result) = node.processed(cause, rest, picks.take(n), chain, now);
        lemma_step_otherwise(after, node.inflight, cause, order[n], picks[n], chain, now);
    }
}

/// Dealing with one request changes no more than the connections, and what is awaited and queued.
proof fn lemma_step_otherwise(
    node: NodeView,
    before: Map<InflightRequests, (u32, Instant)>,
    cause: Cause,
    req: InflightRequests,
    pick: Option<u32>,
    chain: ChainAnswers,
    now: Instant,
)
    ensures
        same_otherwise(node, node.step(before, cause, req, pick, chain, now).0),
{
    lemma_redone_otherwise(node.without_request(req), req, pick, chain, now);
    lemma_expiry_otherwise(node, req);
    lemma_redone_otherwise(node.expiry(req).0, req, pick, chain, now);
}

} // verus!
