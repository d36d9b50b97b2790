//! Laws of how a node starts, and of what it saves when.

use vstd::prelude::*;

use crate::book::BookView;
use crate::buckets::lemma_push_contains;
use crate::clock::Instant;
use crate::disk::DiskLocalAddress;
use crate::local_address::AddressState;
use crate::net_addr::AddrV2Message;
use crate::node::messages::{InflightRequests, NodeRequest, WireError};
use crate::node::retry::left_over;
use crate::node::state::{NodeContext, NodeView, UtreexoNode};
use crate::node::upkeep::{
    first_occurrences, socket_views, ChainStart, NodeConfig, PeerDbs,
};
use crate::saving_laws::{
    entries_hold_every_field, every_address_is_saved, holds, ids_are_looked_up_in_order,
};
use crate::terms::listed;

verus! {

/// Whether what stands at a place in a list stands there for the first time.
pub open spec fn first_at<T>(all: Seq<T>, i: int) -> bool {
    0 <= i < all.len() && forall|j: int| 0 <= j < i ==> #[trigger] all[j] != all[i]
}

/// What is left of a list without repetitions has everything once, in the order in which it
/// stood there first.
pub proof fn repetitions_are_left_out_in_order<T>(all: Seq<T>, x: T, i: int, j: int)
    ensures
        first_occurrences(all).contains(x) <==> all.contains(x),
        first_occurrences(all).no_duplicates(),
        0 <= i < j < first_occurrences(all).len() ==> exists|a: int, b: int|
            {
                &&& #[trigger] first_at(all, a)
                &&& #[trigger] first_at(all, b)
                &&& a < b
                &&& all[a] == first_occurrences(all)[i]
                &&& all[b] == first_occurrences(all)[j]
            },
    decreases all.len(),
{
    if all.len() > 0 {
        let rest = all.drop_last();
        let last = all.last();
        let before = first_occurrences(rest);
        let kept = first_occurrences(all);
        repetitions_are_left_out_in_order(rest, x, i, j);
        repetitions_are_left_out_in_order(rest, last, i, j);
        assert(all =~= rest.push(last));
        lemma_push_contains(rest, last, x);
        lemma_push_contains(before, last, x);
        if 0 <= i < j < kept.len() {
            if j < before.len() {
                let (a, b) = choose|a: int, b: int|
                    {
                        &&& #[trigger] first_at(rest, a)
                        &&& #[trigger] first_at(rest, b)
                        &&& a < b
                        &&& rest[a] == before[i]
                        &&& rest[b] == before[j]
                    };
                lemma_first_at(rest, all, a);
                lemma_first_at(rest, all, b);
            } else {
                assert(kept[j] == last);
                assert(before.contains(before[i]));
                repetitions_are_left_out_in_order(rest, before[i], 0, 0);
                let k = choose|k: int| 0 <= k < rest.len() && rest[k] == before[i];
                let a = lemma_first_of(rest, k);
                lemma_first_at(rest, all, a);
                let b = all.len() - 1;
                assert(first_at(all, b)) by {
                    assert forall|m: int| 0 <= m < b implies #[trigger] all[m] != all[b] by {
                        if all[m] == all[b] {
                            assert(rest[m] == last);
                            assert(rest.contains(last));
                        }
                    }
                }
            }
        }
    }
}

/// What stands first somewhere in a list stands first there in a longer one.
proof fn lemma_first_at<T>(rest: Seq<T>, all: Seq<T>, i: int)
    requires
        all.len() > 0,
        rest == all.drop_last(),
        first_at(rest, i),
    ensures
        first_at(all, i),
        all[i] == rest[i],
{
    assert forall|j: int| 0 <= j < i implies #[trigger] all[j] != all[i] by {
        assert(rest[j] != rest[i]);
    }
}

/// What stands in a list stands there for the first time somewhere.
proof fn lemma_first_of<T>(all: Seq<T>, k: int) -> (i: int)
    requires
        0 <= k < all.len(),
    ensures
        first_at(all, i),
        i <= k,
        all[i] == all[k],
    decreases k,
{
    if exists|j: int| 0 <= j < k && #[trigger] all[j] == all[k] {
        let j = choose|j: int| 0 <= j < k && #[trigger] all[j] == all[k];
        lemma_first_of(all, j)
    } else {
        k
    }
}

/// A node that just started knows its book, its settings and where its chain stands, and
/// nothing else: no peer, no request, nothing to send. All its clocks show the time it started
/// at.
pub proof fn nodes_start_with_nothing_to_do(
    node: NodeView,
    config: NodeConfig,
    chain: ChainStart,
    book: BookView,
    context: NodeContext,
)
    requires
        node.started(config, chain, book, context),
    ensures
        node.book == book,
        node.context == context,
        node.max_banscore == config.max_banscore,
        node.network == config.network,
        node.last_filter == chain.genesis,
        node.last_block_request == chain.validation_index,
        !node.used_fixed_addresses,
        node.peer_id_count == 0,
        node.peers.dom() == Set::<u32>::empty(),
        node.peer_ids.len() == 0,
        node.peer_by_service.dom() == Set::<u64>::empty(),
        node.added_peers.len() == 0,
        node.inflight.dom() == Set::<InflightRequests>::empty(),
        node.inflight_user_requests.dom().len() == 0,
        node.outbox.len() == 0,
        node.responses.len() == 0,
        node.blocks.len() == 0,
        node.times.last_tip_update == node.last_peer_db_dump,
        node.times.last_connection == node.last_peer_db_dump,
        node.times.last_get_address_request == node.last_peer_db_dump,
        node.times.last_send_addresses == node.last_peer_db_dump,
        node.times.last_feeler == node.last_peer_db_dump,
        node.times.startup_time == node.last_peer_db_dump,
        node.times.last_dns_seed_call == node.last_peer_db_dump,
{
}

/// The only peers to connect to are those the node was set up with, each once, as addresses that
/// were never tried and of which nothing is known.
pub proof fn fixed_peers_are_those_set_up(
    node: NodeView,
    config: NodeConfig,
    chain: ChainStart,
    book: BookView,
    context: NodeContext,
    k: int,
    i: int,
    j: int,
)
    requires
        node.started(config, chain, book, context),
    ensures
        0 <= k < config.fixed_peers@.len() ==> exists|m: int|
            0 <= m < node.fixed_peers.len() && (#[trigger] node.fixed_peers[m]).address
                == config.fixed_peers@[k]@,
        0 <= i < node.fixed_peers.len() ==> {
            &&& node.fixed_peers[i].state == AddressState::NeverTried
            &&& node.fixed_peers[i].services.0 == 0
            &&& exists|m: int|
                0 <= m < config.fixed_peers@.len() && (#[trigger] config.fixed_peers@[m])@
                    == node.fixed_peers[i].address
        },
        0 <= i < j < node.fixed_peers.len() ==> node.fixed_peers[i].address
            != node.fixed_peers[j].address,
{
    let all = socket_views(config.fixed_peers@);
    let kept = first_occurrences(all);
    if 0 <= k < config.fixed_peers@.len() {
        assert(all.contains(all[k]));
        repetitions_are_left_out_in_order(all, all[k], 0, 0);
        let m = choose|m: int| 0 <= m < kept.len() && kept[m] == all[k];
        assert(node.fixed_peers[m].address == config.fixed_peers@[k]@);
    }
    if 0 <= i < node.fixed_peers.len() {
        assert(kept.contains(kept[i]));
        repetitions_are_left_out_in_order(all, kept[i], 0, 0);
        let m = choose|m: int| 0 <= m < all.len() && all[m] == kept[i];
        assert(node.fixed_peers[i].address == kept[i]);
        assert(config.fixed_peers@[m]@ == node.fixed_peers[i].address);
    }
    if 0 <= i < j < node.fixed_peers.len() {
        repetitions_are_left_out_in_order(all, kept[i], 0, 0);
        assert(node.fixed_peers[i].address == kept[i]);
        assert(node.fixed_peers[j].address == kept[j]);
    }
}

/// What we know about peers is saved once more time has passed since it last was than the
/// seconds between two times.
pub proof fn saving_is_due_after_the_interval(node: NodeView, now: Instant)
    ensures
        node.dump_due(now) <==> now.0 > node.last_peer_db_dump.0
            + node.context.peer_db_dump_interval * 1_000_000_000,
{
}

/// Whether an address of the book stands behind one of the peers listed for utreexo proofs.
pub open spec fn is_anchor(node: NodeView, peer: u32) -> bool {
    &&& listed(node.peer_by_service, 0x1000, peer)
    &&& node.peers.contains_key(peer)
    &&& node.book.addresses.contains_key(node.peers[peer].address.id)
}

/// For every peer listed for utreexo proofs whose address is in the book an anchor is saved, which
/// holds that address, a connection being one that was last up; if there is such a peer, anchors
/// are saved at all.
pub proof fn every_utreexo_peer_is_an_anchor(
    node: NodeView,
    anchors: Option<Vec<DiskLocalAddress>>,
    peer: u32,
)
    requires
        node.anchored(anchors),
        is_anchor(node, peer),
    ensures
        match anchors {
            None => false,
            Some(saved) => exists|i: int, now: u64|
                0 <= i < saved@.len() && #[trigger] holds(
                    saved@[i],
                    node.book.addresses[node.peers[peer].address.id],
                    now,
                ),
        },
{
    let peers = node.peer_by_service[0x1000];
    let ids = node.anchor_ids();
    let id = node.peers[peer].address.id;
    let k = choose|k: int| 0 <= k < peers.len() && peers[k] == peer;
    assert(ids[k] == id);
    assert(ids.contains(id));
    ids_are_looked_up_in_order(node.book, ids);
    let found = node.book.resolved(ids);
    assert(found.contains(node.book.addresses[id]));
    let i = choose|i: int| 0 <= i < found.len() && found[i] == node.book.addresses[id];
    match anchors {
        None => {},
        Some(saved) => {
            let now = choose|now: u64| saved@ == #[trigger] node.book.anchors(ids, now);
            assert(saved@[i] == DiskLocalAddress::saved(found[i], now));
            entries_hold_every_field(found[i], now);
            assert(holds(saved@[i], node.book.addresses[id], now));
        },
    }
}

/// There are no more anchors than peers listed for utreexo proofs, and as many if the addresses of
/// all of them are in the book.
pub proof fn anchors_are_utreexo_peers(node: NodeView, saved: Vec<DiskLocalAddress>)
    requires
        node.anchored(Some(saved)),
    ensures
        node.peer_by_service.contains_key(0x1000),
        0 < saved@.len() <= node.peer_by_service[0x1000].len(),
        (forall|peer: u32| #[trigger]
            listed(node.peer_by_service, 0x1000, peer) ==> is_anchor(node, peer)) ==> saved@.len()
            == node.peer_by_service[0x1000].len(),
{
    let ids = node.anchor_ids();
    ids_are_looked_up_in_order(node.book, ids);
    let now = choose|now: u64| saved@ == #[trigger] node.book.anchors(ids, now);
    ids.lemma_filter_len(|id: usize| node.book.addresses.contains_key(id));
    if forall|peer: u32| #[trigger]
        listed(node.peer_by_service, 0x1000, peer) ==> is_anchor(node, peer) {
        assert forall|i: int| 0 <= i < ids.len() implies node.book.addresses.contains_key(
            #[trigger] ids[i],
        ) by {
            let peer = node.peer_by_service[0x1000][i];
            assert(listed(node.peer_by_service, 0x1000, peer));
        }
    }
}

/// Whenever peers are saved, every address of the book is.
pub proof fn saving_peers_saves_every_address(node: NodeView, dbs: PeerDbs, id: usize)
    requires
        node.saved(dbs),
        node.book.addresses.contains_key(id),
    ensures
        dbs.peers@.len() == node.book.addresses.len(),
        exists|i: int, now: u64|
            0 <= i < dbs.peers@.len() && #[trigger] holds(
                dbs.peers@[i],
                node.book.addresses[id],
                now,
            ),
{
    let now = choose|now: u64| #[trigger] node.book.saved_as(dbs.peers@, now);
    every_address_is_saved(node.book, dbs.peers@, now, id);
    let i = choose|i: int|
        0 <= i < dbs.peers@.len() && holds(
            #[trigger] dbs.peers@[i],
            node.book.addresses[id],
            now,
        );
    assert(holds(dbs.peers@[i], node.book.addresses[id], now));
}

/// A node is read whole.
pub proof fn nodes_are_read_whole(node: UtreexoNode, i: int)
    ensures
        node@.peer_ids == node.common.peer_ids@,
        node@.peers == node.common.peers@,
        node@.peer_by_service == node.common.peer_by_service@,
        node@.max_banscore == node.common.max_banscore,
        node@.book == node.common.address_man@,
        node@.inflight == node.common.inflight@,
        node@.inflight_user_requests == node.common.inflight_user_requests@,
        node@.responses == node.common.responses@,
        node@.context == node.context,
        node@.last_peer_db_dump == node.common.last_peer_db_dump,
        node@.blocks == node.common.blocks@,
        node@.outbox.len() == node.common.outbox@.len(),
        0 <= i < node.common.outbox@.len() ==> node@.outbox[i] == (
            node.common.outbox@[i].0,
            node.common.outbox@[i].1@,
        ),
        node@.added_peers.len() == node.common.added_peers@.len(),
        0 <= i < node.common.added_peers@.len() ==> node@.added_peers[i] == (
            node.common.added_peers@[i].address@,
            node.common.added_peers@[i].v1_fallback,
        ),
        node@.fixed_peers.len() == node.common.fixed_peers@.len(),
        0 <= i < node.common.fixed_peers@.len() ==> node@.fixed_peers[i]
            == node.common.fixed_peers@[i]@,
{
}

/// Requests that read the same are of the same kind and ask for the same.
pub proof fn requests_read_as_they_are(a: NodeRequest, b: NodeRequest)
    ensures
        a@ == b@ ==> match (a, b) {
            (NodeRequest::GetBlock(x), NodeRequest::GetBlock(y)) => x@ == y@,
            (NodeRequest::GetHeaders(x), NodeRequest::GetHeaders(y)) => x@ == y@,
            (NodeRequest::GetAddresses, NodeRequest::GetAddresses) => true,
            (NodeRequest::Shutdown, NodeRequest::Shutdown) => true,
            (NodeRequest::BroadcastTransaction(x), NodeRequest::BroadcastTransaction(y)) => x == y,
            (NodeRequest::MempoolTransaction(x), NodeRequest::MempoolTransaction(y)) => x == y,
            (NodeRequest::SendAddresses(x), NodeRequest::SendAddresses(y)) => x@.len()
                == y@.len(),
            (NodeRequest::GetUtreexoState(x), NodeRequest::GetUtreexoState(y)) => x == y,
            (NodeRequest::GetFilter(x), NodeRequest::GetFilter(y)) => x == y,
            (NodeRequest::Ping, NodeRequest::Ping) => true,
            (NodeRequest::GetBlockProof(x), NodeRequest::GetBlockProof(y)) => x.0 == y.0
                && x.1.bytes@ == y.1.bytes@ && x.2.bytes@ == y.2.bytes@,
            (
                NodeRequest::GetCFHeaders { start_height: x, stop_hash: h },
                NodeRequest::GetCFHeaders { start_height: y, stop_hash: k },
            ) => x == y && h == k,
            _ => false,
        },
{
    match (a, b) {
        (NodeRequest::SendAddresses(x), NodeRequest::SendAddresses(y)) => {
            if a@ == b@ {
                assert(x@.map_values(|m: AddrV2Message| m@).len()
                    == y@.map_values(|m: AddrV2Message| m@).len());
            }
        },
        _ => {},
    }
}

/// The requests left to the caller are handed out as they are.
pub proof fn requests_left_are_handed_out(result: Result<Vec<InflightRequests>, WireError>)
    ensures
        match result {
            Ok(left) => left_over(result) == Ok::<Seq<InflightRequests>, WireError>(left@),
            Err(e) => left_over(result) == Err::<Seq<InflightRequests>, WireError>(e),
        },
{
}

/// The anchors saved are, in the order in which the peers are listed for utreexo proofs, those of
/// the peers whose address is in the book, each with all that there is to save of its address. A
/// peer there is no connection to any more stands for an address of the same number.
pub proof fn anchors_are_saved_in_order(node: NodeView, saved: Vec<DiskLocalAddress>, i: int)
    requires
        node.anchored(Some(saved)),
        0 <= i < saved@.len(),
    ensures
        ({
            let peers = node.peer_by_service[0x1000];
            let ids = Seq::new(
                peers.len(),
                |k: int|
                    if node.peers.contains_key(peers[k]) {
                        node.peers[peers[k]].address.id
                    } else {
                        peers[k] as usize
                    },
            );
            let inside = ids.filter(|id: usize| node.book.addresses.contains_key(id));
            &&& saved@.len() == inside.len()
            &&& exists|now: u64| #[trigger] holds(saved@[i], node.book.addresses[inside[i]], now)
        }),
{
    let peers = node.peer_by_service[0x1000];
    let ids = Seq::new(
        peers.len(),
        |k: int|
            if node.peers.contains_key(peers[k]) {
                node.peers[peers[k]].address.id
            } else {
                peers[k] as usize
            },
    );
    ids_are_looked_up_in_order(node.book, node.anchor_ids());
    let now = choose|now: u64| saved@ == #[trigger] node.book.anchors(node.anchor_ids(), now);
    assert(node.peer_by_service.contains_key(0x1000)) by {
        if !node.peer_by_service.contains_key(0x1000) {
            node.anchor_ids().lemma_filter_len(|id: usize| node.book.addresses.contains_key(id));
        }
    }
    assert(ids =~= node.anchor_ids());
    let found = node.book.resolved(node.anchor_ids());
    entries_hold_every_field(found[i], now);
    assert(holds(saved@[i], found[i], now));
}

} // verus!
