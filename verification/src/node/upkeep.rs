//! Starting and stopping the node, and what has to be done from time to time.

use vstd::prelude::*;

use crate::address_man::{views, AddressMan};
use crate::book::BookView;
use crate::buckets::Buckets;
use crate::chain_data::BlockHash;
use crate::clock::{Clock, Instant, NANOS_PER_SEC};
use crate::disk::{DiskLocalAddress, Network};
use crate::local_address::{LocalAddress, LocalAddressView};
use crate::net_addr::{BitcoinSocketAddr, SocketView};
use crate::node::messages::{NodeRequest, RequestView};
use crate::node::requests_of_user::fresh;
use crate::node::state::{NodeCommon, NodeContext, NodeTimes, NodeView, UtreexoNode};
use crate::request_table::Table;
use crate::service_flags::{ServiceFlags, NONE, UTREEXO};
use std::collections::HashMap;
use vstd::std_specs::hash::*;

verus! {

broadcast use group_hash_axioms;

/// What there is to save about peers.
#[derive(Debug)]
pub struct PeerDbs {
    /// The addresses we know
    pub peers: Vec<DiskLocalAddress>,
    /// The utreexo peers we are connected to; if there are none, what was saved before stays
    pub anchors: Option<Vec<DiskLocalAddress>>,
}

/// How the node is set up.
#[derive(Debug)]
pub struct NodeConfig {
    /// The network to run on
    pub network: Network,
    /// The only peers to connect to, if there are any
    pub fixed_peers: Vec<BitcoinSocketAddr>,
    /// The score at which a peer is banned
    pub max_banscore: u32,
}

/// Where the chain stands when the node starts.
#[derive(Debug, Clone, Copy)]
pub struct ChainStart {
    /// The hash of the first block
    pub genesis: BlockHash,
    /// The height of the last block that was validated
    pub validation_index: u32,
}

/// Addresses as they read.
pub open spec fn socket_views(sockets: Seq<BitcoinSocketAddr>) -> Seq<SocketView> {
    sockets.map_values(|socket: BitcoinSocketAddr| socket@)
}

/// The first occurrence of everything in a list, in its order.
pub open spec fn first_occurrences<T>(all: Seq<T>) -> Seq<T>
    decreases all.len(),
{
    if all.len() == 0 {
        all
    } else {
        let before = first_occurrences(all.drop_last());
        if before.contains(all.last()) {
            before
        } else {
            before.push(all.last())
        }
    }
}

/// Whether these are addresses we just learned of.
pub open spec fn all_fresh(addresses: Seq<LocalAddressView>, sockets: Seq<SocketView>) -> bool {
    &&& addresses.len() == sockets.len()
    &&& forall|i: int|
        0 <= i < addresses.len() ==> fresh(
            #[trigger] addresses[i],
            sockets[i],
            ServiceFlags(NONE),
        )
}

impl NodeView {
    /// Whether this is a node that just started: it knows the addresses it was given, and
    /// nothing happened yet.
    pub open spec fn started(
        self,
        config: NodeConfig,
        chain: ChainStart,
        book: BookView,
        context: NodeContext,
    ) -> bool {
        let now = self.last_peer_db_dump;
        &&& all_fresh(
            self.fixed_peers,
            first_occurrences(socket_views(config.fixed_peers@)),
        )
        &&& self == NodeView {
            blocks: Seq::empty(),
            last_filter: chain.genesis,
            peer_id_count: 0,
            peer_ids: Seq::empty(),
            peers: Map::empty(),
            peer_by_service: Map::empty(),
            max_banscore: config.max_banscore,
            book,
            added_peers: Seq::empty(),
            fixed_peers: self.fixed_peers,
            inflight: Map::empty(),
            inflight_user_requests: Map::empty(),
            times: NodeTimes {
                last_tip_update: now,
                last_connection: now,
                last_get_address_request: now,
                last_send_addresses: now,
                last_feeler: now,
                startup_time: now,
                last_dns_seed_call: now,
            },
            last_peer_db_dump: now,
            last_block_request: chain.validation_index,
            used_fixed_addresses: false,
            network: config.network,
            outbox: Seq::empty(),
            responses: Seq::empty(),
            context,
        }
    }

    /// Those of some peers that completed the handshake, in their order.
    pub open spec fn initialized(self, ids: Seq<u32>) -> Seq<u32> {
        ids.filter(
            |id: u32| self.peers.contains_key(id) && !(self.peers[id].state is Awaiting),
        )
    }

    /// The node after a request was sent to some peers, those left out that do not take it.
    pub open spec fn sent_to_all(self, ids: Seq<u32>, request: RequestView) -> NodeView {
        self.handed_to_all(self.initialized(ids), request)
    }

    /// The id that the address of a peer has. A peer there is no connection to any more stands
    /// for an address of the same number.
    pub open spec fn address_id(self, peer: u32) -> usize {
        if self.peers.contains_key(peer) {
            self.peers[peer].address.id
        } else {
            peer as usize
        }
    }

    /// The ids that the addresses of the utreexo peers have that we are connected to.
    pub open spec fn anchor_ids(self) -> Seq<usize> {
        self.offering(ServiceFlags(UTREEXO)).map_values(|peer: u32| self.address_id(peer))
    }

    /// Whether this is what there is to save about the utreexo peers.
    pub open spec fn anchored(self, anchors: Option<Vec<DiskLocalAddress>>) -> bool {
        match anchors {
            Some(saved) => self.book.resolved(self.anchor_ids()).len() > 0 && exists|now: u64|
                saved@ == #[trigger] self.book.anchors(self.anchor_ids(), now),
            None => self.book.resolved(self.anchor_ids()).len() == 0,
        }
    }

    /// Whether this is what there is to save about peers.
    pub open spec fn saved(self, dbs: PeerDbs) -> bool {
        &&& self.book.saved_whole(dbs.peers@)
        &&& self.anchored(dbs.anchors)
    }

    /// Whether it is time to save what we know about peers.
    pub open spec fn dump_due(self, now: Instant) -> bool {
        now.nanos_after(self.last_peer_db_dump) > self.context.peer_db_dump_interval
            * NANOS_PER_SEC
    }
}

/// Whether an address is among some others.
fn is_among(addresses: &Vec<LocalAddress>, socket: &BitcoinSocketAddr, Ghost(sockets): Ghost<
    Seq<SocketView>,
>) -> (r: bool)
    requires
        all_fresh(views(addresses@), sockets),
    ensures
        r == sockets.contains(socket@),
{
    let mut i: usize = 0;
    while i < addresses.len()
        invariant
            i <= addresses@.len(),
            all_fresh(views(addresses@), sockets),
            forall|j: int| 0 <= j < i ==> sockets[j] != socket@,
        decreases addresses@.len() - i,
    {
        assert(fresh(views(addresses@)[i as int], sockets[i as int], ServiceFlags(NONE)));
        if addresses[i].address.same_as(socket) {
            assert(sockets[i as int] == socket@);
            return true;
        }
        i = i + 1;
    }
    false
}

/// The addresses of the peers to connect to, each once so we don't open multiple connections to
/// the same host.
fn dedup_peers(fixed_peers: &Vec<BitcoinSocketAddr>) -> (r: Vec<LocalAddress>)
    ensures
        all_fresh(views(r@), first_occurrences(socket_views(fixed_peers@))),
{
    let mut peers: Vec<LocalAddress> = Vec::new();
    let ghost sockets = socket_views(fixed_peers@);
    let mut i: usize = 0;
    while i < fixed_peers.len()
        invariant
            i <= fixed_peers@.len(),
            sockets == socket_views(fixed_peers@),
            all_fresh(views(peers@), first_occurrences(sockets.take(i as int))),
        decreases fixed_peers@.len() - i,
    {
        let ghost before = peers@;
        let ghost seen = first_occurrences(sockets.take(i as int));
        assert(sockets.take(i + 1).drop_last() =~= sockets.take(i as int));
        if !is_among(&peers, &fixed_peers[i], Ghost(seen)) {
            peers.push(LocalAddress::from(fixed_peers[i].clone()));
            assert forall|j: int| 0 <= j < peers@.len() implies fresh(
                #[trigger] views(peers@)[j],
                seen.push(sockets[i as int])[j],
                ServiceFlags(NONE),
            ) by {
                if j < before.len() {
                    assert(views(peers@)[j] == views(before)[j]);
                }
            }
        }
        i = i + 1;
    }
    assert(sockets.take(i as int) =~= sockets);
    peers
}

impl UtreexoNode {
    /// Starts a node.
    pub fn new(
        config: &NodeConfig,
        chain: ChainStart,
        address_man: AddressMan,
        context: NodeContext,
    ) -> (r: Self)
        ensures
            r@.started(*config, chain, address_man@, context),
    {
        // Dedup the resolved fixed peers so we don't open multiple connections to the same host.
        let fixed_peers = dedup_peers(&config.fixed_peers);
        let clock = Clock::start();
        let now = clock.now();
        let node = UtreexoNode {
            common: NodeCommon {
                blocks: Vec::new(),
                last_filter: chain.genesis,
                peer_id_count: 0,
                peer_ids: Vec::new(),
                peers: HashMap::new(),
                peer_by_service: Buckets::new(),
                max_banscore: config.max_banscore,
                address_man,
                added_peers: Vec::new(),
                fixed_peers,
                inflight: Table::new(),
                inflight_user_requests: Table::new(),
                last_tip_update: now,
                last_connection: now,
                last_peer_db_dump: now,
                last_block_request: chain.validation_index,
                last_get_address_request: now,
                last_send_addresses: now,
                last_feeler: now,
                startup_time: now,
                last_dns_seed_call: now,
                used_fixed_addresses: false,
                network: config.network,
                clock,
                outbox: Vec::new(),
                responses: Vec::new(),
            },
            context,
        };
        assert(node@.added_peers =~= Seq::empty());
        assert(node@.outbox =~= Seq::empty());
        assert(node@.peers =~= Map::empty());
        node
    }

    /// What there is to save of the addresses we know.
    pub fn save_peers(&self) -> (r: Vec<DiskLocalAddress>)
        ensures
            self@.book.saved_whole(r@),
    {
        self.common.address_man.dump_peers()
    }

    /// What there is to save of the utreexo peers so we can reconnect with them later
    ///
    /// Having no utreexo peer connected is a normal state, not an error: we simply keep the
    /// anchors already on disk, since overwriting them with an empty list would leave us with
    /// nothing to reconnect to on the next startup.
    pub fn save_utreexo_peers(&self) -> (r: Option<Vec<DiskLocalAddress>>)
        ensures
            self@.anchored(r),
    {
        let mut ids: Vec<usize> = Vec::new();
        if let Some(peers) = self.common.peer_by_service.get(ServiceFlags(UTREEXO)) {
            let mut i: usize = 0;
            while i < peers.len()
                invariant
                    i <= peers@.len(),
                    ids@.len() == i,
                    forall|j: int| 0 <= j < i ==> #[trigger] ids@[j] == self@.address_id(peers@[j]),
                decreases peers@.len() - i,
            {
                let id: usize = match self.peer(peers[i]) {
                    Some(peer) => peer.address.id,
                    None => peers[i] as usize,
                };
                ids.push(id);
                i = i + 1;
            }
        }
        assert(ids@ =~= self@.anchor_ids());
        if ids.is_empty() {
            assert(self@.book.resolved(ids@).len() == 0) by {
                reveal(Seq::filter);
            }
            return None;
        }
        self.common.address_man.dump_utreexo_peers(&ids)
    }

    /// What there is to save about peers: the general address book and the utreexo anchors
    pub fn save_peer_dbs(&self) -> (r: PeerDbs)
        ensures
            self@.saved(r),
    {
        PeerDbs { peers: self.save_peers(), anchors: self.save_utreexo_peers() }
    }

    /// Tells all peers to go, and what there is to save.
    pub fn shutdown(&mut self) -> (r: PeerDbs)
        ensures
            final(self)@ == old(self)@.sent_to_all(old(self)@.peer_ids, RequestView::Shutdown),
            old(self)@.saved(r),
    {
        let anchors = self.save_utreexo_peers();
        let peers = self.save_peers();
        let mut i: usize = 0;
        proof {
            reveal(Seq::filter);
        }
        while i < self.common.peer_ids.len()
            invariant
                i <= self.common.peer_ids@.len(),
                self@.peer_ids == old(self)@.peer_ids,
                self@.peers == old(self)@.peers,
                self@ == old(self)@.sent_to_all(
                    old(self)@.peer_ids.take(i as int),
                    RequestView::Shutdown,
                ),
            decreases self.common.peer_ids@.len() - i,
        {
            let peer: u32 = self.common.peer_ids[i];
            let _ = self.send_to_peer(peer, NodeRequest::Shutdown);
            proof {
                reveal(Seq::filter);
                let ids = old(self)@.peer_ids;
                let told = old(self)@.initialized(ids.take(i as int));
                assert(ids.take(i + 1).drop_last() =~= ids.take(i as int));
                assert(told.push(peer).drop_last() =~= told);
            }
            i = i + 1;
        }
        assert(old(self)@.peer_ids.take(i as int) =~= old(self)@.peer_ids);
        PeerDbs { peers, anchors }
    }

    /// Periodic jobs that every context has to run, no matter which one is driving the node
    ///
    /// Each context should call this from its maintenance tick, so we don't lose our peer
    /// databases if we're killed before we get the chance to shutdown cleanly. Tells what there
    /// is to save, when it is time to.
    pub fn common_periodic_jobs(&mut self) -> (r: Option<PeerDbs>)
        ensures
            exists|now: Instant|
                {
                    &&& r is Some <==> #[trigger] old(self)@.dump_due(now)
                    &&& r is Some ==> old(self)@.saved(r->0)
                    &&& final(self)@ == if r is Some {
                        NodeView { last_peer_db_dump: now, ..old(self)@ }
                    } else {
                        old(self)@
                    }
                },
    {
        let now = self.common.clock.now();
        self.common_periodic_jobs_at(now)
    }

    /// The jobs that are due at `now`.
    pub fn common_periodic_jobs_at(&mut self, now: Instant) -> (r: Option<PeerDbs>)
        ensures
            r is Some <==> old(self)@.dump_due(now),
            r is Some ==> old(self)@.saved(r->0),
            final(self)@ == if r is Some {
                (NodeView { last_peer_db_dump: now, ..old(self)@ })
            } else {
                old(self)@
            },
    {
        let elapsed: u64 = now.duration_since(self.common.last_peer_db_dump);
        assert(self@.context.peer_db_dump_interval * NANOS_PER_SEC <= u64::MAX * NANOS_PER_SEC)
            by (nonlinear_arith)
            requires
                self@.context.peer_db_dump_interval <= u64::MAX,
        ;
        if elapsed as u128 > self.context.peer_db_dump_interval as u128 * NANOS_PER_SEC as u128 {
            // Save our peers db
            let dbs = self.save_peer_dbs();
            self.common.last_peer_db_dump = now;
            return Some(dbs);
        }
        None
    }
}

} // verus!
