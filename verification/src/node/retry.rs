//! Requests that have to be sent again, because a peer left or did not answer in time.

use vstd::prelude::*;

use crate::buckets::{
    buckets_without, contains_id, lemma_push_contains, remove_id, without,
};
use crate::chain_data::BlockHash;
use crate::clock::{unix_seconds, Instant};
use crate::local_address::AddressState;
use crate::node::messages::{
    copy_hashes, Bitmap, ChainAnswers, InflightRequests, NodeRequest, RequestView, WireError,
};
use crate::node::peer::{ConnectionKind, PeerId, PeerStatus};
use crate::node::state::{NodeView, UtreexoNode};
use crate::service_flags::{ServiceFlags, COMPACT_FILTERS, NONE, UTREEXO};

verus! {

/// What is left to do of a request that is sent again.
#[derive(Debug, Clone, Copy, PartialEq, Eq)]
pub enum Redo {
    /// Nothing
    Done,
    /// To ask for this block, if it is not asked for already
    RequestBlock(BlockHash),
}

/// Why requests are sent again.
#[derive(Debug, Clone, Copy, PartialEq, Eq)]
pub enum Cause {
    /// The peer that was asked is gone
    Gone(PeerId),
    /// The answer is late
    Late,
}

/// How it goes on with a request that was not answered in time.
#[derive(Debug, Clone, Copy, PartialEq, Eq)]
pub enum Expiry {
    /// It is over
    Settled,
    /// It has to be sent again; it was sent to this peer at this time
    Retry(PeerId, Instant),
}

impl InflightRequests {
    /// The service a peer has to offer to be sent such a request.
    pub open spec fn service(self) -> ServiceFlags {
        match self {
            InflightRequests::UtreexoProof(_) => ServiceFlags(UTREEXO),
            InflightRequests::UtreexoState(_) => ServiceFlags(UTREEXO),
            InflightRequests::GetFilters => ServiceFlags(COMPACT_FILTERS),
            _ => ServiceFlags(NONE),
        }
    }

    /// The service a peer has to offer to be sent such a request.
    pub fn required_service(&self) -> (r: ServiceFlags)
        ensures
            r == self.service(),
    {
        match self {
            InflightRequests::UtreexoProof(_) => ServiceFlags(UTREEXO),
            InflightRequests::UtreexoState(_) => ServiceFlags(UTREEXO),
            InflightRequests::GetFilters => ServiceFlags(COMPACT_FILTERS),
            _ => ServiceFlags(NONE),
        }
    }

    /// What is awaited once such a request was sent to a peer.
    pub open spec fn sent_to(self, peer: u32) -> InflightRequests {
        match self {
            InflightRequests::UtreexoState(_) => InflightRequests::UtreexoState(peer),
            _ => self,
        }
    }
}

/// The requests left to the caller, if none failed.
pub open spec fn left_over(result: Result<Vec<InflightRequests>, WireError>) -> Result<
    Seq<InflightRequests>,
    WireError,
> {
    match result {
        Ok(left) => Ok(left@),
        Err(e) => Err(e),
    }
}

impl NodeView {
    /// The node that does not await the answer to a request any more.
    pub open spec fn without_request(self, request: InflightRequests) -> NodeView {
        NodeView { inflight: self.inflight.remove(request), ..self }
    }

    /// What comes of sending a request to the peer that was chosen, and awaiting the answer.
    pub open spec fn asked(
        self,
        req: InflightRequests,
        request: RequestView,
        pick: Option<u32>,
        now: Instant,
    ) -> (NodeView, Result<Redo, WireError>) {
        let (after, sent) = self.sent_to_pick(pick, request);
        match sent {
            Ok(peer) => (after.awaiting(req.sent_to(peer), peer, now), Ok(Redo::Done)),
            Err(e) => (after, Err(e)),
        }
    }

    /// What comes of sending a request again, to the peer that was chosen.
    pub open spec fn redone(
        self,
        req: InflightRequests,
        pick: Option<u32>,
        chain: ChainAnswers,
        now: Instant,
    ) -> (NodeView, Result<Redo, WireError>) {
        match req {
            InflightRequests::UtreexoProof(hash) => {
                if self.offering(ServiceFlags(UTREEXO)).len() == 0 || !self.blocks.contains(hash)
                    || self.inflight.contains_key(req) {
                    (self, Ok(Redo::Done))
                } else {
                    self.asked(
                        req,
                        RequestView::GetBlockProof(hash, Seq::empty(), Seq::empty()),
                        pick,
                        now,
                    )
                }
            },
            InflightRequests::Blocks(hash) => (self, Ok(Redo::RequestBlock(hash))),
            InflightRequests::Headers => match chain.located() {
                Ok(hashes) => self.asked(req, RequestView::GetHeaders(hashes), pick, now),
                Err(e) => (self, Err(WireError::Chain(e))),
            },
            InflightRequests::UtreexoState(_) => self.asked(
                req,
                RequestView::GetUtreexoState(chain.genesis, 0),
                pick,
                now,
            ),
            InflightRequests::GetFilters => {
                if self.offering(ServiceFlags(COMPACT_FILTERS)).len() == 0 {
                    (self, Ok(Redo::Done))
                } else {
                    self.asked(req, RequestView::GetFilter(chain.genesis, 0), pick, now)
                }
            },
            InflightRequests::Connect(_) => (self, Ok(Redo::Done)),
            InflightRequests::GetAddresses => (self, Ok(Redo::Done)),
        }
    }

    /// What comes of sending a request again that was taken out; where that fails it is put
    /// back as it was.
    pub open spec fn redone_or_restored(
        self,
        req: InflightRequests,
        held: (u32, Instant),
        pick: Option<u32>,
        chain: ChainAnswers,
        now: Instant,
    ) -> (NodeView, Result<Redo, WireError>) {
        let (after, result) = self.redone(req, pick, chain, now);
        match result {
            Ok(redo) => (after, Ok(redo)),
            Err(e) => (after.awaiting(req, held.0, held.1), Err(e)),
        }
    }

    /// What comes of asking for a block again, for a request that was taken out; where that
    /// failed it is put back as it was.
    pub open spec fn block_settled(
        self,
        req: InflightRequests,
        held: (u32, Instant),
        outcome: Result<(), WireError>,
    ) -> (NodeView, Result<(), WireError>) {
        match outcome {
            Ok(_) => (self, Ok(())),
            Err(e) => (self.awaiting(req, held.0, held.1), Err(e)),
        }
    }

    /// Until when a peer is banned that is banned at `secs`.
    pub open spec fn ban_end(self, secs: u64) -> u64 {
        if secs + self.context.ban_time <= u64::MAX {
            (secs + self.context.ban_time) as u64
        } else {
            u64::MAX
        }
    }

    /// The node after a peer left whose address has the id `idx`.
    pub open spec fn dropped(self, peer: u32, idx: usize, secs: u64) -> NodeView {
        NodeView {
            peers: self.peers.remove(peer),
            book: if self.peers.contains_key(peer) {
                self.book.with_state(
                    idx,
                    match self.peers[peer].state {
                        PeerStatus::Ready => AddressState::Tried(secs),
                        PeerStatus::Awaiting => AddressState::Failed(secs),
                        PeerStatus::Banned => AddressState::Banned(self.ban_end(secs)),
                    },
                    secs,
                )
            } else {
                self.book
            },
            peer_ids: without(self.peer_ids, peer),
            peer_by_service: buckets_without(self.peer_by_service, peer),
            ..self
        }
    }

    /// Whether a request was not answered in time.
    pub open spec fn timed_out(self, req: InflightRequests, now: Instant) -> bool {
        let waited = now.secs_after(self.inflight[req].1);
        ||| waited > self.context.request_timeout
        ||| req is Connect && waited > self.context.connection_timeout
    }

    /// What comes first of a request that was not answered in time: feelers and connections
    /// that were never completed are closed, any other peer is punished.
    pub open spec fn expiry(self, req: InflightRequests) -> (NodeView, Result<Expiry, WireError>) {
        if !self.inflight.contains_key(req) {
            (self, Ok(Expiry::Settled))
        } else {
            let (peer, since) = self.inflight[req];
            let taken = self.without_request(req);
            if taken.peers.contains_key(peer) && taken.peers[peer].kind is Feeler {
                let (after, sent) = taken.sent(peer, RequestView::Shutdown);
                match sent {
                    Ok(_) => (
                        NodeView { peers: after.peers.remove(peer), ..after },
                        Ok(Expiry::Settled),
                    ),
                    Err(e) => (after, Err(e)),
                }
            } else if req is Connect {
                let after = taken.sent(peer, RequestView::Shutdown).0;
                (NodeView { peers: after.peers.remove(peer), ..after }, Ok(Expiry::Settled))
            } else {
                (taken.punished(peer, 1).0, Ok(Expiry::Retry(peer, since)))
            }
        }
    }

    /// What comes of a request that was not answered in time.
    pub open spec fn expired(
        self,
        req: InflightRequests,
        pick: Option<u32>,
        chain: ChainAnswers,
        now: Instant,
    ) -> (NodeView, Result<Redo, WireError>) {
        let (after, expiry) = self.expiry(req);
        match expiry {
            Err(e) => (after, Err(e)),
            Ok(Expiry::Settled) => (after, Ok(Redo::Done)),
            Ok(Expiry::Retry(peer, since)) => after.redone_or_restored(
                req,
                (peer, since),
                pick,
                chain,
                now,
            ),
        }
    }

    /// Whether the peer chosen for a request that was not answered in time, if it has to be
    /// sent again, may be this one.
    pub open spec fn expiry_pick(self, req: InflightRequests, pick: Option<u32>) -> bool {
        let (after, expiry) = self.expiry(req);
        expiry matches Ok(Expiry::Retry(_, _)) ==> after.fast_pick(req.service(), pick)
    }

    /// Whether something has to be done about a request.
    pub open spec fn concerns(self, cause: Cause, now: Instant, req: InflightRequests) -> bool {
        &&& self.inflight.contains_key(req)
        &&& match cause {
            Cause::Gone(peer) => self.inflight[req].0 == peer,
            Cause::Late => self.timed_out(req, now),
        }
    }

    /// Whether these are all the requests something has to be done about, each once.
    pub open spec fn enumerates(
        self,
        cause: Cause,
        now: Instant,
        order: Seq<InflightRequests>,
    ) -> bool {
        &&& order.no_duplicates()
        &&& forall|req: InflightRequests| #[trigger]
            order.contains(req) <==> self.concerns(cause, now, req)
    }

    /// Whether a request was sent to a feeler.
    pub open spec fn sent_to_feeler(self, req: InflightRequests) -> bool {
        let peer = self.inflight[req].0;
        self.peers.contains_key(peer) && self.peers[peer].kind is Feeler
    }

    /// Whether a request is left to the caller: a block has to be asked for again.
    pub open spec fn deferred(self, cause: Cause, req: InflightRequests) -> bool {
        &&& req is Blocks
        &&& match cause {
            Cause::Gone(_) => true,
            Cause::Late => self.expiry(req).1 matches Ok(Expiry::Retry(_, _)),
        }
    }

    /// What comes of one request, nothing if it is left to the caller; `before` are the requests
    /// there were at first.
    pub open spec fn step(
        self,
        before: Map<InflightRequests, (u32, Instant)>,
        cause: Cause,
        req: InflightRequests,
        pick: Option<u32>,
        chain: ChainAnswers,
        now: Instant,
    ) -> (NodeView, Result<Redo, WireError>) {
        if self.deferred(cause, req) {
            (self, Ok(Redo::Done))
        } else {
            match cause {
                Cause::Gone(_) => self.without_request(req).redone_or_restored(
                    req,
                    before[req],
                    pick,
                    chain,
                    now,
                ),
                Cause::Late => self.expired(req, pick, chain, now),
            }
        }
    }

    /// Whether the peer chosen for one request may be this one.
    pub open spec fn step_pick(self, cause: Cause, req: InflightRequests, pick: Option<u32>) -> bool {
        self.deferred(cause, req) || match cause {
            Cause::Gone(_) => self.without_request(req).fast_pick(req.service(), pick),
            Cause::Late => self.expiry_pick(req, pick),
        }
    }

    /// What comes of some requests, one after the other up to the first that fails, a peer
    /// chosen for each.
    pub open spec fn processed(
        self,
        cause: Cause,
        order: Seq<InflightRequests>,
        picks: Seq<Option<u32>>,
        chain: ChainAnswers,
        now: Instant,
    ) -> (NodeView, Result<(), WireError>)
        decreases order.len(),
    {
        if order.len() == 0 {
            (self, Ok(()))
        } else {
            let (after, result) = self.processed(
                cause,
                order.drop_last(),
                picks.take(order.len() - 1),
                chain,
                now,
            );
            match result {
                Err(e) => (after, Err(e)),
                Ok(_) => {
                    let (next, done) = after.step(
                        self.inflight,
                        cause,
                        order.last(),
                        picks[order.len() - 1],
                        chain,
                        now,
                    );
                    match done {
                        Err(e) => (next, Err(e)),
                        Ok(_) => (next, Ok(())),
                    }
                },
            }
        }
    }

    /// Those of some requests that are left to the caller, each by how things stand when its turn
    /// comes.
    pub open spec fn left_to_caller(
        self,
        cause: Cause,
        order: Seq<InflightRequests>,
        picks: Seq<Option<u32>>,
        chain: ChainAnswers,
        now: Instant,
    ) -> Seq<InflightRequests>
        decreases order.len(),
    {
        if order.len() == 0 {
            Seq::empty()
        } else {
            let rest = order.drop_last();
            let fewer = picks.take(order.len() - 1);
            let left = self.left_to_caller(cause, rest, fewer, chain, now);
            if self.processed(cause, rest, fewer, chain, now).0.deferred(cause, order.last()) {
                left.push(order.last())
            } else {
                left
            }
        }
    }

    /// Whether the peer chosen for one of some requests may be this one, should it come to it.
    pub open spec fn pick_at(
        self,
        cause: Cause,
        order: Seq<InflightRequests>,
        picks: Seq<Option<u32>>,
        chain: ChainAnswers,
        now: Instant,
        i: int,
    ) -> bool {
        let (after, result) = self.processed(cause, order.take(i), picks.take(i), chain, now);
        result is Ok ==> after.step_pick(cause, order[i], picks[i])
    }

    /// Whether the peers chosen for some requests may be these.
    pub open spec fn valid_picks(
        self,
        cause: Cause,
        order: Seq<InflightRequests>,
        picks: Seq<Option<u32>>,
        chain: ChainAnswers,
        now: Instant,
    ) -> bool {
        &&& picks.len() == order.len()
        &&& forall|i: int|
            0 <= i < order.len() ==> #[trigger] self.pick_at(cause, order, picks, chain, now, i)
    }

    /// Whether this is what comes of all the requests something has to be done about, in some
    /// order, those left to the caller for which a block has to be asked for again.
    pub open spec fn all_processed(
        self,
        cause: Cause,
        chain: ChainAnswers,
        now: Instant,
        after: NodeView,
        result: Result<Seq<InflightRequests>, WireError>,
    ) -> bool {
        exists|order: Seq<InflightRequests>, picks: Seq<Option<u32>>|
            {
                &&& self.enumerates(cause, now, order)
                &&& #[trigger] self.valid_picks(cause, order, picks, chain, now)
                &&& after == self.processed(cause, order, picks, chain, now).0
                &&& match result {
                    Ok(left) => {
                        &&& self.processed(cause, order, picks, chain, now).1 is Ok
                        &&& left == self.left_to_caller(cause, order, picks, chain, now)
                    },
                    Err(e) => self.processed(cause, order, picks, chain, now).1 == Err::<
                        (),
                        WireError,
                    >(e),
                }
            }
    }
}

/// Once one request failed, nothing more happens.
proof fn lemma_failure_stays(
    s: NodeView,
    cause: Cause,
    order: Seq<InflightRequests>,
    picks: Seq<Option<u32>>,
    chain: ChainAnswers,
    now: Instant,
    k: int,
)
    requires
        0 <= k <= order.len(),
        picks.len() >= order.len(),
        s.processed(cause, order.take(k), picks.take(k), chain, now).1 is Err,
    ensures
        s.processed(cause, order, picks, chain, now) == s.processed(
            cause,
            order.take(k),
            picks.take(k),
            chain,
            now,
        ),
    decreases order.len(),
{
    if k == order.len() {
        assert(order.take(k) =~= order);
        lemma_extra_picks(s, cause, order, picks, chain, now);
    } else {
        let n = order.len() - 1;
        assert(order.drop_last().take(k) =~= order.take(k));
        assert(picks.take(n).take(k) =~= picks.take(k));
        lemma_failure_stays(s, cause, order.drop_last(), picks.take(n), chain, now, k);
    }
}

/// Only as many picks matter as there are requests.
proof fn lemma_extra_picks(
    s: NodeView,
    cause: Cause,
    order: Seq<InflightRequests>,
    picks: Seq<Option<u32>>,
    chain: ChainAnswers,
    now: Instant,
)
    requires
        picks.len() >= order.len(),
    ensures
        s.processed(cause, order, picks, chain, now) == s.processed(
            cause,
            order,
            picks.take(order.len() as int),
            chain,
            now,
        ),
{
    if order.len() > 0 {
        let n = order.len() as int;
        assert(picks.take(n).take(n - 1) =~= picks.take(n - 1));
    }
}

impl UtreexoNode {
    /// Whether a block is one we have, but could not process yet.
    pub fn has_block(&self, hash: &BlockHash) -> (r: bool)
        ensures
            r == self@.blocks.contains(*hash),
    {
        contains_id(&self.common.blocks, *hash)
    }

    /// Sends a request to the peer that was chosen, and awaits the answer.
    fn ask(
        &mut self,
        req: InflightRequests,
        request: NodeRequest,
        pick: Option<PeerId>,
        now: Instant,
    ) -> (r: Result<Redo, WireError>)
        ensures
            (final(self)@, r) == old(self)@.asked(req, request@, pick, now),
    {
        match self.send_to_picked(request, pick) {
            Ok(peer) => {
                let awaited = match req {
                    InflightRequests::UtreexoState(_) => InflightRequests::UtreexoState(peer),
                    _ => req,
                };
                self.common.inflight.insert(awaited, (peer, now));
                Ok(Redo::Done)
            },
            Err(e) => Err(e),
        }
    }

    /// Sends a request again at `now`, to the peer that was chosen.
    pub fn redo_with_pick(
        &mut self,
        req: &InflightRequests,
        pick: Option<PeerId>,
        chain: &ChainAnswers,
        now: Instant,
    ) -> (r: Result<Redo, WireError>)
        ensures
            (final(self)@, r) == old(self)@.redone(*req, pick, *chain, now),
    {
        match req {
            InflightRequests::UtreexoProof(block_hash) => {
                if !self.has_utreexo_peers() {
                    return Ok(Redo::Done);
                }
                if !self.has_block(block_hash) {
                    // If we don't have the block anymore, we can't ask for the proof
                    return Ok(Redo::Done);
                }
                if self.common.inflight.contains_key(*req) {
                    // If we already have an inflight request for this block, we don't need to redo it
                    return Ok(Redo::Done);
                }
                self.ask(
                    *req,
                    NodeRequest::GetBlockProof((*block_hash, Bitmap::new(), Bitmap::new())),
                    pick,
                    now,
                )
            },
            InflightRequests::Blocks(block) => Ok(Redo::RequestBlock(*block)),
            InflightRequests::Headers => match &chain.locator {
                Ok(hashes) => self.ask(
                    *req,
                    NodeRequest::GetHeaders(copy_hashes(hashes)),
                    pick,
                    now,
                ),
                Err(e) => Err(WireError::Chain(*e)),
            },
            InflightRequests::UtreexoState(_) => self.ask(
                *req,
                NodeRequest::GetUtreexoState((chain.genesis, 0)),
                pick,
                now,
            ),
            InflightRequests::GetFilters => {
                if !self.has_compact_filters_peer() {
                    return Ok(Redo::Done);
                }
                self.ask(*req, NodeRequest::GetFilter((chain.genesis, 0)), pick, now)
            },
            InflightRequests::Connect(_) | InflightRequests::GetAddresses => {
                // We don't need to do anything here
                Ok(Redo::Done)
            },
        }
    }

    /// Sends a request again, to a peer that is likely to answer fast. Asking for a block is
    /// left to the caller.
    pub fn redo_inflight_request(&mut self, req: &InflightRequests, chain: &ChainAnswers) -> (r:
        Result<Redo, WireError>)
        ensures
            exists|pick: Option<u32>, now: Instant|
                old(self)@.fast_pick(req.service(), pick) && (final(self)@, r) == #[trigger] old(
                    self,
                )@.redone(*req, pick, *chain, now),
    {
        let now = self.common.clock.now();
        let pick = self.choose_peer_by_latency(req.required_service());
        self.redo_with_pick(req, pick, chain, now)
    }

    /// Sends a request again that was taken out, to the peer that was chosen. It is never
    /// dropped: where that fails it is put back as it was.
    pub fn redo_or_restore(
        &mut self,
        req: &InflightRequests,
        held: (PeerId, Instant),
        pick: Option<PeerId>,
        chain: &ChainAnswers,
        now: Instant,
    ) -> (r: Result<Redo, WireError>)
        ensures
            (final(self)@, r) == old(self)@.redone_or_restored(*req, held, pick, *chain, now),
    {
        match self.redo_with_pick(req, pick, chain, now) {
            Ok(redo) => Ok(redo),
            Err(e) => {
                self.common.inflight.insert(*req, held);
                Err(e)
            },
        }
    }

    /// Forgets a peer that left at `secs`, and takes note at its address of how that went.
    pub fn drop_peer(&mut self, peer: PeerId, idx: usize, secs: u64)
        ensures
            final(self)@ == old(self)@.dropped(peer, idx, secs),
    {
        if let Some(p) = self.take_peer(peer) {
            let state = match p.state {
                PeerStatus::Ready => AddressState::Tried(secs),
                PeerStatus::Awaiting => AddressState::Failed(secs),
                PeerStatus::Banned => AddressState::Banned(
                    secs.saturating_add(self.context.ban_time),
                ),
            };
            self.common.address_man.update_set_state_at(idx, state, secs);
        }
        remove_id(&mut self.common.peer_ids, peer);
        self.common.peer_by_service.remove_everywhere(peer);
    }

    /// Deals at first with a request that was not answered in time: feelers and connections
    /// that were never completed are closed, any other peer is punished.
    pub fn begin_expiry(&mut self, req: &InflightRequests) -> (r: Result<Expiry, WireError>)
        ensures
            (final(self)@, r) == old(self)@.expiry(*req),
    {
        let Some((peer, time)) = self.common.inflight.remove(*req) else {
            assert(self@.inflight =~= old(self)@.inflight);
            return Ok(Expiry::Settled);
        };
        // If a feeler connection times out, we ban them at the first message
        let is_feeler = match self.peer(peer) {
            Some(data) => data.kind == ConnectionKind::Feeler,
            None => false,
        };
        if is_feeler {
            match self.send_to_peer(peer, NodeRequest::Shutdown) {
                Err(e) => {
                    return Err(e);
                },
                Ok(()) => {},
            }
            let _ = self.take_peer(peer);
            return Ok(Expiry::Settled);
        }
        if let InflightRequests::Connect(_) = req {
            // ignore the output as it might fail due to the task being cancelled
            let _ = self.send_to_peer(peer, NodeRequest::Shutdown);
            let _ = self.take_peer(peer);
            return Ok(Expiry::Settled);
        }
        // Increase the banscore and try banning the peer if needed, then re-request
        let _ = self.increase_banscore(peer, 1);
        Ok(Expiry::Retry(peer, time))
    }

    /// Deals with a request that was not answered in time.
    pub fn expire_request(&mut self, req: &InflightRequests, chain: &ChainAnswers, now: Instant)
        -> (r: Result<Redo, WireError>)
        ensures
            exists|pick: Option<u32>| #[trigger]
                old(self)@.expiry_pick(*req, pick) && (final(self)@, r) == old(self)@.expired(
                    *req,
                    pick,
                    *chain,
                    now,
                ),
    {
        match self.begin_expiry(req) {
            Err(e) => {
                assert(old(self)@.expiry_pick(*req, None));
                Err(e)
            },
            Ok(Expiry::Settled) => {
                assert(old(self)@.expiry_pick(*req, None));
                Ok(Redo::Done)
            },
            Ok(Expiry::Retry(peer, time)) => {
                let pick = self.choose_peer_by_latency(req.required_service());
                assert(old(self)@.expiry_pick(*req, pick));
                self.redo_or_restore(req, (peer, time), pick, chain, now)
            },
        }
    }

    /// Whether something has to be done about a request.
    fn is_concerned(&self, cause: &Cause, now: Instant, req: &InflightRequests) -> (r: bool)
        ensures
            r == self@.concerns(*cause, now, *req),
    {
        match self.common.inflight.get(*req) {
            None => false,
            Some((peer, since)) => match cause {
                Cause::Gone(gone) => peer == *gone,
                Cause::Late => {
                    let waited: u64 = now.secs_since(since);
                    waited > self.context.request_timeout || (matches!(
                        req,
                        InflightRequests::Connect(_)
                    ) && waited > self.context.connection_timeout)
                },
            },
        }
    }

    /// All the requests something has to be done about.
    pub fn enumerate(&self, cause: &Cause, now: Instant) -> (r: Vec<InflightRequests>)
        ensures
            self@.enumerates(*cause, now, r@),
    {
        let keys = self.common.inflight.keys();
        let mut found: Vec<InflightRequests> = Vec::new();
        let mut i: usize = 0;
        while i < keys.len()
            invariant
                i <= keys@.len(),
                keys@.no_duplicates(),
                keys@.to_set() == self@.inflight.dom(),
                found@.no_duplicates(),
                forall|req: InflightRequests| #[trigger]
                    found@.contains(req) <==> keys@.take(i as int).contains(req)
                        && self@.concerns(*cause, now, req),
            decreases keys@.len() - i,
        {
            let req = keys[i];
            let ghost before = found@;
            assert(!keys@.take(i as int).contains(req));
            assert(!before.contains(req));
            if self.is_concerned(cause, now, &req) {
                found.push(req);
            }
            assert forall|x: InflightRequests| #[trigger]
                found@.contains(x) <==> keys@.take(i + 1).contains(x) && self@.concerns(
                    *cause,
                    now,
                    x,
                ) by {
                lemma_push_contains(keys@.take(i as int), req, x);
                assert(keys@.take(i + 1) =~= keys@.take(i as int).push(req));
                lemma_push_contains(before, req, x);
                assert(before.contains(x) <==> keys@.take(i as int).contains(x)
                    && self@.concerns(*cause, now, x));
            }
            i = i + 1;
        }
        assert(keys@.take(i as int) =~= keys@);
        assert forall|req: InflightRequests| #[trigger]
            found@.contains(req) <==> self@.concerns(*cause, now, req) by {
            assert(keys@.contains(req) <==> keys@.to_set().contains(req));
        }
        found
    }

    /// Whether a request is left to the caller: a block has to be asked for again.
    fn is_deferred(&self, cause: &Cause, req: &InflightRequests) -> (r: bool)
        ensures
            r == self@.deferred(*cause, *req),
    {
        if !matches!(req, InflightRequests::Blocks(_)) {
            return false;
        }
        match cause {
            Cause::Gone(_) => true,
            Cause::Late => match self.common.inflight.get(*req) {
                None => false,
                Some((id, _)) => match self.peer(id) {
                    Some(data) => data.kind != ConnectionKind::Feeler,
                    None => true,
                },
            },
        }
    }

    /// Deals with one request; it was sent to the peer and at the time in `held`.
    fn take_step(
        &mut self,
        cause: &Cause,
        req: &InflightRequests,
        held: (PeerId, Instant),
        chain: &ChainAnswers,
        now: Instant,
        Ghost(before): Ghost<Map<InflightRequests, (u32, Instant)>>,
    ) -> (r: (Result<Redo, WireError>, Ghost<Option<u32>>))
        requires
            before[*req] == held,
        ensures
            old(self)@.step_pick(*cause, *req, r.1@),
            (final(self)@, r.0) == old(self)@.step(before, *cause, *req, r.1@, *chain, now),
    {
        if self.is_deferred(cause, req) {
            return (Ok(Redo::Done), Ghost(None));
        }
        match cause {
            Cause::Gone(_) => {
                let _ = self.common.inflight.remove(*req);
                let pick = self.choose_peer_by_latency(req.required_service());
                (self.redo_or_restore(req, held, pick, chain, now), Ghost(pick))
            },
            Cause::Late => {
                let result = self.expire_request(req, chain, now);
                let ghost pick = choose|pick: Option<u32>| #[trigger]
                    old(self)@.expiry_pick(*req, pick) && (self@, result) == old(self)@.expired(
                        *req,
                        pick,
                        *chain,
                        now,
                    );
                (result, Ghost(pick))
            },
        }
    }

    /// Deals with all the requests something has to be done about, up to the first that fails.
    /// Those for which a block has to be asked for again come back untouched.
    pub fn process_all(&mut self, cause: &Cause, chain: &ChainAnswers, now: Instant) -> (r: Result<
        Vec<InflightRequests>,
        WireError,
    >)
        ensures
            old(self)@.all_processed(
                *cause,
                *chain,
                now,
                final(self)@,
                left_over(r),
            ),
    {
        let order = self.enumerate(cause, now);
        assert forall|j: int| 0 <= j < order@.len() implies self@.inflight.contains_key(
            #[trigger] order@[j],
        ) by {
            assert(order@.contains(order@[j]));
        }
        let held = self.collect_held(&order);
        let ghost start = self@;
        let ghost mut picks = Seq::<Option<u32>>::empty();
        let mut left: Vec<InflightRequests> = Vec::new();
        let mut i: usize = 0;
        proof {
            assert(order@.take(0) =~= Seq::empty());
        }
        while i < order.len()
            invariant
                i <= order@.len(),
                order@.len() == held@.len(),
                start == old(self)@,
                start.enumerates(*cause, now, order@),
                forall|j: int|
                    0 <= j < order@.len() ==> #[trigger] held@[j] == start.inflight[order@[j]],
                picks.len() == i,
                (self@, Ok::<(), WireError>(())) == start.processed(
                    *cause,
                    order@.take(i as int),
                    picks,
                    *chain,
                    now,
                ),
                left@ == start.left_to_caller(
                    *cause,
                    order@.take(i as int),
                    picks,
                    *chain,
                    now,
                ),
                forall|j: int|
                    0 <= j < i ==> #[trigger] start.pick_at(*cause, order@, picks, *chain, now, j),
            decreases order@.len() - i,
        {
            let ghost before = self@;
            let ghost old_picks = picks;
            if self.is_deferred(cause, &order[i]) {
                left.push(order[i]);
            }
            let (result, Ghost(pick)) = self.take_step(
                cause,
                &order[i],
                held[i],
                chain,
                now,
                Ghost(start.inflight),
            );
            proof {
                picks = old_picks.push(pick);
                let next = order@.take(i + 1);
                assert(next.drop_last() =~= order@.take(i as int));
                assert(picks.take(i as int) =~= old_picks);
                assert forall|j: int| 0 <= j < i + 1 implies #[trigger] start.pick_at(
                    *cause,
                    order@,
                    picks,
                    *chain,
                    now,
                    j,
                ) by {
                    assert(picks.take(j) =~= old_picks.take(j));
                    if j < i {
                        assert(start.pick_at(*cause, order@, old_picks, *chain, now, j));
                    } else {
                        assert(old_picks.take(j) =~= old_picks);
                    }
                }
            }
            match result {
                Ok(_) => {},
                Err(e) => {
                    proof {
                        let rest = Seq::new(
                            (order@.len() - i - 1) as nat,
                            |k: int| None::<u32>,
                        );
                        let all = picks + rest;
                        assert(all.take(i + 1) =~= picks);
                        lemma_failure_stays(
                            start,
                            *cause,
                            order@,
                            all,
                            *chain,
                            now,
                            i + 1,
                        );
                        assert forall|j: int| 0 <= j < order@.len() implies #[trigger] start.pick_at(
                            *cause,
                            order@,
                            all,
                            *chain,
                            now,
                            j,
                        ) by {
                            if j <= i {
                                assert(all.take(j) =~= picks.take(j));
                                assert(start.pick_at(*cause, order@, picks, *chain, now, j));
                            } else {
                                let some = order@.take(j);
                                assert(some.take(i + 1) =~= order@.take(i + 1));
                                assert(all.take(j).take(i + 1) =~= picks);
                                lemma_failure_stays(
                                    start,
                                    *cause,
                                    some,
                                    all.take(j),
                                    *chain,
                                    now,
                                    i + 1,
                                );
                            }
                        }
                        assert(start.valid_picks(*cause, order@, all, *chain, now));
                    }
                    return Err(e);
                },
            }
            i = i + 1;
        }
        assert(order@.take(i as int) =~= order@);
        assert(start.valid_picks(*cause, order@, picks, *chain, now));
        Ok(left)
    }

    /// Takes a request out that is left to the caller, and tells to which peer and when it was
    /// sent.
    pub fn take_request(&mut self, req: &InflightRequests) -> (r: Option<(PeerId, Instant)>)
        ensures
            final(self)@ == old(self)@.without_request(*req),
            match r {
                Some(held) => old(self)@.inflight.contains_key(*req) && held == old(
                    self,
                )@.inflight[*req],
                None => !old(self)@.inflight.contains_key(*req),
            },
    {
        self.common.inflight.remove(*req)
    }

    /// Takes note of how asking for a block again went, for a request that was taken out. It is
    /// never dropped: where that failed it is put back as it was.
    pub fn settle_block_request(
        &mut self,
        req: InflightRequests,
        held: (PeerId, Instant),
        outcome: Result<(), WireError>,
    ) -> (r: Result<(), WireError>)
        ensures
            (final(self)@, r) == old(self)@.block_settled(req, held, outcome),
    {
        match outcome {
            Ok(()) => Ok(()),
            Err(e) => {
                self.common.inflight.insert(req, held);
                Err(e)
            },
        }
    }

    /// To which peer and when some requests were sent.
    fn collect_held(&self, order: &Vec<InflightRequests>) -> (r: Vec<(PeerId, Instant)>)
        requires
            forall|i: int|
                0 <= i < order@.len() ==> self@.inflight.contains_key(#[trigger] order@[i]),
        ensures
            r@.len() == order@.len(),
            forall|i: int| 0 <= i < r@.len() ==> #[trigger] r@[i] == self@.inflight[order@[i]],
    {
        let mut held: Vec<(PeerId, Instant)> = Vec::new();
        let mut i: usize = 0;
        while i < order.len()
            invariant
                i <= order@.len(),
                held@.len() == i,
                forall|j: int|
                    0 <= j < order@.len() ==> self@.inflight.contains_key(#[trigger] order@[j]),
                forall|j: int| 0 <= j < i ==> #[trigger] held@[j] == self@.inflight[order@[j]],
            decreases order@.len() - i,
        {
            assert(self@.inflight.contains_key(order@[i as int]));
            if let Some(entry) = self.common.inflight.get(order[i]) {
                held.push(entry);
            }
            i = i + 1;
        }
        held
    }

    /// Handles the end of a connection: the peer is forgotten, and what it did not answer is
    /// asked from others. Its block requests come back: the caller takes each out with
    /// [`Self::take_request`], asks for the block, and tells [`Self::settle_block_request`] how
    /// that went.
    pub fn handle_disconnection(&mut self, peer: u32, idx: usize, chain: &ChainAnswers) -> (r:
        Result<Vec<InflightRequests>, WireError>)
        ensures
            exists|secs: u64, now: Instant| #[trigger]
                old(self)@.dropped(peer, idx, secs).all_processed(
                    Cause::Gone(peer),
                    *chain,
                    now,
                    final(self)@,
                    left_over(r),
                ),
    {
        let secs: u64 = unix_seconds();
        self.drop_peer(peer, idx, secs);
        let now = self.common.clock.now();
        self.process_all(&Cause::Gone(peer), chain, now)
    }

    /// Checks whether some of our inflight requests have timed out.
    ///
    /// This function will check if any of our inflight requests have timed out, and if so,
    /// it will remove them from the inflight list and increase the banscore of the peer that
    /// sent the request. It will also resend the request to another peer. The requests for which
    /// a block has to be asked for again come back: the caller passes each to
    /// [`Self::expire_request`], asks for the block, and tells [`Self::settle_block_request`] how
    /// that went.
    pub fn check_for_timeout(&mut self, chain: &ChainAnswers) -> (r: Result<
        Vec<InflightRequests>,
        WireError,
    >)
        ensures
            exists|now: Instant| #[trigger]
                old(self)@.all_processed(
                    Cause::Late,
                    *chain,
                    now,
                    final(self)@,
                    left_over(r),
                ),
    {
        let now = self.common.clock.now();
        self.process_all(&Cause::Late, chain, now)
    }
}

} // verus!
