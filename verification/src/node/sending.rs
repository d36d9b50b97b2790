//! Sending requests to peers.

use vstd::prelude::*;

use crate::node::messages::{NodeRequest, RequestView, WireError};
use crate::node::peer::{PeerId, PeerStatus};
use crate::node::state::{NodeView, PeerFilter, UtreexoNode};
use crate::random::{choose_peer, sample_peers, total_weight, weighted_choice};
use crate::service_flags::{ServiceFlags, NONE};

verus! {

/// The weight of something that is as fast as can be.
pub const FULL_WEIGHT: u128 = 0x1_0000_0000_0000_0000;

/// A time no shorter than what the clock can tell apart.
pub open spec fn at_least_one(time: u64) -> u64 {
    if time == 0 {
        1
    } else {
        time
    }
}

/// The shortest of some times.
pub open spec fn fastest(times: Seq<u64>) -> u64
    decreases times.len(),
{
    if times.len() == 0 {
        u64::MAX
    } else if at_least_one(times.last()) < fastest(times.drop_last()) {
        at_least_one(times.last())
    } else {
        fastest(times.drop_last())
    }
}

/// The weight of a time next to the shortest one: the whole weight, over how many times longer
/// it is.
pub open spec fn latency_weight(lowest: u64, time: u64) -> u128 {
    (lowest * FULL_WEIGHT as int / at_least_one(time) as int) as u128
}

/// The weights of some times.
pub open spec fn weights_of(times: Seq<u64>) -> Seq<u128> {
    times.map_values(|time: u64| latency_weight(fastest(times), time))
}

/// No time is shorter than the shortest.
proof fn lemma_fastest(times: Seq<u64>)
    ensures
        fastest(times) >= 1,
        forall|i: int|
            0 <= i < times.len() ==> fastest(times) <= at_least_one(#[trigger] times[i]),
    decreases times.len(),
{
    if times.len() > 0 {
        lemma_fastest(times.drop_last());
        assert forall|i: int| 0 <= i < times.len() implies fastest(times) <= at_least_one(
            #[trigger] times[i],
        ) by {
            if i < times.len() - 1 {
                assert(times[i] == times.drop_last()[i]);
            }
        }
    }
}

/// A weight is more than nothing, and at most the whole.
proof fn lemma_weight(lowest: u64, time: u64)
    requires
        1 <= lowest <= at_least_one(time),
    ensures
        0 < lowest * FULL_WEIGHT as int / at_least_one(time) as int <= FULL_WEIGHT,
{
    let t = at_least_one(time) as int;
    let n = lowest as int;
    let full = FULL_WEIGHT as int;
    assert(n * full <= t * full) by (nonlinear_arith)
        requires
            n <= t,
            0 <= full,
    ;
    assert(t <= n * full) by (nonlinear_arith)
        requires
            1 <= n,
            0 <= full,
            t <= full,
    ;
    assert(1 <= (n * full) / t <= full) by (nonlinear_arith)
        requires
            0 < t,
            t <= n * full <= t * full,
    ;
}

/// Weights that are at most the whole each sum up to at most as many wholes.
proof fn lemma_total(weights: Seq<u128>)
    requires
        forall|i: int| 0 <= i < weights.len() ==> 0 < #[trigger] weights[i] <= FULL_WEIGHT,
    ensures
        weights.len() <= total_weight(weights) <= weights.len() * FULL_WEIGHT,
    decreases weights.len(),
{
    if weights.len() > 0 {
        lemma_total(weights.drop_last());
        assert(0 < weights[weights.len() - 1] <= FULL_WEIGHT);
        assert((weights.len() - 1) * FULL_WEIGHT + FULL_WEIGHT == weights.len() * FULL_WEIGHT)
            by (nonlinear_arith);
    }
}

/// How likely each of some times makes its peer to be chosen: each weight is the lowest time
/// over the peer's own, in fractions of a whole. With times of 50ms and 100ms, the second
/// weight is half the first, and the probability of being chosen is 2/3 and 1/3.
pub fn latency_weights(times: &Vec<u64>) -> (r: Vec<u128>)
    ensures
        r@ == weights_of(times@),
        forall|i: int| 0 <= i < r@.len() ==> 0 < #[trigger] r@[i] <= FULL_WEIGHT,
{
    let mut lowest: u64 = u64::MAX;
    let mut i: usize = 0;
    while i < times.len()
        invariant
            i <= times@.len(),
            lowest == fastest(times@.take(i as int)),
        decreases times@.len() - i,
    {
        let time: u64 = if times[i] == 0 {
            1
        } else {
            times[i]
        };
        if time < lowest {
            lowest = time;
        }
        assert(times@.take(i + 1).drop_last() =~= times@.take(i as int));
        i = i + 1;
    }
    assert(times@.take(i as int) =~= times@);
    proof {
        lemma_fastest(times@);
    }
    let mut weights: Vec<u128> = Vec::new();
    i = 0;
    while i < times.len()
        invariant
            i <= times@.len(),
            lowest == fastest(times@),
            lowest >= 1,
            forall|j: int| 0 <= j < times@.len() ==> lowest <= at_least_one(#[trigger] times@[j]),
            weights@.len() == i,
            forall|j: int|
                0 <= j < i ==> #[trigger] weights@[j] == latency_weight(lowest, times@[j]) && 0
                    < weights@[j] <= FULL_WEIGHT,
        decreases times@.len() - i,
    {
        let time: u64 = if times[i] == 0 {
            1
        } else {
            times[i]
        };
        proof {
            lemma_weight(lowest, times@[i as int]);
            assert(lowest * FULL_WEIGHT <= u64::MAX * FULL_WEIGHT) by (nonlinear_arith)
                requires
                    lowest <= u64::MAX,
            ;
        }
        weights.push(lowest as u128 * FULL_WEIGHT / time as u128);
        i = i + 1;
    }
    assert(weights@ =~= weights_of(times@));
    weights
}

/// The peer at the position that was drawn, if one was drawn.
pub fn drawn_peer(ids: &Vec<PeerId>, drawn: Option<usize>) -> (r: Option<PeerId>)
    ensures
        r == match drawn {
            Some(position) if position < ids@.len() => Some(ids@[position as int]),
            _ => None,
        },
{
    match drawn {
        Some(position) if position < ids.len() => Some(ids[position]),
        _ => None,
    }
}

impl NodeView {
    /// Whether a choice among the peers that offer a service by how fast they answer may come
    /// out like this.
    pub open spec fn fast_pick(self, service: ServiceFlags, pick: Option<u32>) -> bool {
        match pick {
            Some(id) => self.peers_where(PeerFilter::Measured(service)).contains(id),
            None => self.peers_where(PeerFilter::Measured(service)).len() == 0,
        }
    }

    /// How long some peers take to answer.
    pub open spec fn latencies(self, ids: Seq<u32>) -> Seq<u64> {
        ids.map_values(|id: u32| self.peers[id].message_time->0)
    }

    /// The peers to choose from when any will do that offers a service.
    pub open spec fn candidates(self, service: ServiceFlags) -> Seq<u32> {
        if service.0 == NONE {
            self.peer_ids
        } else {
            self.offering(service)
        }
    }

    /// Whether a choice among the peers that offer a service may come out like this.
    pub open spec fn random_pick(self, service: ServiceFlags, pick: Option<u32>) -> bool {
        match pick {
            Some(id) => self.peers.len() > 0 && self.candidates(service).contains(id),
            None => self.peers.len() == 0 || self.candidates(service).len() == 0,
        }
    }

    /// What comes of handing a request over to the peer that was chosen, if there is one.
    pub open spec fn sent_to_pick(self, pick: Option<u32>, request: RequestView) -> (
        NodeView,
        Result<u32, WireError>,
    ) {
        match pick {
            Some(id) if self.peers.contains_key(id) => {
                let (after, sent) = self.handed_over(id, request);
                (
                    after,
                    match sent {
                        Ok(_) => Ok(id),
                        Err(e) => Err(e),
                    },
                )
            },
            _ => (self, Err(WireError::NoPeersAvailable)),
        }
    }

    /// The node after a request was handed over to some peers, those left out that do not take
    /// it.
    pub open spec fn handed_to_all(self, ids: Seq<u32>, request: RequestView) -> NodeView
        decreases ids.len(),
    {
        if ids.len() == 0 {
            self
        } else {
            self.handed_to_all(ids.drop_last(), request).handed_over(ids.last(), request).0
        }
    }

    /// Whether these are all the peers that pass, each once.
    pub open spec fn lists(self, filter: PeerFilter, ids: Seq<u32>) -> bool {
        ids.no_duplicates() && ids.to_set() == self.peers_where(filter)
    }

    /// Whether these are `n` of the peers that pass, or all of them when there are fewer, each
    /// once.
    pub open spec fn samples(self, filter: PeerFilter, n: usize, ids: Seq<u32>) -> bool {
        &&& ids.no_duplicates()
        &&& ids.to_set().subset_of(self.peers_where(filter))
        &&& ids.len() == if n <= self.peers_where(filter).len() {
            n as nat
        } else {
            self.peers_where(filter).len()
        }
    }
}

impl UtreexoNode {
    /// The peers to choose from by how fast they answer, each once, and how much each weighs.
    pub fn latency_candidates(&self, service: ServiceFlags) -> (r: (Vec<PeerId>, Vec<u128>))
        ensures
            self@.lists(PeerFilter::Measured(service), r.0@),
            r.1@ == weights_of(self@.latencies(r.0@)),
            forall|i: int| 0 <= i < r.1@.len() ==> 0 < #[trigger] r.1@[i] <= FULL_WEIGHT,
    {
        let ids = self.peers_where(&PeerFilter::Measured(service));
        let mut times: Vec<u64> = Vec::new();
        let mut i: usize = 0;
        while i < ids.len()
            invariant
                i <= ids@.len(),
                times@ =~= self@.latencies(ids@.take(i as int)),
                ids@.to_set() == self@.peers_where(PeerFilter::Measured(service)),
            decreases ids@.len() - i,
        {
            assert(ids@.to_set().contains(ids@[i as int]));
            if let Some(peer) = self.peer(ids[i]) {
                if let Some(time) = peer.message_time {
                    times.push(time);
                }
            }
            i = i + 1;
        }
        assert(ids@.take(i as int) =~= ids@);
        let weights = latency_weights(&times);
        (ids, weights)
    }

    /// Picks a `Ready` peer supporting `service`, biased toward lower message latency.
    ///
    /// Each of the [`Self::latency_candidates`] is chosen as likely as it weighs.
    pub fn choose_peer_by_latency(&self, service: ServiceFlags) -> (r: Option<PeerId>)
        ensures
            self@.fast_pick(service, r),
    {
        let (ids, weights) = self.latency_candidates(service);
        proof {
            ids@.unique_seq_to_set();
            lemma_total(weights@);
            assert(weights@.len() * FULL_WEIGHT <= u64::MAX * FULL_WEIGHT) by (nonlinear_arith)
                requires
                    weights@.len() <= u64::MAX,
            ;
        }
        let drawn = weighted_choice(&weights);
        if let Some(position) = drawn {
            assert(ids@.to_set().contains(ids@[position as int]));
        }
        drawn_peer(&ids, drawn)
    }

    /// Hands a request over to a peer there is a connection to.
    pub(crate) fn hand_over(&mut self, id: u32, request: NodeRequest) -> (r: Result<(), WireError>)
        requires
            old(self)@.peers.contains_key(id),
        ensures
            (final(self)@, r) == old(self)@.handed_over(id, request@),
    {
        let open = match self.peer(id) {
            Some(peer) => peer.takes_requests,
            None => false,
        };
        if !open {
            return Err(WireError::ChannelSend);
        }
        self.common.outbox.push((id, request));
        assert(self@.outbox =~= old(self)@.outbox.push((id, request@)));
        Ok(())
    }

    /// Hands a request over to the peer that was chosen, if there is one.
    pub fn send_to_picked(&mut self, request: NodeRequest, pick: Option<PeerId>) -> (r: Result<
        PeerId,
        WireError,
    >)
        ensures
            (final(self)@, r) == old(self)@.sent_to_pick(pick, request@),
    {
        match pick {
            Some(id) => {
                if self.peer(id).is_none() {
                    return Err(WireError::NoPeersAvailable);
                }
                match self.hand_over(id, request) {
                    Ok(()) => Ok(id),
                    Err(e) => Err(e),
                }
            },
            None => Err(WireError::NoPeersAvailable),
        }
    }

    /// Sends a request to an initialized peer that supports `required_service`, chosen via a
    /// latency-weighted distribution (lower latency => more likely).
    ///
    /// Returns an error if no ready peer has `required_service` or if sending the request failed.
    pub fn send_to_fast_peer(
        &mut self,
        request: NodeRequest,
        required_service: ServiceFlags,
    ) -> (r: Result<PeerId, WireError>)
        ensures
            exists|pick: Option<u32>| #[trigger]
                old(self)@.fast_pick(required_service, pick) && (final(self)@, r) == old(
                    self,
                )@.sent_to_pick(pick, request@),
    {
        let pick = self.choose_peer_by_latency(required_service);
        self.send_to_picked(request, pick)
    }

    /// Sends a request to any peer that completed the handshake and supports
    /// `required_service`.
    ///
    /// Returns an error if there is none or if sending the request failed.
    pub fn send_to_random_peer(&mut self, req: NodeRequest, required_service: ServiceFlags) -> (r:
        Result<u32, WireError>)
        ensures
            exists|pick: Option<u32>| #[trigger]
                old(self)@.random_pick(required_service, pick) && (final(self)@, r) == old(
                    self,
                )@.sent_to_pick(pick, req@),
    {
        let pick = if self.common.peers.is_empty() {
            None
        } else if required_service.0 == NONE {
            choose_peer(&self.common.peer_ids)
        } else {
            match self.common.peer_by_service.get(required_service) {
                Some(peers) => choose_peer(peers),
                None => None,
            }
        };
        assert(self@.random_pick(required_service, pick));
        self.send_to_picked(req, pick)
    }

    /// Sends a request to a peer, if it completed the handshake.
    pub fn send_to_peer(&mut self, peer_id: u32, req: NodeRequest) -> (r: Result<(), WireError>)
        ensures
            (final(self)@, r) == old(self)@.sent(peer_id, req@),
    {
        let initialized = match self.peer(peer_id) {
            Some(peer) => peer.state != PeerStatus::Awaiting,
            None => false,
        };
        if initialized {
            self.hand_over(peer_id, req)
        } else {
            Ok(())
        }
    }

    /// Hands a request over to some peers, whether or not they take it.
    fn hand_to_all(&mut self, ids: &Vec<u32>, request: &NodeRequest)
        requires
            forall|i: int| 0 <= i < ids@.len() ==> old(self)@.peers.contains_key(#[trigger] ids@[i]),
        ensures
            final(self)@ == old(self)@.handed_to_all(ids@, request@),
    {
        let mut i: usize = 0;
        while i < ids.len()
            invariant
                i <= ids@.len(),
                self@.peers == old(self)@.peers,
                self@ == old(self)@.handed_to_all(ids@.take(i as int), request@),
                forall|j: int|
                    0 <= j < ids@.len() ==> old(self)@.peers.contains_key(#[trigger] ids@[j]),
            decreases ids@.len() - i,
        {
            assert(old(self)@.peers.contains_key(ids@[i as int]));
            let _ = self.hand_over(ids[i], request.clone());
            assert(ids@.take(i + 1).drop_last() =~= ids@.take(i as int));
            i = i + 1;
        }
        assert(ids@.take(i as int) =~= ids@);
    }

    /// Sends the same request to all connected peers
    ///
    /// This function is best-effort, meaning that some peers may not receive the request if they
    /// are disconnected or if there is an error sending the request. We intentionally won't
    /// propagate the error to the caller, as this would request an early return from the function,
    /// which would prevent us from sending the request to the peers the comes after the first
    /// erroing one.
    pub fn broadcast_to_peers(&mut self, request: NodeRequest)
        ensures
            exists|ids: Seq<u32>| #[trigger]
                old(self)@.lists(PeerFilter::Ready, ids) && final(self)@ == old(
                    self,
                )@.handed_to_all(ids, request@),
    {
        let ids = self.peers_where(&PeerFilter::Ready);
        assert forall|i: int| 0 <= i < ids@.len() implies self@.peers.contains_key(
            #[trigger] ids@[i],
        ) by {
            assert(ids@.to_set().contains(ids@[i]));
        }
        assert(self@.lists(PeerFilter::Ready, ids@));
        self.hand_to_all(&ids, &request);
    }

    /// Asks any peer for the addresses it knows.
    pub fn ask_for_addresses(&mut self) -> (r: Result<(), WireError>)
        ensures
            exists|pick: Option<u32>| #[trigger]
                old(self)@.random_pick(ServiceFlags(NONE), pick) && {
                    let (after, sent) = old(self)@.sent_to_pick(pick, RequestView::GetAddresses);
                    &&& final(self)@ == after
                    &&& r == match sent {
                        Ok(_) => Ok::<(), WireError>(()),
                        Err(e) => Err(e),
                    }
                },
    {
        match self.send_to_random_peer(NodeRequest::GetAddresses, ServiceFlags(NONE)) {
            Ok(_) => Ok(()),
            Err(e) => Err(e),
        }
    }

    /// Tries to randomly disconnect up to `n` non-protected-feature peers.
    pub fn disconnect_random_peers(&mut self, n: usize, protected_services: &[ServiceFlags])
        ensures
            exists|ids: Seq<u32>| #[trigger]
                old(self)@.samples(PeerFilter::Expendable(protected_services), n, ids)
                    && final(self)@ == old(self)@.handed_to_all(ids, RequestView::Shutdown),
    {
        let all = self.peers_where(&PeerFilter::Expendable(protected_services));
        let ids = sample_peers(&all, n);
        proof {
            lemma_sample(all@, ids@);
        }
        assert forall|i: int| 0 <= i < ids@.len() implies self@.peers.contains_key(
            #[trigger] ids@[i],
        ) by {
            assert(ids@.to_set().contains(ids@[i]));
            assert(all@.to_set().contains(ids@[i]));
        }
        assert(self@.samples(PeerFilter::Expendable(protected_services), n, ids@));
        self.hand_to_all(&ids, &NodeRequest::Shutdown);
    }
}

/// What is sampled from different things are different things of those.
proof fn lemma_sample(all: Seq<u32>, ids: Seq<u32>)
    requires
        all.no_duplicates(),
        ids.to_multiset().subset_of(all.to_multiset()),
    ensures
        ids.no_duplicates(),
        ids.to_set().subset_of(all.to_set()),
{
    all.lemma_multiset_has_no_duplicates();
    all.to_multiset_ensures();
    ids.to_multiset_ensures();
    assert forall|id: u32| ids.to_multiset().contains(id) implies ids.to_multiset().count(id)
        == 1 by {
        assert(all.to_multiset().count(id) >= ids.to_multiset().count(id));
        assert(all.to_multiset().contains(id));
    }
    ids.lemma_multiset_has_no_duplicates_conv();
    assert forall|id: u32| ids.to_set().contains(id) implies all.to_set().contains(id) by {
        assert(ids.contains(id));
        assert(ids.to_multiset().count(id) > 0);
        assert(all.to_multiset().count(id) > 0);
        assert(all.contains(id));
    }
}

} // verus!
