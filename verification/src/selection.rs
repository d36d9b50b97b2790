//! Which address to connect to next.

use vstd::prelude::*;
use vstd::std_specs::hash::*;

use crate::address_man::AddressMan;
use crate::book::{is_past, BookView, MAX_ATTEMPTS, RETRY_TIME};
use crate::buckets::{bucket, keys_of, lemma_filtered, remove_id};
use crate::clock::unix_seconds;
use crate::local_address::{AddressState, LocalAddress};
use crate::random::{choose_id, random_below};
use crate::service_flags::ServiceFlags;

verus! {

broadcast use group_hash_axioms;

/// Whether a connection may be tried at `now` with a peer in this state.
fn may_connect(state: AddressState, now: u64) -> (r: bool)
    ensures
        r == state.connectable(now),
{
    match state {
        AddressState::NeverTried | AddressState::Tried(_) => true,
        AddressState::Failed(when) => is_past(when, RETRY_TIME, now),
        AddressState::Banned(_) | AddressState::Connected => false,
    }
}

impl AddressMan {
    /// The good addresses offering a service that we are not connected to.
    pub fn good_candidates(&self, service: ServiceFlags) -> (r: Vec<usize>)
        ensures
            r@ == self@.offered(service),
    {
        let mut found: Vec<usize> = Vec::new();
        let ghost offers = |id: usize|
            self@.addresses.contains_key(id) && !(self@.addresses[id].state is Connected);
        proof {
            reveal(Seq::filter);
        }
        if let Some(ids) = self.good_peers_by_service.get(service) {
            let mut i: usize = 0;
            while i < ids.len()
                invariant
                    i <= ids@.len(),
                    offers == (|id: usize|
                        self@.addresses.contains_key(id) && !(
                        self@.addresses[id].state is Connected)),
                    found@ == ids@.take(i as int).filter(offers),
                decreases ids@.len() - i,
            {
                proof {
                    reveal(Seq::filter);
                    assert(ids@.take(i + 1).drop_last() =~= ids@.take(i as int));
                }
                if let Some(address) = self.get(ids[i]) {
                    if !matches!(address.state, AddressState::Connected) {
                        found.push(ids[i]);
                    }
                }
                i = i + 1;
            }
            assert(ids@.take(i as int) =~= ids@);
        }
        assert(found@ == bucket(self@.good_peers_by_service, service).filter(offers));
        found
    }

    /// The addresses offering a service, good or not, that a connection may be tried with.
    pub fn retry_candidates(&self, service: ServiceFlags, now: u64) -> (r: Vec<usize>)
        ensures
            r@ == self@.retriable(service, now),
    {
        let mut found: Vec<usize> = Vec::new();
        let ghost may = |id: usize|
            self@.addresses.contains_key(id) && self@.addresses[id].state.connectable(now);
        proof {
            reveal(Seq::filter);
        }
        if let Some(ids) = self.peers_by_service.get(service) {
            let mut i: usize = 0;
            while i < ids.len()
                invariant
                    i <= ids@.len(),
                    may == (|id: usize|
                        self@.addresses.contains_key(id) && self@.addresses[id].state.connectable(
                            now,
                        )),
                    found@ == ids@.take(i as int).filter(may),
                decreases ids@.len() - i,
            {
                proof {
                    reveal(Seq::filter);
                    assert(ids@.take(i + 1).drop_last() =~= ids@.take(i as int));
                }
                if let Some(address) = self.get(ids[i]) {
                    if may_connect(address.state, now) {
                        found.push(ids[i]);
                    }
                }
                i = i + 1;
            }
            assert(ids@.take(i as int) =~= ids@);
        }
        assert(found@ == bucket(self@.peers_by_service, service).filter(may));
        found
    }

    /// One of the good addresses offering a service that we are not connected to, at random.
    pub fn get_address_by_service(&self, service: ServiceFlags) -> (r: Option<
        (usize, LocalAddress),
    >)
        ensures
            match r {
                Some((id, address)) => {
                    &&& self@.offered(service).contains(id)
                    &&& self@.addresses.contains_key(id)
                    &&& address@ == self@.addresses[id]
                },
                None => self@.offered(service).len() == 0,
            },
    {
        let candidates = self.good_candidates(service);
        let id: usize = choose_id(&candidates)?;
        proof {
            lemma_offered(self@, service, id);
        }
        match self.get(id) {
            Some(address) => Some((id, address.clone())),
            None => None,
        }
    }

    /// Any address of the book, at random.
    fn any_address(&self) -> (r: Option<(usize, LocalAddress)>)
        ensures
            match r {
                Some((id, address)) => self@.addresses.contains_key(id) && address@
                    == self@.addresses[id],
                None => self@.addresses.len() == 0,
            },
    {
        let ids = keys_of(&self.addresses);
        assert(self@.addresses.dom() =~= self.addresses@.dom());
        if ids.is_empty() {
            return None;
        }
        let idx: usize = random_below(ids.len());
        let id: usize = ids[idx];
        assert(ids@.to_set().contains(id));
        match self.get(id) {
            Some(address) => Some((id, address.clone())),
            None => None,
        }
    }

    /// Attempt to find one random peer that advertises the required service
    ///
    /// If we cannot find a peer that advertises the required service, we return any peer
    /// that we have in our list of known peers. Luckily, either we'll connect to a peer that has
    /// this but we didn't know, or one of those peers will give us useful addresses.
    pub fn try_with_service(&self, service: ServiceFlags, now: u64) -> (r: Option<
        (usize, LocalAddress),
    >)
        ensures
            match r {
                Some((id, address)) => {
                    &&& self@.retriable(service, now).len() > 0 ==> self@.retriable(
                        service,
                        now,
                    ).contains(id)
                    &&& self@.addresses.contains_key(id)
                    &&& address@ == self@.addresses[id]
                },
                None => self@.addresses.len() == 0,
            },
    {
        let peers = self.retry_candidates(service, now);
        if peers.is_empty() {
            // if we can't find a peer that advertises the required service, get any peer
            return self.any_address();
        }
        let idx: usize = random_below(peers.len());
        let id: usize = peers[idx];
        proof {
            assert(peers@.contains(id));
            lemma_retriable(self@, service, now, id);
        }
        match self.get(id) {
            Some(address) => Some((id, address.clone())),
            None => None,
        }
    }

    /// A random address: one that advertises the required service, if we can find one.
    pub fn get_random_address(&self, service: ServiceFlags, now: u64) -> (r: Option<
        (usize, LocalAddress),
    >)
        ensures
            match r {
                Some((id, address)) => {
                    &&& self@.retriable(service, now).len() > 0 ==> self@.retriable(
                        service,
                        now,
                    ).contains(id)
                    &&& self@.addresses.contains_key(id)
                    &&& address@ == self@.addresses[id]
                },
                None => self@.addresses.len() == 0,
            },
    {
        if self.addresses.is_empty() {
            assert(self@.addresses.dom() =~= self.addresses@.dom());
            return None;
        }
        self.try_with_service(service, now)
    }

    /// Decides on an address that was picked: it comes back if a connection may be tried with
    /// it. One that failed too recently is not good any more.
    pub fn consider(
        &mut self,
        required_service: ServiceFlags,
        id: usize,
        peer: LocalAddress,
        now: u64,
    ) -> (r: Option<(usize, LocalAddress)>)
        ensures
            r == (if peer.state.connectable(now) {
                Some((id, peer))
            } else {
                None
            }),
            final(self)@ == (if peer.state is Failed && !peer.state.connectable(now) {
                old(self)@.demoted(required_service, id)
            } else {
                old(self)@
            }),
    {
        match peer.state {
            AddressState::NeverTried | AddressState::Tried(_) => {
                return Some((id, peer));
            },
            // if we are connected to this peer, don't try to connect again
            AddressState::Connected => {},
            AddressState::Failed(when) => {
                if is_past(when, RETRY_TIME, now) {
                    return Some((id, peer));
                }
                self.good_peers_by_service.remove_from(required_service, id);
                remove_id(&mut self.good_addresses, id);
            },
            AddressState::Banned(_) => {},
        }
        None
    }

    /// A random address to test whether the peer behind it is alive
    ///
    /// We don't care about the features it supports or even if it's a valid peer. The only
    /// thing we care about is that we haven't banned it, and are not connected already.
    pub fn get_feeler_address(&self) -> (r: Option<(usize, LocalAddress)>)
        ensures
            self@.feeler_outcome(picked(r)),
    {
        let (id, address) = self.any_address()?;
        // don't try to connect to a peer that is banned or already connected
        if matches!(address.state, AddressState::Banned(_)) || matches!(
            address.state,
            AddressState::Connected
        ) {
            return None;
        }
        Some((id, address))
    }

    /// Returns a new random address to open a new connection, we try to get addresses with
    /// a set of features supported for our peers
    ///
    /// If no peers are known with the required service bit, we may return a random peer.
    /// Service bits are learned from DNS seeds or peer gossip and may be outdated or
    /// inaccurate, so we sometimes try random peers expecting they might implement the service.
    pub fn get_address_to_connect(&mut self, required_service: ServiceFlags, feeler: bool) -> (r:
        Option<(usize, LocalAddress)>)
        ensures
            exists|now: u64| #[trigger]
                old(self)@.connect_outcome(required_service, feeler, now, picked(r), final(self)@),
    {
        let now: u64 = unix_seconds();
        self.get_address_to_connect_at(required_service, feeler, now)
    }

    /// Returns a new random address to open a new connection, the time being `now`.
    pub fn get_address_to_connect_at(
        &mut self,
        required_service: ServiceFlags,
        feeler: bool,
        now: u64,
    ) -> (r: Option<(usize, LocalAddress)>)
        ensures
            old(self)@.connect_outcome(required_service, feeler, now, picked(r), final(self)@),
    {
        if feeler {
            return self.get_feeler_address();
        }
        let mut attempt: usize = 0;
        let ghost mut ids = Seq::<usize>::empty();
        while attempt < MAX_ATTEMPTS
            invariant
                attempt <= MAX_ATTEMPTS,
                ids.len() == attempt,
                old(self)@.looked_in_vain(required_service, now, ids),
                self@ == old(self)@.looked_at(required_service, ids),
                !feeler,
            decreases MAX_ATTEMPTS - attempt,
        {
            let ghost before = self@;
            let pick = match self.get_address_by_service(required_service) {
                Some(pick) => Some(pick),
                None => self.get_random_address(required_service, now),
            };
            match pick {
                Some((id, peer)) => {
                    assert(before.next_pick(required_service, now, id));
                    let verdict = self.consider(required_service, id, peer, now);
                    if verdict.is_some() {
                        return verdict;
                    }
                    proof {
                        let more = ids.push(id);
                        assert(more.drop_last() =~= ids);
                        assert forall|i: int| 0 <= i < more.len() implies #[trigger] old(
                            self,
                        )@.vain_at(required_service, now, more, i) by {
                            if i < ids.len() {
                                assert(more.take(i) =~= ids.take(i));
                                assert(old(self)@.vain_at(required_service, now, ids, i));
                            } else {
                                assert(more.take(i) =~= ids);
                            }
                        }
                        ids = more;
                    }
                },
                None => {
                    return None;
                },
            }
            attempt = attempt + 1;
        }
        None
    }
}

/// A good address offering a service is in the book, and we are not connected to it.
proof fn lemma_offered(book: BookView, service: ServiceFlags, id: usize)
    requires
        book.offered(service).contains(id),
    ensures
        book.addresses.contains_key(id),
        !(book.addresses[id].state is Connected),
{
    let pred = |id: usize|
        book.addresses.contains_key(id) && !(book.addresses[id].state is Connected);
    lemma_filtered(bucket(book.good_peers_by_service, service), pred);
    assert(pred(id));
}

/// An address to try again is in the book, and may be tried.
proof fn lemma_retriable(book: BookView, service: ServiceFlags, now: u64, id: usize)
    requires
        book.retriable(service, now).contains(id),
    ensures
        book.addresses.contains_key(id),
        book.addresses[id].state.connectable(now),
{
    let pred = |id: usize|
        book.addresses.contains_key(id) && book.addresses[id].state.connectable(now);
    lemma_filtered(bucket(book.peers_by_service, service), pred);
    assert(pred(id));
}

/// What a picked address says.
pub open spec fn picked(pick: Option<(usize, LocalAddress)>) -> Option<
    (usize, crate::local_address::LocalAddressView),
> {
    match pick {
        Some((id, address)) => Some((id, address@)),
        None => None,
    }
}

} // verus!
