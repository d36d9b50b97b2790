//! Address manager is a module that keeps track of known peer addresses and associated
//! metadata. This module is very important in keeping our node protected against targeted
//! attacks, like eclipse attacks.

use std::collections::HashMap;
use vstd::prelude::*;
use vstd::std_specs::hash::*;
use vstd::std_specs::iter::IteratorSpec;

use crate::book::{
    is_past, BookView, ASSUME_STALE, MIN_ADDRESSES, MIN_ADDRESSES_CBF, MIN_ADDRESSES_UTREEXO,
};
use crate::buckets::{bucket, contains_id, keys_of, remove_id, with_id, without, Buckets};
use crate::clock::unix_seconds;
use crate::local_address::{AddressState, LocalAddress, LocalAddressView};
use crate::net_addr::{AddrV2, BitcoinSocketAddr, ReachableNetworks};
use crate::service_flags::{ServiceFlags, COMPACT_FILTERS, NONE, UTREEXO, UTREEXO_ARCHIVE};
use crate::stats::{ConnectionStats, NetworkStats};

verus! {

broadcast use group_hash_axioms;

/// How many addresses we keep in our address manager
pub const MAX_ADDRESSES: usize = 50_000;

/// A module that keeps track of known addresses and chooses addresses that our node can connect
pub struct AddressMan {
    /// A map of all peers we know, mapping the address id to the actual address.
    pub addresses: HashMap<usize, LocalAddress>,
    /// All indexes of "good" addresses
    ///
    /// Good peers are those which we think are live, and haven't banned yet.
    /// If we try to connect with one peer, and the connection doesn't succeed,
    /// this peer is assumed to be down and removed from good addresses for some time.
    pub good_addresses: Vec<usize>,
    /// The ids of good peers, by the services they offer
    ///
    /// We use this to make peer selection, if we are looking for a specific kind of peer (like
    /// utreexo or CBF peers)
    pub good_peers_by_service: Buckets<usize>,
    /// The ids of peers, by the services they offer
    ///
    /// This works similarly to `good_peers_by_service`. However, we keep all peers here, not
    /// only good peers
    pub peers_by_service: Buckets<usize>,
    /// The maximum number of entries this address manager can hold
    pub max_size: usize,
    /// The networks we can reach
    pub reachable_networks: Vec<ReachableNetworks>,
}

impl View for AddressMan {
    type V = BookView;

    open spec fn view(&self) -> BookView {
        BookView {
            addresses: self.addresses@.map_values(|address: LocalAddress| address@),
            good_addresses: self.good_addresses@,
            good_peers_by_service: self.good_peers_by_service@,
            peers_by_service: self.peers_by_service@,
            max_size: self.max_size,
            reachable_networks: self.reachable_networks@.to_set(),
        }
    }
}

impl Clone for AddressMan {
    fn clone(&self) -> (r: Self)
        ensures
            r@ == self@,
    {
        let good_addresses = self.good_addresses.clone();
        let reachable_networks = self.reachable_networks.clone();
        assert(good_addresses@ =~= self.good_addresses@);
        assert(reachable_networks@ =~= self.reachable_networks@);
        AddressMan {
            addresses: self.addresses.clone(),
            good_addresses,
            good_peers_by_service: self.good_peers_by_service.clone(),
            peers_by_service: self.peers_by_service.clone(),
            max_size: self.max_size,
            reachable_networks,
        }
    }
}

/// Addresses as they read.
pub open spec fn views(addresses: Seq<LocalAddress>) -> Seq<LocalAddressView> {
    addresses.map_values(|address: LocalAddress| address@)
}

/// Calls `sort_by_key` of the standard library with the second number as the key: the same
/// pairs, in ascending order of it.
#[verifier::external_body]
fn sort_by_age(entries: &mut Vec<(usize, u64)>)
    ensures
        final(entries)@.to_multiset() == old(entries)@.to_multiset(),
        forall|i: int, j: int|
            0 <= i <= j < final(entries)@.len() ==> (#[trigger] final(entries)@[i]).1 <= (
            #[trigger] final(entries)@[j]).1,
{
    entries.sort_by_key(|entry| entry.1)
}

impl AddressMan {
    /// Creates a new address manager
    ///
    /// `max_size` is the maximum number of addresses to keep in memory. If None is provided,
    /// a default of 50,000 addresses is used.
    pub fn new(max_size: Option<usize>, reachable_networks: &[ReachableNetworks]) -> (r: Self)
        ensures
            r@ == (BookView {
                addresses: Map::empty(),
                good_addresses: Seq::empty(),
                good_peers_by_service: Map::empty(),
                peers_by_service: Map::empty(),
                max_size: match max_size {
                    Some(size) => size,
                    None => MAX_ADDRESSES,
                },
                reachable_networks: reachable_networks@.to_set(),
            }),
            max_size is None ==> r@.max_size == 50_000,
    {
        let mut networks: Vec<ReachableNetworks> = Vec::new();
        let mut i: usize = 0;
        while i < reachable_networks.len()
            invariant
                i <= reachable_networks@.len(),
                networks@ == reachable_networks@.take(i as int),
            decreases reachable_networks@.len() - i,
        {
            networks.push(reachable_networks[i]);
            assert(networks@ =~= reachable_networks@.take(i + 1));
            i = i + 1;
        }
        assert(networks@ =~= reachable_networks@);
        let r = AddressMan {
            addresses: HashMap::new(),
            good_addresses: Vec::new(),
            good_peers_by_service: Buckets::new(),
            peers_by_service: Buckets::new(),
            max_size: max_size.unwrap_or(MAX_ADDRESSES),
            reachable_networks: networks,
        };
        assert(r@.addresses =~= Map::empty());
        r
    }

    /// Returns the current timestamp since the epoch. Nothing is promised of the value.
    pub fn time_since_unix() -> (r: u64) {
        unix_seconds()
    }

    /// Takes note of an address under its id, in place of any other.
    fn put(&mut self, id: usize, address: LocalAddress)
        ensures
            final(self)@ == old(self)@.with_address(id, address@),
    {
        self.addresses.insert(id, address);
        assert(self@.addresses =~= old(self)@.addresses.insert(id, address@));
    }

    /// Takes the address with an id out, and nothing else.
    fn take(&mut self, id: usize) -> (r: Option<LocalAddress>)
        ensures
            final(self)@ == (BookView {
                addresses: old(self)@.addresses.remove(id),
                ..old(self)@
            }),
            match r {
                Some(address) => old(self)@.addresses.contains_key(id) && address@ == old(
                    self,
                )@.addresses[id],
                None => !old(self)@.addresses.contains_key(id),
            },
    {
        let r = self.addresses.remove(&id);
        assert(self@.addresses =~= old(self)@.addresses.remove(id));
        r
    }

    /// The address with an id.
    pub fn get(&self, id: usize) -> (r: Option<&LocalAddress>)
        ensures
            match r {
                Some(address) => self@.addresses.contains_key(id) && address@
                    == self@.addresses[id],
                None => !self@.addresses.contains_key(id),
            },
    {
        self.addresses.get(&id)
    }

    /// Whether an address is in the book, under any id.
    pub fn knows(&self, socket: &BitcoinSocketAddr) -> (r: bool)
        ensures
            r == self@.knows(socket@),
    {
        let ghost all = self.addresses.iter().remaining();
        for entry in it: self.addresses.iter()
            invariant
                it.seq() == all,
                all.len() == self.addresses@.dom().len(),
                forall|j: int|
                    0 <= j < it.index() ==> (#[trigger] all[j]).1.address@ != socket@,
        {
            if entry.1.address.same_as(socket) {
                assert(self.addresses@.contains_key(*all[it.index()].0));
                assert(self@.addresses.contains_key(*entry.0));
                return true;
            }
        }
        assert forall|id: usize| #[trigger]
            self@.addresses.contains_key(id) implies self@.addresses[id].address != socket@ by {
            assert(self.addresses@.contains_key(id));
            assert(all.contains((&id, &self.addresses@[id])));
        }
        false
    }

    /// Check if we can reach this address based on our reachable networks
    pub fn is_net_reachable(&self, address: &LocalAddress) -> (r: bool)
        ensures
            r == self@.reaches(address@.address.addr),
    {
        match address.as_addrv2().network() {
            Some(network) => {
                let mut i: usize = 0;
                while i < self.reachable_networks.len()
                    invariant
                        address@.address.addr.network() == Some(network),
                        i <= self.reachable_networks@.len(),
                        forall|j: int| 0 <= j < i ==> self.reachable_networks@[j] != network,
                    decreases self.reachable_networks@.len() - i,
                {
                    if self.reachable_networks[i] == network {
                        assert(self.reachable_networks@.to_set().contains(network));
                        return true;
                    }
                    i = i + 1;
                }
                false
            },
            None => false,
        }
    }

    /// Puts an address into the bucket of a service, if it offers that service.
    fn push_if_has_service(&mut self, address: &LocalAddress, service: ServiceFlags)
        ensures
            final(self)@ == old(self)@.indexed(address@, service),
    {
        if !address.services.has(service) {
            return;
        }
        self.peers_by_service.add_once(service, address.id);
        if address.is_good_address() {
            self.good_peers_by_service.add_once(service, address.id);
        } else {
            self.good_peers_by_service.ensure_bucket(service);
        }
    }

    /// Offers one address to the book.
    fn push_address(&mut self, address: &LocalAddress)
        ensures
            final(self)@ == old(self)@.pushed(address@),
    {
        // don't add addresses that don't have the minimum required services
        if !address.services.has_minimum() {
            return;
        }
        // don't add addresses from networks we can't reach
        if !self.is_net_reachable(address) {
            return;
        }
        if !address.is_routable() {
            return;
        }
        // don't add duplicate addresses
        if self.knows(&address.address) {
            return;
        }
        if self.addresses.contains_key(&address.id) {
            return;
        }
        self.put(address.id, address.clone());
        if address.is_good_address() {
            self.good_addresses.push(address.id);
        }
        self.push_if_has_service(address, ServiceFlags(UTREEXO));
        // this means any peer
        self.push_if_has_service(address, ServiceFlags(NONE));
        self.push_if_has_service(address, ServiceFlags(COMPACT_FILTERS));
    }

    /// Add new addresses to our list of known addresses, then drop the oldest ones if there
    /// are too many
    pub fn push_addresses(&mut self, addresses: &[LocalAddress])
        ensures
            old(self)@.pushed_all(views(addresses@)).pruned_to(final(self)@),
    {
        let mut i: usize = 0;
        while i < addresses.len()
            invariant
                i <= addresses@.len(),
                self@ == old(self)@.pushed_all(views(addresses@.take(i as int))),
            decreases addresses@.len() - i,
        {
            self.push_address(&addresses[i]);
            assert(views(addresses@.take(i + 1)).drop_last() =~= views(
                addresses@.take(i as int),
            ));
            i = i + 1;
        }
        assert(addresses@.take(i as int) =~= addresses@);
        // Open up space by pruning old addresses
        self.prune_addresses();
    }

    /// Drops every trace of an address.
    fn forget(&mut self, id: usize)
        ensures
            final(self)@ == old(self)@.forgotten(id),
    {
        let _ = self.take(id);
        remove_id(&mut self.good_addresses, id);
        self.good_peers_by_service.remove_everywhere(id);
        self.peers_by_service.remove_everywhere(id);
    }

    /// Remove the addresses that we heard of longest ago, until we are within the limit
    /// of addresses to keep.
    pub fn prune_addresses(&mut self)
        ensures
            old(self)@.pruned_to(final(self)@),
    {
        assert(self@.addresses.dom() =~= self.addresses@.dom());
        let excess: usize = self.addresses.len().saturating_sub(self.max_size);
        if excess == 0 {
            proof {
                let none = Seq::<usize>::empty();
                assert(self@.excess_ids(none));
                assert(self@ == self@.forgotten_all(none));
            }
            return;
        }
        let mut entries: Vec<(usize, u64)> = Vec::new();
        let ghost all = self.addresses.iter().remaining();
        for entry in it: self.addresses.iter()
            invariant
                it.seq() == all,
                entries@.len() == it.index(),
                forall|j: int|
                    0 <= j < it.index() ==> #[trigger] entries@[j] == (
                        *all[j].0,
                        all[j].1.last_connected,
                    ),
        {
            entries.push((*entry.0, entry.1.last_connected));
        }
        let ghost unsorted = entries@;
        assert(ages_of(self@, unsorted)) by {
            assert forall|j: int| 0 <= j < unsorted.len() implies self@.addresses.contains_key(
                #[trigger] unsorted[j].0,
            ) && unsorted[j].1 == self@.addresses[unsorted[j].0].last_connected by {
                assert(self.addresses@.contains_key(*all[j].0));
            }
            assert forall|id: usize| #[trigger]
                self@.addresses.contains_key(id) implies unsorted.contains(
                (id, self@.addresses[id].last_connected),
            ) by {
                assert(self.addresses@.contains_key(id));
                let j = choose|j: int|
                    0 <= j < all.len() && all[j] == (&id, &self.addresses@[id]);
                assert(unsorted[j] == (id, self@.addresses[id].last_connected));
            }
            assert forall|i: int, j: int|
                0 <= i < unsorted.len() && 0 <= j < unsorted.len() && i != j implies unsorted[i]
                != unsorted[j] by {
                assert(all[i] != all[j]);
                assert(self.addresses@[*all[i].0] == *all[i].1);
                assert(self.addresses@[*all[j].0] == *all[j].1);
            }
        }
        sort_by_age(&mut entries);
        let ghost ids = entries@.take(excess as int).map_values(|entry: (usize, u64)| entry.0);
        proof {
            lemma_oldest_are_excess(self@, unsorted, entries@, excess as int);
        }
        let mut i: usize = 0;
        while i < excess
            invariant
                i <= excess <= entries@.len(),
                ids == entries@.take(excess as int).map_values(|entry: (usize, u64)| entry.0),
                self@ == old(self)@.forgotten_all(ids.take(i as int)),
            decreases excess - i,
        {
            self.forget(entries[i].0);
            assert(ids.take(i + 1).drop_last() =~= ids.take(i as int));
            i = i + 1;
        }
        assert(ids.take(i as int) =~= ids);
    }
}

impl AddressMan {
    /// Updates the state of an address; the clock tells when a connection was made
    pub fn update_set_state(&mut self, idx: usize, state: AddressState) -> (r: &mut Self)
        ensures
            exists|now: u64| #[trigger] old(self)@.with_state(idx, state, now) == r@,
            *final(self) == *final(r),
    {
        self.update_set_state_at(idx, state, unix_seconds())
    }

    /// Updates the state of an address at a given time
    pub fn update_set_state_at(&mut self, idx: usize, state: AddressState, now: u64) -> (r:
        &mut Self)
        ensures
            r@ == old(self)@.with_state(idx, state, now),
            *final(self) == *final(r),
    {
        if let Some(mut address) = self.take(idx) {
            address.state = state;
            if let AddressState::Connected = state {
                address.last_connected = now;
            }
            self.put(idx, address);
            assert(self@.addresses =~= old(self)@.with_state(idx, state, now).addresses);
        }
        assert(self@.addresses =~= old(self)@.with_state(idx, state, now).addresses);
        match state {
            // good peers are those we think are live, and haven't banned
            AddressState::Banned(_) | AddressState::NeverTried | AddressState::Failed(_) => {
                remove_id(&mut self.good_addresses, idx);
                self.good_peers_by_service.remove_everywhere(idx);
            },
            AddressState::Tried(_) => {
                if let Some(address) = self.get(idx) {
                    let address = address.clone();
                    self.list_as_good(idx);
                    self.push_if_has_service(&address, ServiceFlags(UTREEXO));
                    self.push_if_has_service(&address, ServiceFlags(UTREEXO_ARCHIVE));
                    // this means any peer
                    self.push_if_has_service(&address, ServiceFlags(NONE));
                    self.push_if_has_service(&address, ServiceFlags(COMPACT_FILTERS));
                }
            },
            AddressState::Connected => {
                if let Some(address) = self.get(idx) {
                    let address = address.clone();
                    self.list_as_good(idx);
                    // push to the good peers by service
                    self.push_if_has_service(&address, ServiceFlags(UTREEXO));
                    // this means any peer
                    self.push_if_has_service(&address, ServiceFlags(NONE));
                    self.push_if_has_service(&address, ServiceFlags(COMPACT_FILTERS));
                }
            },
        }
        self
    }

    /// Lists an id among the good addresses, once.
    fn list_as_good(&mut self, id: usize)
        ensures
            final(self)@ == (BookView {
                good_addresses: with_id(old(self)@.good_addresses, id),
                ..old(self)@
            }),
    {
        if !contains_id(&self.good_addresses, id) {
            self.good_addresses.push(id);
        }
    }
}

impl AddressMan {
    /// Adds a peer to the list of peers known to have some service
    fn add_peer_to_service(&mut self, idx: usize, service: ServiceFlags)
        ensures
            final(self)@ == (BookView {
                peers_by_service: old(self)@.peers_by_service.insert(
                    service.0,
                    with_id(bucket(old(self)@.peers_by_service, service), idx),
                ),
                ..old(self)@
            }),
    {
        self.peers_by_service.add_once(service, idx);
    }

    /// Removes a peer from the list of peers known to have some service
    fn remove_peer_from_service(&mut self, idx: usize, service: ServiceFlags)
        ensures
            final(self)@ == (BookView {
                peers_by_service: if old(self)@.peers_by_service.contains_key(service.0) {
                    old(self)@.peers_by_service.insert(
                        service.0,
                        without(old(self)@.peers_by_service[service.0], idx),
                    )
                } else {
                    old(self)@.peers_by_service
                },
                ..old(self)@
            }),
    {
        self.peers_by_service.remove_from(service, idx);
    }

    /// Updates the list of peers that have a service
    ///
    /// If a peer used to advertise a service, but now it doesn't, we remove it from the list
    /// of peers that have that service. If a peer didn't advertise a service, but now it does,
    /// we add it to the list of peers that have that service.
    fn update_peer_for_service(&mut self, id: usize, service: ServiceFlags)
        ensures
            final(self)@ == old(self)@.reindexed(id, service),
    {
        let offers: bool = match self.get(id) {
            Some(peer) => peer.services.has(service),
            None => {
                return;
            },
        };
        if offers {
            self.add_peer_to_service(id, service);
        } else {
            self.remove_peer_from_service(id, service);
        }
    }

    /// Updates `peers_by_service` buckets with the latest service flags info about a peer
    ///
    /// This function is called when we receive a version message from a peer, telling which
    /// services it advertises.
    ///
    /// We only index for Compact Filters and Utreexo. For NODE_NETWORK and NODE_WITNESS we
    /// already filter them out when we add them to the address manager, therefore, all peers in
    /// this list are already known for having those. And we don't care about the rest of the
    /// services, like NODE_BLOOM.
    fn update_peer_services_buckets(&mut self, idx: usize)
        ensures
            final(self)@ == old(self)@.reindexed(idx, ServiceFlags(UTREEXO)).reindexed(
                idx,
                ServiceFlags(COMPACT_FILTERS),
            ),
    {
        self.update_peer_for_service(idx, ServiceFlags(UTREEXO));
        self.update_peer_for_service(idx, ServiceFlags(COMPACT_FILTERS));
    }

    /// Updates the service flags after we receive a version message
    pub fn update_set_service_flag(&mut self, idx: usize, flags: ServiceFlags) -> (r: &mut Self)
        ensures
            r@ == old(self)@.with_services(idx, flags),
            *final(self) == *final(r),
    {
        // if this peer turns out to not have the minimum required services, we remove it
        if !flags.has_minimum() {
            self.forget(idx);
            return self;
        }
        if let Some(mut address) = self.take(idx) {
            address.services = flags;
            self.put(idx, address);
            // it is no good peer for services it doesn't offer any more
            self.good_peers_by_service.keep_offered(idx, flags);
            assert(self@.addresses =~= old(self)@.addresses.insert(
                idx,
                LocalAddressView { services: flags, ..old(self)@.addresses[idx] },
            ));
        } else {
            assert(self@.addresses =~= old(self)@.addresses);
        }
        self.update_peer_services_buckets(idx);
        self
    }

    /// This function moves addresses between buckets, like if the ban time of a peer expired,
    /// or if we tried to connect to a peer and it failed in the past, but now it might be online
    /// again.
    pub fn rearrange_buckets(&mut self)
        ensures
            exists|now: u64| final(self)@ == #[trigger] old(self)@.rearranged(now),
    {
        self.rearrange_buckets_at(unix_seconds());
    }

    /// Moves addresses between buckets, the time being `now`.
    pub fn rearrange_buckets_at(&mut self, now: u64)
        ensures
            final(self)@ == old(self)@.rearranged(now),
    {
        self.forget_standing(now);
        let ghost listed = self@;
        let ids = keys_of(&self.addresses);
        assert(self@.addresses.dom() =~= self.addresses@.dom());
        let ghost goal = old(self)@.rearranged(now).addresses;
        let mut i: usize = 0;
        while i < ids.len()
            invariant
                i <= ids@.len(),
                ids@.no_duplicates(),
                ids@.to_set() == old(self)@.addresses.dom(),
                goal == old(self)@.rearranged(now).addresses,
                self@.addresses.dom() == old(self)@.addresses.dom(),
                self@ == (BookView { addresses: self@.addresses, ..listed }),
                forall|j: int|
                    0 <= j < i ==> #[trigger] self@.addresses[ids@[j]] == goal[ids@[j]],
                forall|j: int|
                    i <= j < ids@.len() ==> #[trigger] self@.addresses[ids@[j]] == old(
                        self,
                    )@.addresses[ids@[j]],
            decreases ids@.len() - i,
        {
            let id: usize = ids[i];
            assert(ids@.to_set().contains(id));
            let ghost before = self@;
            if let Some(mut address) = self.take(id) {
                address.state = Self::aged(address.state, now);
                self.put(id, address);
            }
            assert(self@.addresses.dom() =~= before.addresses.dom());
            i = i + 1;
        }
        assert(self@.addresses =~= goal) by {
            assert forall|id: usize| goal.contains_key(id) implies self@.addresses[id]
                == goal[id] by {
                assert(ids@.to_set().contains(id));
                let j = choose|j: int| 0 <= j < ids@.len() && ids@[j] == id;
                assert(self@.addresses[ids@[j]] == goal[ids@[j]]);
            }
        }
    }

    /// Those of some addresses whose standing is not forgotten once the time is `now`.
    fn keep_standing(&self, ids: &Vec<usize>, now: u64) -> (r: Vec<usize>)
        ensures
            r@ == self@.standing(ids@, now),
    {
        let mut kept: Vec<usize> = Vec::new();
        let mut i: usize = 0;
        proof {
            reveal(Seq::filter);
        }
        while i < ids.len()
            invariant
                i <= ids@.len(),
                kept@ == self@.standing(ids@.take(i as int), now),
            decreases ids@.len() - i,
        {
            proof {
                reveal(Seq::filter);
                assert(ids@.take(i + 1).drop_last() =~= ids@.take(i as int));
            }
            let stands: bool = match self.get(ids[i]) {
                Some(address) => Self::aged(address.state, now) == address.state,
                None => true,
            };
            if stands {
                kept.push(ids[i]);
            }
            i = i + 1;
        }
        assert(ids@.take(i as int) =~= ids@);
        kept
    }

    /// Takes the addresses off the lists of good ones whose standing is forgotten once the time
    /// is `now`.
    fn forget_standing(&mut self, now: u64)
        ensures
            final(self)@ == (BookView {
                addresses: old(self)@.addresses,
                ..old(self)@.rearranged(now)
            }),
    {
        self.good_addresses = self.keep_standing(&self.good_addresses, now);
        let ghost goal = old(self)@.rearranged(now).good_peers_by_service;
        let services = keys_of(&self.good_peers_by_service.map);
        assert(services@.to_set() =~= old(self)@.good_peers_by_service.dom());
        let mut i: usize = 0;
        while i < services.len()
            invariant
                i <= services@.len(),
                goal == old(self)@.rearranged(now).good_peers_by_service,
                services@.no_duplicates(),
                services@.to_set() == old(self)@.good_peers_by_service.dom(),
                self@ == (BookView {
                    good_addresses: old(self)@.standing(old(self)@.good_addresses, now),
                    good_peers_by_service: self@.good_peers_by_service,
                    ..old(self)@
                }),
                self@.good_peers_by_service.dom() == old(self)@.good_peers_by_service.dom(),
                forall|j: int|
                    0 <= j < i ==> #[trigger] self@.good_peers_by_service[services@[j]]
                        == goal[services@[j]],
                forall|j: int|
                    i <= j < services@.len() ==> #[trigger] self@.good_peers_by_service[services@[j]]
                        == old(self)@.good_peers_by_service[services@[j]],
            decreases services@.len() - i,
        {
            let service = ServiceFlags(services[i]);
            assert(services@.to_set().contains(service.0));
            let ghost before = self@;
            let kept = match self.good_peers_by_service.get(service) {
                Some(ids) => self.keep_standing(ids, now),
                None => Vec::new(),
            };
            proof {
                let here = |id: usize| before.stands(id, now);
                let first = |id: usize| old(self)@.stands(id, now);
                assert(here =~= first);
                assert(before.good_peers_by_service[services@[i as int]] == old(
                    self,
                )@.good_peers_by_service[service.0]);
            }
            assert(kept@ == goal[service.0]);
            self.good_peers_by_service.put(service, kept);
            assert(self@.good_peers_by_service.dom() =~= before.good_peers_by_service.dom());
            i = i + 1;
        }
        assert(self@.good_peers_by_service =~= goal) by {
            assert forall|s: u64| goal.contains_key(s) implies self@.good_peers_by_service[s]
                == goal[s] by {
                assert(services@.to_set().contains(s));
                let j = choose|j: int| 0 <= j < services@.len() && services@[j] == s;
                assert(self@.good_peers_by_service[services@[j]] == goal[services@[j]]);
            }
        }
    }

    /// What is left of a state once the time is `now`.
    fn aged(state: AddressState, now: u64) -> (r: AddressState)
        ensures
            r == state.aged(now),
    {
        match state {
            AddressState::Banned(ban_time) => {
                if ban_time < now {
                    return AddressState::NeverTried;
                }
            },
            AddressState::Tried(tried_time) => {
                if is_past(tried_time, ASSUME_STALE, now) {
                    return AddressState::NeverTried;
                }
            },
            AddressState::Failed(failed_time) => {
                if is_past(failed_time, ASSUME_STALE, now) {
                    return AddressState::NeverTried;
                }
            },
            AddressState::Connected | AddressState::NeverTried => {},
        }
        state
    }

    /// The addresses behind some ids, those of ids that are not known left out.
    pub(crate) fn resolve(&self, ids: &Vec<usize>) -> (r: Vec<LocalAddress>)
        ensures
            views(r@) == self@.resolved(ids@),
    {
        let mut found: Vec<LocalAddress> = Vec::new();
        let mut i: usize = 0;
        proof {
            reveal(Seq::filter);
            assert(views(found@) =~= self@.resolved(ids@.take(0)));
        }
        while i < ids.len()
            invariant
                i <= ids@.len(),
                views(found@) == self@.resolved(ids@.take(i as int)),
            decreases ids@.len() - i,
        {
            let ghost before = found@;
            if let Some(address) = self.get(ids[i]) {
                found.push(address.clone());
            }
            proof {
                reveal(Seq::filter);
                assert(ids@.take(i + 1).drop_last() =~= ids@.take(i as int));
                assert(self@.known(ids@.take(i + 1)) == if self@.addresses.contains_key(
                    ids@[i as int],
                ) {
                    self@.known(ids@.take(i as int)).push(ids@[i as int])
                } else {
                    self@.known(ids@.take(i as int))
                });
                if self@.addresses.contains_key(ids@[i as int]) {
                    assert(views(found@) =~= views(before).push(found@.last()@));
                }
                assert(views(found@) =~= self@.resolved(ids@.take(i + 1)));
            }
            i = i + 1;
        }
        assert(ids@.take(i as int) =~= ids@);
        found
    }

    /// Return addresses from the address manager filtered by the service they offer.
    pub fn get_addresses_by_service(&self, service: ServiceFlags) -> (r: Vec<LocalAddress>)
        ensures
            views(r@) == self@.resolved(bucket(self@.good_peers_by_service, service)),
    {
        match self.good_peers_by_service.get(service) {
            Some(ids) => self.resolve(ids),
            None => {
                let none: Vec<usize> = Vec::new();
                assert(none@ =~= Seq::empty());
                self.resolve(&none)
            },
        }
    }

    /// Check if we have enough addresses on the address manager.
    pub fn enough_addresses(&self) -> (r: bool)
        ensures
            r == self@.has_enough(),
    {
        if self.good_addresses.len() < MIN_ADDRESSES {
            return false;
        }
        if self.get_addresses_by_service(ServiceFlags(COMPACT_FILTERS)).len()
            < MIN_ADDRESSES_CBF {
            return false;
        }
        if self.get_addresses_by_service(ServiceFlags(UTREEXO)).len() < MIN_ADDRESSES_UTREEXO {
            return false;
        }
        true
    }

    /// The good addresses, in the form they are sent to other peers: the address, when it was
    /// last connected to, its services and its port.
    pub fn get_addresses_to_send(&self) -> (r: Vec<(AddrV2, u64, ServiceFlags, u16)>)
        ensures
            r@.len() == self@.resolved(self@.good_addresses).len(),
            forall|i: int|
                0 <= i < r@.len() ==> {
                    let address = self@.resolved(self@.good_addresses)[i];
                    &&& (#[trigger] r@[i]).0@ == address.address.addr
                    &&& r@[i].1 == address.last_connected
                    &&& r@[i].2 == address.services
                    &&& r@[i].3 == address.address.port
                },
    {
        let good = self.resolve(&self.good_addresses);
        let ghost goal = self@.resolved(self@.good_addresses);
        let mut to_send: Vec<(AddrV2, u64, ServiceFlags, u16)> = Vec::new();
        let mut i: usize = 0;
        while i < good.len()
            invariant
                i <= good@.len(),
                views(good@) == goal,
                to_send@.len() == i,
                forall|j: int|
                    0 <= j < i ==> {
                        &&& (#[trigger] to_send@[j]).0@ == goal[j].address.addr
                        &&& to_send@[j].1 == goal[j].last_connected
                        &&& to_send@[j].2 == goal[j].services
                        &&& to_send@[j].3 == goal[j].address.port
                    },
            decreases good@.len() - i,
        {
            let address = &good[i];
            assert(goal[i as int] == address@);
            to_send.push(
                (
                    address.as_addrv2().clone(),
                    address.last_connected,
                    address.services,
                    address.get_port(),
                ),
            );
            i = i + 1;
        }
        assert(views(good@).len() == good@.len());
        to_send
    }

    /// Returns address manager statistics broken down by network type.
    pub fn get_connection_stats(&self) -> (r: ConnectionStats)
        ensures
            forall|network: ReachableNetworks|
                (#[trigger] r.of(network)).new == self@.counted(
                    self@.addresses.dom(),
                    network,
                    false,
                ).len() && r.of(network).tried == self@.counted(
                    self@.addresses.dom(),
                    network,
                    true,
                ).len(),
    {
        let none = NetworkStats { new: 0, tried: 0 };
        let mut stats = ConnectionStats {
            ipv4: none,
            ipv6: none,
            onion: none,
            i2p: none,
            cjdns: none,
        };
        let ids = keys_of(&self.addresses);
        assert(self@.addresses.dom() =~= self.addresses@.dom());
        let mut i: usize = 0;
        proof {
            assert forall|network: ReachableNetworks, tried: bool|
                #![auto]
                self@.counted(ids@.take(0).to_set(), network, tried).len() == 0 by {
                assert(self@.counted(ids@.take(0).to_set(), network, tried) =~= Set::empty());
            }
        }
        while i < ids.len()
            invariant
                i <= ids@.len(),
                ids@.no_duplicates(),
                ids@.to_set() == self@.addresses.dom(),
                forall|network: ReachableNetworks|
                    (#[trigger] stats.of(network)).new == self@.counted(
                        ids@.take(i as int).to_set(),
                        network,
                        false,
                    ).len() && stats.of(network).tried == self@.counted(
                        ids@.take(i as int).to_set(),
                        network,
                        true,
                    ).len(),
            decreases ids@.len() - i,
        {
            let id: usize = ids[i];
            let ghost before = stats;
            assert(ids@.to_set().contains(id));
            proof {
                lemma_count_one(self@, ids@, i as int);
            }
            if let Some(address) = self.get(id) {
                if let Some(network) = address.as_addrv2().network() {
                    assert(before.of(network) == stats.of(network));
                    match address.state {
                        AddressState::Banned(_) => {},
                        AddressState::Tried(_) | AddressState::Connected => {
                            stats.count(network, true);
                        },
                        AddressState::NeverTried | AddressState::Failed(_) => {
                            stats.count(network, false);
                        },
                    }
                }
            }
            assert forall|network: ReachableNetworks|
                (#[trigger] stats.of(network)).new == self@.counted(
                    ids@.take(i + 1).to_set(),
                    network,
                    false,
                ).len() && stats.of(network).tried == self@.counted(
                    ids@.take(i + 1).to_set(),
                    network,
                    true,
                ).len() by {
                assert(before.of(network) == before.of(network));
            }
            i = i + 1;
        }
        assert(ids@.take(i as int) =~= ids@);
        stats
    }
}

/// How the counts of the first ids grow by the next one.
proof fn lemma_count_one(book: BookView, ids: Seq<usize>, i: int)
    requires
        0 <= i < ids.len() <= usize::MAX,
        ids.no_duplicates(),
    ensures
        forall|network: ReachableNetworks, tried: bool|
            #![trigger book.counted(ids.take(i + 1).to_set(), network, tried)]
            book.counted(ids.take(i + 1).to_set(), network, tried).len() == book.counted(
                ids.take(i).to_set(),
                network,
                tried,
            ).len() + if book.counted(set![ids[i]], network, tried).contains(ids[i]) {
                1int
            } else {
                0
            },
        forall|network: ReachableNetworks, tried: bool|
            #![trigger book.counted(ids.take(i).to_set(), network, tried)]
            book.counted(ids.take(i).to_set(), network, tried).len() < usize::MAX,
{
    let seen = ids.take(i).to_set();
    let id = ids[i];
    assert(ids.take(i + 1).to_set() =~= seen.insert(id)) by {
        assert(ids.take(i + 1) =~= ids.take(i).push(id));
        broadcast use vstd::seq_lib::group_seq_properties;
    }
    assert(!seen.contains(id));
    assert forall|network: ReachableNetworks, tried: bool|
        #![trigger book.counted(ids.take(i + 1).to_set(), network, tried)]
        book.counted(ids.take(i + 1).to_set(), network, tried).len() == book.counted(
            seen,
            network,
            tried,
        ).len() + if book.counted(set![id], network, tried).contains(id) {
            1int
        } else {
            0
        } by {
        let before = book.counted(seen, network, tried);
        if book.counted(set![id], network, tried).contains(id) {
            assert(book.counted(seen.insert(id), network, tried) =~= before.insert(id));
        } else {
            assert(book.counted(seen.insert(id), network, tried) =~= before);
        }
    }
    assert forall|network: ReachableNetworks, tried: bool|
        #![trigger book.counted(seen, network, tried)]
        book.counted(seen, network, tried).len() < usize::MAX by {
        ids.take(i).unique_seq_to_set();
        vstd::set_lib::lemma_len_subset(book.counted(seen, network, tried), seen);
    }
}

/// Whether these are the ids of a book, each once, with the time they were last heard of.
spec fn ages_of(book: BookView, entries: Seq<(usize, u64)>) -> bool {
    &&& entries.no_duplicates()
    &&& entries.len() == book.addresses.len()
    &&& forall|j: int|
        0 <= j < entries.len() ==> book.addresses.contains_key(#[trigger] entries[j].0)
            && entries[j].1 == book.addresses[entries[j].0].last_connected
    &&& forall|id: usize| #[trigger]
        book.addresses.contains_key(id) ==> entries.contains(
            (id, book.addresses[id].last_connected),
        )
}

/// The first entries, in ascending order of age, are the ones to drop.
proof fn lemma_oldest_are_excess(
    book: BookView,
    unsorted: Seq<(usize, u64)>,
    sorted: Seq<(usize, u64)>,
    excess: int,
)
    requires
        ages_of(book, unsorted),
        sorted.to_multiset() == unsorted.to_multiset(),
        forall|i: int, j: int|
            0 <= i <= j < sorted.len() ==> (#[trigger] sorted[i]).1 <= (#[trigger] sorted[j]).1,
        excess == book.excess(),
    ensures
        excess <= sorted.len(),
        book.excess_ids(sorted.take(excess).map_values(|entry: (usize, u64)| entry.0)),
{
    broadcast use vstd::seq_lib::group_to_multiset_ensures;

    let ids = sorted.take(excess).map_values(|entry: (usize, u64)| entry.0);
    unsorted.lemma_multiset_has_no_duplicates();
    sorted.lemma_multiset_has_no_duplicates_conv();
    assert(sorted.to_multiset().len() == sorted.len());
    assert(unsorted.to_multiset().len() == unsorted.len());
    assert forall|j: int| 0 <= j < sorted.len() implies book.addresses.contains_key(
        #[trigger] sorted[j].0,
    ) && sorted[j].1 == book.addresses[sorted[j].0].last_connected by {
        assert(sorted.contains(sorted[j]));
        assert(sorted.to_multiset().count(sorted[j]) > 0);
        assert(unsorted.contains(sorted[j]));
    }
    assert forall|i: int, j: int|
        0 <= i < ids.len() && 0 <= j < ids.len() && i != j implies ids[i] != ids[j] by {
        assert(sorted[i] != sorted[j]);
        assert(sorted[i].1 == book.addresses[sorted[i].0].last_connected);
        assert(sorted[j].1 == book.addresses[sorted[j].0].last_connected);
    }
    assert forall|i: int, kept: usize|
        #![trigger ids[i], book.addresses.contains_key(kept)]
        0 <= i < ids.len() && book.addresses.contains_key(kept) && !ids.contains(
            kept,
        ) implies book.addresses[ids[i]].last_connected
        <= book.addresses[kept].last_connected by {
        let entry = (kept, book.addresses[kept].last_connected);
        assert(unsorted.contains(entry));
        assert(unsorted.to_multiset().count(entry) > 0);
        assert(sorted.contains(entry));
        let j = choose|j: int| 0 <= j < sorted.len() && sorted[j] == entry;
        if j < excess {
            assert(ids[j] == kept);
        }
        assert(sorted[i].0 == ids[i]);
    }
    assert forall|i: int| 0 <= i < ids.len() implies book.addresses.contains_key(
        #[trigger] ids[i],
    ) by {
        assert(ids[i] == sorted[i].0);
    }
}

} // verus!
