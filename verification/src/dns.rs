//! Learning addresses from DNS seeds.

use vstd::prelude::*;
use vstd::string::StringExecFns;

use crate::address_man::{views, AddressMan};
use crate::clock::unix_seconds;
use crate::local_address::{AddressState, LocalAddress, LocalAddressView};
use crate::service_flags::{
    ServiceFlags, COMPACT_FILTERS, NETWORK_LIMITED, NONE, UTREEXO, WITNESS,
};

verus! {

/// What a utreexo peer found through a seed is taken to offer.
pub const SEEDED_UTREEXO: u64 = NETWORK_LIMITED | UTREEXO | WITNESS;

/// What a peer with compact block filters found through a seed is taken to offer.
pub const SEEDED_FILTERS: u64 = COMPACT_FILTERS | NETWORK_LIMITED | WITNESS;

/// What any other peer found through a seed is taken to offer.
pub const SEEDED_ANY: u64 = NETWORK_LIMITED | WITNESS;

/// A host whose DNS records are addresses of peers.
#[derive(Debug)]
pub struct DnsSeed {
    /// The name of the host
    pub seed: String,
    /// The services that peers can be asked for by
    pub filters: ServiceFlags,
}

/// A host to look up.
#[derive(Debug)]
pub struct Lookup {
    /// The name of the host
    pub host: String,
    /// The services that peers found there are taken to offer
    pub services: ServiceFlags,
}

impl View for Lookup {
    type V = (Seq<char>, ServiceFlags);

    open spec fn view(&self) -> (Seq<char>, ServiceFlags) {
        (self.host@, self.services)
    }
}

/// Lookups as they read.
pub open spec fn lookup_views(lookups: Seq<Lookup>) -> Seq<(Seq<char>, ServiceFlags)> {
    lookups.map_values(|lookup: Lookup| lookup@)
}

/// One lookup, if there is reason to do it.
pub open spec fn lookup_if(wanted: bool, host: Seq<char>, services: u64) -> Seq<
    (Seq<char>, ServiceFlags),
> {
    if wanted {
        seq![(host, ServiceFlags(services))]
    } else {
        Seq::empty()
    }
}

impl DnsSeed {
    /// The hosts to look up: one for each kind of peer the seed can be asked for, or the seed
    /// itself if it cannot be asked for any.
    pub open spec fn lookups(self) -> Seq<(Seq<char>, ServiceFlags)> {
        lookup_if(
            self.filters.includes(ServiceFlags(UTREEXO)),
            "x1000."@ + self.seed@,
            SEEDED_UTREEXO,
        ) + lookup_if(
            self.filters.includes(ServiceFlags(COMPACT_FILTERS)),
            "x49."@ + self.seed@,
            SEEDED_FILTERS,
        ) + lookup_if(
            self.filters.includes(ServiceFlags(WITNESS)),
            "x9."@ + self.seed@,
            SEEDED_ANY,
        ) + lookup_if(self.filters.0 == NONE, self.seed@, SEEDED_ANY)
    }

    /// The seed's name behind a prefix that asks for some kind of peer.
    fn filtered(&self, prefix: &str) -> (r: String)
        ensures
            r@ == prefix@ + self.seed@,
    {
        let mut host = String::from_str(prefix);
        host.append(self.seed.as_str());
        host
    }

    /// The hosts to look up.
    pub fn hosts(&self) -> (r: Vec<Lookup>)
        ensures
            lookup_views(r@) == self.lookups(),
    {
        let mut lookups: Vec<Lookup> = Vec::new();
        // ask for utreexo peers (if filtering is available)
        if self.filters.has(ServiceFlags(UTREEXO)) {
            let host = self.filtered("x1000.");
            lookups.push(Lookup { host, services: ServiceFlags(SEEDED_UTREEXO) });
        }
        // ask for compact filter peers (if filtering is available)
        if self.filters.has(ServiceFlags(COMPACT_FILTERS)) {
            let host = self.filtered("x49.");
            lookups.push(Lookup { host, services: ServiceFlags(SEEDED_FILTERS) });
        }
        // ask for any peer (if filtering is available)
        if self.filters.has(ServiceFlags(WITNESS)) {
            let host = self.filtered("x9.");
            lookups.push(Lookup { host, services: ServiceFlags(SEEDED_ANY) });
        }
        // ask for any peer (if filtering isn't available)
        if self.filters.0 == NONE {
            let host = String::from_str(self.seed.as_str());
            lookups.push(Lookup { host, services: ServiceFlags(SEEDED_ANY) });
        }
        assert(lookup_views(lookups@) =~= self.lookups());
        lookups
    }
}

/// An address once it was found through a seed.
pub open spec fn seeded(address: LocalAddressView, services: ServiceFlags, now: u64) -> LocalAddressView {
    LocalAddressView { services, state: AddressState::Tried(now), ..address }
}

/// Addresses once they were found through a seed.
pub open spec fn all_seeded(addresses: Seq<LocalAddressView>, services: ServiceFlags, now: u64) -> Seq<
    LocalAddressView,
> {
    addresses.map_values(|address: LocalAddressView| seeded(address, services, now))
}

/// All the addresses that some lookups found, one lookup after the other; nothing was found by
/// those that have no entry in `found`.
pub open spec fn collected(
    lookups: Seq<(Seq<char>, ServiceFlags)>,
    found: Seq<Seq<LocalAddressView>>,
    now: u64,
) -> Seq<LocalAddressView>
    decreases lookups.len(),
{
    if lookups.len() == 0 {
        Seq::empty()
    } else {
        let i = lookups.len() - 1;
        collected(lookups.drop_last(), found, now) + if i < found.len() {
            all_seeded(found[i], lookups[i].1, now)
        } else {
            Seq::empty()
        }
    }
}

/// What each lookup found, as it reads.
pub open spec fn found_views(found: Seq<Vec<LocalAddress>>) -> Seq<Seq<LocalAddressView>> {
    found.map_values(|addresses: Vec<LocalAddress>| views(addresses@))
}

/// Puts the addresses that a lookup found behind those found before.
fn add_seeded(
    addresses: &mut Vec<LocalAddress>,
    found: &Vec<LocalAddress>,
    services: ServiceFlags,
    now: u64,
)
    ensures
        views(final(addresses)@) == views(old(addresses)@) + all_seeded(
            views(found@),
            services,
            now,
        ),
{
    let ghost goal = all_seeded(views(found@), services, now);
    let mut i: usize = 0;
    while i < found.len()
        invariant
            i <= found@.len(),
            goal == all_seeded(views(found@), services, now),
            views(addresses@) =~= views(old(addresses)@) + goal.take(i as int),
        decreases found@.len() - i,
    {
        let ghost before = addresses@;
        let mut address = found[i].clone();
        address.services = services;
        address.state = AddressState::Tried(now);
        assert(address@ == goal[i as int]);
        addresses.push(address);
        assert(views(addresses@) =~= views(before).push(goal[i as int]));
        i = i + 1;
    }
    assert(goal.take(i as int) =~= goal);
}

impl AddressMan {
    /// The addresses of peers that a seed knows; `found` is what looking up each of the seed's
    /// hosts gave, in their order.
    pub fn get_seeds_from_dns(seed: &DnsSeed, found: &Vec<Vec<LocalAddress>>) -> (r: Vec<
        LocalAddress,
    >)
        ensures
            exists|now: u64|
                views(r@) == #[trigger] collected(seed.lookups(), found_views(found@), now),
    {
        let now: u64 = unix_seconds();
        AddressMan::get_seeds_from_dns_at(seed, found, now)
    }

    /// The addresses of peers that a seed knows at `now`.
    pub fn get_seeds_from_dns_at(seed: &DnsSeed, found: &Vec<Vec<LocalAddress>>, now: u64) -> (r:
        Vec<LocalAddress>)
        ensures
            views(r@) == collected(seed.lookups(), found_views(found@), now),
    {
        let lookups = seed.hosts();
        let mut addresses: Vec<LocalAddress> = Vec::new();
        let ghost all = seed.lookups();
        let ghost results = found_views(found@);
        assert(all.take(0) =~= Seq::empty());
        assert(views(addresses@) =~= Seq::empty());
        let mut i: usize = 0;
        while i < lookups.len()
            invariant
                i <= lookups@.len(),
                all == lookup_views(lookups@),
                results == found_views(found@),
                views(addresses@) == collected(all.take(i as int), results, now),
            decreases lookups@.len() - i,
        {
            let ghost before = views(addresses@);
            assert(all.take(i + 1).drop_last() =~= all.take(i as int));
            if i < found.len() {
                add_seeded(&mut addresses, &found[i], lookups[i].services, now);
                assert(results[i as int] == views(found@[i as int]@));
                assert(all[i as int].1 == lookups@[i as int].services);
            } else {
                assert(before + Seq::empty() =~= before);
            }
            i = i + 1;
        }
        assert(all.take(i as int) =~= all);
        addresses
    }
}

} // verus!
