//! What an address book says, and how each operation changes it.

use vstd::prelude::*;

use crate::buckets::{bucket, buckets_offered, buckets_without, with_id, without};
use crate::local_address::{routable, AddressState, LocalAddressView};
use crate::net_addr::{AddrV2View, ReachableNetworks, SocketView};
use crate::service_flags::{ServiceFlags, COMPACT_FILTERS, NONE, UTREEXO, UTREEXO_ARCHIVE};

verus! {

/// How long we'll wait before trying to connect to a peer that failed, in seconds
pub const RETRY_TIME: u64 = 600;

/// If we haven't heard from a peer in this amount of time, in seconds, we consider its info
/// stale and forget whether it was good or bad
pub const ASSUME_STALE: u64 = 86_400;

/// The minimum amount of good addresses we need to have.
pub const MIN_ADDRESSES: usize = 15;

/// The minimum amount of CBF-capable addresses we need to have.
pub const MIN_ADDRESSES_CBF: usize = 5;

/// The minimum amount of Utreexo-capable addresses we need to have.
pub const MIN_ADDRESSES_UTREEXO: usize = 2;

/// How often we look for another address before we give up.
pub const MAX_ATTEMPTS: usize = 10;

/// What an address book says.
pub struct BookView {
    /// All the addresses known, by their id.
    pub addresses: Map<usize, LocalAddressView>,
    /// The ids of the good addresses.
    pub good_addresses: Seq<usize>,
    /// The ids of the good addresses, by service.
    pub good_peers_by_service: Map<u64, Seq<usize>>,
    /// The ids of all addresses, by service.
    pub peers_by_service: Map<u64, Seq<usize>>,
    /// How many addresses are kept at most.
    pub max_size: usize,
    /// The networks we can reach.
    pub reachable_networks: Set<ReachableNetworks>,
}

impl AddressState {
    /// The state once the time is `now`: bans that are over, and encounters that are too old
    /// to tell anything, are forgotten.
    pub open spec fn aged(self, now: u64) -> AddressState {
        match self {
            AddressState::Banned(until) if until < now => AddressState::NeverTried,
            AddressState::Tried(when) if when + ASSUME_STALE < now => AddressState::NeverTried,
            AddressState::Failed(when) if when + ASSUME_STALE < now => AddressState::NeverTried,
            _ => self,
        }
    }

    /// Whether a connection may be tried at `now`: there is none, the peer is not banned, and
    /// the last attempt that failed, if that is how it went, is long enough ago.
    pub open spec fn connectable(self, now: u64) -> bool {
        match self {
            AddressState::NeverTried => true,
            AddressState::Tried(_) => true,
            AddressState::Failed(when) => when + RETRY_TIME < now,
            AddressState::Banned(_) => false,
            AddressState::Connected => false,
        }
    }
}

impl BookView {
    /// Whether we can reach an address based on our reachable networks.
    pub open spec fn reaches(self, addr: AddrV2View) -> bool {
        match addr.network() {
            Some(network) => self.reachable_networks.contains(network),
            None => false,
        }
    }

    /// Whether an address is in the book, under any id.
    pub open spec fn knows(self, socket: SocketView) -> bool {
        exists|id: usize| #[trigger]
            self.addresses.contains_key(id) && self.addresses[id].address == socket
    }

    /// Whether an address is worth keeping.
    pub open spec fn worth_keeping(self, address: LocalAddressView) -> bool {
        &&& address.services.meets_minimum()
        &&& self.reaches(address.address.addr)
        &&& routable(address.address.addr)
    }

    /// Whether an address goes into the book.
    pub open spec fn admits(self, address: LocalAddressView) -> bool {
        &&& self.worth_keeping(address)
        &&& !self.knows(address.address)
        &&& !self.addresses.contains_key(address.id)
    }

    /// The book after an address was put into the bucket of a service that it offers.
    pub open spec fn indexed(self, address: LocalAddressView, service: ServiceFlags) -> BookView {
        if address.services.includes(service) {
            BookView {
                peers_by_service: self.peers_by_service.insert(
                    service.0,
                    with_id(bucket(self.peers_by_service, service), address.id),
                ),
                good_peers_by_service: self.good_peers_by_service.insert(
                    service.0,
                    if address.good() {
                        with_id(bucket(self.good_peers_by_service, service), address.id)
                    } else {
                        bucket(self.good_peers_by_service, service)
                    },
                ),
                ..self
            }
        } else {
            self
        }
    }

    /// The book after an address was offered to it.
    pub open spec fn pushed(self, address: LocalAddressView) -> BookView {
        if self.admits(address) {
            BookView {
                addresses: self.addresses.insert(address.id, address),
                good_addresses: if address.good() {
                    self.good_addresses.push(address.id)
                } else {
                    self.good_addresses
                },
                ..self
            }.indexed(address, ServiceFlags(UTREEXO)).indexed(address, ServiceFlags(NONE)).indexed(
                address,
                ServiceFlags(COMPACT_FILTERS),
            )
        } else {
            self
        }
    }

    /// The book after some addresses were offered to it, one after the other.
    pub open spec fn pushed_all(self, addresses: Seq<LocalAddressView>) -> BookView
        decreases addresses.len(),
    {
        if addresses.len() == 0 {
            self
        } else {
            self.pushed_all(addresses.drop_last()).pushed(addresses.last())
        }
    }

    /// The book without any trace of an id.
    pub open spec fn forgotten(self, id: usize) -> BookView {
        BookView {
            addresses: self.addresses.remove(id),
            good_addresses: without(self.good_addresses, id),
            good_peers_by_service: buckets_without(self.good_peers_by_service, id),
            peers_by_service: buckets_without(self.peers_by_service, id),
            ..self
        }
    }

    /// The book without any trace of some ids.
    pub open spec fn forgotten_all(self, ids: Seq<usize>) -> BookView
        decreases ids.len(),
    {
        if ids.len() == 0 {
            self
        } else {
            self.forgotten_all(ids.drop_last()).forgotten(ids.last())
        }
    }

    /// How many addresses there are beyond the most we keep.
    pub open spec fn excess(self) -> int {
        if self.addresses.len() > self.max_size {
            self.addresses.len() - self.max_size
        } else {
            0
        }
    }

    /// Whether these are ids to drop so that the book is within its limit: just as many as are
    /// too many, and none that we heard of after one that stays.
    pub open spec fn excess_ids(self, ids: Seq<usize>) -> bool {
        &&& ids.no_duplicates()
        &&& ids.len() == self.excess()
        &&& forall|i: int| 0 <= i < ids.len() ==> self.addresses.contains_key(#[trigger] ids[i])
        &&& forall|i: int, kept: usize|
            #![trigger ids[i], self.addresses.contains_key(kept)]
            0 <= i < ids.len() && self.addresses.contains_key(kept) && !ids.contains(kept)
                ==> self.addresses[ids[i]].last_connected <= self.addresses[kept].last_connected
    }

    /// Whether `after` is this book within its limit, the addresses last heard of longest ago
    /// dropped. Which of several that are equally old go is left open.
    pub open spec fn pruned_to(self, after: BookView) -> bool {
        exists|ids: Seq<usize>| #[trigger]
            self.excess_ids(ids) && after == self.forgotten_all(ids)
    }

    /// The book after the bucket of a service was brought up to date with what an address
    /// offers now.
    pub open spec fn reindexed(self, id: usize, service: ServiceFlags) -> BookView {
        if !self.addresses.contains_key(id) {
            self
        } else if self.addresses[id].services.includes(service) {
            BookView {
                peers_by_service: self.peers_by_service.insert(
                    service.0,
                    with_id(bucket(self.peers_by_service, service), id),
                ),
                ..self
            }
        } else if self.peers_by_service.contains_key(service.0) {
            BookView {
                peers_by_service: self.peers_by_service.insert(
                    service.0,
                    without(self.peers_by_service[service.0], id),
                ),
                ..self
            }
        } else {
            self
        }
    }

    /// The book after one address got other services; one that lacks what we need is dropped.
    /// It leaves the good ones that offer a service it does not offer any more.
    pub open spec fn with_services(self, id: usize, flags: ServiceFlags) -> BookView {
        if !flags.meets_minimum() {
            self.forgotten(id)
        } else {
            let changed = if self.addresses.contains_key(id) {
                BookView {
                    addresses: self.addresses.insert(
                        id,
                        LocalAddressView { services: flags, ..self.addresses[id] },
                    ),
                    good_peers_by_service: buckets_offered(
                        self.good_peers_by_service,
                        id,
                        flags,
                    ),
                    ..self
                }
            } else {
                self
            };
            changed.reindexed(id, ServiceFlags(UTREEXO)).reindexed(
                id,
                ServiceFlags(COMPACT_FILTERS),
            )
        }
    }

    /// The book after the address with an id was replaced, if there is one.
    pub open spec fn with_address(self, id: usize, address: LocalAddressView) -> BookView {
        BookView { addresses: self.addresses.insert(id, address), ..self }
    }

    /// The book after an address was taken off every list of good ones.
    pub open spec fn not_good(self, id: usize) -> BookView {
        BookView {
            good_addresses: without(self.good_addresses, id),
            good_peers_by_service: buckets_without(self.good_peers_by_service, id),
            ..self
        }
    }

    /// The book after the state of one address changed at `now`.
    pub open spec fn with_state(self, id: usize, state: AddressState, now: u64) -> BookView {
        let known = self.addresses.contains_key(id);
        let address = LocalAddressView { state, ..self.addresses[id] };
        let changed = if known {
            self.with_address(id, address)
        } else {
            self
        };
        match state {
            AddressState::Banned(_) => changed.not_good(id),
            AddressState::NeverTried => changed.not_good(id),
            AddressState::Failed(_) => changed.not_good(id),
            AddressState::Tried(_) => {
                if known {
                    BookView {
                        good_addresses: with_id(self.good_addresses, id),
                        ..changed
                    }.indexed(address, ServiceFlags(UTREEXO)).indexed(
                        address,
                        ServiceFlags(UTREEXO_ARCHIVE),
                    ).indexed(address, ServiceFlags(NONE)).indexed(
                        address,
                        ServiceFlags(COMPACT_FILTERS),
                    )
                } else {
                    self
                }
            },
            AddressState::Connected => {
                if known {
                    let address = LocalAddressView { last_connected: now, ..address };
                    BookView {
                        good_addresses: with_id(self.good_addresses, id),
                        ..self.with_address(id, address)
                    }.indexed(address, ServiceFlags(UTREEXO)).indexed(
                        address,
                        ServiceFlags(NONE),
                    ).indexed(address, ServiceFlags(COMPACT_FILTERS))
                } else {
                    self
                }
            },
        }
    }

    /// Those of some ids that are known, in their order.
    pub open spec fn known(self, ids: Seq<usize>) -> Seq<usize> {
        ids.filter(|id: usize| self.addresses.contains_key(id))
    }

    /// The addresses behind some ids, those of ids that are not known left out.
    pub open spec fn resolved(self, ids: Seq<usize>) -> Seq<LocalAddressView> {
        self.known(ids).map_values(|id: usize| self.addresses[id])
    }

    /// The good addresses offering a service that we are not connected to.
    pub open spec fn offered(self, service: ServiceFlags) -> Seq<usize> {
        bucket(self.good_peers_by_service, service).filter(
            |id: usize|
                self.addresses.contains_key(id) && !(self.addresses[id].state is Connected),
        )
    }

    /// The addresses offering a service, good or not, that a connection may be tried with.
    pub open spec fn retriable(self, service: ServiceFlags, now: u64) -> Seq<usize> {
        bucket(self.peers_by_service, service).filter(
            |id: usize|
                self.addresses.contains_key(id) && self.addresses[id].state.connectable(now),
        )
    }

    /// The book after an address was taken off the list of good ones, and out of the bucket of
    /// good ones that offer a service.
    pub open spec fn demoted(self, service: ServiceFlags, id: usize) -> BookView {
        BookView {
            good_addresses: without(self.good_addresses, id),
            good_peers_by_service: if self.good_peers_by_service.contains_key(service.0) {
                self.good_peers_by_service.insert(
                    service.0,
                    without(self.good_peers_by_service[service.0], id),
                )
            } else {
                self.good_peers_by_service
            },
            ..self
        }
    }

    /// Whether an address may be the next one looked at for a connection: a good one that
    /// offers the service, or else one that offers it and may be tried, or else any.
    pub open spec fn next_pick(self, service: ServiceFlags, now: u64, id: usize) -> bool {
        if self.offered(service).len() > 0 {
            self.offered(service).contains(id)
        } else if self.retriable(service, now).len() > 0 {
            self.retriable(service, now).contains(id)
        } else {
            self.addresses.contains_key(id)
        }
    }

    /// The book after some addresses were looked at for a connection in vain, one after the
    /// other: those that failed too recently are demoted.
    pub open spec fn looked_at(self, service: ServiceFlags, ids: Seq<usize>) -> BookView
        decreases ids.len(),
    {
        if ids.len() == 0 {
            self
        } else {
            let before = self.looked_at(service, ids.drop_last());
            if before.addresses[ids.last()].state is Failed {
                before.demoted(service, ids.last())
            } else {
                before
            }
        }
    }

    /// Whether one of some addresses may be the next one looked at after those before it, and no
    /// connection may be tried with it.
    pub open spec fn vain_at(
        self,
        service: ServiceFlags,
        now: u64,
        ids: Seq<usize>,
        i: int,
    ) -> bool {
        let before = self.looked_at(service, ids.take(i));
        &&& before.addresses.contains_key(ids[i])
        &&& before.next_pick(service, now, ids[i])
        &&& !before.addresses[ids[i]].state.connectable(now)
    }

    /// Whether these may be looked at for a connection in vain, one after the other.
    pub open spec fn looked_in_vain(
        self,
        service: ServiceFlags,
        now: u64,
        ids: Seq<usize>,
    ) -> bool {
        forall|i: int| 0 <= i < ids.len() ==> #[trigger] self.vain_at(service, now, ids, i)
    }

    /// Whether `pick` is an address for a feeler connection: any that is not banned nor connected
    /// to. There is no pick only if there are no addresses, or the one looked at is of no use.
    pub open spec fn feeler_outcome(self, pick: Option<(usize, LocalAddressView)>) -> bool {
        match pick {
            Some((id, address)) => {
                &&& self.addresses.contains_key(id)
                &&& address == self.addresses[id]
                &&& !(address.state is Banned)
                &&& !(address.state is Connected)
            },
            None => self.addresses.len() == 0 || exists|id: usize|
                {
                    &&& #[trigger] self.addresses.contains_key(id)
                    &&& self.addresses[id].state is Banned || self.addresses[id].state is Connected
                },
        }
    }

    /// Whether `pick` is an address to connect to next, and `after` the book once it was picked.
    ///
    /// Addresses are looked at one after the other, up to the first that may be tried at `now`;
    /// that is the pick. There is none if there are no addresses, or as many were looked at in
    /// vain as we look at.
    pub open spec fn connect_outcome(
        self,
        service: ServiceFlags,
        feeler: bool,
        now: u64,
        pick: Option<(usize, LocalAddressView)>,
        after: BookView,
    ) -> bool {
        if feeler {
            after == self && self.feeler_outcome(pick)
        } else {
            exists|ids: Seq<usize>|
                {
                    &&& #[trigger] self.looked_in_vain(service, now, ids)
                    &&& after == self.looked_at(service, ids)
                    &&& match pick {
                        Some((id, address)) => {
                            &&& ids.len() < MAX_ATTEMPTS
                            &&& after.addresses.contains_key(id)
                            &&& after.next_pick(service, now, id)
                            &&& address == after.addresses[id]
                            &&& address.state.connectable(now)
                        },
                        None => after.addresses.len() == 0 || ids.len() == MAX_ATTEMPTS,
                    }
                }
        }
    }

    /// Whether the bucket of a service holds just the addresses that offer it.
    pub open spec fn exact_bucket(self, service: ServiceFlags) -> bool {
        forall|id: usize| #[trigger]
            self.addresses.contains_key(id) ==> (bucket(self.peers_by_service, service).contains(
                id,
            ) <==> self.addresses[id].services.includes(service))
    }

    /// Whether no bucket holds an id twice, or one that is not in the book.
    pub open spec fn sound_buckets(self, buckets: Map<u64, Seq<usize>>) -> bool {
        &&& forall|service: u64| #[trigger]
            buckets.contains_key(service) ==> buckets[service].no_duplicates()
        &&& forall|service: u64, id: usize| #[trigger]
            buckets[service].contains(id) && buckets.contains_key(service)
                ==> self.addresses.contains_key(id)
    }

    /// Whether an address is in the book that is good to connect to.
    pub open spec fn live(self, id: usize) -> bool {
        self.addresses.contains_key(id) && self.addresses[id].good()
    }

    /// Whether the lists of good addresses hold addresses that are good to connect to, each once,
    /// and those by service hold ones that offer the service.
    pub open spec fn sound_goods(self) -> bool {
        &&& self.good_addresses.no_duplicates()
        &&& forall|id: usize| #[trigger] self.good_addresses.contains(id) ==> self.live(id)
        &&& forall|service: u64, id: usize| #[trigger]
            self.good_peers_by_service[service].contains(id)
                && self.good_peers_by_service.contains_key(service) ==> self.live(id)
                && self.addresses[id].services.includes(ServiceFlags(service))
    }

    /// Whether each address is kept under its own id, is worth keeping and is there only once;
    /// the buckets hold known ids only, each once; and those that are kept up to date hold just
    /// the addresses that offer their service.
    pub open spec fn well_indexed(self) -> bool {
        &&& self.addresses.dom().finite()
        &&& forall|id: usize| #[trigger]
            self.addresses.contains_key(id) ==> self.addresses[id].id == id && self.worth_keeping(
                self.addresses[id],
            )
        &&& forall|a: usize, b: usize|
            #![trigger self.addresses.contains_key(a), self.addresses.contains_key(b)]
            self.addresses.contains_key(a) && self.addresses.contains_key(b) && a != b
                ==> self.addresses[a].address != self.addresses[b].address
        &&& self.sound_buckets(self.peers_by_service)
        &&& self.sound_buckets(self.good_peers_by_service)
        &&& self.exact_bucket(ServiceFlags(UTREEXO))
        &&& self.exact_bucket(ServiceFlags(NONE))
        &&& self.exact_bucket(ServiceFlags(COMPACT_FILTERS))
    }

    /// What holds of every book but for its size: it is well indexed, and the lists of good
    /// addresses hold good ones only.
    pub open spec fn sound(self) -> bool {
        self.well_indexed() && self.sound_goods()
    }

    /// Whether there are no more addresses than we keep at most.
    pub open spec fn within_limit(self) -> bool {
        self.addresses.len() <= self.max_size
    }

    /// Whether there are enough good addresses, of every kind we need.
    pub open spec fn has_enough(self) -> bool {
        &&& self.good_addresses.len() >= MIN_ADDRESSES
        &&& self.resolved(
            bucket(self.good_peers_by_service, ServiceFlags(COMPACT_FILTERS)),
        ).len() >= MIN_ADDRESSES_CBF
        &&& self.resolved(bucket(self.good_peers_by_service, ServiceFlags(UTREEXO))).len()
            >= MIN_ADDRESSES_UTREEXO
    }

    /// The ids among some of the addresses on a network that count as tried, or as new; banned
    /// ones count as neither.
    pub open spec fn counted(
        self,
        ids: Set<usize>,
        network: ReachableNetworks,
        tried: bool,
    ) -> Set<usize> {
        ids.filter(
            |id: usize|
                {
                    &&& self.addresses[id].address.addr.network() == Some(network)
                    &&& match self.addresses[id].state {
                        AddressState::Tried(_) => tried,
                        AddressState::Connected => tried,
                        AddressState::NeverTried => !tried,
                        AddressState::Failed(_) => !tried,
                        AddressState::Banned(_) => false,
                    }
                },
        )
    }

    /// Whether how an address stands is not forgotten once the time is `now`.
    pub open spec fn stands(self, id: usize, now: u64) -> bool {
        self.addresses.contains_key(id) ==> self.addresses[id].state.aged(now)
            == self.addresses[id].state
    }

    /// Those of some addresses whose standing is not forgotten once the time is `now`, in their
    /// order.
    pub open spec fn standing(self, ids: Seq<usize>, now: u64) -> Seq<usize> {
        ids.filter(|id: usize| self.stands(id, now))
    }

    /// The book once the time is `now`: addresses whose standing is forgotten are not good any
    /// more.
    pub open spec fn rearranged(self, now: u64) -> BookView {
        BookView {
            addresses: self.addresses.map_values(
                |address: LocalAddressView|
                    LocalAddressView { state: address.state.aged(now), ..address },
            ),
            good_addresses: self.standing(self.good_addresses, now),
            good_peers_by_service: self.good_peers_by_service.map_values(
                |ids: Seq<usize>| self.standing(ids, now),
            ),
            ..self
        }
    }
}

/// Whether more than `span` seconds have passed since `when`.
pub(crate) fn is_past(when: u64, span: u64, now: u64) -> (r: bool)
    ensures
        r == (when + span < now),
{
    now > span && when < now - span
}

} // verus!
