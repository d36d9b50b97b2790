//! Laws of what a change of the state or the services of an address does.

use vstd::prelude::*;

use crate::admission_laws::{adding_an_id_lists_it, lemma_indexed_lists};
use crate::book::BookView;
use crate::buckets::{
    bucket, buckets_offered, buckets_without, lemma_filtered, with_id, without,
    without_drops_only_that_id,
};
use crate::local_address::{routable, AddressState, LocalAddressView};
use crate::saving_laws::lemma_all_pass;
use crate::service_flags::{ServiceFlags, COMPACT_FILTERS, NONE, UTREEXO, UTREEXO_ARCHIVE};
use crate::terms::{
    has_bits, listed, met, minimum_is_recent_blocks_with_witnesses, open_at,
    services_are_sets_of_bits,
};

verus! {

/// A change of state changes that of the address it is about, and of no other; only a connection
/// also changes when we last heard of it. Of an address that is not in the book nothing changes.
pub proof fn states_belong_to_one_address(
    book: BookView,
    id: usize,
    state: AddressState,
    now: u64,
    other: usize,
)
    ensures
        ({
            let after = book.with_state(id, state, now);
            &&& after.max_size == book.max_size
            &&& after.reachable_networks == book.reachable_networks
            &&& after.addresses.contains_key(other) <==> book.addresses.contains_key(other)
            &&& other != id && book.addresses.contains_key(other) ==> after.addresses[other]
                == book.addresses[other]
            &&& book.addresses.contains_key(id) ==> {
                &&& after.addresses[id].state == state
                &&& after.addresses[id].address == book.addresses[id].address
                &&& after.addresses[id].services == book.addresses[id].services
                &&& after.addresses[id].id == book.addresses[id].id
                &&& after.addresses[id].last_connected == if state is Connected {
                    now
                } else {
                    book.addresses[id].last_connected
                }
            }
        }),
{
    if book.addresses.contains_key(id) {
        let address = LocalAddressView { state, ..book.addresses[id] };
        let connected = LocalAddressView { last_connected: now, ..address };
        let b0 = BookView {
            good_addresses: with_id(book.good_addresses, id),
            ..book.with_address(id, address)
        };
        let b1 = b0.indexed(address, ServiceFlags(UTREEXO));
        let b2 = b1.indexed(address, ServiceFlags(UTREEXO_ARCHIVE));
        let b3 = b2.indexed(address, ServiceFlags(NONE));
        lemma_indexed_lists(b0, address, ServiceFlags(UTREEXO), 0, other);
        lemma_indexed_lists(b1, address, ServiceFlags(UTREEXO_ARCHIVE), 0, other);
        lemma_indexed_lists(b2, address, ServiceFlags(NONE), 0, other);
        lemma_indexed_lists(b3, address, ServiceFlags(COMPACT_FILTERS), 0, other);
        let c0 = BookView {
            good_addresses: with_id(book.good_addresses, id),
            ..book.with_address(id, connected)
        };
        let c1 = c0.indexed(connected, ServiceFlags(UTREEXO));
        let c2 = c1.indexed(connected, ServiceFlags(NONE));
        lemma_indexed_lists(c0, connected, ServiceFlags(UTREEXO), 0, other);
        lemma_indexed_lists(c1, connected, ServiceFlags(NONE), 0, other);
        lemma_indexed_lists(c2, connected, ServiceFlags(COMPACT_FILTERS), 0, other);
    }
}

/// What taking an id out of every list leaves.
pub proof fn delisting_takes_one_id_off(
    lists: Map<u64, Seq<usize>>,
    id: usize,
    service: u64,
    other: usize,
)
    ensures
        listed(buckets_without(lists, id), service, other) <==> listed(lists, service, other)
            && other != id,
        buckets_without(lists, id).dom() == lists.dom(),
{
    assert(buckets_without(lists, id).dom() =~= lists.dom());
    if lists.contains_key(service) {
        without_drops_only_that_id(lists[service], id);
    }
}

/// An address that was banned, that failed or that counts as never tried is on no list of good
/// ones; every other address, and the lists of all addresses, stay as they were.
pub proof fn bad_states_delist_one_address(
    book: BookView,
    id: usize,
    state: AddressState,
    now: u64,
    service: u64,
    other: usize,
)
    requires
        !met(state),
    ensures
        ({
            let after = book.with_state(id, state, now);
            &&& after.peers_by_service == book.peers_by_service
            &&& after.good_addresses.contains(other) <==> book.good_addresses.contains(other)
                && other != id
            &&& listed(after.good_peers_by_service, service, other) <==> listed(
                book.good_peers_by_service,
                service,
                other,
            ) && other != id
        }),
{
    without_drops_only_that_id(book.good_addresses, id);
    delisting_takes_one_id_off(book.good_peers_by_service, id, service, other);
}

/// An address of the book that a connection was made with is listed as good and, with the
/// utreexo proofs and compact filters that it serves and with any peer, in the lists of all and
/// in those of good ones; once the connection is over also with the archive it serves. Every
/// other address stays as it was, and so does the book if the address is not in it.
pub proof fn good_states_list_one_address(
    book: BookView,
    id: usize,
    state: AddressState,
    now: u64,
    service: u64,
    other: usize,
)
    requires
        met(state),
        book.addresses.contains_key(id) ==> book.addresses[id].id == id && routable(
            book.addresses[id].address.addr,
        ),
    ensures
        ({
            let after = book.with_state(id, state, now);
            let known = book.addresses.contains_key(id);
            let lists = {
                &&& service == 0 || service == 0x40 || service == 0x1000 || (service == 0x2000
                    && state is Tried)
                &&& has_bits(book.addresses[id].services, service)
            };
            &&& !known ==> after == book
            &&& after.good_addresses.contains(other) <==> book.good_addresses.contains(other) || (
            known && other == id)
            &&& listed(after.peers_by_service, service, other) <==> listed(
                book.peers_by_service,
                service,
                other,
            ) || (known && other == id && lists)
            &&& listed(after.good_peers_by_service, service, other) <==> listed(
                book.good_peers_by_service,
                service,
                other,
            ) || (known && other == id && lists)
        }),
{
    if book.addresses.contains_key(id) {
        let address = LocalAddressView { state, ..book.addresses[id] };
        let connected = LocalAddressView { last_connected: now, ..address };
        adding_an_id_lists_it(book.good_addresses, id, other);
        if state is Tried {
            let b0 = BookView {
                good_addresses: with_id(book.good_addresses, id),
                ..book.with_address(id, address)
            };
            let b1 = b0.indexed(address, ServiceFlags(UTREEXO));
            let b2 = b1.indexed(address, ServiceFlags(UTREEXO_ARCHIVE));
            let b3 = b2.indexed(address, ServiceFlags(NONE));
            lemma_indexed_lists(b0, address, ServiceFlags(UTREEXO), service, other);
            lemma_indexed_lists(b1, address, ServiceFlags(UTREEXO_ARCHIVE), service, other);
            lemma_indexed_lists(b2, address, ServiceFlags(NONE), service, other);
            lemma_indexed_lists(b3, address, ServiceFlags(COMPACT_FILTERS), service, other);
        } else {
            let c0 = BookView {
                good_addresses: with_id(book.good_addresses, id),
                ..book.with_address(id, connected)
            };
            let c1 = c0.indexed(connected, ServiceFlags(UTREEXO));
            let c2 = c1.indexed(connected, ServiceFlags(NONE));
            lemma_indexed_lists(c0, connected, ServiceFlags(UTREEXO), service, other);
            lemma_indexed_lists(c1, connected, ServiceFlags(NONE), service, other);
            lemma_indexed_lists(c2, connected, ServiceFlags(COMPACT_FILTERS), service, other);
        }
    }
}

/// A peer that announces too little leaves no trace in the book. Of any other the services
/// change and nothing else, and those of no other address.
pub proof fn services_belong_to_one_address(
    book: BookView,
    id: usize,
    flags: ServiceFlags,
    other: usize,
)
    ensures
        ({
            let after = book.with_services(id, flags);
            let enough = has_bits(flags, 0x8) && has_bits(flags, 0x400);
            &&& after.max_size == book.max_size
            &&& after.reachable_networks == book.reachable_networks
            &&& after.addresses.contains_key(other) <==> book.addresses.contains_key(other) && (
            enough || other != id)
            &&& other != id && book.addresses.contains_key(other) ==> after.addresses[other]
                == book.addresses[other]
            &&& enough && book.addresses.contains_key(id) ==> {
                &&& after.addresses[id].services == flags
                &&& after.addresses[id].state == book.addresses[id].state
                &&& after.addresses[id].address == book.addresses[id].address
                &&& after.addresses[id].id == book.addresses[id].id
                &&& after.addresses[id].last_connected == book.addresses[id].last_connected
            }
        }),
{
    minimum_is_recent_blocks_with_witnesses(flags);
}

/// What bringing the list of a service up to date does to the lists.
proof fn lemma_reindexed_lists(
    book: BookView,
    id: usize,
    service: ServiceFlags,
    s: u64,
    other: usize,
)
    requires
        book.addresses.contains_key(id),
    ensures
        ({
            let after = book.reindexed(id, service);
            &&& after.addresses == book.addresses
            &&& after.good_addresses == book.good_addresses
            &&& after.good_peers_by_service == book.good_peers_by_service
            &&& listed(after.peers_by_service, s, other) <==> if s == service.0 && other == id {
                has_bits(book.addresses[id].services, s)
            } else {
                listed(book.peers_by_service, s, other)
            }
        }),
{
    services_are_sets_of_bits(book.addresses[id].services, service.0, 0);
    assert(service == ServiceFlags(service.0));
    adding_an_id_lists_it(bucket(book.peers_by_service, service), id, other);
    if book.peers_by_service.contains_key(service.0) {
        without_drops_only_that_id(book.peers_by_service[service.0], id);
    }
}

/// Once the services of an address of the book changed, the lists of those that serve utreexo
/// proofs and compact filters hold it just if it serves them, and it stays on a list of good
/// ones only if it serves what the list is for. Every other address stays where it was.
pub proof fn services_decide_the_lists(
    book: BookView,
    id: usize,
    flags: ServiceFlags,
    service: u64,
    other: usize,
)
    requires
        book.addresses.contains_key(id),
        has_bits(flags, 0x8),
        has_bits(flags, 0x400),
    ensures
        ({
            let after = book.with_services(id, flags);
            &&& after.good_addresses == book.good_addresses
            &&& listed(after.peers_by_service, service, other) <==> if other == id && (service
                == 0x1000 || service == 0x40) {
                has_bits(flags, service)
            } else {
                listed(book.peers_by_service, service, other)
            }
            &&& listed(after.good_peers_by_service, service, other) <==> listed(
                book.good_peers_by_service,
                service,
                other,
            ) && (other == id ==> has_bits(flags, service))
        }),
{
    minimum_is_recent_blocks_with_witnesses(flags);
    services_are_sets_of_bits(flags, service, 0);
    let changed = BookView {
        addresses: book.addresses.insert(
            id,
            LocalAddressView { services: flags, ..book.addresses[id] },
        ),
        good_peers_by_service: buckets_offered(book.good_peers_by_service, id, flags),
        ..book
    };
    let next = changed.reindexed(id, ServiceFlags(UTREEXO));
    lemma_reindexed_lists(changed, id, ServiceFlags(UTREEXO), service, other);
    lemma_reindexed_lists(next, id, ServiceFlags(COMPACT_FILTERS), service, other);
    if book.good_peers_by_service.contains_key(service) {
        without_drops_only_that_id(book.good_peers_by_service[service], id);
    }
}

/// A peer that announces too little is on no list.
pub proof fn weak_services_delist_one_address(
    book: BookView,
    id: usize,
    flags: ServiceFlags,
    service: u64,
    other: usize,
)
    requires
        !(has_bits(flags, 0x8) && has_bits(flags, 0x400)),
    ensures
        ({
            let after = book.with_services(id, flags);
            &&& after.good_addresses.contains(other) <==> book.good_addresses.contains(other)
                && other != id
            &&& listed(after.peers_by_service, service, other) <==> listed(
                book.peers_by_service,
                service,
                other,
            ) && other != id
            &&& listed(after.good_peers_by_service, service, other) <==> listed(
                book.good_peers_by_service,
                service,
                other,
            ) && other != id
        }),
{
    minimum_is_recent_blocks_with_witnesses(flags);
    without_drops_only_that_id(book.good_addresses, id);
    delisting_takes_one_id_off(book.good_peers_by_service, id, service, other);
    delisting_takes_one_id_off(book.peers_by_service, id, service, other);
}

/// As time passes bans end, and encounters more than a day ago are forgotten; nothing else
/// changes of an address, and no address leaves the book.
pub proof fn time_ends_bans_and_makes_encounters_stale(book: BookView, now: u64, id: usize)
    requires
        book.addresses.contains_key(id),
    ensures
        ({
            let after = book.rearranged(now);
            let before = book.addresses[id];
            &&& after.addresses.dom() == book.addresses.dom()
            &&& after.peers_by_service == book.peers_by_service
            &&& after.max_size == book.max_size
            &&& after.reachable_networks == book.reachable_networks
            &&& after.addresses[id].address == before.address
            &&& after.addresses[id].services == before.services
            &&& after.addresses[id].id == before.id
            &&& after.addresses[id].last_connected == before.last_connected
            &&& after.addresses[id].state == match before.state {
                AddressState::NeverTried => AddressState::NeverTried,
                AddressState::Connected => AddressState::Connected,
                AddressState::Banned(until) => if now > until {
                    AddressState::NeverTried
                } else {
                    AddressState::Banned(until)
                },
                AddressState::Tried(when) => if now > when + 24 * 60 * 60 {
                    AddressState::NeverTried
                } else {
                    AddressState::Tried(when)
                },
                AddressState::Failed(when) => if now > when + 24 * 60 * 60 {
                    AddressState::NeverTried
                } else {
                    AddressState::Failed(when)
                },
            }
        }),
{
    assert(book.rearranged(now).addresses.dom() =~= book.addresses.dom());
}

/// Whether an address of the book was last met, or failed, more than a day ago, or was banned
/// until before `now`.
pub open spec fn forgotten_at(book: BookView, id: usize, now: u64) -> bool {
    book.addresses.contains_key(id) && match book.addresses[id].state {
        AddressState::Banned(until) => now > until,
        AddressState::Tried(when) => now > when + 24 * 60 * 60,
        AddressState::Failed(when) => now > when + 24 * 60 * 60,
        _ => false,
    }
}

/// As time passes just those addresses leave the lists of good ones whose standing is forgotten.
pub proof fn time_delists_what_is_forgotten(book: BookView, now: u64, service: u64, id: usize)
    ensures
        ({
            let after = book.rearranged(now);
            &&& after.good_addresses.contains(id) <==> book.good_addresses.contains(id)
                && !forgotten_at(book, id, now)
            &&& listed(after.good_peers_by_service, service, id) <==> listed(
                book.good_peers_by_service,
                service,
                id,
            ) && !forgotten_at(book, id, now)
        }),
{
    let pred = |id: usize| book.stands(id, now);
    lemma_filtered(book.good_addresses, pred);
    assert(book.stands(id, now) <==> !forgotten_at(book, id, now));
    if book.good_peers_by_service.contains_key(service) {
        lemma_filtered(book.good_peers_by_service[service], pred);
    }
}

/// An address may be tried unless it is connected to, banned, or failed in the last ten minutes;
/// it is good if it was met and can be reached.
pub proof fn states_decide_what_is_tried(address: LocalAddressView, now: u64)
    ensures
        address.state.connectable(now) <==> open_at(address.state, now),
        address.good() <==> met(address.state) && routable(address.address.addr),
{
}

/// There are enough addresses if fifteen are listed as good, and of those listed as good with
/// compact filters five, with utreexo proofs two are in the book.
pub proof fn enough_is_fifteen_with_five_and_two(book: BookView)
    ensures
        book.has_enough() <==> {
            let filters = if book.good_peers_by_service.contains_key(0x40) {
                book.good_peers_by_service[0x40]
            } else {
                Seq::empty()
            };
            let proofs = if book.good_peers_by_service.contains_key(0x1000) {
                book.good_peers_by_service[0x1000]
            } else {
                Seq::empty()
            };
            &&& book.good_addresses.len() >= 15
            &&& filters.filter(|id: usize| book.addresses.contains_key(id)).len() >= 5
            &&& proofs.filter(|id: usize| book.addresses.contains_key(id)).len() >= 2
        },
{
}

/// Taking an id off a list takes out its one place and leaves the rest in order.
pub proof fn delisting_leaves_the_rest_in_order(ids: Seq<usize>, i: int)
    requires
        ids.no_duplicates(),
        0 <= i < ids.len(),
    ensures
        without(ids, ids[i]) == ids.remove(i),
{
    lemma_without_one(ids, i);
}

/// Time leaves the list of good addresses as it is if none on it is forgotten.
pub proof fn time_leaves_what_is_not_forgotten(book: BookView, now: u64)
    requires
        forall|k: int|
            0 <= k < book.good_addresses.len() ==> !forgotten_at(
                book,
                #[trigger] book.good_addresses[k],
                now,
            ),
    ensures
        book.rearranged(now).good_addresses == book.good_addresses,
{
    let pred = |id: usize| book.stands(id, now);
    assert forall|k: int| 0 <= k < book.good_addresses.len() implies pred(
        #[trigger] book.good_addresses[k],
    ) by {
        assert(!forgotten_at(book, book.good_addresses[k], now));
    }
    lemma_all_pass(book.good_addresses, pred);
}

/// A list without the id at one of its places, if it is there once.
proof fn lemma_without_one(ids: Seq<usize>, i: int)
    requires
        ids.no_duplicates(),
        0 <= i < ids.len(),
    ensures
        without(ids, ids[i]) == ids.remove(i),
    decreases ids.len(),
{
    reveal(Seq::filter);
    let rest = ids.drop_last();
    let id = ids[i];
    if i == ids.len() - 1 {
        assert(!rest.contains(id)) by {
            if rest.contains(id) {
                let k = choose|k: int| 0 <= k < rest.len() && rest[k] == id;
                assert(ids[k] == ids[i]);
            }
        }
        without_drops_only_that_id(rest, id);
        assert(ids.remove(i) =~= rest);
    } else {
        assert(rest.no_duplicates());
        lemma_without_one(rest, i);
        assert(ids[ids.len() - 1] != id);
        assert(ids.remove(i) =~= rest.remove(i).push(ids.last()));
    }
}

} // verus!
