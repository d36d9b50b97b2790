//! What holds of single addresses in a book.

use vstd::prelude::*;

use crate::book::BookView;
use crate::book_laws::{
    lemma_indexed, lemma_listed_as_good, lemma_looking_keeps_addresses, lemma_with_address,
};
use crate::buckets::{
    bucket, lemma_filtered, lemma_filtered_twice, with_id, without_drops_only_that_id,
};
use crate::local_address::{AddressState, LocalAddressView};
use crate::service_flags::{
    any_peer_offers_no_service, ServiceFlags, COMPACT_FILTERS, NONE, UTREEXO, UTREEXO_ARCHIVE,
};

verus! {

/// An address that failed is off every list of good ones.
pub proof fn failed_addresses_are_not_good(
    book: BookView,
    id: usize,
    when: u64,
    now: u64,
    service: ServiceFlags,
)
    ensures
        ({
            let after = book.with_state(id, AddressState::Failed(when), now);
            &&& !after.good_addresses.contains(id)
            &&& !bucket(after.good_peers_by_service, service).contains(id)
        }),
{
    without_drops_only_that_id(book.good_addresses, id);
    without_drops_only_that_id(bucket(book.good_peers_by_service, service), id);
}

/// An address that is banned is off every list of good ones, and so is one that counts as never
/// tried.
pub proof fn banned_addresses_are_not_good(
    book: BookView,
    id: usize,
    until: u64,
    now: u64,
    service: ServiceFlags,
)
    ensures
        ({
            let after = book.with_state(id, AddressState::Banned(until), now);
            &&& !after.good_addresses.contains(id)
            &&& !bucket(after.good_peers_by_service, service).contains(id)
        }),
        ({
            let after = book.with_state(id, AddressState::NeverTried, now);
            &&& !after.good_addresses.contains(id)
            &&& !bucket(after.good_peers_by_service, service).contains(id)
        }),
{
    without_drops_only_that_id(book.good_addresses, id);
    without_drops_only_that_id(bucket(book.good_peers_by_service, service), id);
}

/// A peer is no good one for services it does not offer any more.
pub proof fn lost_services_leave_the_good_lists(
    book: BookView,
    id: usize,
    flags: ServiceFlags,
    service: ServiceFlags,
)
    requires
        book.addresses.contains_key(id),
        !flags.includes(service),
    ensures
        !bucket(book.with_services(id, flags).good_peers_by_service, service).contains(id),
{
    without_drops_only_that_id(bucket(book.good_peers_by_service, service), id);
}

/// What becomes of an id that is not in the book changes nothing but that it is not listed.
pub proof fn unknown_ids_are_never_listed(
    book: BookView,
    id: usize,
    state: AddressState,
    now: u64,
)
    requires
        book.sound(),
        !book.addresses.contains_key(id),
    ensures
        !book.with_state(id, state, now).good_addresses.contains(id),
{
    without_drops_only_that_id(book.good_addresses, id);
    assert(!book.live(id));
}

/// An address that a connection succeeded with is on the list of good ones, and on those of the
/// services it offers.
pub proof fn tried_addresses_are_good(book: BookView, id: usize, when: u64, now: u64)
    requires
        book.sound(),
        book.addresses.contains_key(id),
    ensures
        ({
            let after = book.with_state(id, AddressState::Tried(when), now);
            let services = book.addresses[id].services;
            &&& after.good_addresses.contains(id)
            &&& bucket(after.good_peers_by_service, ServiceFlags(NONE)).contains(id)
            &&& services.includes(ServiceFlags(UTREEXO)) ==> bucket(
                after.good_peers_by_service,
                ServiceFlags(UTREEXO),
            ).contains(id)
            &&& services.includes(ServiceFlags(COMPACT_FILTERS)) ==> bucket(
                after.good_peers_by_service,
                ServiceFlags(COMPACT_FILTERS),
            ).contains(id)
        }),
{
    let state = AddressState::Tried(when);
    let address = LocalAddressView { state, ..book.addresses[id] };
    let archive = ServiceFlags(UTREEXO_ARCHIVE);
    let (utreexo, none, filters) = (
        ServiceFlags(UTREEXO),
        ServiceFlags(NONE),
        ServiceFlags(COMPACT_FILTERS),
    );
    any_peer_offers_no_service(address.services);
    let b0 = BookView {
        good_addresses: with_id(book.good_addresses, id),
        ..book.with_address(id, address)
    };
    lemma_with_address(book, id, address);
    lemma_listed_as_good(book.with_address(id, address), id);
    let b1 = b0.indexed(address, utreexo);
    let b2 = b1.indexed(address, archive);
    let b3 = b2.indexed(address, none);
    let b4 = b3.indexed(address, filters);
    lemma_indexed(b0, address, utreexo);
    lemma_indexed(b1, address, archive);
    lemma_indexed(b2, address, none);
    lemma_indexed(b3, address, filters);
    assert(bucket(b1.good_peers_by_service, utreexo) == bucket(b4.good_peers_by_service, utreexo));
    assert(bucket(b3.good_peers_by_service, none) == bucket(b4.good_peers_by_service, none));
    assert(book.with_state(id, state, now) == b4);
}

/// A peer that turns out to lack what we need leaves no trace in the book.
pub proof fn weak_peers_leave_no_trace(
    book: BookView,
    id: usize,
    flags: ServiceFlags,
    service: ServiceFlags,
)
    requires
        !flags.meets_minimum(),
    ensures
        ({
            let after = book.with_services(id, flags);
            &&& !after.addresses.contains_key(id)
            &&& !after.good_addresses.contains(id)
            &&& !bucket(after.good_peers_by_service, service).contains(id)
            &&& !bucket(after.peers_by_service, service).contains(id)
        }),
{
    without_drops_only_that_id(book.good_addresses, id);
    without_drops_only_that_id(bucket(book.good_peers_by_service, service), id);
    without_drops_only_that_id(bucket(book.peers_by_service, service), id);
}

/// Offering an address that is in the book already, under any id, changes nothing.
pub proof fn known_addresses_change_nothing(book: BookView, address: LocalAddressView)
    requires
        book.knows(address.address),
    ensures
        book.pushed(address) == book,
{
}

/// Offering the same address twice is offering it once.
pub proof fn addresses_are_taken_once(book: BookView, address: LocalAddressView)
    ensures
        book.pushed(address).pushed(address) == book.pushed(address),
{
    if book.admits(address) {
        let after = book.pushed(address);
        assert(after.addresses == book.addresses.insert(address.id, address));
        assert(after.addresses.contains_key(address.id));
    }
}

/// A ban lasts until its end, and is forgotten then; until then no connection is tried.
pub proof fn bans_last_until_their_end(book: BookView, id: usize, until: u64, set: u64, now: u64)
    requires
        book.addresses.contains_key(id),
    ensures
        ({
            let later = book.with_state(id, AddressState::Banned(until), set).rearranged(now);
            let state = later.addresses[id].state;
            &&& later.addresses.contains_key(id)
            &&& now <= until ==> state == AddressState::Banned(until) && !state.connectable(now)
            &&& now > until ==> state == AddressState::NeverTried && state.connectable(now)
        }),
{
}

/// No connection goes to an address that is banned, that we are connected to, or that is not in
/// the book; and only a feeler goes to one that failed too recently.
pub proof fn only_open_addresses_are_picked(
    book: BookView,
    service: ServiceFlags,
    feeler: bool,
    now: u64,
    id: usize,
    address: LocalAddressView,
    after: BookView,
)
    requires
        book.connect_outcome(service, feeler, now, Some((id, address)), after),
    ensures
        book.addresses.contains_key(id),
        address == book.addresses[id],
        !(address.state is Banned),
        !(address.state is Connected),
        !feeler ==> address.state.connectable(now),
{
    assert forall|ids: Seq<usize>| #[trigger] book.looked_in_vain(service, now, ids) implies
        book.looked_at(service, ids).addresses == book.addresses by {
        lemma_looking_keeps_addresses(book, service, ids);
    }
}

/// An address whose last encounter went stale is off every list of good ones: it is forgotten
/// whether it was good or bad.
pub proof fn stale_addresses_are_not_good(
    book: BookView,
    id: usize,
    now: u64,
    service: ServiceFlags,
)
    requires
        book.addresses.contains_key(id),
        book.addresses[id].state.aged(now) != book.addresses[id].state,
    ensures
        ({
            let after = book.rearranged(now);
            &&& after.addresses[id].state is NeverTried
            &&& !after.good_addresses.contains(id)
            &&& !bucket(after.good_peers_by_service, service).contains(id)
        }),
{
    let pred = |x: usize| book.stands(x, now);
    lemma_filtered(book.good_addresses, pred);
    assert(!book.good_addresses.filter(pred).contains(id));
    if book.good_peers_by_service.contains_key(service.0) {
        let ids = book.good_peers_by_service[service.0];
        lemma_filtered(ids, pred);
        assert(!ids.filter(pred).contains(id));
    }
}

/// Looking the book over once is enough: having done so earlier makes no difference.
pub proof fn rearranging_again_adds_nothing(book: BookView, earlier: u64, now: u64)
    requires
        earlier <= now,
    ensures
        book.rearranged(earlier).rearranged(now) == book.rearranged(now),
{
    let once = book.rearranged(earlier);
    let twice = once.rearranged(now);
    let goal = book.rearranged(now);
    assert(twice.addresses =~= goal.addresses);
    let first = |id: usize| book.stands(id, earlier);
    let second = |id: usize| once.stands(id, now);
    let both = |id: usize| book.stands(id, now);
    assert forall|id: usize| #[trigger] both(id) <==> first(id) && second(id) by {
        assert(once.addresses.contains_key(id) <==> book.addresses.contains_key(id));
    }
    lemma_filtered_twice(book.good_addresses, first, second, both);
    assert(twice.good_addresses == goal.good_addresses);
    assert forall|s: u64| #[trigger] book.good_peers_by_service.contains_key(s) implies
        twice.good_peers_by_service[s] == goal.good_peers_by_service[s] by {
        lemma_filtered_twice(book.good_peers_by_service[s], first, second, both);
    }
    assert(twice.good_peers_by_service =~= goal.good_peers_by_service);
}

} // verus!
