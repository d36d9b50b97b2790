//! What holds of an address book whatever is done with it.

use vstd::prelude::*;

use crate::book::{BookView, MAX_ATTEMPTS};
use crate::buckets::{
    bucket, buckets_offered, buckets_without, lemma_filtered, lemma_push_contains, with_id,
    without_drops_only_that_id,
};
use crate::local_address::{AddressState, LocalAddressView};
use crate::net_addr::ReachableNetworks;
use crate::service_flags::{
    any_peer_offers_no_service, ServiceFlags, COMPACT_FILTERS, NONE, UTREEXO, UTREEXO_ARCHIVE,
};

verus! {

/// Adding an id once keeps a list free of duplicates, and adds that id only.
proof fn lemma_with_id(ids: Seq<usize>, id: usize)
    ensures
        ids.no_duplicates() ==> with_id(ids, id).no_duplicates(),
        forall|x: usize| with_id(ids, id).contains(x) <==> ids.contains(x) || x == id,
{
    let more = with_id(ids, id);
    assert forall|x: usize| more.contains(x) <==> ids.contains(x) || x == id by {
        if !ids.contains(id) {
            if more.contains(x) {
                let i = choose|i: int| 0 <= i < more.len() && more[i] == x;
                if i < ids.len() {
                    assert(ids[i] == x);
                }
            }
            if ids.contains(x) {
                let i = choose|i: int| 0 <= i < ids.len() && ids[i] == x;
                assert(more[i] == x);
            }
            assert(more[ids.len() as int] == id);
        }
    }
}

/// What putting an address into the bucket of a service does.
pub(crate) proof fn lemma_indexed(
    book: BookView,
    address: LocalAddressView,
    service: ServiceFlags,
)
    requires
        book.sound_buckets(book.peers_by_service),
        book.sound_buckets(book.good_peers_by_service),
        book.sound_goods(),
        book.addresses.contains_key(address.id),
        book.addresses[address.id] == address,
    ensures
        ({
            let after = book.indexed(address, service);
            &&& after.addresses == book.addresses
            &&& after.good_addresses == book.good_addresses
            &&& after.max_size == book.max_size
            &&& after.reachable_networks == book.reachable_networks
            &&& after.sound_buckets(after.peers_by_service)
            &&& after.sound_buckets(after.good_peers_by_service)
            &&& after.sound_goods()
            &&& forall|other: ServiceFlags|
                other != service ==> #[trigger] bucket(after.peers_by_service, other) == bucket(
                    book.peers_by_service,
                    other,
                )
            &&& forall|other: ServiceFlags|
                other != service ==> #[trigger] bucket(after.good_peers_by_service, other)
                    == bucket(book.good_peers_by_service, other)
            &&& forall|id: usize|
                bucket(after.good_peers_by_service, service).contains(id) <==> bucket(
                    book.good_peers_by_service,
                    service,
                ).contains(id) || (id == address.id && address.services.includes(service)
                    && address.good())
            &&& forall|id: usize|
                bucket(after.peers_by_service, service).contains(id) <==> bucket(
                    book.peers_by_service,
                    service,
                ).contains(id) || (id == address.id && address.services.includes(service))
        }),
{
    let all = bucket(book.peers_by_service, service);
    let good = bucket(book.good_peers_by_service, service);
    lemma_with_id(all, address.id);
    lemma_with_id(good, address.id);
    let after = book.indexed(address, service);
    if address.services.includes(service) {
        assert forall|s: u64, id: usize| #[trigger]
            after.peers_by_service[s].contains(id) && after.peers_by_service.contains_key(
                s,
            ) implies after.addresses.contains_key(id) by {
            if s == service.0 {
                if id != address.id {
                    assert(all.contains(id));
                    assert(book.peers_by_service[s].contains(id));
                }
            } else {
                assert(book.peers_by_service[s].contains(id));
            }
        }
        assert forall|s: u64, id: usize| #[trigger]
            after.good_peers_by_service[s].contains(id)
                && after.good_peers_by_service.contains_key(
                s,
            ) implies after.live(id) && after.addresses[id].services.includes(
            ServiceFlags(s),
        ) by {
            if s == service.0 {
                if good.contains(id) {
                    assert(book.good_peers_by_service[s].contains(id));
                }
            } else {
                assert(book.good_peers_by_service[s].contains(id));
            }
        }
    }
}

/// The buckets stay sound when an id leaves all of them, and with them the book.
proof fn lemma_buckets_without(book: BookView, buckets: Map<u64, Seq<usize>>, id: usize)
    requires
        book.sound_buckets(buckets),
    ensures
        ({
            let after = BookView { addresses: book.addresses.remove(id), ..book };
            &&& book.sound_buckets(buckets_without(buckets, id))
            &&& after.sound_buckets(buckets_without(buckets, id))
            &&& forall|service: ServiceFlags, other: usize|
                #![trigger bucket(buckets_without(buckets, id), service).contains(other)]
                other != id ==> (bucket(buckets_without(buckets, id), service).contains(other)
                    <==> bucket(buckets, service).contains(other))
        }),
{
    let after = BookView { addresses: book.addresses.remove(id), ..book };
    let left = buckets_without(buckets, id);
    assert forall|service: u64| #[trigger]
        left.contains_key(service) implies left[service].no_duplicates() by {
        without_drops_only_that_id(buckets[service], id);
    }
    assert forall|service: u64, other: usize| #[trigger]
        left[service].contains(other) && left.contains_key(
            service,
        ) implies book.addresses.contains_key(other) && other != id by {
        without_drops_only_that_id(buckets[service], id);
        assert(buckets[service].contains(other));
    }
    assert forall|service: ServiceFlags, other: usize|
        #![trigger bucket(left, service).contains(other)]
        other != id implies (bucket(left, service).contains(other) <==> bucket(
        buckets,
        service,
    ).contains(other)) by {
        if buckets.contains_key(service.0) {
            without_drops_only_that_id(buckets[service.0], id);
        }
    }
}

/// The good addresses stay sound when one leaves all the lists, whatever becomes of it.
proof fn lemma_not_good(book: BookView, id: usize, after: BookView)
    requires
        book.sound(),
        after.good_addresses == book.not_good(id).good_addresses,
        after.good_peers_by_service == book.not_good(id).good_peers_by_service,
        forall|x: usize| #[trigger]
            book.addresses.contains_key(x) && x != id ==> after.addresses.contains_key(x)
                && after.addresses[x] == book.addresses[x],
    ensures
        after.sound_goods(),
{
    without_drops_only_that_id(book.good_addresses, id);
    assert forall|x: usize| #[trigger] after.good_addresses.contains(x) implies after.live(x) by {
        assert(book.good_addresses.contains(x));
        assert(book.addresses.contains_key(x));
    }
    assert forall|s: u64, x: usize| #[trigger]
        after.good_peers_by_service[s].contains(x) && after.good_peers_by_service.contains_key(
            s,
        ) implies after.live(x) && after.addresses[x].services.includes(ServiceFlags(s)) by {
        without_drops_only_that_id(book.good_peers_by_service[s], id);
        assert(book.good_peers_by_service[s].contains(x));
        assert(book.addresses.contains_key(x));
    }
}

/// A new book is in order.
pub proof fn new_book_is_sound(max_size: usize, reachable_networks: Set<ReachableNetworks>)
    ensures
        ({
            let book = BookView {
                addresses: Map::empty(),
                good_addresses: Seq::empty(),
                good_peers_by_service: Map::empty(),
                peers_by_service: Map::empty(),
                max_size,
                reachable_networks,
            };
            book.sound() && book.within_limit()
        }),
{
}

/// A book stays in order when an address is offered to it.
pub proof fn pushing_keeps_soundness(book: BookView, address: LocalAddressView)
    requires
        book.sound(),
    ensures
        book.pushed(address).sound(),
{
    if book.admits(address) {
        let id = address.id;
        let b0 = BookView {
            addresses: book.addresses.insert(id, address),
            good_addresses: if address.good() {
                book.good_addresses.push(id)
            } else {
                book.good_addresses
            },
            ..book
        };
        assert(b0.sound_buckets(b0.peers_by_service));
        assert(b0.sound_buckets(b0.good_peers_by_service));
        assert(!book.good_addresses.contains(id));
        assert forall|x: usize| #[trigger] b0.good_addresses.contains(x) implies b0.live(x) by {
            lemma_push_contains(book.good_addresses, id, x);
            if x != id || !address.good() {
                assert(book.good_addresses.contains(x));
            }
        }
        assert(b0.sound_goods());
        let b1 = b0.indexed(address, ServiceFlags(UTREEXO));
        lemma_indexed(b0, address, ServiceFlags(UTREEXO));
        let b2 = b1.indexed(address, ServiceFlags(NONE));
        lemma_indexed(b1, address, ServiceFlags(NONE));
        let b3 = b2.indexed(address, ServiceFlags(COMPACT_FILTERS));
        lemma_indexed(b2, address, ServiceFlags(COMPACT_FILTERS));
        assert forall|service: ServiceFlags| #[trigger]
            bucket(book.peers_by_service, service).contains(id) implies false by {
            assert(book.peers_by_service[service.0].contains(id));
        }
        assert(b3.exact_bucket(ServiceFlags(UTREEXO)));
        assert(b3.exact_bucket(ServiceFlags(NONE)));
        assert(b3.exact_bucket(ServiceFlags(COMPACT_FILTERS)));
        assert forall|a: usize, b: usize|
            #![trigger b3.addresses.contains_key(a), b3.addresses.contains_key(b)]
            b3.addresses.contains_key(a) && b3.addresses.contains_key(b) && a
                != b implies b3.addresses[a].address != b3.addresses[b].address by {
            if a == id {
                assert(book.addresses.contains_key(b));
            } else if b == id {
                assert(book.addresses.contains_key(a));
            } else {
                assert(book.addresses.contains_key(a) && book.addresses.contains_key(b));
            }
        }
    }
}

/// A book stays in order when addresses are offered to it.
pub proof fn pushing_all_keeps_soundness(book: BookView, addresses: Seq<LocalAddressView>)
    requires
        book.sound(),
    ensures
        book.pushed_all(addresses).sound(),
    decreases addresses.len(),
{
    if addresses.len() > 0 {
        pushing_all_keeps_soundness(book, addresses.drop_last());
        pushing_keeps_soundness(book.pushed_all(addresses.drop_last()), addresses.last());
    }
}

/// A book stays in order when an address is dropped.
pub proof fn forgetting_keeps_soundness(book: BookView, id: usize)
    requires
        book.sound(),
    ensures
        book.forgotten(id).sound(),
        book.within_limit() ==> book.forgotten(id).within_limit(),
{
    let after = book.forgotten(id);
    lemma_buckets_without(book, book.peers_by_service, id);
    lemma_buckets_without(book, book.good_peers_by_service, id);
    assert forall|other: usize| #[trigger]
        after.addresses.contains_key(other) implies book.addresses.contains_key(other) && other
        != id by {}
    lemma_not_good(book, id, after);
    assert(after.exact_bucket(ServiceFlags(UTREEXO)));
    assert(after.exact_bucket(ServiceFlags(NONE)));
    assert(after.exact_bucket(ServiceFlags(COMPACT_FILTERS)));
}

/// A book stays in order when addresses are dropped, and is as much smaller as there were
/// different ones among them.
proof fn lemma_forgetting_all(book: BookView, ids: Seq<usize>)
    requires
        book.sound(),
        ids.no_duplicates(),
        forall|i: int| 0 <= i < ids.len() ==> book.addresses.contains_key(#[trigger] ids[i]),
    ensures
        book.forgotten_all(ids).sound(),
        book.forgotten_all(ids).addresses.len() == book.addresses.len() - ids.len(),
        book.forgotten_all(ids).max_size == book.max_size,
        book.forgotten_all(ids).reachable_networks == book.reachable_networks,
        forall|id: usize| #[trigger]
            book.forgotten_all(ids).addresses.contains_key(id) <==> book.addresses.contains_key(id)
                && !ids.contains(id),
        forall|id: usize| #[trigger]
            book.forgotten_all(ids).addresses.contains_key(id)
                ==> book.forgotten_all(ids).addresses[id] == book.addresses[id],
    decreases ids.len(),
{
    if ids.len() > 0 {
        let rest = ids.drop_last();
        let last = ids.last();
        lemma_forgetting_all(book, rest);
        let before = book.forgotten_all(rest);
        assert(!rest.contains(last)) by {
            if rest.contains(last) {
                let i = choose|i: int| 0 <= i < rest.len() && rest[i] == last;
                assert(ids[i] == ids[ids.len() - 1]);
            }
        }
        assert(book.addresses.contains_key(ids[ids.len() - 1]));
        assert(before.addresses.contains_key(last));
        forgetting_keeps_soundness(before, last);
        assert forall|id: usize| ids.contains(id) <==> rest.contains(id) || id == last by {
            if ids.contains(id) {
                let i = choose|i: int| 0 <= i < ids.len() && ids[i] == id;
                if i < rest.len() {
                    assert(rest[i] == id);
                }
            }
            if rest.contains(id) {
                let i = choose|i: int| 0 <= i < rest.len() && rest[i] == id;
                assert(ids[i] == id);
            }
            assert(ids[ids.len() - 1] == last);
        }
    }
}

/// Pruning leaves a book in order and within its limit. It drops nothing from a book within its
/// limit, no more than needed from any other, and no address that was heard of after one that
/// stays; what stays is not changed.
pub proof fn pruning_meets_the_limit(book: BookView, after: BookView)
    requires
        book.sound(),
        book.pruned_to(after),
    ensures
        after.sound(),
        after.within_limit(),
        after.addresses.len() == book.addresses.len() - book.excess(),
        book.within_limit() ==> after == book,
        after.addresses.submap_of(book.addresses),
        forall|dropped: usize, kept: usize|
            #![trigger book.addresses.contains_key(dropped), after.addresses.contains_key(kept)]
            book.addresses.contains_key(dropped) && !after.addresses.contains_key(dropped)
                && after.addresses.contains_key(kept) ==> book.addresses[dropped].last_connected
                <= after.addresses[kept].last_connected,
{
    let ids = choose|ids: Seq<usize>| #[trigger]
        book.excess_ids(ids) && after == book.forgotten_all(ids);
    lemma_forgetting_all(book, ids);
    assert forall|dropped: usize, kept: usize|
        #![trigger book.addresses.contains_key(dropped), after.addresses.contains_key(kept)]
        book.addresses.contains_key(dropped) && !after.addresses.contains_key(dropped)
            && after.addresses.contains_key(kept) implies book.addresses[dropped].last_connected
        <= after.addresses[kept].last_connected by {
        assert(ids.contains(dropped));
        let i = choose|i: int| 0 <= i < ids.len() && ids[i] == dropped;
        assert(book.addresses.contains_key(kept) && !ids.contains(kept));
        assert(book.addresses[ids[i]].last_connected <= book.addresses[kept].last_connected);
    }
}

/// A book stays in order, and within its limit, when addresses are added to it.
pub proof fn adding_addresses_keeps_order(
    book: BookView,
    addresses: Seq<LocalAddressView>,
    after: BookView,
)
    requires
        book.sound(),
        book.pushed_all(addresses).pruned_to(after),
    ensures
        after.sound(),
        after.within_limit(),
{
    pushing_all_keeps_soundness(book, addresses);
    pruning_meets_the_limit(book.pushed_all(addresses), after);
}

/// Replacing what is known of an address, other than where it is and what it offers, keeps a
/// book well indexed, and in order if the address is good.
pub(crate) proof fn lemma_with_address(book: BookView, id: usize, address: LocalAddressView)
    requires
        book.sound(),
        book.addresses.contains_key(id),
        address.address == book.addresses[id].address,
        address.services == book.addresses[id].services,
        address.id == id,
    ensures
        book.with_address(id, address).well_indexed(),
        address.good() ==> book.with_address(id, address).sound(),
        book.with_address(id, address).addresses.len() == book.addresses.len(),
{
    let after = book.with_address(id, address);
    assert forall|x: usize| #[trigger]
        after.addresses.contains_key(x) <==> book.addresses.contains_key(x) by {}
    assert forall|x: usize| #[trigger]
        after.addresses.contains_key(x) implies after.addresses[x].address
        == book.addresses[x].address && after.addresses[x].services == book.addresses[x].services
        && after.addresses[x].id == book.addresses[x].id by {}
    assert(after.addresses.dom() =~= book.addresses.dom());
    if address.good() {
        assert forall|x: usize| #[trigger] book.live(x) implies after.live(x) by {}
        assert(after.sound_goods());
    }
}

/// Putting a known address into the bucket of a service that it offers keeps a book in order.
proof fn lemma_indexing_keeps_soundness(
    book: BookView,
    address: LocalAddressView,
    service: ServiceFlags,
)
    requires
        book.sound(),
        book.addresses.contains_key(address.id),
        book.addresses[address.id] == address,
    ensures
        book.indexed(address, service).sound(),
        book.indexed(address, service).addresses == book.addresses,
        book.indexed(address, service).max_size == book.max_size,
{
    lemma_indexed(book, address, service);
    let after = book.indexed(address, service);
    assert(after.exact_bucket(ServiceFlags(UTREEXO)));
    assert(after.exact_bucket(ServiceFlags(NONE)));
    assert(after.exact_bucket(ServiceFlags(COMPACT_FILTERS)));
}

/// Listing an address as good that is good keeps a book in order.
pub(crate) proof fn lemma_listed_as_good(book: BookView, id: usize)
    requires
        book.sound(),
        book.live(id),
    ensures
        (BookView { good_addresses: with_id(book.good_addresses, id), ..book }).sound(),
        with_id(book.good_addresses, id).contains(id),
{
    let after = BookView { good_addresses: with_id(book.good_addresses, id), ..book };
    lemma_with_id(book.good_addresses, id);
    assert forall|x: usize| #[trigger] book.live(x) implies after.live(x) by {}
    assert forall|x: usize| #[trigger] after.good_addresses.contains(x) implies after.live(x) by {
        assert(book.good_addresses.contains(x) || x == id);
        assert(book.live(x));
    }
    assert(after.exact_bucket(ServiceFlags(UTREEXO)));
    assert(after.exact_bucket(ServiceFlags(NONE)));
    assert(after.exact_bucket(ServiceFlags(COMPACT_FILTERS)));
}

/// A book stays in order, and within its limit, when the state of an address changes.
pub proof fn changing_state_keeps_order(book: BookView, id: usize, state: AddressState, now: u64)
    requires
        book.sound(),
    ensures
        book.with_state(id, state, now).sound(),
        book.within_limit() ==> book.with_state(id, state, now).within_limit(),
{
    let after = book.with_state(id, state, now);
    let address = LocalAddressView { state, ..book.addresses[id] };
    if book.addresses.contains_key(id) {
        lemma_with_address(book, id, address);
        let changed = book.with_address(id, address);
        match state {
            AddressState::Banned(_) | AddressState::NeverTried | AddressState::Failed(_) => {
                lemma_buckets_without(changed, changed.good_peers_by_service, id);
                lemma_not_good(book, id, after);
            },
            AddressState::Tried(_) => {
                lemma_listed_as_good(changed, id);
                let b0 = BookView {
                    good_addresses: with_id(book.good_addresses, id),
                    ..changed
                };
                assert(b0.sound());
                lemma_indexing_keeps_soundness(b0, address, ServiceFlags(UTREEXO));
                let b1 = b0.indexed(address, ServiceFlags(UTREEXO));
                lemma_indexing_keeps_soundness(b1, address, ServiceFlags(UTREEXO_ARCHIVE));
                let b2 = b1.indexed(address, ServiceFlags(UTREEXO_ARCHIVE));
                lemma_indexing_keeps_soundness(b2, address, ServiceFlags(NONE));
                let b3 = b2.indexed(address, ServiceFlags(NONE));
                lemma_indexing_keeps_soundness(b3, address, ServiceFlags(COMPACT_FILTERS));
            },
            AddressState::Connected => {
                let address = LocalAddressView { last_connected: now, ..address };
                lemma_with_address(book, id, address);
                lemma_listed_as_good(book.with_address(id, address), id);
                let b0 = BookView {
                    good_addresses: with_id(book.good_addresses, id),
                    ..book.with_address(id, address)
                };
                assert(b0.sound());
                lemma_indexing_keeps_soundness(b0, address, ServiceFlags(UTREEXO));
                let b1 = b0.indexed(address, ServiceFlags(UTREEXO));
                lemma_indexing_keeps_soundness(b1, address, ServiceFlags(NONE));
                let b2 = b1.indexed(address, ServiceFlags(NONE));
                lemma_indexing_keeps_soundness(b2, address, ServiceFlags(COMPACT_FILTERS));
            },
        }
    } else {
        lemma_buckets_without(book, book.good_peers_by_service, id);
        lemma_not_good(book, id, book.not_good(id));
    }
}

/// What bringing the bucket of a service up to date does.
proof fn lemma_reindexed(book: BookView, id: usize, service: ServiceFlags)
    requires
        book.sound_buckets(book.peers_by_service),
    ensures
        ({
            let after = book.reindexed(id, service);
            &&& after == (BookView { peers_by_service: after.peers_by_service, ..book })
            &&& after.sound_buckets(after.peers_by_service)
            &&& forall|other: ServiceFlags|
                other != service ==> #[trigger] bucket(after.peers_by_service, other) == bucket(
                    book.peers_by_service,
                    other,
                )
            &&& forall|x: usize|
                x != id ==> (bucket(after.peers_by_service, service).contains(x) <==> bucket(
                    book.peers_by_service,
                    service,
                ).contains(x))
            &&& book.addresses.contains_key(id) ==> (bucket(
                after.peers_by_service,
                service,
            ).contains(id) <==> book.addresses[id].services.includes(service))
        }),
{
    let all = bucket(book.peers_by_service, service);
    lemma_with_id(all, id);
    without_drops_only_that_id(all, id);
    let after = book.reindexed(id, service);
    assert forall|s: u64, x: usize| #[trigger]
        after.peers_by_service[s].contains(x) && after.peers_by_service.contains_key(
            s,
        ) implies after.addresses.contains_key(x) by {
        if s == service.0 && x != id {
            assert(all.contains(x));
            assert(book.peers_by_service[s].contains(x));
        } else if s != service.0 {
            assert(book.peers_by_service[s].contains(x));
        } else if !book.addresses.contains_key(id) {
            assert(book.peers_by_service[s].contains(x));
        }
    }
}

/// The good addresses stay sound when one gets other services, and leaves the lists of those it
/// does not offer any more.
proof fn lemma_offered(book: BookView, id: usize, flags: ServiceFlags, after: BookView)
    requires
        book.sound(),
        book.addresses.contains_key(id),
        after.good_addresses == book.good_addresses,
        after.good_peers_by_service == buckets_offered(book.good_peers_by_service, id, flags),
        after.addresses == book.addresses.insert(
            id,
            LocalAddressView { services: flags, ..book.addresses[id] },
        ),
    ensures
        after.sound_goods(),
        after.sound_buckets(after.good_peers_by_service),
{
    assert forall|x: usize| #[trigger] book.live(x) implies after.live(x) by {}
    assert forall|s: u64| #[trigger]
        after.good_peers_by_service.contains_key(
            s,
        ) implies after.good_peers_by_service[s].no_duplicates() by {
        without_drops_only_that_id(book.good_peers_by_service[s], id);
        assert(book.good_peers_by_service.contains_key(s));
    }
    assert forall|s: u64, x: usize| #[trigger]
        after.good_peers_by_service[s].contains(x) && after.good_peers_by_service.contains_key(
            s,
        ) implies after.live(x) && after.addresses[x].services.includes(ServiceFlags(s)) by {
        without_drops_only_that_id(book.good_peers_by_service[s], id);
        assert(book.good_peers_by_service[s].contains(x));
        assert(book.live(x));
    }
}

/// A book stays in order, and within its limit, when a peer announces other services. One that
/// lacks what we need leaves no trace.
pub proof fn changing_services_keeps_order(book: BookView, id: usize, flags: ServiceFlags)
    requires
        book.sound(),
    ensures
        book.with_services(id, flags).sound(),
        book.within_limit() ==> book.with_services(id, flags).within_limit(),
{
    if !flags.meets_minimum() {
        forgetting_keeps_soundness(book, id);
    } else if book.addresses.contains_key(id) {
        let address = LocalAddressView { services: flags, ..book.addresses[id] };
        let b0 = BookView {
            good_peers_by_service: buckets_offered(book.good_peers_by_service, id, flags),
            ..book.with_address(id, address)
        };
        assert forall|x: usize| #[trigger]
            b0.addresses.contains_key(x) <==> book.addresses.contains_key(x) by {}
        assert(b0.addresses.dom() =~= book.addresses.dom());
        assert(b0.sound_buckets(b0.peers_by_service));
        lemma_offered(book, id, flags, b0);
        lemma_reindexed(b0, id, ServiceFlags(UTREEXO));
        let b1 = b0.reindexed(id, ServiceFlags(UTREEXO));
        lemma_reindexed(b1, id, ServiceFlags(COMPACT_FILTERS));
        let b2 = b1.reindexed(id, ServiceFlags(COMPACT_FILTERS));
        any_peer_offers_no_service(flags);
        any_peer_offers_no_service(book.addresses[id].services);
        assert(b2.exact_bucket(ServiceFlags(UTREEXO)));
        assert(b2.exact_bucket(ServiceFlags(NONE)));
        assert(b2.exact_bucket(ServiceFlags(COMPACT_FILTERS)));
        assert(book.with_services(id, flags) == b2);
    }
}

/// A book stays in order, and within its limit, as time passes.
pub proof fn rearranging_keeps_order(book: BookView, now: u64)
    requires
        book.sound(),
    ensures
        book.rearranged(now).sound(),
        book.within_limit() ==> book.rearranged(now).within_limit(),
{
    let after = book.rearranged(now);
    assert forall|x: usize| #[trigger]
        after.addresses.contains_key(x) <==> book.addresses.contains_key(x) by {}
    assert(after.addresses.dom() =~= book.addresses.dom());
    assert forall|x: usize| #[trigger]
        after.addresses.contains_key(x) implies after.addresses[x] == (LocalAddressView {
        state: book.addresses[x].state.aged(now),
        ..book.addresses[x]
    }) by {}
    let pred = |x: usize| book.stands(x, now);
    assert forall|x: usize| #[trigger] book.live(x) && pred(x) implies after.live(x) by {
        assert(after.addresses.contains_key(x));
    }
    lemma_filtered(book.good_addresses, pred);
    assert(after.good_addresses == book.good_addresses.filter(pred));
    assert forall|s: u64| #[trigger] after.good_peers_by_service.contains_key(s) implies
        after.good_peers_by_service[s].no_duplicates() by {
        lemma_filtered(book.good_peers_by_service[s], pred);
        assert(book.good_peers_by_service.contains_key(s));
        assert(after.good_peers_by_service[s] == book.good_peers_by_service[s].filter(pred));
    }
    assert forall|s: u64, x: usize| #[trigger]
        after.good_peers_by_service[s].contains(x) && after.good_peers_by_service.contains_key(
            s,
        ) implies after.live(x) && after.addresses[x].services.includes(ServiceFlags(s)) by {
        lemma_filtered(book.good_peers_by_service[s], pred);
        assert(after.good_peers_by_service[s] == book.good_peers_by_service[s].filter(pred));
        assert(book.good_peers_by_service[s].contains(x));
        assert(book.live(x) && pred(x));
    }
    assert(after.sound_goods());
}

/// A book stays in order, and within its limit, when an address to connect to is picked.
pub proof fn picking_keeps_order(
    book: BookView,
    service: ServiceFlags,
    feeler: bool,
    now: u64,
    pick: Option<(usize, LocalAddressView)>,
    after: BookView,
)
    requires
        book.sound(),
        book.connect_outcome(service, feeler, now, pick, after),
    ensures
        after.sound(),
        book.within_limit() ==> after.within_limit(),
{
    if !feeler {
        let ids = choose|ids: Seq<usize>|
            {
                &&& #[trigger] book.looked_in_vain(service, now, ids)
                &&& after == book.looked_at(service, ids)
                &&& match pick {
                    Some((id, address)) => {
                        &&& ids.len() < MAX_ATTEMPTS
                        &&& after.addresses.contains_key(id)
                        &&& after.next_pick(service, now, id)
                        &&& address == after.addresses[id]
                        &&& address.state.connectable(now)
                    },
                    None => after.addresses.len() == 0 || ids.len() == MAX_ATTEMPTS,
                }
            };
        lemma_looking_keeps_addresses(book, service, ids);
        lemma_looking_keeps_order(book, service, ids);
    }
}

/// Looking at addresses changes none of them.
pub(crate) proof fn lemma_looking_keeps_addresses(
    book: BookView,
    service: ServiceFlags,
    ids: Seq<usize>,
)
    ensures
        book.looked_at(service, ids).addresses == book.addresses,
        book.looked_at(service, ids).max_size == book.max_size,
    decreases ids.len(),
{
    if ids.len() > 0 {
        lemma_looking_keeps_addresses(book, service, ids.drop_last());
    }
}

/// Looking at addresses keeps a book in order.
proof fn lemma_looking_keeps_order(book: BookView, service: ServiceFlags, ids: Seq<usize>)
    requires
        book.sound(),
    ensures
        book.looked_at(service, ids).sound(),
    decreases ids.len(),
{
    if ids.len() > 0 {
        lemma_looking_keeps_order(book, service, ids.drop_last());
        let before = book.looked_at(service, ids.drop_last());
        let id = ids.last();
        let after = before.demoted(service, id);
        without_drops_only_that_id(before.good_addresses, id);
        without_drops_only_that_id(bucket(before.good_peers_by_service, service), id);
        assert forall|x: usize| #[trigger] before.live(x) implies after.live(x) by {}
        assert forall|x: usize| #[trigger] after.good_addresses.contains(x) implies after.live(
            x,
        ) by {
            assert(before.good_addresses.contains(x));
        }
        assert forall|s: u64, x: usize| #[trigger]
            after.good_peers_by_service[s].contains(x)
                && after.good_peers_by_service.contains_key(s) implies after.live(x)
            && after.addresses[x].services.includes(ServiceFlags(s)) by {
            assert(before.good_peers_by_service[s].contains(x));
            assert(before.live(x));
        }
        assert(after.sound_buckets(after.good_peers_by_service));
        assert(after.exact_bucket(ServiceFlags(UTREEXO)));
        assert(after.exact_bucket(ServiceFlags(NONE)));
        assert(after.exact_bucket(ServiceFlags(COMPACT_FILTERS)));
    }
}

} // verus!
