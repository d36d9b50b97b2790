//! Laws of how an address is picked.

use vstd::prelude::*;

use crate::book::{BookView, MAX_ATTEMPTS};
use crate::buckets::{
    bucket, lemma_filtered, lemma_push_contains, without, without_drops_only_that_id,
};
use crate::local_address::LocalAddressView;
use crate::service_flags::ServiceFlags;
use crate::terms::{has_bits, listed, met, open_at, services_are_sets_of_bits};

verus! {

/// The addresses picked from first are those in the list of good ones of the service that are
/// in the book and not connected to, and no others.
pub proof fn first_choice_is_the_good_list(book: BookView, service: ServiceFlags, id: usize)
    ensures
        book.offered(service).contains(id) <==> listed(book.good_peers_by_service, service.0, id)
            && book.addresses.contains_key(id) && !(book.addresses[id].state is Connected),
{
    lemma_filtered(
        bucket(book.good_peers_by_service, service),
        |id: usize| book.addresses.contains_key(id) && !(book.addresses[id].state is Connected),
    );
}

/// The addresses picked from next are those in the list of all that offer the service that are in
/// the book and may be tried.
pub proof fn second_choice_is_the_list_of_all(
    book: BookView,
    service: ServiceFlags,
    now: u64,
    id: usize,
)
    ensures
        book.retriable(service, now).contains(id) <==> listed(
            book.peers_by_service,
            service.0,
            id,
        ) && book.addresses.contains_key(id) && open_at(book.addresses[id].state, now),
{
    lemma_filtered(
        bucket(book.peers_by_service, service),
        |id: usize|
            book.addresses.contains_key(id) && book.addresses[id].state.connectable(now),
    );
}

/// Looking at addresses changes the lists of good ones only, and those only by ids that leave
/// them.
proof fn lemma_looking(book: BookView, service: ServiceFlags, ids: Seq<usize>)
    ensures
        ({
            let after = book.looked_at(service, ids);
            &&& after.addresses == book.addresses
            &&& after.peers_by_service == book.peers_by_service
            &&& after.max_size == book.max_size
            &&& after.reachable_networks == book.reachable_networks
            &&& after.good_peers_by_service.dom() == book.good_peers_by_service.dom()
            &&& forall|id: usize| #[trigger]
                after.good_addresses.contains(id) <==> book.good_addresses.contains(id)
                    && !(ids.contains(id) && book.addresses[id].state is Failed)
            &&& forall|s: u64, id: usize| #[trigger]
                listed(after.good_peers_by_service, s, id) <==> listed(
                    book.good_peers_by_service,
                    s,
                    id,
                ) && !(s == service.0 && ids.contains(id) && book.addresses[id].state is Failed)
        }),
    decreases ids.len(),
{
    let after = book.looked_at(service, ids);
    if ids.len() > 0 {
        let rest = ids.drop_last();
        let last = ids.last();
        lemma_looking(book, service, rest);
        let before = book.looked_at(service, rest);
        assert(ids =~= rest.push(last));
        assert forall|id: usize| ids.contains(id) <==> rest.contains(id) || id == last by {
            lemma_push_contains(rest, last, id);
        }
        without_drops_only_that_id(before.good_addresses, last);
        if before.good_peers_by_service.contains_key(service.0) {
            without_drops_only_that_id(before.good_peers_by_service[service.0], last);
        }
        assert(after.good_peers_by_service.dom() =~= book.good_peers_by_service.dom());
        assert forall|id: usize| #[trigger]
            after.good_addresses.contains(id) <==> book.good_addresses.contains(id) && !(
            ids.contains(id) && book.addresses[id].state is Failed) by {
            assert(before.good_addresses.contains(id) <==> book.good_addresses.contains(id) && !(
            rest.contains(id) && book.addresses[id].state is Failed));
        }
        assert forall|s: u64, id: usize| #[trigger]
            listed(after.good_peers_by_service, s, id) <==> listed(
                book.good_peers_by_service,
                s,
                id,
            ) && !(s == service.0 && ids.contains(id) && book.addresses[id].state is Failed) by {
            assert(listed(before.good_peers_by_service, s, id) <==> listed(
                book.good_peers_by_service,
                s,
                id,
            ) && !(s == service.0 && rest.contains(id) && book.addresses[id].state is Failed));
        }
    } else {
        assert(forall|id: usize| !ids.contains(id));
    }
}

/// Whether these are the ids that were looked at before a pick was made, or given up on.
spec fn looks(
    book: BookView,
    service: ServiceFlags,
    now: u64,
    pick: Option<(usize, LocalAddressView)>,
    after: BookView,
    ids: Seq<usize>,
) -> bool {
    &&& book.looked_in_vain(service, now, ids)
    &&& after == book.looked_at(service, ids)
    &&& match pick {
        Some((id, address)) => {
            &&& ids.len() < MAX_ATTEMPTS
            &&& after.addresses.contains_key(id)
            &&& after.next_pick(service, now, id)
            &&& address == after.addresses[id]
            &&& address.state.connectable(now)
        },
        None => after.addresses.len() == 0 || ids.len() == MAX_ATTEMPTS,
    }
}

/// A pick is made after some addresses were looked at.
proof fn lemma_looks(
    book: BookView,
    service: ServiceFlags,
    now: u64,
    pick: Option<(usize, LocalAddressView)>,
    after: BookView,
) -> (ids: Seq<usize>)
    requires
        book.connect_outcome(service, false, now, pick, after),
    ensures
        looks(book, service, now, pick, after, ids),
        ids.len() > 0 ==> book.vain_at(service, now, ids, 0) && ids.take(0) == Seq::<
            usize,
        >::empty(),
        ids.len() == 0 ==> after == book,
{
    let ids = choose|ids: Seq<usize>|
        {
            &&& #[trigger] book.looked_in_vain(service, now, ids)
            &&& after == book.looked_at(service, ids)
            &&& match pick {
                Some((id, address)) => {
                    &&& ids.len() < MAX_ATTEMPTS
                    &&& after.addresses.contains_key(id)
                    &&& after.next_pick(service, now, id)
                    &&& address == after.addresses[id]
                    &&& address.state.connectable(now)
                },
                None => after.addresses.len() == 0 || ids.len() == MAX_ATTEMPTS,
            }
        };
    assert(ids.take(0) =~= Seq::<usize>::empty());
    ids
}

/// Whenever the book holds an address that is listed as good for the service and not connected
/// to, and the addresses so listed are ones that were met, one of these is picked, and looking
/// for it changes nothing.
pub proof fn good_addresses_are_picked_first(
    book: BookView,
    service: ServiceFlags,
    now: u64,
    pick: Option<(usize, LocalAddressView)>,
    after: BookView,
    good: usize,
)
    requires
        book.connect_outcome(service, false, now, pick, after),
        book.addresses.dom().finite(),
        forall|id: usize| #[trigger]
            listed(book.good_peers_by_service, service.0, id) ==> book.addresses.contains_key(id)
                && met(book.addresses[id].state),
        listed(book.good_peers_by_service, service.0, good),
        book.addresses[good].state is Tried,
    ensures
        after == book,
        match pick {
            Some((id, address)) => {
                &&& listed(book.good_peers_by_service, service.0, id)
                &&& book.addresses.contains_key(id)
                &&& address == book.addresses[id]
                &&& address.state is Tried
            },
            None => false,
        },
{
    let ids = lemma_looks(book, service, now, pick, after);
    first_choice_is_the_good_list(book, service, good);
    assert(book.offered(service).len() > 0);
    if ids.len() > 0 {
        first_choice_is_the_good_list(book, service, ids[0]);
        assert(listed(book.good_peers_by_service, service.0, ids[0]));
    }
    assert(book.addresses.dom().contains(good));
    match pick {
        Some((id, address)) => {
            first_choice_is_the_good_list(book, service, id);
            assert(listed(book.good_peers_by_service, service.0, id));
        },
        None => {},
    }
}

/// In a sound book, an address picked because a good one is there is itself good, and offers the
/// service that was asked for.
pub proof fn good_picks_offer_the_service(
    book: BookView,
    service: ServiceFlags,
    now: u64,
    pick: Option<(usize, LocalAddressView)>,
    after: BookView,
    good: usize,
)
    requires
        book.sound(),
        book.connect_outcome(service, false, now, pick, after),
        listed(book.good_peers_by_service, service.0, good),
        book.addresses[good].state is Tried,
    ensures
        match pick {
            Some((id, address)) => {
                &&& listed(book.good_peers_by_service, service.0, id)
                &&& address.good()
                &&& address.state is Tried
                &&& address.id == id
                &&& has_bits(address.services, service.0)
            },
            None => false,
        },
{
    assert forall|id: usize| #[trigger]
        listed(
            book.good_peers_by_service,
            service.0,
            id,
        ) implies book.addresses.contains_key(id) && met(book.addresses[id].state) by {
        assert(book.good_peers_by_service[service.0].contains(id));
        assert(book.live(id));
    }
    good_addresses_are_picked_first(book, service, now, pick, after, good);
    match pick {
        Some((id, address)) => {
            assert(book.good_peers_by_service[service.0].contains(id));
            assert(book.live(id));
            assert(service == ServiceFlags(service.0));
            services_are_sets_of_bits(address.services, service.0, 0);
        },
        None => {},
    }
}

/// Where no good address is to be had, but one that offers the service may be tried, one of
/// these is picked, and looking for it changes nothing.
pub proof fn open_addresses_are_picked_next(
    book: BookView,
    service: ServiceFlags,
    now: u64,
    pick: Option<(usize, LocalAddressView)>,
    after: BookView,
    other: usize,
)
    requires
        book.connect_outcome(service, false, now, pick, after),
        book.addresses.dom().finite(),
        forall|id: usize| #[trigger]
            listed(book.good_peers_by_service, service.0, id) && book.addresses.contains_key(id)
                ==> book.addresses[id].state is Connected,
        listed(book.peers_by_service, service.0, other),
        book.addresses.contains_key(other),
        open_at(book.addresses[other].state, now),
    ensures
        after == book,
        match pick {
            Some((id, address)) => {
                &&& listed(book.peers_by_service, service.0, id)
                &&& book.addresses.contains_key(id)
                &&& address == book.addresses[id]
                &&& open_at(address.state, now)
            },
            None => false,
        },
{
    let ids = lemma_looks(book, service, now, pick, after);
    if book.offered(service).len() > 0 {
        let id = book.offered(service)[0];
        first_choice_is_the_good_list(book, service, id);
        assert(listed(book.good_peers_by_service, service.0, id));
    }
    second_choice_is_the_list_of_all(book, service, now, other);
    assert(book.retriable(service, now).len() > 0);
    if ids.len() > 0 {
        second_choice_is_the_list_of_all(book, service, now, ids[0]);
    }
    assert(book.addresses.dom().contains(other));
    match pick {
        Some((id, address)) => {
            second_choice_is_the_list_of_all(book, service, now, id);
        },
        None => {},
    }
}

/// Where nothing is known to offer the service, any address may be picked; one is as long as
/// there are addresses and each may be tried.
pub proof fn any_address_is_picked_last(
    book: BookView,
    service: ServiceFlags,
    now: u64,
    pick: Option<(usize, LocalAddressView)>,
    after: BookView,
)
    requires
        book.connect_outcome(service, false, now, pick, after),
        book.addresses.dom().finite(),
        book.addresses.len() > 0,
        forall|id: usize| #[trigger]
            book.addresses.contains_key(id) ==> open_at(book.addresses[id].state, now),
    ensures
        after == book,
        match pick {
            Some((id, address)) => book.addresses.contains_key(id) && address
                == book.addresses[id],
            None => false,
        },
{
    let ids = lemma_looks(book, service, now, pick, after);
    if ids.len() > 0 {
        assert(book.addresses.contains_key(ids[0]));
    }
}

/// Nothing is picked from an empty book, and what is picked is an address of the book that may
/// be tried. A feeler may try one that failed a moment ago, and changes nothing.
pub proof fn picks_may_be_tried(
    book: BookView,
    service: ServiceFlags,
    feeler: bool,
    now: u64,
    pick: Option<(usize, LocalAddressView)>,
    after: BookView,
)
    requires
        book.connect_outcome(service, feeler, now, pick, after),
    ensures
        after.addresses == book.addresses,
        feeler ==> after == book,
        match pick {
            Some((id, address)) => {
                &&& book.addresses.contains_key(id)
                &&& address == book.addresses[id]
                &&& !(address.state is Banned)
                &&& !(address.state is Connected)
                &&& !feeler ==> open_at(address.state, now)
            },
            None => true,
        },
        book.addresses.len() == 0 && book.addresses.dom().finite() ==> pick is None,
{
    if !feeler {
        let ids = lemma_looks(book, service, now, pick, after);
        lemma_looking(book, service, ids);
    }
    match pick {
        Some((id, address)) => {
            if book.addresses.dom().finite() {
                assert(book.addresses.dom().contains(id));
            }
        },
        None => {},
    }
}

/// A feeler finds an address as long as there are addresses and none is banned or connected to.
pub proof fn feelers_find_an_address(
    book: BookView,
    service: ServiceFlags,
    now: u64,
    pick: Option<(usize, LocalAddressView)>,
    after: BookView,
)
    requires
        book.connect_outcome(service, true, now, pick, after),
        book.addresses.len() > 0,
        forall|id: usize| #[trigger]
            book.addresses.contains_key(id) ==> !(book.addresses[id].state is Banned)
                && !(book.addresses[id].state is Connected),
    ensures
        pick is Some,
{
}

/// Looking for an address takes off the lists of good ones only addresses that failed in the
/// last ten minutes, and by service only from the list of the service that was asked for.
pub proof fn looking_drops_recent_failures_only(
    book: BookView,
    service: ServiceFlags,
    now: u64,
    pick: Option<(usize, LocalAddressView)>,
    after: BookView,
    id: usize,
    listed_for: u64,
)
    requires
        book.connect_outcome(service, false, now, pick, after),
    ensures
        after.addresses == book.addresses,
        after.peers_by_service == book.peers_by_service,
        after.max_size == book.max_size,
        after.reachable_networks == book.reachable_networks,
        after.good_addresses.contains(id) ==> book.good_addresses.contains(id),
        listed(after.good_peers_by_service, listed_for, id) ==> listed(
            book.good_peers_by_service,
            listed_for,
            id,
        ),
        book.good_addresses.contains(id) && !after.good_addresses.contains(id)
            ==> book.addresses.contains_key(id) && book.addresses[id].state is Failed && !open_at(
            book.addresses[id].state,
            now,
        ),
        listed(book.good_peers_by_service, listed_for, id) && !listed(
            after.good_peers_by_service,
            listed_for,
            id,
        ) ==> listed_for == service.0 && book.addresses.contains_key(id)
            && book.addresses[id].state is Failed && !open_at(book.addresses[id].state, now),
{
    let ids = lemma_looks(book, service, now, pick, after);
    lemma_looking(book, service, ids);
    if ids.contains(id) {
        let i = choose|i: int| 0 <= i < ids.len() && ids[i] == id;
        assert(book.vain_at(service, now, ids, i));
        lemma_looking(book, service, ids.take(i));
    }
}

/// Where every address failed in the last ten minutes, none is picked, and at least one of them
/// is on no list of good ones that it was looked for on.
pub proof fn looking_drops_what_failed(
    book: BookView,
    service: ServiceFlags,
    now: u64,
    pick: Option<(usize, LocalAddressView)>,
    after: BookView,
)
    requires
        book.connect_outcome(service, false, now, pick, after),
        book.addresses.dom().finite(),
        book.addresses.len() > 0,
        forall|id: usize| #[trigger]
            book.addresses.contains_key(id) ==> book.addresses[id].state is Failed && !open_at(
                book.addresses[id].state,
                now,
            ),
    ensures
        pick is None,
        exists|id: usize|
            {
                &&& #[trigger] book.addresses.contains_key(id)
                &&& !after.good_addresses.contains(id)
                &&& !listed(after.good_peers_by_service, service.0, id)
            },
{
    let ids = lemma_looks(book, service, now, pick, after);
    lemma_looking(book, service, ids);
    match pick {
        Some((id, _)) => {
            assert(book.addresses.contains_key(id));
        },
        None => {},
    }
    assert(ids.len() > 0);
    assert(ids.contains(ids[0]));
    assert(book.addresses.contains_key(ids[0]));
}

/// A list without one of its ids that is there once is shorter by one.
pub(crate) proof fn lemma_one_less(ids: Seq<usize>, id: usize)
    requires
        ids.no_duplicates(),
        ids.contains(id),
    ensures
        without(ids, id).len() == ids.len() - 1,
        without(ids, id).no_duplicates(),
{
    without_drops_only_that_id(ids, id);
    ids.unique_seq_to_set();
    without(ids, id).unique_seq_to_set();
    assert(without(ids, id).to_set() =~= ids.to_set().remove(id));
}

/// Each of the addresses looked at in vain leaves the list of good ones, if they all failed.
proof fn lemma_each_look_drops_one(
    book: BookView,
    service: ServiceFlags,
    now: u64,
    ids: Seq<usize>,
    n: int,
)
    requires
        book.looked_in_vain(service, now, ids),
        book.good_peers_by_service.contains_key(service.0),
        book.good_peers_by_service[service.0].no_duplicates(),
        forall|id: usize| #[trigger]
            listed(book.good_peers_by_service, service.0, id) ==> book.addresses.contains_key(id)
                && book.addresses[id].state is Failed && !open_at(book.addresses[id].state, now),
        0 <= n <= ids.len(),
        n <= book.good_peers_by_service[service.0].len(),
    ensures
        ({
            let after = book.looked_at(service, ids.take(n)).good_peers_by_service;
            &&& after.contains_key(service.0)
            &&& after[service.0].no_duplicates()
            &&& after[service.0].len() == book.good_peers_by_service[service.0].len() - n
        }),
    decreases n,
{
    lemma_looking(book, service, ids.take(n));
    if n > 0 {
        lemma_each_look_drops_one(book, service, now, ids, n - 1);
        let before = book.looked_at(service, ids.take(n - 1));
        let id = ids[n - 1];
        lemma_looking(book, service, ids.take(n - 1));
        assert(ids.take(n).drop_last() =~= ids.take(n - 1));
        assert(book.vain_at(service, now, ids, n - 1));
        let some = before.good_peers_by_service[service.0][0];
        assert(listed(before.good_peers_by_service, service.0, some));
        assert(listed(book.good_peers_by_service, service.0, some));
        first_choice_is_the_good_list(before, service, some);
        assert(before.offered(service).len() > 0);
        first_choice_is_the_good_list(before, service, id);
        assert(listed(before.good_peers_by_service, service.0, id));
        assert(listed(book.good_peers_by_service, service.0, id));
        lemma_one_less(before.good_peers_by_service[service.0], id);
    } else {
        assert(ids.take(0) =~= Seq::<usize>::empty());
    }
}

/// Where at least ten addresses are listed as good for a service and all of them failed in the
/// last ten minutes, ten of them are looked at and leave the list before we give up.
pub proof fn ten_looks_are_made(
    book: BookView,
    service: ServiceFlags,
    now: u64,
    pick: Option<(usize, LocalAddressView)>,
    after: BookView,
)
    requires
        book.connect_outcome(service, false, now, pick, after),
        book.addresses.dom().finite(),
        book.good_peers_by_service.contains_key(service.0),
        book.good_peers_by_service[service.0].no_duplicates(),
        book.good_peers_by_service[service.0].len() >= 10,
        forall|id: usize| #[trigger]
            listed(book.good_peers_by_service, service.0, id) ==> book.addresses.contains_key(id)
                && book.addresses[id].state is Failed && !open_at(book.addresses[id].state, now),
    ensures
        pick is None,
        after.good_peers_by_service.contains_key(service.0),
        after.good_peers_by_service[service.0].len()
            == book.good_peers_by_service[service.0].len() - 10,
{
    let ids = lemma_looks(book, service, now, pick, after);
    let some = book.good_peers_by_service[service.0][0];
    assert(listed(book.good_peers_by_service, service.0, some));
    assert(book.addresses.dom().contains(some));
    lemma_looking(book, service, ids);
    lemma_each_look_drops_one(book, service, now, ids, ids.len() as int);
    assert(ids.take(ids.len() as int) =~= ids);
    if pick is Some {
        let (id, address) = pick->Some_0;
        let next = after.good_peers_by_service[service.0][0];
        assert(listed(after.good_peers_by_service, service.0, next));
        assert(listed(book.good_peers_by_service, service.0, next));
        first_choice_is_the_good_list(after, service, next);
        assert(after.offered(service).len() > 0);
        first_choice_is_the_good_list(after, service, id);
        assert(listed(after.good_peers_by_service, service.0, id));
        assert(listed(book.good_peers_by_service, service.0, id));
    }
}

} // verus!
