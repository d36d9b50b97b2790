//! What is loaded is what was saved.

use vstd::prelude::*;

use crate::book::BookView;
use crate::book_laws::{new_book_is_sound, pruning_meets_the_limit, pushing_all_keeps_soundness};
use crate::buckets::lemma_push_contains;
use crate::disk::{all_load_as, DiskLocalAddress};
use crate::local_address::{routable, AddressState, LocalAddressView};
use crate::net_addr::ReachableNetworks;

verus! {

/// An address as it comes back once it was saved at `now`: connections do not last.
pub open spec fn kept(address: LocalAddressView, now: u64) -> LocalAddressView {
    LocalAddressView {
        state: if address.state is Connected {
            AddressState::Tried(now)
        } else {
            address.state
        },
        ..address
    }
}

/// An address that was saved comes back under its id, as it was but for the connection.
pub proof fn saved_addresses_come_back(
    address: LocalAddressView,
    now: u64,
    loaded: LocalAddressView,
)
    requires
        !(address.address.addr is Unknown),
        DiskLocalAddress::saved(address, now).loads_as(loaded),
    ensures
        loaded == kept(address, now),
{
}

/// An address on a network we do not know comes back as one that is never put into a book.
pub proof fn unknown_networks_are_lost(
    address: LocalAddressView,
    now: u64,
    loaded: LocalAddressView,
    book: BookView,
)
    requires
        address.address.addr is Unknown,
        DiskLocalAddress::saved(address, now).loads_as(loaded),
    ensures
        book.pushed(loaded) == book,
{
    assert(!routable(loaded.address.addr));
}

/// A book without addresses.
pub open spec fn empty_book(max_size: usize, reachable_networks: Set<ReachableNetworks>) -> BookView {
    BookView {
        addresses: Map::empty(),
        good_addresses: Seq::empty(),
        good_peers_by_service: Map::empty(),
        peers_by_service: Map::empty(),
        max_size,
        reachable_networks,
    }
}

/// Filling a book with the addresses of another one, in some order.
proof fn lemma_refill(
    book: BookView,
    ids: Seq<usize>,
    addresses: Seq<LocalAddressView>,
    now: u64,
)
    requires
        book.sound(),
        ids.no_duplicates(),
        ids.len() == addresses.len(),
        forall|i: int| 0 <= i < ids.len() ==> book.addresses.contains_key(#[trigger] ids[i]),
        forall|i: int|
            0 <= i < ids.len() ==> #[trigger] addresses[i] == kept(book.addresses[ids[i]], now),
    ensures
        ({
            let after = empty_book(book.max_size, book.reachable_networks).pushed_all(addresses);
            &&& after.reachable_networks == book.reachable_networks
            &&& after.max_size == book.max_size
            &&& forall|id: usize| #[trigger]
                after.addresses.contains_key(id) <==> ids.contains(id)
            &&& forall|id: usize| #[trigger]
                after.addresses.contains_key(id) ==> after.addresses[id] == kept(
                    book.addresses[id],
                    now,
                )
        }),
    decreases ids.len(),
{
    let empty = empty_book(book.max_size, book.reachable_networks);
    if ids.len() > 0 {
        let n = ids.len() - 1;
        let fewer = ids.drop_last();
        let rest = addresses.drop_last();
        assert forall|i: int| 0 <= i < fewer.len() implies book.addresses.contains_key(
            #[trigger] fewer[i],
        ) by {
            assert(fewer[i] == ids[i]);
        }
        assert forall|i: int| 0 <= i < fewer.len() implies #[trigger] rest[i] == kept(
            book.addresses[fewer[i]],
            now,
        ) by {
            assert(rest[i] == addresses[i]);
            assert(fewer[i] == ids[i]);
        }
        lemma_refill(book, fewer, rest, now);
        let before = empty.pushed_all(rest);
        let id = ids[n];
        let address = addresses[n];
        assert(book.addresses.contains_key(id));
        assert(address == kept(book.addresses[id], now));
        assert(!fewer.contains(id)) by {
            if fewer.contains(id) {
                let i = choose|i: int| 0 <= i < fewer.len() && fewer[i] == id;
                assert(ids[i] == ids[n]);
            }
        }
        assert(!before.knows(address.address)) by {
            if before.knows(address.address) {
                let other = choose|other: usize| #[trigger]
                    before.addresses.contains_key(other) && before.addresses[other].address
                        == address.address;
                assert(fewer.contains(other));
                let i = choose|i: int| 0 <= i < fewer.len() && fewer[i] == other;
                assert(book.addresses.contains_key(ids[i]));
            }
        }
        assert(before.admits(address));
        let after = empty.pushed_all(addresses);
        assert(after == before.pushed(address));
        assert(after.addresses == before.addresses.insert(id, address));
        assert forall|x: usize| #[trigger]
            after.addresses.contains_key(x) <==> ids.contains(x) by {
            lemma_push_contains(fewer, id, x);
            assert(ids =~= fewer.push(id));
            assert(before.addresses.contains_key(x) <==> fewer.contains(x));
        }
    } else {
        assert(empty.pushed_all(addresses) == empty);
    }
}

/// A book that is saved and loaded into a new one comes back whole: every address as it was but
/// for the connections, and no other.
pub proof fn saved_books_come_back(
    book: BookView,
    saved: Seq<DiskLocalAddress>,
    now: u64,
    after: BookView,
)
    requires
        book.sound(),
        book.within_limit(),
        book.saved_as(saved, now),
        empty_book(book.max_size, book.reachable_networks).loaded_to(saved, after),
    ensures
        after.addresses == book.addresses.map_values(
            |address: LocalAddressView| kept(address, now),
        ),
{
    let empty = empty_book(book.max_size, book.reachable_networks);
    let ids = choose|ids: Seq<usize>|
        {
            &&& #[trigger] ids.no_duplicates()
            &&& ids.to_set() == book.addresses.dom()
            &&& saved == ids.map_values(
                |id: usize| DiskLocalAddress::saved(book.addresses[id], now),
            )
        };
    let addresses = choose|addresses: Seq<LocalAddressView>| #[trigger]
        all_load_as(saved, addresses) && empty.pushed_all(addresses).pruned_to(after);
    assert forall|i: int| 0 <= i < ids.len() implies book.addresses.contains_key(
        #[trigger] ids[i],
    ) by {
        assert(ids.to_set().contains(ids[i]));
    }
    assert forall|i: int| 0 <= i < ids.len() implies #[trigger] addresses[i] == kept(
        book.addresses[ids[i]],
        now,
    ) by {
        assert(book.addresses.contains_key(ids[i]));
        assert(book.worth_keeping(book.addresses[ids[i]]));
        assert(saved[i].loads_as(addresses[i]));
        saved_addresses_come_back(book.addresses[ids[i]], now, addresses[i]);
    }
    lemma_refill(book, ids, addresses, now);
    let full = empty.pushed_all(addresses);
    assert forall|id: usize| #[trigger]
        full.addresses.contains_key(id) <==> book.addresses.contains_key(id) by {
        assert(ids.contains(id) <==> ids.to_set().contains(id));
    }
    assert(full.addresses.dom() =~= book.addresses.dom());
    new_book_is_sound(book.max_size, book.reachable_networks);
    pushing_all_keeps_soundness(empty, addresses);
    pruning_meets_the_limit(full, after);
    assert(after.addresses =~= book.addresses.map_values(
        |address: LocalAddressView| kept(address, now),
    ));
}

} // verus!
