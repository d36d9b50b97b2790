//! Laws of what is saved, entry by entry and field by field.

use vstd::prelude::*;

use crate::admission_laws::{
    each_address_of_use_is_taken, of_use_first, pruning_keeps_the_latest,
    what_is_taken_was_offered,
};
use crate::book::BookView;
use crate::book_laws::pushing_all_keeps_soundness;
use crate::buckets::lemma_filtered;
use crate::disk::{all_load_as, Address, DiskLocalAddress};
use crate::local_address::{AddressState, LocalAddressView};
use crate::net_addr::{AddrV2View, SocketView};
use crate::service_flags::ServiceFlags;

verus! {

/// Whether an entry and an address stand for the same place.
pub open spec fn same_place(entry: Address, addr: AddrV2View) -> bool {
    match addr {
        AddrV2View::Ipv4(ip) => entry == Address::V4(ip),
        AddrV2View::Ipv6(ip) => entry == Address::V6(ip),
        AddrV2View::TorV2(key) => entry == Address::OnionV2(key),
        AddrV2View::TorV3(key) => entry == Address::OnionV3(key),
        AddrV2View::I2p(key) => entry == Address::I2p(key),
        AddrV2View::Cjdns(ip) => entry == Address::Cjdns(ip),
        AddrV2View::Unknown(_, _) => false,
    }
}

/// What becomes of the state of an address that is saved at `now`: a connection is one that was
/// last up then.
pub open spec fn state_saved(state: AddressState, now: u64) -> AddressState {
    match state {
        AddressState::Connected => AddressState::Tried(now),
        AddressState::NeverTried => AddressState::NeverTried,
        AddressState::Tried(when) => AddressState::Tried(when),
        AddressState::Banned(until) => AddressState::Banned(until),
        AddressState::Failed(when) => AddressState::Failed(when),
    }
}

/// Whether an entry holds all there is to save of an address at `now`.
pub open spec fn holds(entry: DiskLocalAddress, address: LocalAddressView, now: u64) -> bool {
    &&& entry.port == address.address.port
    &&& entry.services == address.services.0
    &&& entry.last_connected == address.last_connected
    &&& entry.state == state_saved(address.state, now)
    &&& entry.id == Some(address.id)
    &&& !(address.address.addr is Unknown) ==> same_place(entry.address, address.address.addr)
}

/// An entry holds the place, the port, the services, the time, the state and the id of the
/// address that was saved; only a connection is not saved as one.
pub proof fn entries_hold_every_field(address: LocalAddressView, now: u64)
    ensures
        holds(DiskLocalAddress::saved(address, now), address, now),
        address.address.addr is Unknown ==> DiskLocalAddress::saved(address, now).address
            == Address::V4([127, 0, 0, 1]),
{
}

/// An entry is read as the address that has all its fields, under its id if it has one.
pub proof fn entries_are_read_field_by_field(entry: DiskLocalAddress, address: LocalAddressView)
    ensures
        entry.loads_as(address) <==> {
            &&& same_place(entry.address, address.address.addr)
            &&& address.address.port == entry.port
            &&& address.services.0 == entry.services
            &&& address.last_connected == entry.last_connected
            &&& address.state == entry.state
            &&& match entry.id {
                Some(id) => address.id == id,
                None => true,
            }
        },
{
    if same_place(entry.address, address.address.addr) {
        assert(entry.address.loaded()@ == address.address.addr);
    }
    if address.services.0 == entry.services {
        assert(address.services == ServiceFlags(entry.services));
    }
    if entry.loads_as(address) {
        assert(same_place(entry.address, address.address.addr));
    }
    if same_place(entry.address, address.address.addr) && address.address.port == entry.port {
        assert(address.address == SocketView { addr: entry.address.loaded()@, port: entry.port });
    }
}

/// Reading several entries gives as many addresses, in their order.
pub proof fn all_entries_are_read(
    saved: Seq<DiskLocalAddress>,
    addresses: Seq<LocalAddressView>,
    i: int,
)
    requires
        all_load_as(saved, addresses),
        0 <= i < saved.len(),
    ensures
        addresses.len() == saved.len(),
        same_place(saved[i].address, addresses[i].address.addr),
        addresses[i].address.port == saved[i].port,
        addresses[i].services.0 == saved[i].services,
        addresses[i].last_connected == saved[i].last_connected,
        addresses[i].state == saved[i].state,
        saved[i].id matches Some(id) ==> addresses[i].id == id,
{
    assert(saved[i].loads_as(addresses[i]));
    entries_are_read_field_by_field(saved[i], addresses[i]);
}

/// Filtering keeps everything if everything passes.
pub(crate) proof fn lemma_all_pass<T>(all: Seq<T>, pred: spec_fn(T) -> bool)
    requires
        forall|i: int| 0 <= i < all.len() ==> pred(#[trigger] all[i]),
    ensures
        all.filter(pred) == all,
    decreases all.len(),
{
    reveal(Seq::filter);
    if all.len() > 0 {
        let rest = all.drop_last();
        assert forall|i: int| 0 <= i < rest.len() implies pred(#[trigger] rest[i]) by {
            assert(rest[i] == all[i]);
        }
        lemma_all_pass(rest, pred);
        assert(pred(all[all.len() - 1]));
        assert(rest.push(all.last()) =~= all);
    } else {
        assert(all.filter(pred) =~= all);
    }
}

/// What is found behind some ids are the addresses of those that are in the book, one for each,
/// in their order.
pub proof fn ids_are_looked_up_in_order(book: BookView, ids: Seq<usize>)
    ensures
        ({
            let inside = ids.filter(|id: usize| book.addresses.contains_key(id));
            let found = book.resolved(ids);
            &&& found.len() == inside.len()
            &&& forall|i: int|
                0 <= i < found.len() ==> #[trigger] found[i] == book.addresses[inside[i]]
                    && book.addresses.contains_key(inside[i])
            &&& forall|id: usize|
                ids.contains(id) && #[trigger] book.addresses.contains_key(id)
                    ==> found.contains(book.addresses[id])
            &&& (forall|i: int|
                0 <= i < ids.len() ==> book.addresses.contains_key(#[trigger] ids[i])) ==> {
                &&& found.len() == ids.len()
                &&& forall|i: int|
                    0 <= i < ids.len() ==> #[trigger] found[i] == book.addresses[ids[i]]
            }
        }),
{
    let pred = |id: usize| book.addresses.contains_key(id);
    let inside = ids.filter(pred);
    let found = book.resolved(ids);
    lemma_filtered(ids, pred);
    assert forall|i: int| 0 <= i < found.len() implies #[trigger] found[i]
        == book.addresses[inside[i]] && book.addresses.contains_key(inside[i]) by {
        assert(inside.contains(inside[i]));
    }
    assert forall|id: usize|
        ids.contains(id) && #[trigger] book.addresses.contains_key(id) implies found.contains(
        book.addresses[id],
    ) by {
        assert(inside.contains(id));
        let i = choose|i: int| 0 <= i < inside.len() && inside[i] == id;
        assert(found[i] == book.addresses[id]);
    }
    if forall|i: int| 0 <= i < ids.len() ==> book.addresses.contains_key(#[trigger] ids[i]) {
        lemma_all_pass(ids, pred);
    }
}

/// What is saved as anchors has one entry for each of the ids given that is in the book, in their
/// order, and loading an entry gives back the address of its id, as it was but for the
/// connection.
pub proof fn anchors_come_back(
    book: BookView,
    ids: Seq<usize>,
    now: u64,
    i: int,
    loaded: LocalAddressView,
)
    ensures
        ({
            let inside = ids.filter(|id: usize| book.addresses.contains_key(id));
            let saved = book.anchors(ids, now);
            &&& saved.len() == inside.len()
            &&& 0 <= i < saved.len() && saved[i].loads_as(loaded)
                && !(book.addresses[inside[i]].address.addr is Unknown) ==> {
                let address = book.addresses[inside[i]];
                &&& book.addresses.contains_key(inside[i])
                &&& loaded.address == address.address
                &&& loaded.services == address.services
                &&& loaded.last_connected == address.last_connected
                &&& loaded.state == state_saved(address.state, now)
                &&& loaded.id == address.id
            }
        }),
{
    ids_are_looked_up_in_order(book, ids);
    let saved = book.anchors(ids, now);
    if 0 <= i < saved.len() {
        entries_hold_every_field(book.resolved(ids)[i], now);
        entries_are_read_field_by_field(saved[i], loaded);
    }
}

/// Where all of some ids are in the book, as many anchors are saved, each with the id of its
/// address.
pub proof fn every_known_id_is_an_anchor(book: BookView, ids: Seq<usize>, now: u64, i: int)
    requires
        forall|i: int| 0 <= i < ids.len() ==> book.addresses.contains_key(#[trigger] ids[i]),
        0 <= i < ids.len(),
    ensures
        book.anchors(ids, now).len() == ids.len(),
        holds(book.anchors(ids, now)[i], book.addresses[ids[i]], now),
{
    ids_are_looked_up_in_order(book, ids);
    assert(book.resolved(ids)[i] == book.addresses[ids[i]]);
    entries_hold_every_field(book.addresses[ids[i]], now);
}

/// What is saved of a book has as many entries as the book has addresses, and for each address
/// one that holds it.
pub proof fn every_address_is_saved(
    book: BookView,
    saved: Seq<DiskLocalAddress>,
    now: u64,
    id: usize,
)
    requires
        book.saved_as(saved, now),
        book.addresses.contains_key(id),
    ensures
        saved.len() == book.addresses.len(),
        exists|i: int|
            0 <= i < saved.len() && holds(#[trigger] saved[i], book.addresses[id], now),
{
    let ids = choose|ids: Seq<usize>|
        {
            &&& #[trigger] ids.no_duplicates()
            &&& ids.to_set() == book.addresses.dom()
            &&& saved == ids.map_values(
                |id: usize| DiskLocalAddress::saved(book.addresses[id], now),
            )
        };
    ids.unique_seq_to_set();
    assert(ids.to_set().contains(id));
    let i = choose|i: int| 0 <= i < ids.len() && ids[i] == id;
    assert(saved[i] == DiskLocalAddress::saved(book.addresses[id], now));
    entries_hold_every_field(book.addresses[id], now);
}

/// Each entry that is read into a book is there afterwards, if it is of use, no entry before it
/// has its place or its id, and there is room for all; nothing that was in the book is changed.
pub proof fn entries_of_use_are_in_the_book(
    book: BookView,
    saved: Seq<DiskLocalAddress>,
    after: BookView,
)
    requires
        book.sound(),
        book.loaded_to(saved, after),
    ensures
        exists|addresses: Seq<LocalAddressView>|
            #![trigger all_load_as(saved, addresses)]
            {
                &&& all_load_as(saved, addresses)
                &&& book.pushed_all(addresses).addresses.len() <= book.max_size ==> {
                    &&& forall|i: int|
                        0 <= i < saved.len() && of_use_first(book, addresses, i) ==> {
                            &&& after.addresses.contains_key((#[trigger] addresses[i]).id)
                            &&& after.addresses[addresses[i].id] == addresses[i]
                        }
                    &&& forall|id: usize| #[trigger]
                        book.addresses.contains_key(id) ==> after.addresses.contains_key(id)
                            && after.addresses[id] == book.addresses[id]
                }
            },
{
    let addresses = choose|addresses: Seq<LocalAddressView>| #[trigger]
        all_load_as(saved, addresses) && book.pushed_all(addresses).pruned_to(after);
    let full = book.pushed_all(addresses);
    pushing_all_keeps_soundness(book, addresses);
    pruning_keeps_the_latest(full, after);
    if full.addresses.len() <= book.max_size {
        what_is_taken_was_offered(book, addresses, 0);
        assert(after == full);
        assert forall|i: int|
            0 <= i < saved.len() && of_use_first(book, addresses, i) implies {
            &&& after.addresses.contains_key((#[trigger] addresses[i]).id)
            &&& after.addresses[addresses[i].id] == addresses[i]
        } by {
            each_address_of_use_is_taken(book, addresses, i);
        }
        assert forall|id: usize| #[trigger]
            book.addresses.contains_key(id) implies after.addresses.contains_key(id)
            && after.addresses[id] == book.addresses[id] by {
            what_is_taken_was_offered(book, addresses, id);
        }
    }
}

} // verus!
