//! Laws of which addresses go into the book, and of which leave it again for want of room.

use vstd::prelude::*;

use crate::book::BookView;
use crate::book_laws::pruning_meets_the_limit;
use crate::buckets::{bucket, lemma_push_contains, with_id};
use crate::local_address::{routable, routable_ipv4, routable_ipv6, LocalAddressView};
use crate::net_addr::{AddrV2View, ReachableNetworks};
use crate::service_flags::{ServiceFlags, COMPACT_FILTERS, NONE, UTREEXO};
use crate::terms::{
    has_bits, listed, met, minimum_is_recent_blocks_with_witnesses, services_are_sets_of_bits,
};

verus! {

/// An IPv4 address as a number.
pub open spec fn ipv4_number(ip: [u8; 4]) -> int {
    ip@[0] * 0x100_0000 + ip@[1] * 0x1_0000 + ip@[2] * 0x100 + ip@[3]
}

/// One of the eight groups of an IPv6 address.
pub open spec fn ipv6_group(ip: [u8; 16], i: int) -> int {
    ip@[2 * i] * 0x100 + ip@[2 * i + 1]
}

/// An IPv4 address is public unless it lies in one of the ranges set aside: 0.x.x.x, 10.x.x.x,
/// 100.64.0.0 to 100.127.255.255, 127.x.x.x, 169.254.x.x, 172.16.0.0 to 172.31.255.255,
/// 192.0.2.x, 192.168.x.x, 198.18.0.0 to 198.19.255.255, 198.51.100.x, 203.0.113.x and
/// 255.255.255.255.
pub proof fn public_ipv4_addresses_are_outside_the_ranges_set_aside(ip: [u8; 4])
    ensures
        ({
            let n = ipv4_number(ip);
            routable_ipv4(ip) <==> {
                &&& n >= 0x0100_0000
                &&& !(0x0a00_0000 <= n < 0x0b00_0000)
                &&& !(0x6440_0000 <= n < 0x6480_0000)
                &&& !(0x7f00_0000 <= n < 0x8000_0000)
                &&& !(0xa9fe_0000 <= n < 0xa9ff_0000)
                &&& !(0xac10_0000 <= n < 0xac20_0000)
                &&& !(0xc000_0200 <= n < 0xc000_0300)
                &&& !(0xc0a8_0000 <= n < 0xc0a9_0000)
                &&& !(0xc612_0000 <= n < 0xc614_0000)
                &&& !(0xc633_6400 <= n < 0xc633_6500)
                &&& !(0xcb00_7100 <= n < 0xcb00_7200)
                &&& n != 0xffff_ffff
            }
        }),
{
    let (a, b, c, d) = (ip@[0], ip@[1], ip@[2], ip@[3]);
    assert(routable_ipv4(ip) <==> {
        &&& a != 0
        &&& a != 127
        &&& !(a == 255 && b == 255 && c == 255 && d == 255)
        &&& a != 10
        &&& !(a == 172 && b as int / 16 == 1)
        &&& !(a == 192 && b == 168)
        &&& !(a == 198 && b as int / 2 == 9)
        &&& !(a == 169 && b == 254)
        &&& !(a == 100 && b as int / 64 == 1)
        &&& !(a == 192 && b == 0 && c == 2)
        &&& !(a == 198 && b == 51 && c == 100)
        &&& !(a == 203 && b == 0 && c == 113)
    });
}

/// An IPv6 address is public unless it is :: or ::1, starts with a group from fc00 to fdff or
/// from fe80 to febf, or with 2001 and a group from 10 to 2f.
pub proof fn public_ipv6_addresses_are_outside_the_ranges_set_aside(ip: [u8; 16])
    ensures
        routable_ipv6(ip) <==> {
            &&& !((forall|i: int| 0 <= i < 15 ==> #[trigger] ip@[i] == 0) && ip@[15] <= 1)
            &&& !(0xfc00 <= ipv6_group(ip, 0) <= 0xfdff)
            &&& !(0xfe80 <= ipv6_group(ip, 0) <= 0xfebf)
            &&& !(ipv6_group(ip, 0) == 0x2001 && 0x10 <= ipv6_group(ip, 1) <= 0x2f)
        },
{
    let zeros = forall|i: int| 0 <= i < 15 ==> #[trigger] ip@[i] == 0;
    let none = seq![0u8, 0, 0, 0, 0, 0, 0, 0, 0, 0, 0, 0, 0, 0, 0, 0];
    let one = seq![0u8, 0, 0, 0, 0, 0, 0, 0, 0, 0, 0, 0, 0, 0, 0, 1];
    assert((forall|i: int| 0 <= i < 16 ==> ip@[i] == none[i]) <==> zeros && ip@[15] == 0) by {
        if forall|i: int| 0 <= i < 16 ==> ip@[i] == none[i] {
            assert forall|i: int| 0 <= i < 15 implies #[trigger] ip@[i] == 0 by {
                assert(ip@[i] == none[i]);
            }
            assert(ip@[15] == none[15]);
        }
    }
    assert((forall|i: int| 0 <= i < 16 ==> ip@[i] == one[i]) <==> zeros && ip@[15] == 1) by {
        if forall|i: int| 0 <= i < 16 ==> ip@[i] == one[i] {
            assert forall|i: int| 0 <= i < 15 implies #[trigger] ip@[i] == 0 by {
                assert(ip@[i] == one[i]);
            }
            assert(ip@[15] == one[15]);
        }
    }
    let (a, b, c, d) = (ip@[0], ip@[1], ip@[2], ip@[3]);
    assert(ipv6_group(ip, 0) == a * 0x100 + b);
    assert(ipv6_group(ip, 1) == c * 0x100 + d);
    let orchid = seq![0x20u8, 0x01, 0x00, 0x10, 0, 0, 0, 0, 0, 0, 0, 0, 0, 0, 0, 0];
    let orchid2 = seq![0x20u8, 0x01, 0x00, 0x20, 0, 0, 0, 0, 0, 0, 0, 0, 0, 0, 0, 0];
    assert((forall|i: int| 0 <= i < 3 ==> ip@[i] == orchid[i]) <==> a == 0x20 && b == 1 && c == 0)
        by {
        if forall|i: int| 0 <= i < 3 ==> ip@[i] == orchid[i] {
            assert(ip@[0] == orchid[0] && ip@[1] == orchid[1] && ip@[2] == orchid[2]);
        }
    }
    assert((forall|i: int| 0 <= i < 3 ==> ip@[i] == orchid2[i]) <==> a == 0x20 && b == 1 && c == 0)
        by {
        if forall|i: int| 0 <= i < 3 ==> ip@[i] == orchid2[i] {
            assert(ip@[0] == orchid2[0] && ip@[1] == orchid2[1] && ip@[2] == orchid2[2]);
        }
    }
    let link = seq![0xfeu8, 0x80, 0, 0, 0, 0, 0, 0, 0, 0, 0, 0, 0, 0, 0, 0];
    assert((forall|i: int| 0 <= i < 1 ==> ip@[i] == link[i]) <==> a == 0xfe) by {
        if forall|i: int| 0 <= i < 1 ==> ip@[i] == link[i] {
            assert(ip@[0] == link[0]);
        }
    }
    assert(routable_ipv6(ip) <==> {
        &&& !(zeros && ip@[15] == 0)
        &&& !(zeros && ip@[15] == 1)
        &&& !(a as int / 2 == 126)
        &&& !(a == 0x20 && b == 1 && c == 0 && d as int / 16 == 1)
        &&& !(a == 0xfe && b as int / 64 == 2)
        &&& !(a == 0x20 && b == 1 && c == 0 && d as int / 16 == 2)
    });
}

/// A CJDNS address is in order if it starts with fc; onion services and I2P destinations always
/// are.
pub proof fn other_networks_take_their_own_addresses(addr: AddrV2View)
    ensures
        match addr {
            AddrV2View::Cjdns(ip) => routable(addr) <==> ip@[0] == 0xfc,
            AddrV2View::Ipv4(ip) => routable(addr) <==> routable_ipv4(ip),
            AddrV2View::Ipv6(ip) => routable(addr) <==> routable_ipv6(ip),
            AddrV2View::TorV2(_) => routable(addr),
            AddrV2View::TorV3(_) => routable(addr),
            AddrV2View::I2p(_) => routable(addr),
            AddrV2View::Unknown(_, _) => routable(addr),
        },
{
}

/// Each of the five networks has its own addresses; no other address is on a network we can
/// reach.
pub proof fn every_address_has_its_network(addr: AddrV2View, network: ReachableNetworks)
    ensures
        addr.network() == Some(network) <==> match network {
            ReachableNetworks::IPv4 => addr is Ipv4,
            ReachableNetworks::IPv6 => addr is Ipv6,
            ReachableNetworks::TorV3 => addr is TorV3,
            ReachableNetworks::I2P => addr is I2p,
            ReachableNetworks::Cjdns => addr is Cjdns,
        },
{
}

/// Whether the book takes addresses from the network that one is on.
pub open spec fn on_reachable_network(book: BookView, addr: AddrV2View) -> bool {
    ||| addr is Ipv4 && book.reachable_networks.contains(ReachableNetworks::IPv4)
    ||| addr is Ipv6 && book.reachable_networks.contains(ReachableNetworks::IPv6)
    ||| addr is TorV3 && book.reachable_networks.contains(ReachableNetworks::TorV3)
    ||| addr is I2p && book.reachable_networks.contains(ReachableNetworks::I2P)
    ||| addr is Cjdns && book.reachable_networks.contains(ReachableNetworks::Cjdns)
}

/// Whether neither the id of an address nor where it is stands in the book.
pub open spec fn is_new_to(book: BookView, address: LocalAddressView) -> bool {
    &&& !book.addresses.contains_key(address.id)
    &&& forall|id: usize| #[trigger]
        book.addresses.contains_key(id) ==> book.addresses[id].address != address.address
}

/// An address that is new to the book, can be reached over a network that we reach, and serves
/// recent blocks with their witness data goes into the book, on whichever of the five networks
/// it is; any other changes nothing.
pub proof fn addresses_of_use_are_taken(book: BookView, address: LocalAddressView)
    ensures
        ({
            let after = book.pushed(address);
            let addr = address.address.addr;
            let taken = after.addresses == book.addresses.insert(address.id, address);
            let of_use = {
                &&& has_bits(address.services, 0x8)
                &&& has_bits(address.services, 0x400)
                &&& is_new_to(book, address)
            };
            &&& match addr {
                AddrV2View::Ipv4(ip) => of_use && book.reachable_networks.contains(
                    ReachableNetworks::IPv4,
                ) && routable_ipv4(ip) ==> taken,
                AddrV2View::Ipv6(ip) => of_use && book.reachable_networks.contains(
                    ReachableNetworks::IPv6,
                ) && routable_ipv6(ip) ==> taken,
                AddrV2View::TorV3(_) => of_use && book.reachable_networks.contains(
                    ReachableNetworks::TorV3,
                ) ==> taken,
                AddrV2View::I2p(_) => of_use && book.reachable_networks.contains(
                    ReachableNetworks::I2P,
                ) ==> taken,
                AddrV2View::Cjdns(ip) => of_use && book.reachable_networks.contains(
                    ReachableNetworks::Cjdns,
                ) && ip@[0] == 0xfc ==> taken,
                AddrV2View::TorV2(_) => after == book,
                AddrV2View::Unknown(_, _) => after == book,
            }
            &&& !of_use ==> after == book
            &&& !on_reachable_network(book, addr) ==> after == book
            &&& !routable(addr) ==> after == book
        }),
{
    minimum_is_recent_blocks_with_witnesses(address.services);
    assert(is_new_to(book, address) <==> !book.knows(address.address)
        && !book.addresses.contains_key(address.id));
    every_address_has_its_network(address.address.addr, ReachableNetworks::IPv4);
    every_address_has_its_network(address.address.addr, ReachableNetworks::IPv6);
    every_address_has_its_network(address.address.addr, ReachableNetworks::TorV3);
    every_address_has_its_network(address.address.addr, ReachableNetworks::I2P);
    every_address_has_its_network(address.address.addr, ReachableNetworks::Cjdns);
    other_networks_take_their_own_addresses(address.address.addr);
}

/// Adding an id to a list that may hold it makes sure that it is there, and changes nothing
/// else.
pub proof fn adding_an_id_lists_it<T>(ids: Seq<T>, id: T, x: T)
    ensures
        with_id(ids, id).contains(x) <==> ids.contains(x) || x == id,
        ids.contains(id) ==> with_id(ids, id) == ids,
        !ids.contains(id) ==> with_id(ids, id) == ids.push(id),
        ids.no_duplicates() ==> with_id(ids, id).no_duplicates(),
{
    lemma_push_contains(ids, id, x);
}

/// What putting an address into the list of a service does to all the lists.
pub(crate) proof fn lemma_indexed_lists(
    book: BookView,
    address: LocalAddressView,
    service: ServiceFlags,
    s: u64,
    id: usize,
)
    ensures
        ({
            let after = book.indexed(address, service);
            let joins = s == service.0 && id == address.id && has_bits(address.services, s);
            &&& after.addresses == book.addresses
            &&& after.good_addresses == book.good_addresses
            &&& after.max_size == book.max_size
            &&& after.reachable_networks == book.reachable_networks
            &&& listed(after.peers_by_service, s, id) <==> listed(book.peers_by_service, s, id)
                || joins
            &&& listed(after.good_peers_by_service, s, id) <==> listed(
                book.good_peers_by_service,
                s,
                id,
            ) || (joins && address.good())
        }),
{
    services_are_sets_of_bits(address.services, service.0, 0);
    assert(service == ServiceFlags(service.0));
    adding_an_id_lists_it(bucket(book.peers_by_service, service), address.id, id);
    adding_an_id_lists_it(bucket(book.good_peers_by_service, service), address.id, id);
}

/// An address that goes into the book is listed with any peer, with those that serve utreexo
/// proofs and with those that serve compact filters, as far as it does; if it was met before,
/// also with the good ones. Nothing else is listed or delisted.
pub proof fn new_addresses_are_listed_as_they_offer(
    book: BookView,
    address: LocalAddressView,
    service: u64,
    id: usize,
)
    ensures
        ({
            let after = book.pushed(address);
            let taken = !book.addresses.contains_key(address.id) && after.addresses.contains_key(
                address.id,
            );
            let lists = (service == 0 || service == 0x40 || service == 0x1000) && has_bits(
                address.services,
                service,
            );
            &&& after.max_size == book.max_size
            &&& after.reachable_networks == book.reachable_networks
            &&& after.good_addresses.contains(id) <==> book.good_addresses.contains(id) || (taken
                && id == address.id && met(address.state))
            &&& listed(after.peers_by_service, service, id) <==> listed(
                book.peers_by_service,
                service,
                id,
            ) || (taken && id == address.id && lists)
            &&& listed(after.good_peers_by_service, service, id) <==> listed(
                book.good_peers_by_service,
                service,
                id,
            ) || (taken && id == address.id && lists && met(address.state))
        }),
{
    if book.admits(address) {
        let b0 = BookView {
            addresses: book.addresses.insert(address.id, address),
            good_addresses: if address.good() {
                book.good_addresses.push(address.id)
            } else {
                book.good_addresses
            },
            ..book
        };
        let b1 = b0.indexed(address, ServiceFlags(UTREEXO));
        let b2 = b1.indexed(address, ServiceFlags(NONE));
        lemma_indexed_lists(b0, address, ServiceFlags(UTREEXO), service, id);
        lemma_indexed_lists(b1, address, ServiceFlags(NONE), service, id);
        lemma_indexed_lists(b2, address, ServiceFlags(COMPACT_FILTERS), service, id);
        lemma_push_contains(book.good_addresses, address.id, id);
    }
}

/// Whether a list is another one, or that one with an id put at its end.
pub open spec fn same_or_longer_by(before: Seq<usize>, after: Seq<usize>, id: usize) -> bool {
    after == before || after == before.push(id)
}

/// A new address is put at the end of every list it joins.
pub proof fn new_addresses_are_listed_last(book: BookView, address: LocalAddressView, service: u64)
    ensures
        ({
            let after = book.pushed(address);
            let none = Seq::<usize>::empty();
            let list = |lists: Map<u64, Seq<usize>>|
                if lists.contains_key(service) {
                    lists[service]
                } else {
                    none
                };
            &&& same_or_longer_by(book.good_addresses, after.good_addresses, address.id)
            &&& same_or_longer_by(
                list(book.peers_by_service),
                list(after.peers_by_service),
                address.id,
            )
            &&& same_or_longer_by(
                list(book.good_peers_by_service),
                list(after.good_peers_by_service),
                address.id,
            )
        }),
{
}

/// Of several addresses offered at once, the book has one after the other; what was in it is not
/// changed, and nothing that was not offered gets in.
pub proof fn what_is_taken_was_offered(book: BookView, addresses: Seq<LocalAddressView>, id: usize)
    ensures
        ({
            let after = book.pushed_all(addresses);
            &&& after.max_size == book.max_size
            &&& after.reachable_networks == book.reachable_networks
            &&& book.addresses.contains_key(id) ==> after.addresses.contains_key(id)
                && after.addresses[id] == book.addresses[id]
            &&& after.addresses.contains_key(id) && !book.addresses.contains_key(id)
                ==> addresses.contains(after.addresses[id]) && after.addresses[id].id == id
        }),
    decreases addresses.len(),
{
    if addresses.len() > 0 {
        let rest = addresses.drop_last();
        what_is_taken_was_offered(book, rest, id);
        let before = book.pushed_all(rest);
        new_addresses_are_listed_as_they_offer(before, addresses.last(), 0, id);
        addresses_of_use_are_taken(before, addresses.last());
        assert(addresses =~= rest.push(addresses.last()));
        if before.addresses.contains_key(id) {
            lemma_push_contains(rest, addresses.last(), before.addresses[id]);
        }
        lemma_push_contains(rest, addresses.last(), addresses.last());
        assert(before.pushed(addresses.last()).addresses == before.addresses
            || before.pushed(addresses.last()).addresses == before.addresses.insert(
            addresses.last().id,
            addresses.last(),
        ));
    }
}

/// Whether one of some addresses is of use to a book and is the first of them with its place and
/// its id.
pub open spec fn of_use_first(book: BookView, addresses: Seq<LocalAddressView>, i: int) -> bool {
    &&& has_bits(addresses[i].services, 0x8)
    &&& has_bits(addresses[i].services, 0x400)
    &&& on_reachable_network(book, addresses[i].address.addr)
    &&& routable(addresses[i].address.addr)
    &&& is_new_to(book, addresses[i])
    &&& forall|j: int|
        0 <= j < i ==> (#[trigger] addresses[j]).address != addresses[i].address
            && addresses[j].id != addresses[i].id
}

/// Each of several addresses offered at once goes into the book, if it is of use and no other of
/// them has its place or its id.
pub proof fn each_address_of_use_is_taken(
    book: BookView,
    addresses: Seq<LocalAddressView>,
    i: int,
)
    requires
        0 <= i < addresses.len(),
        of_use_first(book, addresses, i),
    ensures
        book.pushed_all(addresses).addresses.contains_key(addresses[i].id),
        book.pushed_all(addresses).addresses[addresses[i].id] == addresses[i],
    decreases addresses.len(),
{
    let rest = addresses.drop_last();
    let before = book.pushed_all(rest);
    let last = addresses.last();
    addresses_of_use_are_taken(before, last);
    if i < rest.len() {
        assert forall|j: int| 0 <= j < i implies (#[trigger] rest[j]).address != rest[i].address
            && rest[j].id != rest[i].id by {
            assert(rest[j] == addresses[j]);
        }
        each_address_of_use_is_taken(book, rest, i);
        assert(before.addresses.contains_key(addresses[i].id));
    } else {
        what_is_taken_was_offered(book, rest, last.id);
        assert(!before.addresses.contains_key(last.id)) by {
            if before.addresses.contains_key(last.id) {
                let j = choose|j: int|
                    0 <= j < rest.len() && rest[j] == before.addresses[last.id];
                assert(addresses[j].id == last.id);
            }
        }
        assert forall|id: usize| #[trigger]
            before.addresses.contains_key(id) implies before.addresses[id].address
            != last.address by {
            what_is_taken_was_offered(book, rest, id);
            if !book.addresses.contains_key(id) {
                let j = choose|j: int| 0 <= j < rest.len() && rest[j] == before.addresses[id];
                assert(addresses[j].address != last.address);
            }
        }
        assert(is_new_to(before, last));
    }
}

/// Pruning leaves as many addresses as there were, or as many as we keep at most if that is
/// fewer; none is changed, and none that is dropped was heard of after one that stays.
pub proof fn pruning_keeps_the_latest(book: BookView, after: BookView)
    requires
        book.sound(),
        book.pruned_to(after),
    ensures
        book.addresses.len() <= book.max_size ==> after == book,
        book.addresses.len() > book.max_size ==> after.addresses.len() == book.max_size,
        forall|id: usize| #[trigger]
            after.addresses.contains_key(id) ==> book.addresses.contains_key(id)
                && after.addresses[id] == book.addresses[id],
        forall|dropped: usize, kept: usize|
            #![trigger book.addresses.contains_key(dropped), after.addresses.contains_key(kept)]
            book.addresses.contains_key(dropped) && !after.addresses.contains_key(dropped)
                && after.addresses.contains_key(kept) ==> book.addresses[dropped].last_connected
                <= book.addresses[kept].last_connected,
{
    pruning_meets_the_limit(book, after);
    assert(after.addresses.submap_of(book.addresses));
    assert forall|id: usize| #[trigger]
        after.addresses.contains_key(id) implies book.addresses.contains_key(id)
        && after.addresses[id] == book.addresses[id] by {
        assert(after.addresses.dom().contains(id));
        assert(book.addresses.dom().contains(id));
        assert(after.addresses[id] == book.addresses[id]);
    }
}

} // verus!
