//! Laws of what values say: nothing of them is left out.

use vstd::prelude::*;

use crate::address_man::{views, AddressMan};
use crate::admission_laws::on_reachable_network;
use crate::book::BookView;
use crate::disk::{Address, DiskLocalAddress};
use crate::local_address::{AddressState, LocalAddress};
use crate::net_addr::{AddrV2, AddrV2View, BitcoinSocketAddr, ReachableNetworks, SocketView};
use crate::selection::picked;
use crate::stats::ConnectionStats;

verus! {

/// Two addresses read the same just if they are on the same network and have the same bytes.
pub proof fn addresses_read_as_they_are(a: AddrV2, b: AddrV2)
    ensures
        a@ == b@ <==> match (a, b) {
            (AddrV2::Ipv4(x), AddrV2::Ipv4(y)) => x == y,
            (AddrV2::Ipv6(x), AddrV2::Ipv6(y)) => x == y,
            (AddrV2::TorV2(x), AddrV2::TorV2(y)) => x == y,
            (AddrV2::TorV3(x), AddrV2::TorV3(y)) => x == y,
            (AddrV2::I2p(x), AddrV2::I2p(y)) => x == y,
            (AddrV2::Cjdns(x), AddrV2::Cjdns(y)) => x == y,
            (AddrV2::Unknown(m, x), AddrV2::Unknown(n, y)) => m == n && x@ == y@,
            _ => false,
        },
{
}

/// Two addresses with ports read the same just if both the addresses and the ports do.
pub proof fn ports_are_read(a: BitcoinSocketAddr, b: BitcoinSocketAddr)
    ensures
        a@ == b@ <==> a.addr@ == b.addr@ && a.port == b.port,
{
}

/// What is known of an address is read whole.
pub proof fn all_that_is_known_is_read(a: LocalAddress)
    ensures
        a@.address.addr == a.address.addr@,
        a@.address.port == a.address.port,
        a@.last_connected == a.last_connected,
        a@.state == a.state,
        a@.services == a.services,
        a@.id == a.id,
{
}

/// A book is read whole.
pub proof fn books_are_read_whole(man: AddressMan, id: usize, service: u64)
    ensures
        man@.addresses.contains_key(id) <==> man.addresses@.contains_key(id),
        man.addresses@.contains_key(id) ==> man@.addresses[id] == man.addresses@[id]@,
        man@.good_addresses == man.good_addresses@,
        man@.good_peers_by_service.contains_key(service)
            <==> man.good_peers_by_service.map@.contains_key(service),
        man.good_peers_by_service.map@.contains_key(service)
            ==> man@.good_peers_by_service[service] == man.good_peers_by_service.map@[service]@,
        man@.peers_by_service.contains_key(service)
            <==> man.peers_by_service.map@.contains_key(service),
        man.peers_by_service.map@.contains_key(service) ==> man@.peers_by_service[service]
            == man.peers_by_service.map@[service]@,
        man@.max_size == man.max_size,
        forall|network: ReachableNetworks|
            man@.reachable_networks.contains(network) <==> man.reachable_networks@.contains(
                network,
            ),
{
}

/// Lists of addresses are read one by one.
pub proof fn lists_are_read_one_by_one(addresses: Seq<LocalAddress>, i: int)
    ensures
        views(addresses).len() == addresses.len(),
        0 <= i < addresses.len() ==> views(addresses)[i] == addresses[i]@,
{
}

/// A pick is read with its id.
pub proof fn picks_are_read_with_their_id(id: usize, address: LocalAddress)
    ensures
        picked(Some((id, address))) == Some((id, address@)),
        picked(None) is None,
{
}

/// The book knows a place if some address of it is there, and reaches one if it is on a network
/// that we reach.
pub proof fn places_are_known_and_reached(book: BookView, socket: SocketView, id: usize)
    ensures
        book.addresses.contains_key(id) && book.addresses[id].address == socket ==> book.knows(
            socket,
        ),
        book.knows(socket) ==> exists|other: usize|
            book.addresses.contains_key(other) && (
            #[trigger] book.addresses[other]).address.addr == socket.addr
                && book.addresses[other].address.port == socket.port,
        book.reaches(socket.addr) <==> on_reachable_network(book, socket.addr),
{
    if book.knows(socket) {
        let other = choose|other: usize| #[trigger]
            book.addresses.contains_key(other) && book.addresses[other].address == socket;
        assert(book.addresses[other].address.addr == socket.addr);
    }
}

/// There is an IP address to show for the two IP networks and for CJDNS, and for no other.
pub proof fn ip_networks_have_ip_addresses(addr: AddrV2View)
    ensures
        addr.has_ip() <==> match addr {
            AddrV2View::Ipv4(_) => true,
            AddrV2View::Ipv6(_) => true,
            AddrV2View::Cjdns(_) => true,
            AddrV2View::TorV2(_) => false,
            AddrV2View::TorV3(_) => false,
            AddrV2View::I2p(_) => false,
            AddrV2View::Unknown(_, _) => false,
        },
{
}

/// An entry is read as the place it holds.
pub proof fn entries_are_read_as_their_place(entry: Address)
    ensures
        match entry {
            Address::V4(ip) => entry.loaded() == AddrV2::Ipv4(ip),
            Address::V6(ip) => entry.loaded() == AddrV2::Ipv6(ip),
            Address::OnionV2(key) => entry.loaded() == AddrV2::TorV2(key),
            Address::OnionV3(key) => entry.loaded() == AddrV2::TorV3(key),
            Address::Cjdns(ip) => entry.loaded() == AddrV2::Cjdns(ip),
            Address::I2p(key) => entry.loaded() == AddrV2::I2p(key),
        },
{
}

/// Loading an entry under an id gives an address with that id and the fields of the entry.
pub proof fn entries_are_loaded_under_an_id(entry: DiskLocalAddress, id: usize)
    ensures
        entry.loaded(id).id == id,
        entry.loaded(id).address.addr == entry.address.loaded()@,
        entry.loaded(id).address.port == entry.port,
        entry.loaded(id).last_connected == entry.last_connected,
        entry.loaded(id).state == entry.state,
        entry.loaded(id).services.0 == entry.services,
{
}

/// An address counts, on its network, as tried if it was met, as new if it was never tried or
/// failed, and not at all if it is banned.
pub proof fn addresses_are_counted_by_network_and_state(
    book: BookView,
    network: ReachableNetworks,
    tried: bool,
    id: usize,
)
    ensures
        book.counted(book.addresses.dom(), network, tried).contains(id) <==> {
            &&& book.addresses.contains_key(id)
            &&& match network {
                ReachableNetworks::IPv4 => book.addresses[id].address.addr is Ipv4,
                ReachableNetworks::IPv6 => book.addresses[id].address.addr is Ipv6,
                ReachableNetworks::TorV3 => book.addresses[id].address.addr is TorV3,
                ReachableNetworks::I2P => book.addresses[id].address.addr is I2p,
                ReachableNetworks::Cjdns => book.addresses[id].address.addr is Cjdns,
            }
            &&& if tried {
                book.addresses[id].state is Tried || book.addresses[id].state
                    == AddressState::Connected
            } else {
                book.addresses[id].state is Failed || book.addresses[id].state
                    == AddressState::NeverTried
            }
        },
{
}

/// Each network has its own counts.
pub proof fn counts_are_kept_by_network(stats: ConnectionStats)
    ensures
        stats.of(ReachableNetworks::IPv4) == stats.ipv4,
        stats.of(ReachableNetworks::IPv6) == stats.ipv6,
        stats.of(ReachableNetworks::TorV3) == stats.onion,
        stats.of(ReachableNetworks::I2P) == stats.i2p,
        stats.of(ReachableNetworks::Cjdns) == stats.cjdns,
{
}

} // verus!
