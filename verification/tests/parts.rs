use bitcoin::p2p::ServiceFlags as WireFlags;
use floresta_peers::address_man::AddressMan;
use floresta_peers::buckets::Buckets;
use floresta_peers::clock::{Clock, Instant};
use floresta_peers::disk::{load_all, Address, DiskLocalAddress, Network};
use floresta_peers::dns::DnsSeed;
use floresta_peers::dns_proxy::{answers_of_type, query_url, record_types, AnswerEntry};
use floresta_peers::local_address::{AddressState, LocalAddress};
use floresta_peers::net_addr::{
    AddrV2, AddrV2Message, BitcoinSocketAddr, IpAddr, OnionV3Addr, ReachableNetworks, SocketAddr,
};
use floresta_peers::request_table::Table;
use floresta_peers::service_flags::{
    ServiceFlags, COMPACT_FILTERS, NETWORK, NETWORK_LIMITED, NONE, UTREEXO, UTREEXO_ARCHIVE,
    WITNESS,
};
use floresta_peers::text::{decimal_text, hex_text};

fn local(addr: AddrV2) -> LocalAddress {
    LocalAddress::new(
        BitcoinSocketAddr::new(addr, 8333),
        7,
        AddressState::NeverTried,
        ServiceFlags(NETWORK_LIMITED | WITNESS),
        3,
    )
}

#[test]
fn flags_are_those_of_the_protocol() {
    assert_eq!(NONE, WireFlags::NONE.to_u64());
    assert_eq!(NETWORK, WireFlags::NETWORK.to_u64());
    assert_eq!(WITNESS, WireFlags::WITNESS.to_u64());
    assert_eq!(COMPACT_FILTERS, WireFlags::COMPACT_FILTERS.to_u64());
    assert_eq!(NETWORK_LIMITED, WireFlags::NETWORK_LIMITED.to_u64());
    assert_eq!(UTREEXO, 1 << 12);
    assert_eq!(UTREEXO_ARCHIVE, 1 << 13);
}

#[test]
fn flags_are_included_bit_by_bit() {
    let flags = ServiceFlags(NETWORK | WITNESS);
    assert!(flags.has(ServiceFlags(NONE)));
    assert!(flags.has(ServiceFlags(NETWORK)));
    assert!(flags.has(flags));
    assert!(!flags.has(ServiceFlags(NETWORK | UTREEXO)));
    assert!(!flags.has_minimum());
    assert!(ServiceFlags(NETWORK_LIMITED | WITNESS).has_minimum());
}

#[test]
fn numbers_are_written_out() {
    assert_eq!(decimal_text(0), "0");
    assert_eq!(decimal_text(8333), "8333");
    assert_eq!(decimal_text(u64::MAX), "18446744073709551615");
    assert_eq!(hex_text(0xc08, 16), "0000000000000c08");
    assert_eq!(hex_text(u64::MAX, 16), "ffffffffffffffff");
}

#[test]
fn blocks_set_aside_are_not_routable() {
    let not_routable = [
        [0, 0, 0, 1],
        [127, 255, 255, 255],
        [255, 255, 255, 255],
        [10, 255, 0, 1],
        [172, 31, 255, 255],
        [192, 168, 0, 1],
        [198, 19, 255, 255],
        [169, 254, 1, 1],
        [100, 127, 255, 255],
        [192, 0, 2, 1],
        [198, 51, 100, 1],
        [203, 0, 113, 255],
    ];
    for ip in not_routable {
        assert!(!LocalAddress::is_routable_ipv4(&ip), "{ip:?}");
    }
    let routable = [
        [1, 0, 0, 0],
        [172, 32, 0, 0],
        [172, 15, 255, 255],
        [198, 20, 0, 0],
        [100, 128, 0, 0],
        [100, 63, 255, 255],
        [255, 255, 255, 254],
        [203, 0, 114, 0],
    ];
    for ip in routable {
        assert!(LocalAddress::is_routable_ipv4(&ip), "{ip:?}");
    }

    let v6 = |a: u8, b: u8, c: u8, d: u8, last: u8| {
        let mut ip = [0; 16];
        ip[0] = a;
        ip[1] = b;
        ip[2] = c;
        ip[3] = d;
        ip[15] = last;
        LocalAddress::is_routable_ipv6(&ip)
    };
    assert!(!v6(0, 0, 0, 0, 0));
    assert!(!v6(0, 0, 0, 0, 1));
    assert!(v6(0, 0, 0, 0, 2));
    assert!(!v6(0xfc, 0, 0, 0, 1));
    assert!(!v6(0xfd, 0xff, 0, 0, 1));
    assert!(!v6(0x20, 0x01, 0x00, 0x1f, 1));
    assert!(!v6(0x20, 0x01, 0x00, 0x20, 1));
    assert!(v6(0x20, 0x01, 0x00, 0x30, 1));
    assert!(!v6(0xfe, 0x80, 0, 0, 1));
    assert!(!v6(0xfe, 0xbf, 0, 0, 1));
    assert!(v6(0xfe, 0xc0, 0, 0, 1));

    let mut cjdns = [0; 16];
    assert!(!local(AddrV2::Cjdns(cjdns)).is_routable());
    cjdns[0] = 0xfc;
    assert!(local(AddrV2::Cjdns(cjdns)).is_routable());
    assert!(local(AddrV2::TorV3([1; 32])).is_routable());
}

#[test]
fn addresses_tell_what_they_are() {
    let mut v4 = local(AddrV2::Ipv4([12, 1, 2, 3]));
    assert_eq!(v4.get_net_address(), Some(IpAddr::V4([12, 1, 2, 3])));
    assert_eq!(
        v4.get_socket_addr(),
        Some(SocketAddr { ip: IpAddr::V4([12, 1, 2, 3]), port: 8333 })
    );
    assert_eq!(v4.get_onion_addr(), None);
    v4.set_port(18_444);
    v4.set_services(ServiceFlags(NETWORK));
    assert_eq!(v4.get_port(), 18_444);
    assert_eq!(v4.get_services(), ServiceFlags(NETWORK));
    assert_eq!(v4.as_bitcoin_socket_addr().get_port(), 18_444);
    assert_eq!(v4.label(String::from("12.1.2.3")), "12.1.2.3:18444");
    assert_eq!(v4.into_addrv2(), AddrV2::Ipv4([12, 1, 2, 3]));

    let onion = local(AddrV2::TorV3([5; 32]));
    assert_eq!(onion.get_onion_addr(), Some(OnionV3Addr([5; 32])));
    assert_eq!(onion.get_net_address(), None);
    assert_eq!(onion.get_socket_addr(), None);
    assert_eq!(onion.label(String::from("1.1.1.1")), "unknown:8333");

    let cjdns = local(AddrV2::Cjdns([0xfc; 16]));
    assert_eq!(cjdns.get_net_address(), Some(IpAddr::V6([0xfc; 16])));
    assert_eq!(cjdns.get_socket_addr(), None);
}

#[test]
fn good_addresses_were_connected_to() {
    let mut address = local(AddrV2::Ipv4([12, 1, 2, 3]));
    assert!(!address.is_good_address());
    address.state = AddressState::Tried(1);
    assert!(address.is_good_address());
    address.state = AddressState::Connected;
    assert!(address.is_good_address());
    address.state = AddressState::Failed(1);
    assert!(!address.is_good_address());
    let mut loopback = local(AddrV2::Ipv4([127, 0, 0, 1]));
    loopback.state = AddressState::Connected;
    assert!(!loopback.is_good_address());
}

#[test]
fn learned_addresses_have_ids_of_their_own() {
    let socket = BitcoinSocketAddr::new(AddrV2::Ipv4([12, 1, 2, 3]), 1);
    let a = LocalAddress::from(socket.clone());
    let b = LocalAddress::from(socket.clone());
    assert_ne!(a.id, b.id);
    assert_eq!(a.services, ServiceFlags(NONE));
    assert_eq!(a.state, AddressState::NeverTried);
    assert!(a.last_connected > 1_700_000_000);
    let message = AddrV2Message {
        time: 5,
        services: ServiceFlags(WITNESS),
        addr: AddrV2::I2p([1; 32]),
        port: 9,
    };
    let heard = LocalAddress::from(message);
    assert_eq!(heard.last_connected, 5);
    assert_eq!(heard.services, ServiceFlags(WITNESS));
    assert_eq!(heard.address, BitcoinSocketAddr::new(AddrV2::I2p([1; 32]), 9));
}

#[test]
fn networks_have_names() {
    let names: Vec<_> = ReachableNetworks::ALL.iter().map(|n| n.name()).collect();
    assert_eq!(names, vec!["ipv4", "ipv6", "onion", "i2p", "cjdns"]);
    assert_eq!(ReachableNetworks::SUPPORTED.len(), 3);
    assert_eq!(AddrV2::TorV2([0; 10]).network(), None);
    assert_eq!(AddrV2::Unknown(9, vec![1]).network(), None);
    assert_eq!(AddrV2::Cjdns([0; 16]).network(), Some(ReachableNetworks::Cjdns));
}

#[test]
fn saved_addresses_come_back() {
    let addrs = [
        AddrV2::Ipv4([12, 1, 2, 3]),
        AddrV2::Ipv6([1; 16]),
        AddrV2::Cjdns([0xfc; 16]),
        AddrV2::I2p([2; 32]),
        AddrV2::TorV2([3; 10]),
        AddrV2::TorV3([4; 32]),
    ];
    for addr in addrs {
        let address = local(addr);
        let saved = DiskLocalAddress::save(&address, 50);
        assert_eq!(LocalAddress::from(saved), address);
    }
    let mut connected = local(AddrV2::Ipv4([12, 1, 2, 3]));
    connected.state = AddressState::Connected;
    assert_eq!(DiskLocalAddress::save(&connected, 50).state, AddressState::Tried(50));
    let unknown = local(AddrV2::Unknown(9, vec![1]));
    assert_eq!(
        DiskLocalAddress::save(&unknown, 50).address,
        Address::V4([127, 0, 0, 1])
    );
    let mut without_id = DiskLocalAddress::save(&connected, 50);
    without_id.id = None;
    assert_ne!(LocalAddress::from(without_id).id, LocalAddress::from(without_id).id);
    assert_eq!(AddrV2::from(Address::OnionV3([1; 32])), AddrV2::TorV3([1; 32]));
}

#[test]
fn saved_books_come_back() {
    let mut book = AddressMan::new(None, &ReachableNetworks::ALL);
    for i in 0u8..10 {
        let mut address = local(AddrV2::Ipv4([12, 1, 2, i]));
        address.id = 100 + i as usize;
        address.state = if i == 4 { AddressState::Connected } else { AddressState::Failed(9) };
        book.push_addresses(&[address]);
    }
    let saved = book.dump_peers_at(77);
    assert_eq!(saved.len(), 10);
    let mut again = AddressMan::new(None, &ReachableNetworks::ALL);
    let anchors = again.start_addr_man(Some(saved), None);
    assert!(anchors.is_empty());
    assert_eq!(again.addresses.len(), 10);
    for (id, address) in &book.addresses {
        let mut expected = address.clone();
        if expected.state == AddressState::Connected {
            expected.state = AddressState::Tried(77);
        }
        assert_eq!(again.get(*id), Some(&expected));
    }
}

#[test]
fn anchors_are_those_we_know() {
    let mut book = AddressMan::new(None, &ReachableNetworks::ALL);
    book.push_addresses(&[local(AddrV2::Ipv4([12, 1, 2, 3]))]);
    assert!(book.dump_utreexo_peers(&vec![]).is_none());
    assert!(book.dump_utreexo_peers(&vec![9]).is_none());
    let saved = book.dump_utreexo_peers(&vec![9, 3]).unwrap();
    assert_eq!(load_all(&saved), vec![local(AddrV2::Ipv4([12, 1, 2, 3]))]);
    let mut again = AddressMan::new(None, &ReachableNetworks::ALL);
    let anchors = again.start_addr_man(None, Some(saved));
    assert_eq!(anchors, vec![local(AddrV2::Ipv4([12, 1, 2, 3]))]);
    assert!(again.addresses.is_empty());
}

#[test]
fn seeds_are_kept_by_network() {
    assert_eq!(AddressMan::get_net_seeds(Network::Bitcoin), "seeds/mainnet_seeds.json");
    assert_eq!(AddressMan::get_net_seeds(Network::Testnet4), "seeds/testnet4_seeds.json");
}

fn hosts(filters: u64) -> Vec<(String, u64)> {
    let seed = DnsSeed {
        seed: String::from("seed.example.org"),
        filters: ServiceFlags(filters),
    };
    seed.hosts()
        .into_iter()
        .map(|lookup| (lookup.host, lookup.services.0))
        .collect()
}

#[test]
fn seeds_are_asked_for_what_they_filter_by() {
    assert_eq!(
        hosts(UTREEXO | COMPACT_FILTERS | WITNESS),
        vec![
            (String::from("x1000.seed.example.org"), NETWORK_LIMITED | UTREEXO | WITNESS),
            (String::from("x49.seed.example.org"), COMPACT_FILTERS | NETWORK_LIMITED | WITNESS),
            (String::from("x9.seed.example.org"), NETWORK_LIMITED | WITNESS),
        ]
    );
    assert_eq!(
        hosts(NONE),
        vec![(String::from("seed.example.org"), NETWORK_LIMITED | WITNESS)]
    );
    assert!(hosts(NETWORK).is_empty());
}

#[test]
fn seeded_addresses_count_as_tried() {
    let seed = DnsSeed {
        seed: String::from("seed.example.org"),
        filters: ServiceFlags(UTREEXO | WITNESS),
    };
    let found = vec![
        vec![local(AddrV2::Ipv4([12, 1, 2, 3]))],
        vec![local(AddrV2::Ipv4([12, 1, 2, 4])), local(AddrV2::Ipv4([12, 1, 2, 5]))],
    ];
    let seeds = AddressMan::get_seeds_from_dns_at(&seed, &found, 99);
    assert_eq!(seeds.len(), 3);
    assert!(seeds.iter().all(|a| a.state == AddressState::Tried(99)));
    assert_eq!(seeds[0].services, ServiceFlags(NETWORK_LIMITED | UTREEXO | WITNESS));
    assert_eq!(seeds[2].services, ServiceFlags(NETWORK_LIMITED | WITNESS));
    assert_eq!(*seeds[2].as_addrv2(), AddrV2::Ipv4([12, 1, 2, 5]));
}

#[test]
fn lookups_over_https_ask_for_both_record_types() {
    assert_eq!(record_types(), vec![1, 28]);
    assert_eq!(
        query_url("x9.seed.example.org", 28),
        "https://dns.google/resolve?name=x9.seed.example.org&type=28"
    );
    let entry = |data: &str, record_type: u8| AnswerEntry {
        data: String::from(data),
        record_type,
    };
    let answers = vec![entry("alias.example.org.", 5), entry("1.2.3.4", 1), entry("::2", 28)];
    assert_eq!(answers_of_type(&answers, 1), vec!["1.2.3.4"]);
    assert_eq!(answers_of_type(&answers, 28), vec!["::2"]);
    assert!(answers_of_type(&answers, 16).is_empty());
}

#[test]
fn buckets_keep_their_order() {
    let mut buckets: Buckets<u32> = Buckets::new();
    buckets.push(ServiceFlags(NONE), 3);
    buckets.push(ServiceFlags(NONE), 1);
    buckets.push(ServiceFlags(NONE), 3);
    buckets.add_once(ServiceFlags(NONE), 1);
    buckets.add_once(ServiceFlags(UTREEXO), 3);
    assert_eq!(buckets.get(ServiceFlags(NONE)), Some(&vec![3, 1, 3]));
    buckets.remove_everywhere(3);
    assert_eq!(buckets.get(ServiceFlags(NONE)), Some(&vec![1]));
    assert_eq!(buckets.get(ServiceFlags(UTREEXO)), Some(&vec![]));
    assert_eq!(buckets.get(ServiceFlags(WITNESS)), None);
}

#[test]
fn tables_hold_one_value_per_key() {
    let mut table: Table<u32, u64> = Table::new();
    table.insert(1, 10);
    table.insert(2, 20);
    table.insert(1, 11);
    assert_eq!(table.get(1), Some(11));
    assert_eq!(table.keys().len(), 2);
    assert_eq!(table.remove(1), Some(11));
    assert_eq!(table.remove(1), None);
    assert!(!table.contains_key(1) && table.contains_key(2));
}

#[test]
fn the_clock_goes_on() {
    let clock = Clock::start();
    let a = clock.now();
    let b = clock.now();
    assert!(a.0 <= b.0);
    while clock.now().0 == a.0 {}
    assert_eq!(Instant(2_500_000_000).secs_since(Instant(400_000_000)), 2);
    assert_eq!(Instant(5).duration_since(Instant(9)), 0);
    assert_eq!(Instant(9).duration_since(Instant(5)), 4);
}
