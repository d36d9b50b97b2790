use bitcoin::p2p::address::AddrV2 as WireAddr;
use floresta_peers::address_man::AddressMan;
use floresta_peers::disk::{load_all, Address, DiskLocalAddress, Network};
use floresta_peers::dns::DnsSeed;
use floresta_peers::local_address::{AddressState, LocalAddress};
use floresta_peers::net_addr::{AddrV2, BitcoinSocketAddr, ReachableNetworks};
use floresta_peers::service_flags::{
    ServiceFlags, COMPACT_FILTERS, NETWORK, NETWORK_LIMITED, NONE, UTREEXO, UTREEXO_ARCHIVE,
    WITNESS,
};
use rand::RngExt;

fn v4(text: &str) -> AddrV2 {
    match WireAddr::Ipv4(text.parse().unwrap()) {
        WireAddr::Ipv4(ip) => AddrV2::Ipv4(ip.octets()),
        _ => unreachable!(),
    }
}

fn v6(text: &str) -> AddrV2 {
    match WireAddr::Ipv6(text.parse().unwrap()) {
        WireAddr::Ipv6(ip) => AddrV2::Ipv6(ip.octets()),
        _ => unreachable!(),
    }
}

/// Saved addresses, as a seed file holds them.
fn seeds() -> Vec<DiskLocalAddress> {
    let mut seeds = Vec::new();
    for i in 0u8..20 {
        let mut services = NETWORK | NETWORK_LIMITED | WITNESS;
        if i % 4 == 0 {
            services |= UTREEXO;
        }
        if i % 3 == 0 {
            services |= COMPACT_FILTERS;
        }
        let address = if i % 5 == 0 {
            Address::V6([0x20, 0x01, 0x41, 0xd0, 0, i, 0, 0, 0, 0, 0, 0, 0, 0, 0, 1])
        } else {
            Address::V4([85, 17, 40, i + 1])
        };
        seeds.push(DiskLocalAddress {
            address,
            last_connected: 1_700_000_000 + i as u64,
            state: AddressState::Tried(1_700_000_000),
            services,
            port: 38333,
            id: None,
        });
    }
    seeds
}

fn load_addresses() -> Vec<LocalAddress> {
    load_all(&seeds())
}

fn get_addresses_and_random_times() -> Vec<LocalAddress> {
    // modify some addresses to have failed connections in the past
    let now = AddressMan::time_since_unix();
    let mut addresses = load_addresses();
    for (i, item) in addresses.iter_mut().enumerate() {
        if i % 3 == 0 {
            item.last_connected = now - 5000;
        } else if i % 3 == 1 {
            item.last_connected = now - 6000;
        } else {
            item.last_connected = now - 2000;
        }
    }
    addresses
}

fn filled(max_size: Option<usize>, addresses: &[LocalAddress]) -> AddressMan {
    let mut address_man = AddressMan::new(max_size, &[]);
    for address in addresses {
        address_man.addresses.insert(address.id, address.clone());
    }
    address_man
}

fn address(addr: AddrV2, services: u64, id: usize) -> LocalAddress {
    LocalAddress::new(
        BitcoinSocketAddr::new(addr, 8333),
        0,
        AddressState::NeverTried,
        ServiceFlags(services),
        id,
    )
}

const ONION: [u8; 32] = [
    0x89, 0x6c, 0x6a, 0x71, 0x70, 0x6b, 0x67, 0x61, 0x62, 0x67, 0x34, 0x68, 0x72, 0x63, 0x68, 0x62,
    0x6f, 0x7a, 0x77, 0x6f, 0x76, 0x66, 0x66, 0x79, 0x6b, 0x37, 0x66, 0x6f, 0x62, 0x70, 0x6f, 0x76,
];

#[test]
fn test_adding_fixed_peer() {
    let signet_addresses = load_addresses();

    let mut addr_man = AddressMan::new(None, &[ReachableNetworks::IPv4, ReachableNetworks::IPv6]);
    addr_man.add_fixed_addresses(&seeds());

    assert_eq!(addr_man.good_addresses.len(), signet_addresses.len());

    let utreexo_addresses = signet_addresses
        .iter()
        .filter(|address| address.get_services().has(ServiceFlags(UTREEXO)))
        .count();

    assert_eq!(
        addr_man.good_peers_by_service.get(ServiceFlags(UTREEXO)).unwrap().len(),
        utreexo_addresses
    );
    assert_eq!(
        addr_man.peers_by_service.get(ServiceFlags(UTREEXO)).unwrap().len(),
        utreexo_addresses
    );
}

#[test]
fn test_parse() {
    let signet_address = load_addresses();

    assert!(!signet_address.is_empty());
    let random = rand::rng().random_range(1..=13);
    let loc_adr_1 = LocalAddress::from(signet_address[random].address.clone());
    assert_eq!(loc_adr_1.address, signet_address[random].address);
}

#[test]
fn test_address_man() {
    let mut address_man = AddressMan::new(None, &[ReachableNetworks::IPv4, ReachableNetworks::IPv6]);

    let signet_address = load_addresses();

    address_man.push_addresses(&signet_address);

    assert!(!address_man.good_addresses.is_empty());
    assert!(!address_man.peers_by_service.map.is_empty());
    assert!(!address_man.get_addresses_to_send().is_empty());
    assert!(address_man.get_address_to_connect(ServiceFlags(NONE), true).is_some());
    assert!(address_man.get_address_to_connect(ServiceFlags(NONE), false).is_some());
    assert!(address_man.get_address_to_connect(ServiceFlags(UTREEXO), false).is_some());

    assert!(!AddressMan::get_net_seeds(Network::Signet).is_empty());
    assert!(!AddressMan::get_net_seeds(Network::Bitcoin).is_empty());
    assert!(!AddressMan::get_net_seeds(Network::Regtest).is_empty());
    assert!(!AddressMan::get_net_seeds(Network::Testnet).is_empty());

    let seed = DnsSeed {
        seed: String::from("seed.example.org"),
        filters: ServiceFlags(WITNESS),
    };
    assert!(AddressMan::get_seeds_from_dns(&seed, &vec![]).is_empty());

    address_man.rearrange_buckets();
}

#[test]
fn test_is_routable() {
    // random addresses that are private
    let v4_addresses = [
        "10.42.187.23",
        "10.0.254.199",
        "172.16.88.4",
        "172.31.201.77",
        "192.168.1.14",
        "192.168.203.250",
        "0.9.85.249",
    ];
    let v6_addresses = [
        "fd3a:9f2b:4c10:1a2b::1",
        "fd12:3456:789a:1::dead",
        "fdff:ab23:9012:beef::42",
        "fd7c:2e91:aa10:ff01:1234:5678:9abc:def0",
        "fd00:1111:2222:3333:4444:5555:6666:7777",
    ];

    for text in v4_addresses {
        let address = LocalAddress::from(BitcoinSocketAddr::new(v4(text), 8333));
        assert!(!address.is_routable(), "{address:?}");
    }
    for text in v6_addresses {
        let address = LocalAddress::from(BitcoinSocketAddr::new(v6(text), 8333));
        assert!(!address.is_routable(), "{address:?}");
    }

    // now load the seeds and ensure none are private
    for address in load_addresses() {
        assert!(address.is_routable(), "{address:?}");
    }
}

#[test]
fn test_rearrange_buckets() {
    let addresses = get_addresses_and_random_times();
    let mut address_man = filled(None, &addresses);

    assert_eq!(address_man.addresses.len(), addresses.len());
    address_man.rearrange_buckets();

    assert!(address_man.addresses.iter().all(|(_, addr)| {
        matches!(addr.state, AddressState::NeverTried | AddressState::Tried(_))
    }));
}

#[test]
fn test_is_net_reachable() {
    let address_man = AddressMan::new(None, &[ReachableNetworks::IPv4, ReachableNetworks::IPv6]);
    let i2p = [
        0x61, 0x62, 0x63, 0x64, 0x65, 0x66, 0x67, 0x68, 0x69, 0x6a, 0x6b, 0x6c, 0x6d, 0x6e, 0x6f,
        0x70, 0x71, 0x72, 0x73, 0x74, 0x75, 0x76, 0x77, 0x78, 0x79, 0x7a, 0x66, 0x6f, 0x62, 0x70,
        0x6f, 0x76,
    ];

    assert!(address_man.is_net_reachable(&address(v4("127.146.182.45"), NONE, 0)));
    assert!(address_man.is_net_reachable(&address(
        v6("142b:a452:dff7:a41c:6cc6:317e:cc94:bb10"),
        NONE,
        0
    )));
    assert!(!address_man.is_net_reachable(&address(AddrV2::TorV3(ONION), NONE, 0)));
    assert!(!address_man.is_net_reachable(&address(AddrV2::I2p(i2p), NONE, 0)));
}

#[test]
fn test_push_address() {
    let mut address_man = AddressMan::new(None, &[ReachableNetworks::IPv4]);
    let all = NETWORK | NETWORK_LIMITED | WITNESS;
    let v4_no_witness = address(v4("12.146.182.45"), NETWORK | NETWORK_LIMITED, 0);
    let v4_with_witness = address(v4("12.146.182.45"), all, 1);
    let v6_with_witness = address(v6("fd3a:9f2b:4c10:1a2b::1"), all, 2);
    let v4_not_routable = address(v4("127.0.0.1"), all, 3);
    let v6_not_routable = address(v6("::1"), all, 4);
    let onion = address(AddrV2::TorV3(ONION), all, 5);

    let addresses = vec![
        v4_no_witness,
        v4_with_witness.clone(),
        v6_with_witness,
        v4_not_routable,
        v6_not_routable,
        onion,
    ];

    address_man.push_addresses(&addresses);

    // only the v4 with witness
    assert_eq!(address_man.addresses.len(), 1);
    assert_eq!(*address_man.addresses.values().next().unwrap(), v4_with_witness);
}

#[test]
fn test_prune_addresses() {
    let addresses = get_addresses_and_random_times();
    let mut address_man = filled(Some(10), &addresses);

    assert_eq!(address_man.addresses.len(), addresses.len());

    address_man.prune_addresses();

    assert_ne!(address_man.addresses.len(), addresses.len());
}

#[test]
fn test_update_address_state() {
    let addresses = get_addresses_and_random_times();
    let mut address_man = filled(None, &addresses);

    for addr in addresses {
        address_man.update_set_state(addr.id, AddressState::Banned(0));
    }

    assert!(address_man
        .addresses
        .values()
        .all(|addr| matches!(addr.state, AddressState::Banned(_))));
}

#[test]
fn test_update_service_flags() {
    let addresses = get_addresses_and_random_times();
    let mut address_man = filled(None, &addresses);

    for addr in addresses {
        address_man.update_set_service_flag(addr.id, ServiceFlags(UTREEXO));
    }

    assert!(address_man
        .addresses
        .values()
        .all(|addr| addr.get_services().has(ServiceFlags(UTREEXO))));
}

#[test]
fn test_add_fixed_addresses() {
    let mut address_man = AddressMan::new(None, &ReachableNetworks::SUPPORTED);
    address_man.add_fixed_addresses(&seeds());
    assert!(!address_man.addresses.is_empty());
}

// What follows is not about seed files.

#[test]
fn known_addresses_are_not_taken_twice() {
    let mut address_man = AddressMan::new(None, &ReachableNetworks::ALL);
    let services = NETWORK_LIMITED | WITNESS;
    address_man.push_addresses(&[address(v4("12.146.182.45"), services, 1)]);
    address_man.push_addresses(&[address(v4("12.146.182.45"), services, 2)]);
    assert_eq!(address_man.addresses.len(), 1);
    assert!(address_man.get(1).is_some());
    assert!(address_man.get(2).is_none());
}

#[test]
fn pruning_drops_the_oldest() {
    let mut addresses = load_addresses();
    addresses[7].last_connected = 3;
    addresses[11].last_connected = 2;
    let dropped = [addresses[7].id, addresses[11].id];
    let mut address_man = filled(Some(18), &addresses);
    address_man.prune_addresses();
    assert_eq!(address_man.addresses.len(), 18);
    assert!(dropped.iter().all(|id| address_man.get(*id).is_none()));
}

#[test]
fn default_limit_is_fifty_thousand() {
    assert_eq!(AddressMan::new(None, &[]).max_size, 50_000);
    assert_eq!(AddressMan::new(Some(7), &[]).max_size, 7);
}

#[test]
fn failed_addresses_leave_every_good_list() {
    let mut address_man = AddressMan::new(None, &ReachableNetworks::ALL);
    address_man.push_addresses(&load_addresses());
    let id = address_man.good_addresses[0];
    address_man.update_set_state(id, AddressState::Failed(5));
    assert!(!address_man.good_addresses.contains(&id));
    for service in [NONE, UTREEXO, COMPACT_FILTERS] {
        let ids = address_man.good_peers_by_service.get(ServiceFlags(service)).unwrap();
        assert!(!ids.contains(&id));
    }
    assert_eq!(address_man.get(id).unwrap().state, AddressState::Failed(5));
}

#[test]
fn banned_addresses_leave_every_good_list() {
    for state in [AddressState::Banned(5), AddressState::NeverTried] {
        let mut address_man = AddressMan::new(None, &ReachableNetworks::ALL);
        address_man.push_addresses(&load_addresses());
        let id = address_man.good_peers_by_service.get(ServiceFlags(UTREEXO)).unwrap()[0];
        address_man.update_set_state(id, state);
        assert!(!address_man.good_addresses.contains(&id));
        assert!(address_man.good_peers_by_service.map.values().all(|ids| !ids.contains(&id)));
        assert!(address_man
            .peers_by_service
            .get(ServiceFlags(UTREEXO))
            .unwrap()
            .contains(&id));
    }
}

#[test]
fn lost_services_leave_the_good_lists() {
    let mut address_man = AddressMan::new(None, &ReachableNetworks::ALL);
    let all = NETWORK_LIMITED | WITNESS | UTREEXO | UTREEXO_ARCHIVE | COMPACT_FILTERS;
    address_man.push_addresses(&[address(v4("12.146.182.45"), all, 1)]);
    address_man.update_set_state(1, AddressState::Tried(6));
    let good = |book: &AddressMan, service: u64| {
        book.good_peers_by_service
            .get(ServiceFlags(service))
            .unwrap()
            .contains(&1)
    };
    for service in [NONE, UTREEXO, UTREEXO_ARCHIVE, COMPACT_FILTERS] {
        assert!(good(&address_man, service));
    }
    let left = NETWORK_LIMITED | WITNESS | COMPACT_FILTERS;
    address_man.update_set_service_flag(1, ServiceFlags(left));
    assert!(good(&address_man, NONE) && good(&address_man, COMPACT_FILTERS));
    assert!(!good(&address_man, UTREEXO) && !good(&address_man, UTREEXO_ARCHIVE));
    assert_eq!(address_man.peers_by_service.get(ServiceFlags(UTREEXO)), Some(&vec![]));
    assert_eq!(address_man.good_addresses, vec![1]);
}

#[test]
fn unknown_ids_are_not_listed() {
    let mut address_man = AddressMan::new(None, &ReachableNetworks::ALL);
    address_man.update_set_state(9, AddressState::Tried(6));
    address_man.update_set_state(9, AddressState::Connected);
    assert!(address_man.good_addresses.is_empty());
    assert!(address_man.addresses.is_empty());
}

#[test]
fn any_peer_will_do_where_none_offers_the_service() {
    let mut address_man = AddressMan::new(None, &ReachableNetworks::ALL);
    assert!(address_man.try_with_service(ServiceFlags(UTREEXO), 0).is_none());
    assert!(address_man.get_random_address(ServiceFlags(UTREEXO), 0).is_none());
    address_man.push_addresses(&[address(v4("12.146.182.45"), NETWORK_LIMITED | WITNESS, 1)]);
    let (id, _) = address_man.try_with_service(ServiceFlags(UTREEXO), 0).unwrap();
    assert_eq!(id, 1);
    let utreexo = address(v4("12.146.182.46"), NETWORK_LIMITED | WITNESS | UTREEXO, 2);
    address_man.push_addresses(&[utreexo]);
    for _ in 0..20 {
        assert_eq!(address_man.try_with_service(ServiceFlags(UTREEXO), 0).unwrap().0, 2);
        assert_eq!(address_man.get_random_address(ServiceFlags(UTREEXO), 0).unwrap().0, 2);
    }
}

#[test]
fn tried_addresses_are_listed_again() {
    let mut address_man = AddressMan::new(None, &ReachableNetworks::ALL);
    address_man.push_addresses(&load_addresses());
    let id = address_man.good_peers_by_service.get(ServiceFlags(UTREEXO)).unwrap()[0];
    address_man.update_set_state(id, AddressState::Failed(5));
    address_man.update_set_state(id, AddressState::Tried(6));
    assert!(address_man.good_addresses.contains(&id));
    assert!(address_man
        .good_peers_by_service
        .get(ServiceFlags(UTREEXO))
        .unwrap()
        .contains(&id));
}

#[test]
fn connected_addresses_note_the_time() {
    let mut address_man = AddressMan::new(None, &ReachableNetworks::ALL);
    address_man.push_addresses(&[address(v4("12.146.182.45"), NETWORK_LIMITED | WITNESS, 1)]);
    address_man.update_set_state_at(1, AddressState::Connected, 77);
    assert_eq!(address_man.get(1).unwrap().last_connected, 77);
    assert_eq!(address_man.good_addresses, vec![1]);
}

#[test]
fn weak_peers_are_forgotten() {
    let mut address_man = AddressMan::new(None, &ReachableNetworks::ALL);
    address_man.push_addresses(&load_addresses());
    let id = address_man.good_addresses[0];
    address_man.update_set_service_flag(id, ServiceFlags(NETWORK));
    assert!(address_man.get(id).is_none());
    assert!(!address_man.good_addresses.contains(&id));
    for buckets in [&address_man.peers_by_service, &address_man.good_peers_by_service] {
        assert!(buckets.map.values().all(|ids| !ids.contains(&id)));
    }
}

#[test]
fn bans_and_stale_states_are_forgotten_in_time() {
    let mut addresses = load_addresses();
    addresses[0].state = AddressState::Banned(1_000_000);
    addresses[1].state = AddressState::Tried(1_000_000);
    addresses[2].state = AddressState::Failed(1_000_000);
    addresses[3].state = AddressState::Connected;
    let state = |book: &AddressMan, i: usize| book.get(addresses[i].id).unwrap().state;

    let mut early = filled(None, &addresses[0..4]);
    early.rearrange_buckets_at(1_000_000);
    assert_eq!(state(&early, 0), AddressState::Banned(1_000_000));
    early.rearrange_buckets_at(1_000_001);
    assert_eq!(state(&early, 0), AddressState::NeverTried);
    assert_eq!(state(&early, 1), AddressState::Tried(1_000_000));
    early.rearrange_buckets_at(1_000_000 + 86_400);
    assert_eq!(state(&early, 1), AddressState::Tried(1_000_000));
    assert_eq!(state(&early, 2), AddressState::Failed(1_000_000));
    early.rearrange_buckets_at(1_000_001 + 86_400);
    assert_eq!(state(&early, 1), AddressState::NeverTried);
    assert_eq!(state(&early, 2), AddressState::NeverTried);
    assert_eq!(state(&early, 3), AddressState::Connected);
}

#[test]
fn stale_addresses_leave_every_good_list() {
    let services = NETWORK_LIMITED | WITNESS | UTREEXO;
    let mut address_man = AddressMan::new(None, &ReachableNetworks::ALL);
    for id in 1..=3u8 {
        let mut known = address(v4(&format!("12.146.182.{id}")), services, id as usize);
        known.state = AddressState::Tried(1_000_000 + id as u64);
        address_man.push_addresses(&[known]);
    }
    address_man.update_set_state(3, AddressState::Connected);
    assert_eq!(address_man.good_addresses, vec![1, 2, 3]);
    address_man.rearrange_buckets_at(1_000_002 + 86_400);
    assert_eq!(address_man.get(1).unwrap().state, AddressState::NeverTried);
    assert_eq!(address_man.good_addresses, vec![2, 3]);
    for service in [NONE, UTREEXO] {
        assert_eq!(
            address_man.good_peers_by_service.get(ServiceFlags(service)),
            Some(&vec![2, 3])
        );
        assert_eq!(
            address_man.peers_by_service.get(ServiceFlags(service)),
            Some(&vec![1, 2, 3])
        );
    }
}

#[test]
fn enough_needs_every_kind() {
    let mut address_man = AddressMan::new(None, &ReachableNetworks::ALL);
    assert!(!address_man.enough_addresses());
    address_man.push_addresses(&load_addresses());
    assert!(address_man.enough_addresses());
    for address in load_addresses().iter().take(4) {
        assert!(address.is_good_address());
    }
    let utreexo = address_man
        .good_peers_by_service
        .get(ServiceFlags(UTREEXO))
        .unwrap()
        .clone();
    for id in utreexo.iter().skip(1) {
        address_man.update_set_state(*id, AddressState::Failed(1));
    }
    assert!(!address_man.enough_addresses());
}

#[test]
fn addresses_are_sent_as_they_are_known() {
    let mut address_man = AddressMan::new(None, &ReachableNetworks::ALL);
    let services = NETWORK_LIMITED | WITNESS;
    let mut good = address(v4("12.146.182.45"), services, 1);
    good.state = AddressState::Tried(9);
    good.last_connected = 42;
    let unknown = address(v4("12.146.182.46"), services, 2);
    address_man.push_addresses(&[good, unknown]);
    let sent = address_man.get_addresses_to_send();
    assert_eq!(sent, vec![(v4("12.146.182.45"), 42, ServiceFlags(services), 8333)]);
}

#[test]
fn connections_go_to_addresses_that_may_be_tried() {
    let mut address_man = AddressMan::new(None, &ReachableNetworks::ALL);
    let services = NETWORK_LIMITED | WITNESS;
    address_man.push_addresses(&[address(v4("12.146.182.45"), services, 1)]);
    assert!(address_man.get_address_to_connect(ServiceFlags(NONE), false).is_some());

    address_man.update_set_state(1, AddressState::Banned(u64::MAX));
    assert!(address_man.get_address_to_connect(ServiceFlags(NONE), false).is_none());
    assert!(address_man.get_address_to_connect(ServiceFlags(NONE), true).is_none());

    address_man.update_set_state(1, AddressState::Failed(1_000));
    assert!(address_man
        .get_address_to_connect_at(ServiceFlags(NONE), false, 1_600)
        .is_none());
    assert!(address_man
        .get_address_to_connect_at(ServiceFlags(NONE), false, 1_601)
        .is_some());
    assert!(address_man
        .get_address_to_connect_at(ServiceFlags(NONE), true, 1_001)
        .is_some());

    let mut empty = AddressMan::new(None, &ReachableNetworks::ALL);
    assert!(empty.get_address_to_connect(ServiceFlags(NONE), false).is_none());
    assert!(empty.get_address_to_connect(ServiceFlags(NONE), true).is_none());
}

#[test]
fn connections_prefer_the_service_asked_for() {
    let mut address_man = AddressMan::new(None, &ReachableNetworks::ALL);
    address_man.push_addresses(&load_addresses());
    for _ in 0..50 {
        let (_, picked) = address_man
            .get_address_to_connect(ServiceFlags(UTREEXO), false)
            .unwrap();
        assert!(picked.get_services().has(ServiceFlags(UTREEXO)));
    }
}

#[test]
fn statistics_count_by_network_and_state() {
    let services = NETWORK_LIMITED | WITNESS;
    let mut tried = address(v4("12.146.182.45"), services, 1);
    tried.state = AddressState::Tried(1);
    let mut banned = address(v4("12.146.182.46"), services, 2);
    banned.state = AddressState::Banned(1);
    let mut connected = address(AddrV2::TorV3(ONION), services, 3);
    connected.state = AddressState::Connected;
    let fresh = address(v6("2001:41d0::1"), services, 4);
    let mut failed = address(v6("2001:41d0::2"), services, 5);
    failed.state = AddressState::Failed(1);
    let stats = filled(None, &[tried, banned, connected, fresh, failed]).get_connection_stats();
    assert_eq!((stats.ipv4.new, stats.ipv4.tried), (0, 1));
    assert_eq!((stats.ipv6.new, stats.ipv6.tried), (2, 0));
    assert_eq!(stats.onion.tried, 1);
    assert_eq!(stats.cjdns.total(), 0);
    assert_eq!(stats.ipv6.total(), 2);
}
