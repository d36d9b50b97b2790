use std::collections::HashSet;

use floresta_peers::address_man::AddressMan;
use floresta_peers::chain_data::{Block, BlockHash, CFHeaders, Inventory, Transaction, Txid};
use floresta_peers::clock::Instant;
use floresta_peers::disk::{load_all, Network};
use floresta_peers::local_address::{AddressState, LocalAddress};
use floresta_peers::net_addr::{AddrV2, AddrV2Message, BitcoinSocketAddr, ReachableNetworks};
use floresta_peers::node::messages::{
    ChainAnswers, ChainError, InflightRequests, NodeRequest, NodeResponse, PeerMessages,
    UserRequest, UserWaiting, WireError,
};
use floresta_peers::node::peer::{
    ConnectionKind, LocalPeerView, PeerStatus, TransportProtocol, Version,
};
use floresta_peers::node::retry::{Cause, Expiry, Redo};
use floresta_peers::node::sending::{drawn_peer, latency_weights, FULL_WEIGHT};
use floresta_peers::node::state::{NodeContext, UtreexoNode};
use floresta_peers::node::upkeep::{ChainStart, NodeConfig};
use floresta_peers::service_flags::{
    ServiceFlags, COMPACT_FILTERS, NETWORK, NETWORK_LIMITED, NONE, UTREEXO, UTREEXO_ARCHIVE,
    WITNESS,
};

/// The id of the only address our test nodes know about
const PEER_ID: usize = 0;

/// The anchors a previous run of the node would have left on disk
const OLD_ANCHORS: &str = "the anchors we saved on our last run";

const SECOND: u64 = 1_000_000_000;

/// A routable address, announcing the services we need to keep it in our address book
fn utreexo_address() -> LocalAddress {
    LocalAddress::new(
        BitcoinSocketAddr::new(AddrV2::Ipv4([200, 100, 50, 25]), 8333),
        0,
        AddressState::NeverTried,
        ServiceFlags(NETWORK_LIMITED | WITNESS | UTREEXO),
        PEER_ID,
    )
}

fn context() -> NodeContext {
    NodeContext {
        max_outgoing_peers: 2,
        connection_timeout: 10,
        request_timeout: 60,
        ban_time: 86_400,
        peer_db_dump_interval: 30,
    }
}

fn config(fixed_peers: Vec<BitcoinSocketAddr>) -> NodeConfig {
    NodeConfig {
        network: Network::Signet,
        fixed_peers,
        max_banscore: 100,
    }
}

fn start() -> ChainStart {
    ChainStart {
        genesis: hash(9),
        validation_index: 12,
    }
}

/// Creates a node knowing about a single utreexo address
fn setup_node() -> UtreexoNode {
    let mut address_man = AddressMan::new(None, &ReachableNetworks::ALL);
    address_man.push_addresses(&[utreexo_address()]);
    UtreexoNode::new(&config(vec![]), start(), address_man, context())
}

fn peer(kind: ConnectionKind, services: u64) -> LocalPeerView {
    LocalPeerView {
        message_time: None,
        state: PeerStatus::Ready,
        takes_requests: true,
        services: ServiceFlags(services),
        user_agent: String::from("/test:0.1/"),
        address: utreexo_address(),
        kind,
        height: 0,
        time_offset: 0,
        banscore: 0,
        transport_protocol: TransportProtocol::V2,
    }
}

fn regular() -> ConnectionKind {
    ConnectionKind::Regular(ServiceFlags(NONE))
}

fn version(id: u32, kind: ConnectionKind, services: u64) -> Version {
    Version {
        id,
        address_id: PEER_ID,
        services: ServiceFlags(services),
        user_agent: String::from("/peer:1.0/"),
        blocks: 800_000,
        time_offset: -3,
        kind,
        transport_protocol: TransportProtocol::V1,
    }
}

fn hash(byte: u8) -> BlockHash {
    BlockHash([byte; 32])
}

fn chain() -> ChainAnswers {
    ChainAnswers {
        locator: Ok(vec![hash(1), hash(2)]),
        genesis: hash(9),
    }
}

fn waiting(responder: u64) -> UserWaiting {
    UserWaiting {
        peer: 1,
        since: Instant(0),
        responder,
        listening: true,
    }
}

const ALL_SERVICES: u64 =
    NETWORK | WITNESS | COMPACT_FILTERS | NETWORK_LIMITED | UTREEXO | UTREEXO_ARCHIVE;

#[test]
fn test_save_utreexo_peers_keeps_old_anchors() {
    let mut node = setup_node();
    let mut on_disk = String::from(OLD_ANCHORS);

    // We don't know about any utreexo peer at all
    if let Some(anchors) = node.save_utreexo_peers() {
        on_disk = format!("{anchors:?}");
    }

    // We know about utreexo peers, but none of them is connected right now
    node.common
        .peer_by_service
        .put(ServiceFlags(UTREEXO), Vec::new());
    if let Some(anchors) = node.save_utreexo_peers() {
        on_disk = format!("{anchors:?}");
    }

    // In both cases we should've kept our old anchors, they are all we have to
    // reconnect with utreexo peers on our next startup
    assert_eq!(on_disk, OLD_ANCHORS);
}

#[test]
fn test_save_utreexo_peers_dumps_connected_peers() {
    let mut node = setup_node();
    node.common
        .peer_by_service
        .put(ServiceFlags(UTREEXO), vec![PEER_ID as u32]);

    let anchors = node.save_utreexo_peers().expect("should dump our anchors");

    assert_eq!(load_all(&anchors), vec![utreexo_address()]);
}

#[test]
fn test_save_peer_dbs_dumps_both_dbs() {
    let mut node = setup_node();

    // Our address book is saved even if we don't have any utreexo peer to anchor to
    let dbs = node.save_peer_dbs();
    assert_eq!(load_all(&dbs.peers), vec![utreexo_address()]);
    assert!(dbs.anchors.is_none());

    node.common
        .peer_by_service
        .put(ServiceFlags(UTREEXO), vec![PEER_ID as u32]);

    let dbs = node.save_peer_dbs();
    assert_eq!(dbs.peers.len(), 1);
    assert_eq!(load_all(&dbs.anchors.unwrap()), vec![utreexo_address()]);
}

#[test]
fn anchors_are_found_by_the_id_of_the_address() {
    let mut node = setup_node();
    node.common.peers.insert(7, peer(regular(), UTREEXO));
    node.common
        .peer_by_service
        .put(ServiceFlags(UTREEXO), vec![7]);
    let anchors = node.save_utreexo_peers().expect("should dump our anchors");
    assert_eq!(load_all(&anchors), vec![utreexo_address()]);
}

#[test]
fn weak_feelers_are_not_listed_again() {
    let mut node = setup_node();
    node.common.peers.insert(4, peer(ConnectionKind::Feeler, NONE));
    let weak = version(4, ConnectionKind::Feeler, NETWORK);
    assert_eq!(node.handle_peer_ready_at(4, weak, &chain(), Instant(5), 1_000), Ok(()));
    assert!(node.common.address_man.get(PEER_ID).is_none());
    assert!(node.common.address_man.good_addresses.is_empty());
}

#[test]
fn fixed_peers_are_connected_to_once() {
    let a = BitcoinSocketAddr::new(AddrV2::Ipv4([1, 2, 3, 4]), 8333);
    let b = BitcoinSocketAddr::new(AddrV2::Ipv4([1, 2, 3, 4]), 8334);
    let node = UtreexoNode::new(
        &config(vec![a.clone(), b.clone(), a.clone(), b.clone()]),
        start(),
        AddressMan::new(None, &ReachableNetworks::ALL),
        context(),
    );
    assert!(node.has_fixed_peers());
    let fixed: Vec<_> = node.common.fixed_peers.iter().map(|p| p.address.clone()).collect();
    assert_eq!(fixed, vec![a, b]);
    let fresh = setup_node();
    assert!(!fresh.has_fixed_peers());
    assert_eq!(fresh.common.last_filter, hash(9));
    assert_eq!(fresh.common.last_block_request, 12);
    assert_eq!(fresh.common.network, Network::Signet);
    assert_eq!(fresh.common.max_banscore, 100);
}

#[test]
fn weights_are_inverse_to_latency() {
    assert_eq!(
        latency_weights(&vec![50_000_000, 100_000_000]),
        vec![FULL_WEIGHT, FULL_WEIGHT / 2]
    );
    assert_eq!(latency_weights(&vec![0, 1, 4]), vec![FULL_WEIGHT, FULL_WEIGHT, FULL_WEIGHT / 4]);
    assert!(latency_weights(&vec![]).is_empty());
    assert_eq!(latency_weights(&vec![1, u64::MAX]), vec![FULL_WEIGHT, 1]);
}

#[test]
fn fast_peers_are_chosen_among_those_that_were_measured() {
    let mut node = setup_node();
    assert_eq!(node.choose_peer_by_latency(ServiceFlags(NONE)), None);
    assert_eq!(
        node.send_to_fast_peer(NodeRequest::Ping, ServiceFlags(NONE)),
        Err(WireError::NoPeersAvailable)
    );

    let mut slow = peer(regular(), UTREEXO);
    slow.message_time = Some(100 * SECOND);
    let mut awaiting = peer(regular(), UTREEXO);
    awaiting.message_time = Some(1);
    awaiting.state = PeerStatus::Awaiting;
    let mut other = peer(regular(), NETWORK);
    other.message_time = Some(1);
    node.common.peers.insert(1, slow);
    node.common.peers.insert(2, peer(regular(), UTREEXO));
    node.common.peers.insert(3, awaiting);
    node.common.peers.insert(4, other);
    for _ in 0..20 {
        assert_eq!(node.choose_peer_by_latency(ServiceFlags(UTREEXO)), Some(1));
    }
    assert_eq!(node.send_to_fast_peer(NodeRequest::Ping, ServiceFlags(UTREEXO)), Ok(1));
    assert_eq!(node.common.outbox, vec![(1, NodeRequest::Ping)]);

    node.common.peers.get_mut(&1).unwrap().takes_requests = false;
    assert_eq!(
        node.send_to_fast_peer(NodeRequest::Ping, ServiceFlags(UTREEXO)),
        Err(WireError::ChannelSend)
    );

    let mut fast = peer(regular(), UTREEXO);
    fast.message_time = Some(1);
    node.common.peers.insert(5, fast);
    let (mut ids, mut weights) = node.latency_candidates(ServiceFlags(UTREEXO));
    if ids[0] != 5 {
        ids.reverse();
        weights.reverse();
    }
    assert_eq!(ids, vec![5, 1]);
    assert_eq!(weights, vec![FULL_WEIGHT, FULL_WEIGHT / (100 * SECOND as u128)]);
    let fast_picks = (0..200)
        .filter(|_| node.choose_peer_by_latency(ServiceFlags(UTREEXO)) == Some(5))
        .count();
    assert!(fast_picks > 190);
}

#[test]
fn random_peers_are_chosen_by_service() {
    let mut node = setup_node();
    assert_eq!(node.ask_for_addresses(), Err(WireError::NoPeersAvailable));
    node.common.peers.insert(1, peer(regular(), UTREEXO));
    node.common.peers.insert(2, peer(regular(), NETWORK));
    assert_eq!(node.ask_for_addresses(), Err(WireError::NoPeersAvailable));
    node.common.peer_ids = vec![1, 2];
    assert_eq!(
        node.send_to_random_peer(NodeRequest::Ping, ServiceFlags(UTREEXO)),
        Err(WireError::NoPeersAvailable)
    );
    node.common.peer_by_service.put(ServiceFlags(UTREEXO), vec![1]);
    assert_eq!(node.send_to_random_peer(NodeRequest::Ping, ServiceFlags(UTREEXO)), Ok(1));
    let mut seen = HashSet::new();
    for _ in 0..100 {
        seen.insert(node.send_to_random_peer(NodeRequest::Ping, ServiceFlags(NONE)).unwrap());
    }
    assert_eq!(seen, HashSet::from([1, 2]));

    node.common.peers.remove(&1);
    assert_eq!(
        node.send_to_random_peer(NodeRequest::Ping, ServiceFlags(UTREEXO)),
        Err(WireError::NoPeersAvailable)
    );
    node.common.peer_ids = vec![2];
    node.common.peers.get_mut(&2).unwrap().takes_requests = false;
    assert_eq!(node.ask_for_addresses(), Err(WireError::ChannelSend));
}

#[test]
fn requests_wait_for_the_handshake() {
    let mut node = setup_node();
    let mut awaiting = peer(regular(), NONE);
    awaiting.state = PeerStatus::Awaiting;
    node.common.peers.insert(1, awaiting);
    assert_eq!(node.send_to_peer(1, NodeRequest::Ping), Ok(()));
    assert_eq!(node.send_to_peer(7, NodeRequest::Ping), Ok(()));
    assert!(node.common.outbox.is_empty());
    node.common.peers.get_mut(&1).unwrap().state = PeerStatus::Ready;
    assert_eq!(node.send_to_peer(1, NodeRequest::Ping), Ok(()));
    assert_eq!(node.common.outbox, vec![(1, NodeRequest::Ping)]);
}

#[test]
fn broadcasts_reach_every_ready_peer() {
    let mut node = setup_node();
    for id in 1..=5 {
        node.common.peers.insert(id, peer(regular(), NONE));
    }
    node.common.peers.get_mut(&2).unwrap().takes_requests = false;
    node.common.peers.get_mut(&3).unwrap().state = PeerStatus::Awaiting;
    node.broadcast_to_peers(NodeRequest::BroadcastTransaction(Txid([7; 32])));
    let mut reached: Vec<u32> = node.common.outbox.iter().map(|(id, _)| *id).collect();
    reached.sort();
    assert_eq!(reached, vec![1, 4, 5]);
}

#[test]
fn random_disconnection_spares_protected_peers() {
    let mut node = setup_node();
    node.common.peers.insert(1, peer(regular(), UTREEXO));
    node.common.peers.insert(2, peer(regular(), NETWORK));
    node.common.peers.insert(3, peer(ConnectionKind::Manual, NETWORK));
    node.common.peers.insert(4, peer(regular(), NONE));
    node.disconnect_random_peers(1, &[ServiceFlags(UTREEXO)]);
    assert_eq!(node.common.outbox.len(), 1);
    node.common.outbox.clear();
    node.disconnect_random_peers(10, &[ServiceFlags(UTREEXO)]);
    let told: HashSet<u32> = node.common.outbox.iter().map(|(id, _)| *id).collect();
    assert_eq!(node.common.outbox.len(), 2);
    assert_eq!(told, HashSet::from([2, 4]));
    assert!(node.common.outbox.iter().all(|(_, r)| *r == NodeRequest::Shutdown));
}

#[test]
fn ready_peers_are_listed_by_their_services() {
    let mut node = setup_node();
    let mut data = peer(regular(), NONE);
    data.state = PeerStatus::Awaiting;
    node.common.peers.insert(4, data);
    node.common
        .inflight
        .insert(InflightRequests::Connect(4), (4, Instant(0)));
    let kind = ConnectionKind::Regular(ServiceFlags(NETWORK));
    let result =
        node.handle_peer_ready_at(4, version(4, kind, ALL_SERVICES), &chain(), Instant(5), 1_000);
    assert_eq!(result, Ok(()));
    assert_eq!(node.common.peer_ids, vec![4]);
    for service in [UTREEXO, COMPACT_FILTERS, UTREEXO_ARCHIVE, NETWORK] {
        assert_eq!(node.common.peer_by_service.get(ServiceFlags(service)), Some(&vec![4]));
    }
    assert!(node.common.peer_by_service.get(ServiceFlags(WITNESS)).is_none());
    assert!(node.has_utreexo_peers() && node.has_compact_filters_peer());
    assert_eq!(node.common.outbox, vec![(4, NodeRequest::GetAddresses)]);
    assert_eq!(node.common.inflight.get(InflightRequests::GetAddresses), Some((4, Instant(5))));
    assert!(!node.common.inflight.contains_key(InflightRequests::Connect(4)));
    let data = node.peer(4).unwrap();
    assert_eq!(data.state, PeerStatus::Ready);
    assert_eq!((data.height, data.time_offset), (800_000, -3));
    assert_eq!(data.user_agent, "/peer:1.0/");
    assert_eq!(data.transport_protocol, TransportProtocol::V1);
    let address = node.common.address_man.get(PEER_ID).unwrap();
    assert_eq!(address.state, AddressState::Connected);
    assert_eq!(address.last_connected, 1_000);
    assert_eq!(address.get_services(), ServiceFlags(ALL_SERVICES));
    assert_eq!(node.connected_peers(), 1);
}

#[test]
fn peers_without_the_services_needed_are_disconnected() {
    let mut node = setup_node();
    node.common.peers.insert(4, peer(regular(), NONE));
    let kind = ConnectionKind::Regular(ServiceFlags(UTREEXO));
    let offered = NETWORK_LIMITED | WITNESS;
    let result =
        node.handle_peer_ready_at(4, version(4, kind, offered), &chain(), Instant(5), 1_000);
    assert_eq!(result, Ok(()));
    assert_eq!(
        node.common.outbox,
        vec![(4, NodeRequest::GetAddresses), (4, NodeRequest::Shutdown)]
    );
    assert!(node.common.peer_ids.is_empty());
    let address = node.common.address_man.get(PEER_ID).unwrap();
    assert_eq!(address.state, AddressState::Tried(1_000));
    assert_eq!(address.get_services(), ServiceFlags(offered));
}

#[test]
fn manual_peers_need_no_services() {
    let mut node = setup_node();
    node.common.peers.insert(4, peer(ConnectionKind::Manual, NONE));
    let result = node.handle_peer_ready(4, version(4, ConnectionKind::Manual, NETWORK), &chain());
    assert_eq!(result, Ok(()));
    assert_eq!(node.common.peer_ids, vec![4]);
    // the address lacks what we need, so it is not kept
    assert!(node.common.address_man.get(PEER_ID).is_none());
}

#[test]
fn peers_beyond_the_limit_become_feelers() {
    let mut node = setup_node();
    for id in 1..=3 {
        node.common.peers.insert(id, peer(regular(), NONE));
    }
    let kind = ConnectionKind::Regular(ServiceFlags(NETWORK));
    let result =
        node.handle_peer_ready_at(3, version(3, kind, ALL_SERVICES), &chain(), Instant(5), 1_000);
    assert_eq!(result, Ok(()));
    assert_eq!(node.peer(3).unwrap().kind, ConnectionKind::Feeler);
    assert!(node.common.peer_ids.is_empty());
    assert_eq!(
        node.common.address_man.get(PEER_ID).unwrap().state,
        AddressState::Tried(1_000)
    );

    // utreexo peers are not bound by the limit
    node.common.peers.insert(4, peer(regular(), NONE));
    node.common.peers.insert(5, peer(regular(), NONE));
    let kind = ConnectionKind::Regular(ServiceFlags(UTREEXO));
    let result =
        node.handle_peer_ready_at(4, version(4, kind, ALL_SERVICES), &chain(), Instant(5), 1_000);
    assert_eq!(result, Ok(()));
    assert_eq!(node.common.peer_ids, vec![4]);
}

#[test]
fn extra_peers_are_asked_for_headers() {
    let mut node = setup_node();
    node.common.peers.insert(4, peer(ConnectionKind::Extra, NONE));
    let kind = ConnectionKind::Extra;
    assert_eq!(
        node.handle_peer_ready_at(4, version(4, kind, NONE), &chain(), Instant(5), 1_000),
        Ok(())
    );
    assert_eq!(
        node.common.outbox[1],
        (4, NodeRequest::GetHeaders(vec![hash(1), hash(2)]))
    );
    assert_eq!(node.common.inflight.get(InflightRequests::Headers), Some((4, Instant(5))));

    let broken = ChainAnswers {
        locator: Err(ChainError(3)),
        genesis: hash(9),
    };
    assert_eq!(
        node.handle_peer_ready_at(4, version(4, kind, NONE), &broken, Instant(6), 1_000),
        Err(WireError::Chain(ChainError(3)))
    );
    node.common.peers.get_mut(&4).unwrap().takes_requests = false;
    assert_eq!(
        node.handle_peer_ready_at(4, version(4, kind, NONE), &chain(), Instant(6), 1_000),
        Err(WireError::ChannelSend)
    );
}

#[test]
fn misbehaving_peers_are_banned() {
    let mut node = setup_node();
    node.common.peers.insert(1, peer(regular(), NONE));
    assert_eq!(node.increase_banscore(1, 99), Ok(()));
    assert_eq!(node.peer(1).unwrap().banscore, 99);
    assert_eq!(node.peer(1).unwrap().state, PeerStatus::Ready);
    assert_eq!(node.increase_banscore(1, 1), Ok(()));
    assert_eq!(node.peer(1).unwrap().state, PeerStatus::Banned);
    assert_eq!(node.common.outbox, vec![(1, NodeRequest::Shutdown)]);
    assert_eq!(node.increase_banscore(1, u32::MAX), Ok(()));
    assert_eq!(node.peer(1).unwrap().banscore, u32::MAX);

    node.common.peers.insert(2, peer(ConnectionKind::Manual, NONE));
    assert_eq!(node.increase_banscore(2, 1_000), Ok(()));
    assert_eq!(node.disconnect_and_ban(2), Ok(()));
    assert_eq!(node.peer(2).unwrap().banscore, 0);
    assert_eq!(node.peer(2).unwrap().state, PeerStatus::Ready);

    node.common.peers.insert(3, peer(ConnectionKind::Extra, NONE));
    assert_eq!(node.increase_banscore(3, 1), Ok(()));
    assert_eq!(node.peer(3).unwrap().state, PeerStatus::Banned);

    node.common.peers.insert(4, peer(ConnectionKind::Extra, NONE));
    node.common.peers.get_mut(&4).unwrap().takes_requests = false;
    assert_eq!(node.disconnect_and_ban(4), Err(WireError::ChannelSend));
    assert_eq!(node.increase_banscore(9, 1), Ok(()));
}

#[test]
fn gone_peers_are_forgotten() {
    let mut node = setup_node();
    node.common.peers.insert(1, peer(regular(), UTREEXO));
    node.common.peers.insert(2, peer(regular(), UTREEXO));
    node.common.peer_ids = vec![1, 2];
    node.common.peer_by_service.put(ServiceFlags(UTREEXO), vec![2, 1]);
    node.common
        .inflight
        .insert(InflightRequests::GetAddresses, (1, Instant(0)));
    node.common
        .inflight
        .insert(InflightRequests::Blocks(hash(4)), (1, Instant(0)));
    node.common
        .inflight
        .insert(InflightRequests::Blocks(hash(5)), (2, Instant(0)));
    let left = node.handle_disconnection(1, PEER_ID, &chain()).unwrap();
    assert_eq!(left, vec![InflightRequests::Blocks(hash(4))]);
    assert!(node.common.inflight.contains_key(InflightRequests::Blocks(hash(4))));
    assert!(!node.common.inflight.contains_key(InflightRequests::GetAddresses));
    assert!(node.peer(1).is_none());
    assert_eq!(node.common.peer_ids, vec![2]);
    assert_eq!(node.common.peer_by_service.get(ServiceFlags(UTREEXO)), Some(&vec![2]));
    assert!(matches!(
        node.common.address_man.get(PEER_ID).unwrap().state,
        AddressState::Tried(_)
    ));
}

#[test]
fn the_address_tells_how_the_connection_ended() {
    let mut node = setup_node();
    let mut gone = |state: PeerStatus| {
        let mut data = peer(regular(), NONE);
        data.state = state;
        node.common.peers.insert(1, data);
        node.drop_peer(1, PEER_ID, 1_000);
        node.common.address_man.get(PEER_ID).unwrap().state
    };
    assert_eq!(gone(PeerStatus::Ready), AddressState::Tried(1_000));
    assert_eq!(gone(PeerStatus::Awaiting), AddressState::Failed(1_000));
    assert_eq!(gone(PeerStatus::Banned), AddressState::Banned(1_000 + 86_400));
    node.common.address_man.rearrange_buckets_at(1_000 + 86_400);
    assert_eq!(
        node.common.address_man.get(PEER_ID).unwrap().state,
        AddressState::Banned(1_000 + 86_400)
    );
    node.common.address_man.rearrange_buckets_at(1_001 + 86_400);
    assert_eq!(
        node.common.address_man.get(PEER_ID).unwrap().state,
        AddressState::NeverTried
    );
}

#[test]
fn requests_are_sent_again_or_kept() {
    let mut node = setup_node();
    node.common
        .inflight
        .insert(InflightRequests::Headers, (1, Instant(3)));
    // nobody is left to ask
    assert_eq!(
        node.handle_disconnection(1, PEER_ID, &chain()),
        Err(WireError::NoPeersAvailable)
    );
    assert_eq!(node.common.inflight.get(InflightRequests::Headers), Some((1, Instant(3))));

    let mut other = peer(regular(), NONE);
    other.message_time = Some(1);
    node.common.peers.insert(2, other);
    assert_eq!(node.handle_disconnection(1, PEER_ID, &chain()), Ok(vec![]));
    assert_eq!(node.common.inflight.get(InflightRequests::Headers).unwrap().0, 2);
    assert_eq!(
        node.common.outbox,
        vec![(2, NodeRequest::GetHeaders(vec![hash(1), hash(2)]))]
    );
}

#[test]
fn each_kind_of_request_is_sent_again_in_its_own_way() {
    let mut node = setup_node();
    let mut helper = peer(regular(), ALL_SERVICES);
    helper.message_time = Some(1);
    node.common.peers.insert(2, helper);
    let now = Instant(8);
    let mut redo = |node: &mut UtreexoNode, req: InflightRequests| {
        node.common.outbox.clear();
        let result = node.redo_with_pick(&req, Some(2), &chain(), now);
        (result, node.common.outbox.pop().map(|(_, request)| request))
    };
    let proof = InflightRequests::UtreexoProof(hash(4));
    // no utreexo peer, then no block, then all there
    assert_eq!(redo(&mut node, proof), (Ok(Redo::Done), None));
    node.common.peer_by_service.put(ServiceFlags(UTREEXO), vec![2]);
    assert_eq!(redo(&mut node, proof), (Ok(Redo::Done), None));
    node.common.blocks.push(hash(4));
    let (result, sent) = redo(&mut node, proof);
    assert_eq!(result, Ok(Redo::Done));
    assert!(matches!(sent, Some(NodeRequest::GetBlockProof((h, _, _))) if h == hash(4)));
    assert_eq!(node.common.inflight.get(proof), Some((2, now)));
    // already awaited
    assert_eq!(redo(&mut node, proof), (Ok(Redo::Done), None));

    assert_eq!(
        redo(&mut node, InflightRequests::UtreexoState(1)),
        (Ok(Redo::Done), Some(NodeRequest::GetUtreexoState((hash(9), 0))))
    );
    assert_eq!(node.common.inflight.get(InflightRequests::UtreexoState(2)), Some((2, now)));

    assert_eq!(redo(&mut node, InflightRequests::GetFilters), (Ok(Redo::Done), None));
    node.common
        .peer_by_service
        .put(ServiceFlags(COMPACT_FILTERS), vec![2]);
    assert_eq!(
        redo(&mut node, InflightRequests::GetFilters),
        (Ok(Redo::Done), Some(NodeRequest::GetFilter((hash(9), 0))))
    );

    assert_eq!(
        redo(&mut node, InflightRequests::Blocks(hash(6))),
        (Ok(Redo::RequestBlock(hash(6))), None)
    );
    assert_eq!(redo(&mut node, InflightRequests::Connect(2)), (Ok(Redo::Done), None));
    assert_eq!(redo(&mut node, InflightRequests::GetAddresses), (Ok(Redo::Done), None));

    let broken = ChainAnswers {
        locator: Err(ChainError(3)),
        genesis: hash(9),
    };
    assert_eq!(
        node.redo_inflight_request(&InflightRequests::Headers, &broken),
        Err(WireError::Chain(ChainError(3)))
    );
}

#[test]
fn late_answers_are_asked_from_others() {
    let mut node = setup_node();
    let mut other = peer(regular(), NONE);
    other.message_time = Some(1);
    node.common.peers.insert(1, peer(regular(), NONE));
    node.common.peers.insert(2, other);
    node.common
        .inflight
        .insert(InflightRequests::Headers, (1, Instant(0)));
    node.common
        .inflight
        .insert(InflightRequests::Blocks(hash(3)), (1, Instant(0)));

    // sixty seconds are allowed
    let in_time = Instant(61 * SECOND - 1);
    assert_eq!(node.process_all(&Cause::Late, &chain(), in_time), Ok(vec![]));
    assert!(node.common.outbox.is_empty());

    let late = Instant(61 * SECOND);
    assert_eq!(
        node.process_all(&Cause::Late, &chain(), late),
        Ok(vec![InflightRequests::Blocks(hash(3))])
    );
    assert_eq!(node.common.inflight.get(InflightRequests::Headers), Some((2, late)));
    assert_eq!(node.peer(1).unwrap().banscore, 1);
    assert_eq!(
        node.expire_request(&InflightRequests::Blocks(hash(3)), &chain(), late),
        Ok(Redo::RequestBlock(hash(3)))
    );
    assert_eq!(node.peer(1).unwrap().banscore, 2);
    assert!(node.check_for_timeout(&chain()).unwrap().is_empty());
}

#[test]
fn late_feelers_are_closed_whatever_they_were_asked() {
    let late = Instant(61 * SECOND);
    let block = |byte: u8| InflightRequests::Blocks(hash(byte));
    let requests = [
        block(3),
        InflightRequests::Headers,
        InflightRequests::GetAddresses,
        InflightRequests::GetFilters,
    ];
    for request in requests {
        let mut node = setup_node();
        node.common.peers.insert(1, peer(ConnectionKind::Feeler, NONE));
        node.common.peers.insert(2, peer(regular(), NONE));
        node.common.inflight.insert(request, (1, Instant(0)));
        assert_eq!(node.process_all(&Cause::Late, &chain(), late), Ok(vec![]));
        assert!(node.common.inflight.entries.is_empty());
        assert!(node.peer(1).is_none());
        assert_eq!(node.peer(2).unwrap().banscore, 0);
        assert_eq!(node.common.outbox, vec![(1, NodeRequest::Shutdown)]);
    }

    // the first of two requests closes the feeler; the block of the other is asked from others
    let mut node = setup_node();
    node.common.peers.insert(1, peer(ConnectionKind::Feeler, NONE));
    node.common.inflight.insert(block(3), (1, Instant(0)));
    node.common.inflight.insert(block(4), (1, Instant(0)));
    let left = node.process_all(&Cause::Late, &chain(), late).unwrap();
    assert_eq!(left.len(), 1);
    assert!(node.peer(1).is_none());
    assert_eq!(node.common.outbox.len(), 1);
    assert_eq!(node.common.inflight.keys(), left);

    // a feeler that cannot be told stops it
    let mut stuck = peer(ConnectionKind::Feeler, NONE);
    stuck.takes_requests = false;
    let mut node = setup_node();
    node.common.peers.insert(1, stuck);
    node.common.inflight.insert(block(3), (1, Instant(0)));
    assert_eq!(
        node.process_all(&Cause::Late, &chain(), late),
        Err(WireError::ChannelSend)
    );
}

#[test]
fn block_requests_are_kept_where_asking_fails() {
    let mut node = setup_node();
    let request = InflightRequests::Blocks(hash(3));
    node.common.peers.insert(1, peer(regular(), NONE));
    node.common.inflight.insert(request, (1, Instant(7)));
    let late = Instant(100 * SECOND);
    assert_eq!(
        node.process_all(&Cause::Late, &chain(), late),
        Ok(vec![request])
    );
    assert_eq!(
        node.expire_request(&request, &chain(), late),
        Ok(Redo::RequestBlock(hash(3)))
    );
    assert!(!node.common.inflight.contains_key(request));
    assert_eq!(
        node.settle_block_request(request, (1, Instant(7)), Err(WireError::NoPeersAvailable)),
        Err(WireError::NoPeersAvailable)
    );
    assert_eq!(node.common.inflight.get(request), Some((1, Instant(7))));

    assert_eq!(node.take_request(&request), Some((1, Instant(7))));
    assert_eq!(node.take_request(&request), None);
    assert_eq!(node.settle_block_request(request, (1, Instant(7)), Ok(())), Ok(()));
    assert!(!node.common.inflight.contains_key(request));
}

#[test]
fn the_peer_drawn_is_the_one_at_the_position() {
    assert_eq!(drawn_peer(&vec![4, 7, 9], Some(1)), Some(7));
    assert_eq!(drawn_peer(&vec![4, 7, 9], Some(2)), Some(9));
    assert_eq!(drawn_peer(&vec![4, 7, 9], Some(3)), None);
    assert_eq!(drawn_peer(&vec![4], None), None);
}

#[test]
fn late_requests_are_kept_when_nobody_can_be_asked() {
    let mut node = setup_node();
    node.common.peers.insert(1, peer(regular(), NONE));
    node.common
        .inflight
        .insert(InflightRequests::Headers, (1, Instant(0)));
    assert_eq!(
        node.process_all(&Cause::Late, &chain(), Instant(100 * SECOND)),
        Err(WireError::NoPeersAvailable)
    );
    assert_eq!(node.common.inflight.get(InflightRequests::Headers), Some((1, Instant(0))));
}

#[test]
fn connections_that_take_too_long_are_closed() {
    let mut node = setup_node();
    let mut awaiting = peer(regular(), NONE);
    awaiting.state = PeerStatus::Awaiting;
    node.common.peers.insert(1, awaiting);
    node.common.peers.insert(2, peer(ConnectionKind::Feeler, NONE));
    node.common
        .inflight
        .insert(InflightRequests::Connect(1), (1, Instant(0)));
    node.common
        .inflight
        .insert(InflightRequests::GetAddresses, (2, Instant(0)));
    // ten seconds are allowed for a connection
    assert_eq!(
        node.process_all(&Cause::Late, &chain(), Instant(11 * SECOND)),
        Ok(vec![])
    );
    assert!(node.peer(1).is_none());
    assert!(node.peer(2).is_some());
    assert!(node.common.outbox.is_empty());
    assert_eq!(
        node.process_all(&Cause::Late, &chain(), Instant(61 * SECOND)),
        Ok(vec![])
    );
    assert!(node.peer(2).is_none());
    assert_eq!(node.common.outbox, vec![(2, NodeRequest::Shutdown)]);
    assert_eq!(node.begin_expiry(&InflightRequests::Headers), Ok(Expiry::Settled));

    let mut stuck = peer(ConnectionKind::Feeler, NONE);
    stuck.takes_requests = false;
    node.common.peers.insert(3, stuck);
    node.common
        .inflight
        .insert(InflightRequests::Headers, (3, Instant(0)));
    assert_eq!(
        node.begin_expiry(&InflightRequests::Headers),
        Err(WireError::ChannelSend)
    );
}

#[test]
fn missing_things_are_answered_with_none() {
    let mut node = setup_node();
    let block = UserRequest::Block(hash(1));
    let tx = UserRequest::MempoolTransaction(Txid([2; 32]));
    node.common.inflight_user_requests.insert(block, waiting(10));
    node.common.inflight_user_requests.insert(tx, waiting(11));
    assert_eq!(node.handle_notfound_msg(Inventory::Error), Ok(()));
    assert_eq!(node.handle_notfound_msg(Inventory::WTx([2; 32])), Ok(()));
    assert_eq!(node.handle_notfound_msg(Inventory::CompactBlock(hash(1))), Ok(()));
    assert_eq!(node.handle_notfound_msg(Inventory::WitnessTransaction(Txid([2; 32]))), Ok(()));
    assert_eq!(
        node.common.responses,
        vec![
            (10, NodeResponse::Block(None)),
            (11, NodeResponse::MempoolTransaction(None))
        ]
    );
    // answered once
    assert_eq!(node.handle_notfound_msg(Inventory::Block(hash(1))), Ok(()));
    assert_eq!(node.common.responses.len(), 2);

    let mut deaf = waiting(12);
    deaf.listening = false;
    node.common.inflight_user_requests.insert(block, deaf);
    assert_eq!(
        node.handle_notfound_msg(Inventory::WitnessBlock(hash(1))),
        Err(WireError::ResponseSendError)
    );
    assert!(!node.common.inflight_user_requests.contains_key(block));
}

/// The smallest transaction: one input, one output, nothing in their scripts.
fn raw_tx() -> Vec<u8> {
    let mut raw = vec![1, 0, 0, 0, 1];
    raw.extend_from_slice(&[0; 36]);
    raw.extend_from_slice(&[0, 0xff, 0xff, 0xff, 0xff, 1]);
    raw.extend_from_slice(&[0; 8]);
    raw.push(0);
    raw.extend_from_slice(&[0; 4]);
    raw
}

#[test]
fn transactions_answer_by_their_hash() {
    let raw = raw_tx();
    let decoded: bitcoin::Transaction = bitcoin::consensus::deserialize(&raw).unwrap();
    let txid = *bitcoin::hashes::Hash::as_byte_array(&decoded.compute_txid());
    let tx = Transaction::from_bytes(raw.clone()).unwrap();
    assert_eq!(tx.compute_txid(), Txid(txid));
    assert_eq!(tx.as_bytes(), &raw);
    assert!(Transaction::from_bytes(vec![1, 2, 3]).is_none());

    let mut node = setup_node();
    let request = UserRequest::MempoolTransaction(Txid(txid));
    node.common.inflight_user_requests.insert(request, waiting(4));
    assert_eq!(node.handle_tx_msg(tx), Ok(()));
    assert_eq!(
        node.common.responses,
        vec![(4, NodeResponse::MempoolTransaction(Transaction::from_bytes(raw.clone())))]
    );
    assert_eq!(node.handle_tx_msg(Transaction::from_bytes(raw).unwrap()), Ok(()));
    assert_eq!(node.common.responses.len(), 1);
}

#[test]
fn common_messages_are_dealt_with_at_once() {
    let mut node = setup_node();
    node.common.peers.insert(1, peer(regular(), NONE));
    assert_eq!(
        node.handle_peer_msg_common(PeerMessages::UtreexoState(vec![1]), 1),
        Ok(None)
    );
    assert_eq!(node.peer(1).unwrap().banscore, 5);
    assert_eq!(
        node.handle_peer_msg_common(PeerMessages::Other(vec![7]), 1),
        Ok(Some(PeerMessages::Other(vec![7])))
    );
    assert_eq!(
        node.handle_peer_msg_common(PeerMessages::NotFound(Inventory::Error), 1),
        Ok(None)
    );

    let headers = || CFHeaders {
        filter_type: 0,
        stop_hash: hash(5),
        previous_filter_header: [0; 32],
        filter_hashes: vec![[3; 32]],
    };
    assert_eq!(
        node.handle_peer_msg_common(PeerMessages::CFHeaders(headers()), 1),
        Ok(None)
    );
    assert_eq!(node.peer(1).unwrap().banscore, 10);
    let request = UserRequest::GetCFilterHeaders {
        start_height: 3,
        stop_hash: hash(5),
    };
    node.common.inflight_user_requests.insert(request, waiting(6));
    assert_eq!(
        node.handle_peer_msg_common(PeerMessages::CFHeaders(headers()), 1),
        Ok(None)
    );
    assert_eq!(node.peer(1).unwrap().banscore, 10);
    assert_eq!(
        node.common.responses,
        vec![(6, NodeResponse::CFilterHeaders(headers()))]
    );
}

#[test]
fn addresses_of_peers_are_kept() {
    let mut node = setup_node();
    node.common.peers.insert(1, peer(ConnectionKind::Feeler, NONE));
    node.common
        .inflight
        .insert(InflightRequests::GetAddresses, (1, Instant(0)));
    let message = AddrV2Message {
        time: 77,
        services: ServiceFlags(NETWORK_LIMITED | WITNESS),
        addr: AddrV2::Ipv4([12, 146, 182, 45]),
        port: 8333,
    };
    assert_eq!(
        node.handle_peer_msg_common(PeerMessages::Addr(vec![message]), 1),
        Ok(None)
    );
    assert!(!node.common.inflight.contains_key(InflightRequests::GetAddresses));
    assert_eq!(node.common.address_man.addresses.len(), 2);
    assert!(node
        .common
        .address_man
        .addresses
        .values()
        .any(|a| a.last_connected == 77 && a.state == AddressState::NeverTried));
    // a feeler has done its work
    assert_eq!(node.common.outbox, vec![(1, NodeRequest::Shutdown)]);
    assert_eq!(node.handle_addresses_from_peer(2, vec![]), Ok(()));
    assert_eq!(node.common.outbox.len(), 1);
}

#[test]
fn answers_are_timed() {
    let mut node = setup_node();
    node.common
        .inflight
        .insert(InflightRequests::Headers, (1, Instant(100)));
    node.common
        .inflight
        .insert(InflightRequests::Connect(1), (1, Instant(200)));
    let read_at = Instant(1_000);
    let time = |node: &UtreexoNode, msg: PeerMessages| node.register_message_time(&msg, 1, read_at);
    assert_eq!(time(&node, PeerMessages::Headers(vec![])), Some(900));
    assert_eq!(time(&node, PeerMessages::Ready(version(1, regular(), NONE))), Some(800));
    assert_eq!(time(&node, PeerMessages::UtreexoState(vec![])), None);
    assert_eq!(time(&node, PeerMessages::BlockFilter((hash(1), vec![]))), None);
    assert_eq!(time(&node, PeerMessages::Other(vec![])), None);

    let genesis = bitcoin::constants::genesis_block(bitcoin::Network::Regtest);
    let raw = bitcoin::consensus::serialize(&genesis);
    let block_hash = *bitcoin::hashes::Hash::as_byte_array(&genesis.block_hash());
    let block = Block::from_bytes(raw.clone()).unwrap();
    assert_eq!(block.block_hash(), BlockHash(block_hash));
    assert!(Block::from_bytes(vec![0]).is_none());
    assert_eq!(time(&node, PeerMessages::Block(block)), None);
    node.common
        .inflight
        .insert(InflightRequests::Blocks(BlockHash(block_hash)), (1, Instant(400)));
    assert_eq!(
        time(&node, PeerMessages::Block(Block::from_bytes(raw).unwrap())),
        Some(600)
    );

    node.common.peers.insert(1, peer(regular(), NONE));
    node.record_latency(1, 900);
    node.record_latency(2, 900);
    assert_eq!(node.peer(1).unwrap().message_time, Some(900));
}

#[test]
fn added_nodes_are_listed_once() {
    let mut node = setup_node();
    let socket = BitcoinSocketAddr::new(AddrV2::Ipv4([12, 146, 182, 45]), 8333);
    assert_eq!(node.handle_addnode_add_peer(socket.clone(), true), Ok(()));
    assert_eq!(node.common.added_peers.len(), 1);
    assert!(!node.common.added_peers[0].v1_fallback);
    assert!(node.common.address_man.knows(&socket));
    let refused = node.handle_addnode_add_peer(socket.clone(), false);
    assert!(
        matches!(refused, Err(WireError::PeerAlreadyExists(ref a)) if a.address == socket
            && a.get_services() == ServiceFlags(NETWORK_LIMITED | WITNESS))
    );
    assert_eq!(node.common.added_peers.len(), 1);

    assert_eq!(node.handle_addnode_remove_peer(socket.clone()), Ok(()));
    assert!(node.common.added_peers.is_empty());
    assert_eq!(
        node.handle_addnode_remove_peer(socket.clone()),
        Err(WireError::PeerNotFoundAtAddress(socket))
    );
}

#[test]
fn one_try_connections_are_not_listed() {
    let mut node = setup_node();
    let socket = BitcoinSocketAddr::new(AddrV2::Ipv4([12, 146, 182, 45]), 8333);
    let connection = node.handle_addnode_onetry_peer(socket.clone(), false).unwrap();
    assert_eq!(connection.kind, ConnectionKind::Manual);
    assert_eq!(connection.address.address, socket);
    assert!(connection.allow_v1_fallback);
    assert!(node.common.added_peers.is_empty());
    assert!(node.common.address_man.knows(&socket));

    let mut data = peer(regular(), NONE);
    data.address = LocalAddress::from(socket.clone());
    node.common.peers.insert(3, data);
    assert!(matches!(
        node.handle_addnode_onetry_peer(socket.clone(), true),
        Err(WireError::PeerAlreadyExists(_))
    ));

    assert_eq!(node.handle_disconnect_peer(socket), Ok(()));
    assert_eq!(node.common.outbox, vec![(3, NodeRequest::Shutdown)]);
    let other = BitcoinSocketAddr::new(AddrV2::Ipv4([12, 146, 182, 46]), 8333);
    assert_eq!(
        node.handle_disconnect_peer(other.clone()),
        Err(WireError::PeerNotFoundAtAddress(other))
    );
}

#[test]
fn peers_are_shown_to_the_user() {
    let mut node = setup_node();
    node.common.peers.insert(3, peer(regular(), 0xc08));
    let info = node.get_peer_info(&3, vec![String::from("WITNESS")]).unwrap();
    assert_eq!(info.id, 3);
    assert_eq!(info.services, "0000000000000c08");
    assert_eq!(info.services_names, vec!["WITNESS"]);
    assert_eq!(info.user_agent, "/test:0.1/");
    assert_eq!(info.address, utreexo_address().address);
    assert_eq!(info.state, PeerStatus::Ready);
    assert!(!info.inbound && !info.relay_txs && info.permissions.is_empty());
    assert!(node.get_peer_info(&4, vec![]).is_none());
}

#[test]
fn shutting_down_tells_all_peers() {
    let mut node = setup_node();
    for id in 1..=3 {
        node.common.peers.insert(id, peer(regular(), NONE));
    }
    node.common.peers.get_mut(&2).unwrap().takes_requests = false;
    node.common.peer_ids = vec![1, 2, 3];
    let dbs = node.shutdown();
    assert_eq!(
        node.common.outbox,
        vec![(1, NodeRequest::Shutdown), (3, NodeRequest::Shutdown)]
    );
    assert_eq!(dbs.peers.len(), 1);
    assert!(dbs.anchors.is_none());
}

#[test]
fn peers_are_saved_from_time_to_time() {
    let mut node = setup_node();
    node.common.last_peer_db_dump = Instant(5);
    let due = 30 * SECOND + 5;
    assert!(node.common_periodic_jobs_at(Instant(due)).is_none());
    assert!(node.common_periodic_jobs_at(Instant(due + 1)).is_some());
    assert_eq!(node.common.last_peer_db_dump, Instant(due + 1));
    assert!(node.common_periodic_jobs_at(Instant(due + 2)).is_none());
    assert!(setup_node().common_periodic_jobs().is_none());
}

#[test]
fn kinds_have_names() {
    assert_eq!(ConnectionKind::Feeler.name(), "feeler");
    assert_eq!(regular().name(), "regular");
    assert_eq!(ConnectionKind::Extra.name(), "extra");
    assert_eq!(ConnectionKind::Manual.name(), "manual");
}
