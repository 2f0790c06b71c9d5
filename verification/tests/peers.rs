use taiga::peers::{discovery_ports, scanned_neighbor_info, PeerTable};
use taiga::types::{FreedomLevel, NodeStatus, RouteUpdate, TreeInfo};

fn info(id: u128) -> TreeInfo {
    TreeInfo { id, status: NodeStatus::Tree, public_key: vec![], freedom: FreedomLevel::Isolated, is_virtual_uplink: false }
}

#[test]
fn discovery_skips_the_local_port() {
    let ports = discovery_ports(40005);
    assert_eq!(ports.len(), 20);
    assert!(!ports.contains(&40005));
    assert_eq!(ports[0], 40000);
    assert_eq!(*ports.last().unwrap(), 40020);
    assert_eq!(discovery_ports(1234).len(), 21);
}

#[test]
fn own_discovery_echo_is_ignored() {
    let mut peers = PeerTable::new();
    assert!(!peers.on_discover_request(5, 1, info(5), vec![]));
    assert!(peers.peers.is_empty());
    assert!(peers.on_discover_request(5, 1, info(6), vec![]));
    assert_eq!(peers.peers.len(), 1);
}

#[test]
fn send_links_for_broadcast_and_unicast() {
    let mut peers = PeerTable::new();
    peers.record_peer(10, info(1), vec![]);
    peers.record_peer(20, info(2), vec![]);
    let mut all = peers.send_links(0).unwrap();
    all.sort();
    assert_eq!(all, vec![10, 20]);
    assert_eq!(peers.send_links(2), Some(vec![20]));
    assert_eq!(peers.send_links(3), None);
}

#[test]
fn sender_is_found_by_link() {
    let mut peers = PeerTable::new();
    peers.record_peer(10, info(1), vec![]);
    peers.record_peer(20, info(2), vec![]);
    assert_eq!(peers.sender_of(20), 2);
    assert_eq!(peers.sender_of(30), 0);
}

#[test]
fn neighbors_report_routes() {
    let mut peers = PeerTable::new();
    let route = RouteUpdate { target_info: info(9), path: vec![1, 9] };
    peers.record_peer(10, info(1), vec![route]);
    let n = peers.neighbors();
    assert_eq!(n.len(), 1);
    assert_eq!(n[0].0.id, 1);
    assert_eq!(n[0].1[0].path, vec![1, 9]);
}

#[test]
fn refreshing_a_peer_replaces_it() {
    let mut peers = PeerTable::new();
    peers.record_peer(10, info(1), vec![]);
    peers.record_peer(11, info(1), vec![]);
    assert_eq!(peers.peers.len(), 1);
    assert_eq!(peers.send_links(1), Some(vec![11]));
}

#[test]
fn scanned_neighbor_defaults() {
    let i = scanned_neighbor_info(42);
    assert_eq!(i.id, 42);
    assert_eq!(i.status, NodeStatus::Tree);
    assert!(i.public_key.is_empty());
    assert_eq!(i.freedom, FreedomLevel::Isolated);
}
