use taiga::mycelium::{Mycelium, OnionPlan};
use taiga::types::{FreedomLevel, NodeStatus, RouteUpdate, TreeInfo};

fn info(id: u128, key: Vec<u8>) -> TreeInfo {
    TreeInfo { id, status: NodeStatus::Tree, public_key: key, freedom: FreedomLevel::Isolated, is_virtual_uplink: false }
}

#[test]
fn new_node_is_isolated() {
    let m = Mycelium::new(7, NodeStatus::Clearing);
    assert_eq!(m.local_info.id, 7);
    assert_eq!(m.local_info.status, NodeStatus::Clearing);
    assert_eq!(m.local_info.freedom, FreedomLevel::Isolated);
    assert_eq!(m.local_info.public_key, m.crypto.public_key.to_vec());
    assert!(m.routing_table.entries.is_empty());
    assert!(m.get_local_routes().is_empty());
}

#[test]
fn discovery_feeds_routes_and_known_nodes() {
    let mut m = Mycelium::new(1, NodeStatus::Tree);
    let route = RouteUpdate { target_info: info(3, vec![3; 32]), path: vec![3] };
    m.absorb_discovery(info(2, vec![2; 32]), &[route]);
    assert_eq!(m.known_nodes.len(), 1);
    assert_eq!(m.routing_table.get_path(&3), Some(vec![2, 3]));
    assert_eq!(m.get_local_routes().len(), 2);
}

#[test]
fn bark_rotation_forgets_everything() {
    let mut m = Mycelium::new(1, NodeStatus::Tree);
    let old_key = m.crypto.public_key;
    m.absorb_discovery(info(2, vec![2; 32]), &[]);
    let announced = m.rotate_bark();
    assert_ne!(announced.id, 1);
    assert_ne!(m.crypto.public_key, old_key);
    assert_eq!(announced.public_key, m.crypto.public_key.to_vec());
    assert!(m.known_nodes.is_empty());
    assert!(m.routing_table.entries.is_empty());
    assert!(m.neighbors.is_empty());
}

#[test]
fn onion_plan_seals_from_the_target_back() {
    let mut m = Mycelium::new(1, NodeStatus::Tree);
    let route = RouteUpdate { target_info: info(3, vec![3; 32]), path: vec![3] };
    m.absorb_discovery(info(2, vec![2; 32]), &[route]);
    m.known_nodes.insert(3, info(3, vec![3; 32]));
    assert!(m.path_keys_fit(&3));
    let plan: OnionPlan = m.plan_onion_route(&3).unwrap();
    assert_eq!(plan.first_hop, 2);
    assert_eq!(plan.seals.len(), 2);
    assert_eq!(plan.seals[0].key, [3u8; 32]);
    assert_eq!(plan.seals[0].wrap_for, Some(3));
    assert_eq!(plan.seals[1].key, [2u8; 32]);
    assert_eq!(plan.seals[1].wrap_for, None);
}

#[test]
fn onion_plan_errors() {
    let mut m = Mycelium::new(1, NodeStatus::Tree);
    assert_eq!(m.plan_onion_route(&9).unwrap_err(), "Маршрут не найден");
    let route = RouteUpdate { target_info: info(3, vec![3; 32]), path: vec![3] };
    m.absorb_discovery(info(2, vec![2; 32]), &[route]);
    // node 3 is on the route but was never met directly
    assert_eq!(m.plan_onion_route(&3).unwrap_err(), "Неизвестный узел в маршруте");
}

#[test]
fn short_keys_are_detected() {
    let mut m = Mycelium::new(1, NodeStatus::Tree);
    m.absorb_discovery(info(2, vec![]), &[]);
    assert!(!m.path_keys_fit(&2));
    assert!(m.path_keys_fit(&5));
}

#[test]
fn short_key_behind_an_unknown_node_is_never_reached() {
    let mut m = Mycelium::new(1, NodeStatus::Tree);
    let route = RouteUpdate { target_info: info(3, vec![3; 32]), path: vec![3] };
    m.absorb_discovery(info(2, vec![2; 5]), &[route]);
    assert!(m.path_keys_fit(&3));
    assert_eq!(m.plan_onion_route(&3).unwrap_err(), "Неизвестный узел в маршруте");
}

#[test]
fn bark_rotation_to_a_given_identity() {
    let mut m = Mycelium::new(1, NodeStatus::Tree);
    m.absorb_discovery(info(2, vec![2; 32]), &[]);
    let announced = m.rotate_bark_to(42, [5u8; 32]);
    assert_eq!(announced.id, 42);
    assert_eq!(m.local_info.id, 42);
    assert_eq!(announced.public_key, taiga::crypto::CryptoModule::from_secret([5u8; 32]).public_key.to_vec());
    assert!(m.known_nodes.is_empty());
    assert!(m.routing_table.entries.is_empty());
}
