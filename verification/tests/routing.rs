use taiga::routing::{pick_exit_node, RoutingTable};
use taiga::types::{FreedomLevel, NodeStatus, RouteUpdate, TreeInfo};
use uuid::Uuid;

fn info(id: u128, status: NodeStatus, freedom: FreedomLevel) -> TreeInfo {
    TreeInfo { id, status, public_key: vec![], freedom, is_virtual_uplink: false }
}

#[test]
fn test_routing_table() {
    let mut table = RoutingTable::new();
    let local_id = Uuid::new_v4().as_u128();

    let neighbor_id = Uuid::new_v4().as_u128();
    let neighbor_info = TreeInfo {
        id: neighbor_id,
        status: NodeStatus::Tree,
        public_key: vec![],
        freedom: FreedomLevel::Isolated,
        is_virtual_uplink: false,
    };

    let target_id = Uuid::new_v4().as_u128();
    let routes = vec![RouteUpdate {
        target_info: TreeInfo {
            id: target_id,
            status: NodeStatus::Tree,
            public_key: vec![],
            freedom: FreedomLevel::Isolated,
            is_virtual_uplink: false,
        },
        path: vec![neighbor_id, target_id],
    }];

    table.update_from_neighbor(local_id, neighbor_info, &routes);

    let neighbor_hop = table.get_next_hop(&neighbor_id).unwrap();
    assert_eq!(neighbor_hop, neighbor_id);

    let next_hop_target = table.get_next_hop(&target_id).unwrap();
    assert_eq!(next_hop_target, neighbor_id);

    let path = table.get_path(&target_id).unwrap();
    assert_eq!(path.len(), 3);
    assert_eq!(path[0], neighbor_id);
    assert_eq!(path[1], neighbor_id);
    assert_eq!(path[2], target_id);
}

#[test]
fn test_freedom_level_priority() {
    let mut table = RoutingTable::new();
    let local_id = Uuid::new_v4().as_u128();
    let target_id = Uuid::new_v4().as_u128();

    let neighbor_1 = Uuid::new_v4().as_u128();
    let neighbor_2 = Uuid::new_v4().as_u128();

    let n1_info = TreeInfo {
        id: neighbor_1, status: NodeStatus::Tree, public_key: vec![], freedom: FreedomLevel::Isolated,
        is_virtual_uplink: false,
    };
    let routes_1 = vec![RouteUpdate {
        target_info: TreeInfo { id: target_id, status: NodeStatus::Tree, public_key: vec![], freedom: FreedomLevel::Isolated, is_virtual_uplink: false },
        path: vec![neighbor_1, target_id],
    }];
    table.update_from_neighbor(local_id, n1_info, &routes_1);
    assert_eq!(table.get_next_hop(&target_id), Some(neighbor_1));

    let n2_info = TreeInfo {
        id: neighbor_2, status: NodeStatus::Ranger, public_key: vec![], freedom: FreedomLevel::Full,
        is_virtual_uplink: false,
    };
    let routes_2 = vec![RouteUpdate {
        target_info: TreeInfo { id: target_id, status: NodeStatus::Ranger, public_key: vec![], freedom: FreedomLevel::Full, is_virtual_uplink: false },
        path: vec![neighbor_2, Uuid::new_v4().as_u128(), target_id],
    }];
    table.update_from_neighbor(local_id, n2_info, &routes_2);

    assert_eq!(table.get_next_hop(&target_id), Some(neighbor_2));
}

#[test]
fn routes_through_the_local_node_are_ignored() {
    let mut table = RoutingTable::new();
    let local = 1u128;
    let neighbor = 2u128;
    let looped_target = 3u128;
    let routes = vec![
        // passes through the local node
        RouteUpdate {
            target_info: info(looped_target, NodeStatus::Tree, FreedomLevel::Full),
            path: vec![local, looped_target],
        },
        // targets the local node
        RouteUpdate {
            target_info: info(local, NodeStatus::Tree, FreedomLevel::Full),
            path: vec![local],
        },
    ];
    table.update_from_neighbor(local, info(neighbor, NodeStatus::Tree, FreedomLevel::Isolated), &routes);
    assert_eq!(table.entries.len(), 1);
    assert_eq!(table.get_path(&looped_target), None);
    assert_eq!(table.get_path(&local), None);
    assert_eq!(table.get_path(&neighbor), Some(vec![neighbor]));
}

#[test]
fn equal_freedom_prefers_the_shorter_route() {
    let mut table = RoutingTable::new();
    let local = 10u128;
    let target = 20u128;
    let routes_long = vec![RouteUpdate {
        target_info: info(target, NodeStatus::Clearing, FreedomLevel::Normal),
        path: vec![31, 32, target],
    }];
    table.update_from_neighbor(local, info(30, NodeStatus::Tree, FreedomLevel::Isolated), &routes_long);
    assert_eq!(table.get_path(&target), Some(vec![30, 31, 32, target]));

    let routes_short = vec![RouteUpdate {
        target_info: info(target, NodeStatus::Clearing, FreedomLevel::Normal),
        path: vec![target],
    }];
    table.update_from_neighbor(local, info(40, NodeStatus::Tree, FreedomLevel::Isolated), &routes_short);
    assert_eq!(table.get_path(&target), Some(vec![40, target]));

    // A longer one with the same freedom does not replace it.
    table.update_from_neighbor(local, info(50, NodeStatus::Tree, FreedomLevel::Isolated), &routes_long);
    assert_eq!(table.get_next_hop(&target), Some(40));

    // A less free one does not either, even if shorter.
    let routes_worse = vec![RouteUpdate {
        target_info: info(target, NodeStatus::Tree, FreedomLevel::WhitelistOnly),
        path: vec![target],
    }];
    table.update_from_neighbor(local, info(60, NodeStatus::Tree, FreedomLevel::Isolated), &routes_worse);
    assert_eq!(table.get_next_hop(&target), Some(40));
    assert_eq!(table.get_info(&target).unwrap().freedom, FreedomLevel::Normal);
}

#[test]
fn unknown_targets_have_no_route() {
    let table = RoutingTable::new();
    assert_eq!(table.get_next_hop(&7), None);
    assert_eq!(table.get_path(&7), None);
    assert!(table.get_info(&7).is_none());
}

#[test]
fn best_exit_weighs_freedom_against_distance() {
    let mut table = RoutingTable::new();
    let local = 1u128;
    // Full at 5 hops scores 34 - 5 = 29; Normal as a neighbour scores 30 - 1 = 29.
    let far_full = RouteUpdate {
        target_info: info(100, NodeStatus::Clearing, FreedomLevel::Full),
        path: vec![91, 92, 93, 100],
    };
    table.update_from_neighbor(local, info(90, NodeStatus::Tree, FreedomLevel::Isolated), &[far_full]);
    table.update_from_neighbor(local, info(200, NodeStatus::Clearing, FreedomLevel::Normal), &[]);
    let mut best = table.best_exit_nodes();
    best.sort();
    assert_eq!(best, vec![100, 200]);
    let chosen = table.select_exit_node().unwrap();
    assert!(chosen == 100 || chosen == 200);
}

#[test]
fn pick_exit_node_uses_the_random_index() {
    assert_eq!(pick_exit_node(&vec![], 5), None);
    assert_eq!(pick_exit_node(&vec![7, 8, 9], 5), Some(9));
    assert_eq!(pick_exit_node(&vec![7, 8, 9], 3), Some(7));
}

#[test]
fn no_exit_without_routes() {
    let table = RoutingTable::new();
    assert!(table.best_exit_nodes().is_empty());
    assert_eq!(table.select_exit_node(), None);
}

#[test]
fn freedom_rank_follows_the_order() {
    assert_eq!(FreedomLevel::Isolated.rank(), 0);
    assert_eq!(FreedomLevel::WhitelistOnly.rank(), 1);
    assert_eq!(FreedomLevel::Normal.rank(), 2);
    assert_eq!(FreedomLevel::Full.rank(), 3);
    assert!(FreedomLevel::Full > FreedomLevel::Normal);
}

#[test]
fn virtual_uplink_loses_to_a_physical_one() {
    let mut table = RoutingTable::new();
    let mut a = info(10, NodeStatus::Clearing, FreedomLevel::Full);
    a.is_virtual_uplink = true;
    let b = info(11, NodeStatus::Clearing, FreedomLevel::Full);
    table.update_from_neighbor(1, a, &[]);
    table.update_from_neighbor(1, b, &[]);
    assert_eq!(table.best_exit_nodes(), vec![11]);
    assert_eq!(table.select_exit_node(), Some(11));
}

#[test]
fn virtual_uplink_costs_ten_hops() {
    assert_eq!(taiga::routing::VIRTUAL_UPLINK_PENALTY, 10);
    let mut table = RoutingTable::new();
    let mut near = info(10, NodeStatus::Clearing, FreedomLevel::Full);
    near.is_virtual_uplink = true;
    table.update_from_neighbor(1, near, &[]);
    // A physical Normal exit two hops away: 30 - 2 = 28 beats 34 - 1 - 10 = 23.
    let far = RouteUpdate { target_info: info(12, NodeStatus::Clearing, FreedomLevel::Normal), path: vec![12] };
    table.update_from_neighbor(1, info(2, NodeStatus::Tree, FreedomLevel::Isolated), &[far]);
    assert_eq!(table.best_exit_nodes(), vec![12]);
}

#[test]
fn earliest_of_equal_candidates_is_kept() {
    let mut table = RoutingTable::new();
    let first = RouteUpdate { target_info: info(5, NodeStatus::Tree, FreedomLevel::Normal), path: vec![3, 5] };
    let second = RouteUpdate { target_info: info(5, NodeStatus::Tree, FreedomLevel::Normal), path: vec![4, 5] };
    let freer = RouteUpdate { target_info: info(6, NodeStatus::Tree, FreedomLevel::Full), path: vec![3, 4, 6] };
    let weaker = RouteUpdate { target_info: info(6, NodeStatus::Tree, FreedomLevel::Normal), path: vec![6] };
    table.update_from_neighbor(1, info(2, NodeStatus::Tree, FreedomLevel::Isolated), &[first, second, freer, weaker]);
    assert_eq!(table.get_path(&5), Some(vec![2, 3, 5]));
    assert_eq!(table.get_path(&6), Some(vec![2, 3, 4, 6]));
}
