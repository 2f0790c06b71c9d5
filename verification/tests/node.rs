use taiga::node::{exit_throttle_millis, uplink_is_virtual};
use taiga::node::{
    classify_needle, data_destination, freedom_from_probes, freedom_probe, freedom_promoted, layer_action,
    route_rows, LayerAction, NeedleDisposition, SeenNeedles, StreamSide, SEEN_NEEDLES_LIMIT,
};
use taiga::routing::RoutingTable;
use taiga::types::{FreedomLevel, NodeStatus, RouteUpdate, TreeInfo};
use taiga::ui::{push_log, LogEvent, Tab, LOG_CAPACITY};

fn info(id: u128, freedom: FreedomLevel) -> TreeInfo {
    TreeInfo { id, status: NodeStatus::Tree, public_key: vec![], freedom, is_virtual_uplink: false }
}

#[test]
fn duplicate_needles_are_dropped() {
    let mut seen = SeenNeedles::new();
    assert!(seen.first_sighting(1, 0));
    assert!(seen.first_sighting(1, 1));
    assert!(!seen.first_sighting(1, 0));
    assert!(seen.first_sighting(2, 0));
}

#[test]
fn needle_memory_resets_past_the_limit() {
    let mut seen = SeenNeedles::new();
    for i in 0..SEEN_NEEDLES_LIMIT as u32 {
        assert!(seen.first_sighting(1, i));
    }
    assert!(!seen.first_sighting(1, 0));
    // one more: the memory starts afresh
    assert!(seen.first_sighting(2, 0));
    assert!(seen.first_sighting(1, 0));
}

#[test]
fn needle_classification() {
    assert_eq!(classify_needle(0, 5), NeedleDisposition::Gossip);
    assert_eq!(classify_needle(5, 5), NeedleDisposition::Deliver);
    assert_eq!(classify_needle(6, 5), NeedleDisposition::Ignore);
}

#[test]
fn layers_follow_the_route_or_wait() {
    let mut table = RoutingTable::new();
    let route = RouteUpdate { target_info: info(3, FreedomLevel::Isolated), path: vec![3] };
    table.update_from_neighbor(1, info(2, FreedomLevel::Isolated), &[route]);
    assert_eq!(layer_action(&table, 3), LayerAction::Forward(2));
    assert_eq!(layer_action(&table, 2), LayerAction::Forward(2));
    assert_eq!(layer_action(&table, 4), LayerAction::Store);
}

#[test]
fn local_streams_take_priority() {
    assert_eq!(data_destination(true, true), Some(StreamSide::Local));
    assert_eq!(data_destination(false, true), Some(StreamSide::Exit));
    assert_eq!(data_destination(false, false), None);
}

#[test]
fn freedom_levels_from_probes() {
    assert_eq!(freedom_from_probes(false, true, true), FreedomLevel::Isolated);
    assert_eq!(freedom_from_probes(true, false, true), FreedomLevel::WhitelistOnly);
    assert_eq!(freedom_from_probes(true, true, false), FreedomLevel::Normal);
    assert_eq!(freedom_from_probes(true, true, true), FreedomLevel::Full);
    assert_eq!(freedom_probe(FreedomLevel::Isolated), Some("https://ya.ru"));
    assert_eq!(freedom_probe(FreedomLevel::WhitelistOnly), Some("https://coworking.tyuiu.ru"));
    assert_eq!(freedom_probe(FreedomLevel::Normal), Some("https://discord.com"));
    assert_eq!(freedom_probe(FreedomLevel::Full), None);
    assert_eq!(freedom_promoted(FreedomLevel::Normal), FreedomLevel::Full);
}

#[test]
fn dashboard_rows() {
    let mut table = RoutingTable::new();
    let route = RouteUpdate { target_info: info(3, FreedomLevel::Full), path: vec![3] };
    table.update_from_neighbor(1, info(2, FreedomLevel::Isolated), &[route]);
    let mut rows = route_rows(&table);
    rows.sort_by_key(|r| r.0);
    assert_eq!(rows, vec![(2, 2, 1, FreedomLevel::Isolated), (3, 2, 2, FreedomLevel::Full)]);
}

#[test]
fn journal_keeps_the_last_lines() {
    let mut logs = Vec::new();
    for i in 0..(LOG_CAPACITY + 5) {
        push_log(&mut logs, LogEvent { level: "SYSTEM".to_string(), message: format!("line {}", i) });
    }
    assert_eq!(logs.len(), LOG_CAPACITY);
    assert_eq!(logs[0].message, "line 5");
    assert_eq!(logs[LOG_CAPACITY - 1].message, format!("line {}", LOG_CAPACITY + 4));
    assert_ne!(Tab::Dashboard, Tab::Logs);
}

#[test]
fn uplink_is_virtual_without_physical_link_or_with_open_streams() {
    assert!(!uplink_is_virtual(true, 0));
    assert!(uplink_is_virtual(false, 0));
    assert!(uplink_is_virtual(true, 2));
}

#[test]
fn busy_exit_pauses_ten_milliseconds() {
    assert_eq!(exit_throttle_millis(3), 0);
    assert_eq!(exit_throttle_millis(4), 10);
    assert_eq!(exit_throttle_millis(0), 0);
}
