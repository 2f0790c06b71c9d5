use taiga::dtn::{all_expired, is_live, live_payloads, live_records, transit_record, TRANSIT_TTL_SECS};

#[test]
fn record_starts_with_big_endian_time() {
    let r = transit_record(0x0102030405060708, b"xy");
    assert_eq!(r, vec![1, 2, 3, 4, 5, 6, 7, 8, b'x', b'y']);
}

#[test]
fn ttl_is_seven_days() {
    assert_eq!(TRANSIT_TTL_SECS, 604800);
}

#[test]
fn stored_packet_comes_back_while_fresh() {
    let stored_at = 1_000_000u64;
    let r1 = transit_record(stored_at, b"transit packet 1");
    let r2 = transit_record(stored_at + 5, b"transit packet 2");
    let taken = live_payloads(stored_at + 10, &vec![r1, r2]);
    assert_eq!(taken, vec![b"transit packet 1".to_vec(), b"transit packet 2".to_vec()]);
}

#[test]
fn ttl_boundary() {
    let stored_at = 5_000u64;
    let r = transit_record(stored_at, b"p");
    assert!(is_live(stored_at + TRANSIT_TTL_SECS, &r));
    assert!(!is_live(stored_at + TRANSIT_TTL_SECS + 1, &r));
    // A time before the storage time counts as fresh.
    assert!(is_live(0, &r));
}

#[test]
fn expired_and_malformed_records_are_dropped() {
    let now = 10_000_000u64;
    let old = transit_record(now - TRANSIT_TTL_SECS - 1, b"old");
    let fresh = transit_record(now, b"fresh");
    let short = vec![1u8, 2, 3];
    let taken = live_payloads(now, &vec![old.clone(), short.clone(), fresh.clone()]);
    assert_eq!(taken, vec![b"fresh".to_vec()]);
    assert!(!all_expired(now, &vec![old.clone(), fresh]));
    assert!(all_expired(now, &vec![old, short]));
    assert!(all_expired(now, &vec![]));
}

#[test]
fn cleanup_keeps_only_live_records_unchanged() {
    let now = 10 * TRANSIT_TTL_SECS;
    let fresh = transit_record(now - 5, b"fresh");
    let stale = transit_record(now - TRANSIT_TTL_SECS - 1, b"stale");
    let edge = transit_record(now - TRANSIT_TTL_SECS, b"edge");
    let records = vec![stale.clone(), fresh.clone(), vec![1, 2], edge.clone()];
    assert_eq!(live_records(now, &records), vec![fresh, edge]);
    assert!(live_records(now, &vec![stale.clone()]).is_empty());
    assert!(all_expired(now, &vec![stale]));
}
