use std::str::FromStr;
use taiga::resin::{split_into_needles, split_into_needles_with_id, ResinAssembler};
use taiga::types::Needle;
use uuid::Uuid;

#[test]
fn test_split_and_assemble() {
    let target = Uuid::from_str("00000000-0000-0000-0000-000000000001").unwrap().as_u128();
    let message = b"Hello, this is a very long message that should be split into multiple needles by Taiga Resin!";

    let mut needles = split_into_needles(message, target, 10);
    assert!(needles.len() > 1);

    let mut assembler = ResinAssembler::new();
    let mut result = None;

    needles.reverse();

    for needle in needles {
        result = assembler.receive_needle(needle);
    }

    assert!(result.is_some());

    let assembled_message = result.unwrap();
    assert_eq!(message.to_vec(), assembled_message);

    assert!(assembler.active_cones.is_empty());
}

#[test]
fn split_gives_numbered_chunks() {
    let needles = split_into_needles_with_id(b"abcdefghij", 5, 4, 77);
    assert_eq!(needles.len(), 3);
    let payloads: Vec<Vec<u8>> = needles.iter().map(|n| n.payload.clone()).collect();
    assert_eq!(payloads, vec![b"abcd".to_vec(), b"efgh".to_vec(), b"ij".to_vec()]);
    for (i, n) in needles.iter().enumerate() {
        assert_eq!(n.sequence_number, i as u32);
        assert_eq!(n.total_needles, 3);
        assert_eq!(n.cone_id, 77);
        assert_eq!(n.target_tree, 5);
    }
}

#[test]
fn split_of_empty_payload_is_empty() {
    assert!(split_into_needles(b"", 1, 10).is_empty());
    assert!(split_into_needles(b"", 1, 0).is_empty());
}

#[test]
fn split_uses_one_cone_id() {
    let needles = split_into_needles(&[1u8; 25], 9, 10);
    assert_eq!(needles.len(), 3);
    assert!(needles.iter().all(|n| n.cone_id == needles[0].cone_id));
}

#[test]
fn exact_multiple_gives_full_chunks() {
    let needles = split_into_needles_with_id(&[7u8; 20], 1, 10, 3);
    assert_eq!(needles.len(), 2);
    assert!(needles.iter().all(|n| n.payload.len() == 10));
}

#[test]
fn assembly_in_shuffled_order_with_duplicates() {
    let payload: Vec<u8> = (0..100u8).collect();
    let needles = split_into_needles_with_id(&payload, 2, 7, 55);
    let n = needles.len();
    let mut assembler = ResinAssembler::new();
    // Deliver odd positions, one duplicate, then even positions.
    let mut order: Vec<usize> = (0..n).filter(|i| i % 2 == 1).collect();
    order.push(1);
    order.extend((0..n).filter(|i| i % 2 == 0));
    let mut outputs = Vec::new();
    for i in order {
        outputs.push(assembler.receive_needle(needles[i].clone()));
    }
    let last = outputs.pop().unwrap();
    assert!(outputs.iter().all(|o| o.is_none()));
    assert_eq!(last, Some(payload));
    assert!(assembler.active_cones.is_empty());
}

#[test]
fn single_needle_cone_completes_at_once() {
    let mut assembler = ResinAssembler::new();
    let needle = Needle { cone_id: 9, sequence_number: 0, total_needles: 1, payload: b"hi".to_vec(), target_tree: 1 };
    assert_eq!(assembler.receive_needle(needle), Some(b"hi".to_vec()));
    assert!(assembler.active_cones.is_empty());
}

#[test]
fn stray_sequence_number_keeps_the_cone_pending() {
    let mut assembler = ResinAssembler::new();
    // Two needles of a two-needle cone, but numbered 0 and 5: full count, piece 1 missing.
    let a = Needle { cone_id: 4, sequence_number: 0, total_needles: 2, payload: vec![1], target_tree: 1 };
    let b = Needle { cone_id: 4, sequence_number: 5, total_needles: 2, payload: vec![2], target_tree: 1 };
    assert_eq!(assembler.receive_needle(a), None);
    assert_eq!(assembler.receive_needle(b), None);
    assert_eq!(assembler.active_cones.len(), 1);
    assert_eq!(assembler.active_cones[&4].chunks.len(), 2);
}

#[test]
fn cones_are_kept_apart() {
    let mut assembler = ResinAssembler::new();
    let a = split_into_needles_with_id(b"first message", 1, 5, 1);
    let b = split_into_needles_with_id(b"second one", 1, 5, 2);
    assert_eq!(assembler.receive_needle(a[0].clone()), None);
    assert_eq!(assembler.receive_needle(b[0].clone()), None);
    assert_eq!(assembler.receive_needle(b[1].clone()), Some(b"second one".to_vec()));
    assert_eq!(assembler.receive_needle(a[1].clone()), None);
    assert_eq!(assembler.receive_needle(a[2].clone()), Some(b"first message".to_vec()));
    assembler.clear_abandoned();
    assert!(assembler.active_cones.is_empty());
}

#[test]
fn first_copy_of_a_piece_is_kept() {
    let mut assembler = ResinAssembler::new();
    let nd = |s: u32, p: Vec<u8>| Needle { cone_id: 7, sequence_number: s, total_needles: 2, payload: p, target_tree: 1 };
    assert_eq!(assembler.receive_needle(nd(0, vec![1])), None);
    assert_eq!(assembler.receive_needle(nd(0, vec![9])), None);
    assert_eq!(assembler.receive_needle(nd(1, vec![2])), Some(vec![1, 2]));
    assert!(assembler.active_cones.is_empty());
}
