use vstd::prelude::*;
use crate::bytes::{spec_u64_be, spec_be_u64, push_u64_be, read_u64_be, lemma_u64_be_roundtrip};

verus! {

/// How long a transit packet is kept for an absent node: seven days.
pub const TRANSIT_TTL_SECS: u64 = 86400 * 7;

/// `a - b`, or 0 when `b > a` (what `u64::saturating_sub` gives).
pub open spec fn spec_saturating_sub(a: u64, b: u64) -> u64 {
    if a >= b {
        (a - b) as u64
    } else {
        0
    }
}

/// A stored transit record: the storage time in seconds (8 bytes, big
/// endian) followed by the packet.
pub open spec fn spec_transit_record(now: u64, payload: Seq<u8>) -> Seq<u8> {
    spec_u64_be(now) + payload
}

/// A record is still deliverable at `now`: it holds a timestamp and is at
/// most `TRANSIT_TTL_SECS` old (a timestamp in the future counts as fresh).
pub open spec fn spec_is_live(now: u64, record: Seq<u8>) -> bool {
    record.len() >= 8 && spec_saturating_sub(now, spec_be_u64(record)) <= TRANSIT_TTL_SECS
}

/// The packets of the live records, in order, without their timestamps.
pub open spec fn spec_live_payloads(now: u64, records: Seq<Seq<u8>>) -> Seq<Seq<u8>>
    decreases records.len(),
{
    if records.len() == 0 {
        seq![]
    } else {
        let rest = spec_live_payloads(now, records.drop_last());
        if spec_is_live(now, records.last()) {
            rest.push(records.last().skip(8))
        } else {
            rest
        }
    }
}

/// Views of a list of byte vectors.
pub open spec fn spec_byte_views(v: Seq<Vec<u8>>) -> Seq<Seq<u8>> {
    v.map_values(|b: Vec<u8>| b@)
}

/// The record that stores `payload` at time `now`.
pub fn transit_record(now: u64, payload: &[u8]) -> (r: Vec<u8>)
    ensures
        r@ == spec_transit_record(now, payload@),
{
    let mut stored: Vec<u8> = Vec::new();
    push_u64_be(&mut stored, now);
    let mut i: usize = 0;
    while i < payload.len()
        invariant
            i <= payload@.len(),
            stored@ =~= spec_u64_be(now) + payload@.take(i as int),
        decreases payload@.len() - i,
    {
        stored.push(payload[i]);
        i = i + 1;
        assert(stored@ =~= spec_u64_be(now) + payload@.take(i as int));
    }
    assert(payload@.take(i as int) =~= payload@);
    stored
}

/// Whether a record is still deliverable at `now`.
pub fn is_live(now: u64, record: &[u8]) -> (r: bool)
    ensures
        r == spec_is_live(now, record@),
{
    if record.len() < 8 {
        return false;
    }
    let timestamp = read_u64_be(record);
    now.saturating_sub(timestamp) <= TRANSIT_TTL_SECS
}

/// The packets of the records taken for a node that are still deliverable
/// at `now`, in order; expired or malformed records are dropped.
pub fn live_payloads(now: u64, records: &Vec<Vec<u8>>) -> (r: Vec<Vec<u8>>)
    ensures
        spec_byte_views(r@) == spec_live_payloads(now, spec_byte_views(records@)),
{
    let ghost all = spec_byte_views(records@);
    let mut packets: Vec<Vec<u8>> = Vec::new();
    let mut i: usize = 0;
    while i < records.len()
        invariant
            i <= records@.len(),
            all == spec_byte_views(records@),
            spec_byte_views(packets@) == spec_live_payloads(now, all.take(i as int)),
        decreases records@.len() - i,
    {
        let record = &records[i];
        assert(all.take(i + 1).drop_last() =~= all.take(i as int));
        assert(all.take(i + 1).last() == record@);
        if is_live(now, record.as_slice()) {
            let packet = vstd::slice::slice_to_vec(&record.as_slice()[8..record.len()]);
            let ghost before = spec_byte_views(packets@);
            packets.push(packet);
            assert(record@.subrange(8, record@.len() as int) =~= record@.skip(8));
            assert(spec_byte_views(packets@) =~= before.push(packet@));
        }
        i = i + 1;
    }
    assert(all.take(records@.len() as int) =~= all);
    packets
}

/// Whether none of a node's records is still deliverable at `now` (records
/// without a timestamp do not count as deliverable).
pub fn all_expired(now: u64, records: &Vec<Vec<u8>>) -> (r: bool)
    ensures
        r == forall|i: int| 0 <= i < records@.len() ==> !spec_is_live(now, #[trigger] records@[i]@),
{
    let mut i: usize = 0;
    while i < records.len()
        invariant
            i <= records@.len(),
            forall|j: int| 0 <= j < i ==> !spec_is_live(now, #[trigger] records@[j]@),
        decreases records@.len() - i,
    {
        if is_live(now, records[i].as_slice()) {
            return false;
        }
        i = i + 1;
    }
    true
}

/// The records that are still deliverable at `now`, in order, whole.
pub open spec fn spec_live_records(now: u64, records: Seq<Seq<u8>>) -> Seq<Seq<u8>>
    decreases records.len(),
{
    if records.len() == 0 {
        seq![]
    } else {
        let rest = spec_live_records(now, records.drop_last());
        if spec_is_live(now, records.last()) {
            rest.push(records.last())
        } else {
            rest
        }
    }
}

/// The records of a node to keep when expired ones are cleared: the ones
/// still deliverable at `now`, in order and unchanged.
pub fn live_records(now: u64, records: &Vec<Vec<u8>>) -> (r: Vec<Vec<u8>>)
    ensures
        spec_byte_views(r@) == spec_live_records(now, spec_byte_views(records@)),
{
    let ghost all = spec_byte_views(records@);
    let mut kept: Vec<Vec<u8>> = Vec::new();
    let mut i: usize = 0;
    while i < records.len()
        invariant
            i <= records@.len(),
            all == spec_byte_views(records@),
            spec_byte_views(kept@) == spec_live_records(now, all.take(i as int)),
        decreases records@.len() - i,
    {
        let record = &records[i];
        assert(all.take(i + 1).drop_last() =~= all.take(i as int));
        assert(all.take(i + 1).last() == record@);
        if is_live(now, record.as_slice()) {
            let copy = record.clone();
            let ghost before = spec_byte_views(kept@);
            kept.push(copy);
            assert(spec_byte_views(kept@) =~= before.push(record@));
        }
        i = i + 1;
    }
    assert(all.take(records@.len() as int) =~= all);
    kept
}

/// Clearing keeps exactly the live records: a record is kept if and only
/// if it is one of the records and is still deliverable at `now`; and no
/// record is kept for a node all of whose records expired.
pub proof fn lemma_live_records_are_the_live_ones(now: u64, records: Seq<Seq<u8>>)
    ensures
        forall|x: Seq<u8>| #[trigger] spec_live_records(now, records).contains(x) <==> (
        records.contains(x) && spec_is_live(now, x)),
        (spec_live_records(now, records).len() == 0) <==> (forall|i: int|
            0 <= i < records.len() ==> !spec_is_live(now, #[trigger] records[i])),
    decreases records.len(),
{
    if records.len() > 0 {
        let prefix = records.drop_last();
        lemma_live_records_are_the_live_ones(now, prefix);
        let rest = spec_live_records(now, prefix);
        let last = records.last();
        assert forall|x: Seq<u8>| #[trigger] spec_live_records(now, records).contains(x) <==> (
        records.contains(x) && spec_is_live(now, x)) by {
            if records.contains(x) && spec_is_live(now, x) {
                let i = choose|i: int| 0 <= i < records.len() && records[i] == x;
                if i < records.len() - 1 {
                    assert(prefix[i] == x);
                    assert(prefix.contains(x));
                    assert(rest.contains(x));
                    if spec_is_live(now, last) {
                        let k = choose|k: int| 0 <= k < rest.len() && rest[k] == x;
                        assert(rest.push(last)[k] == x);
                    }
                } else {
                    assert(rest.push(last)[rest.len() as int] == x);
                }
            }
            if spec_live_records(now, records).contains(x) {
                if spec_is_live(now, last) && x == last {
                    assert(records[records.len() - 1] == x);
                } else {
                    if spec_is_live(now, last) {
                        let k = choose|k: int| 0 <= k < rest.len() + 1 && rest.push(last)[k] == x;
                        assert(k < rest.len());
                        assert(rest[k] == x);
                    }
                    assert(rest.contains(x));
                    let i = choose|i: int| 0 <= i < prefix.len() && prefix[i] == x;
                    assert(records[i] == x);
                }
            }
        }
        assert((spec_live_records(now, records).len() == 0) <==> (forall|i: int|
            0 <= i < records.len() ==> !spec_is_live(now, #[trigger] records[i]))) by {
            if forall|i: int| 0 <= i < records.len() ==> !spec_is_live(now, #[trigger] records[i]) {
                assert forall|i: int| 0 <= i < prefix.len() implies !spec_is_live(
                    now,
                    #[trigger] prefix[i],
                ) by {
                    assert(prefix[i] == records[i]);
                }
                assert(!spec_is_live(now, records[records.len() - 1]));
            }
            if spec_live_records(now, records).len() == 0 {
                assert(!spec_is_live(now, last));
                assert forall|i: int| 0 <= i < records.len() implies !spec_is_live(
                    now,
                    #[trigger] records[i],
                ) by {
                    if i < records.len() - 1 {
                        assert(prefix[i] == records[i]);
                    }
                }
            }
        }
    }
}

/// Taking gives exactly the live records' packets: the records kept are
/// those of the list that are still deliverable at `now`, in order, and the
/// packets taken are as many, the k-th being the k-th live record without
/// its 8-byte timestamp.
pub proof fn lemma_taken_packets_are_the_live_ones(now: u64, records: Seq<Seq<u8>>)
    ensures
        spec_live_records(now, records) == records.filter(|r: Seq<u8>| spec_is_live(now, r)),
        spec_live_payloads(now, records).len() == spec_live_records(now, records).len(),
        forall|k: int|
            0 <= k < spec_live_payloads(now, records).len() ==> #[trigger] spec_live_payloads(
                now,
                records,
            )[k] == spec_live_records(now, records)[k].skip(8),
    decreases records.len(),
{
    reveal_with_fuel(Seq::filter, 1);
    if records.len() > 0 {
        let prefix = records.drop_last();
        lemma_taken_packets_are_the_live_ones(now, prefix);
        let lr = spec_live_records(now, prefix);
        let lp = spec_live_payloads(now, prefix);
        let last = records.last();
        if spec_is_live(now, last) {
            assert forall|k: int|
                0 <= k < spec_live_payloads(now, records).len() implies #[trigger] spec_live_payloads(
                now,
                records,
            )[k] == spec_live_records(now, records)[k].skip(8) by {
                if k < lp.len() {
                    assert(spec_live_payloads(now, records)[k] == lp[k]);
                    assert(spec_live_records(now, records)[k] == lr[k]);
                }
            }
        }
    }
}

/// Store then take: a packet stored at `stored_at` is given back, unchanged,
/// to a take at `now` exactly when it is at most `TRANSIT_TTL_SECS` old.
pub proof fn lemma_store_then_take(stored_at: u64, now: u64, payload: Seq<u8>)
    ensures
        spec_live_payloads(now, seq![spec_transit_record(stored_at, payload)]) == (if spec_saturating_sub(
            now,
            stored_at,
        ) <= TRANSIT_TTL_SECS {
            seq![payload]
        } else {
            seq![]
        }),
{
    let record = spec_transit_record(stored_at, payload);
    lemma_u64_be_roundtrip(stored_at);
    assert(spec_be_u64(record) == spec_be_u64(spec_u64_be(stored_at))) by {
        assert(record.take(8) =~= spec_u64_be(stored_at));
        assert(record[0] == spec_u64_be(stored_at)[0]);
        assert(record[1] == spec_u64_be(stored_at)[1]);
        assert(record[2] == spec_u64_be(stored_at)[2]);
        assert(record[3] == spec_u64_be(stored_at)[3]);
        assert(record[4] == spec_u64_be(stored_at)[4]);
        assert(record[5] == spec_u64_be(stored_at)[5]);
        assert(record[6] == spec_u64_be(stored_at)[6]);
        assert(record[7] == spec_u64_be(stored_at)[7]);
    }
    assert(record.skip(8) =~= payload);
    let s = seq![record];
    assert(s.drop_last() =~= Seq::<Seq<u8>>::empty());
    assert(s.last() == record);
    assert(spec_live_payloads(now, s.drop_last()) == Seq::<Seq<u8>>::empty());
    assert(Seq::<Seq<u8>>::empty().push(payload) =~= seq![payload]);
}

} // verus!
