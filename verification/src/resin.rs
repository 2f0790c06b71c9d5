use vstd::prelude::*;
use std::collections::HashMap;
use crate::types::{TreeId, Needle, NeedleView};
use crate::ids::new_random_id;

verus! {

broadcast use vstd::std_specs::hash::group_hash_axioms;

/// The fragments of `payload`: consecutive pieces of `chunk_size` bytes, the
/// last one possibly shorter; none for an empty payload.
pub open spec fn spec_chunks(payload: Seq<u8>, chunk_size: nat) -> Seq<Seq<u8>>
    decreases payload.len(),
{
    if chunk_size == 0 || payload.len() == 0 {
        seq![]
    } else if payload.len() <= chunk_size {
        seq![payload]
    } else {
        seq![payload.take(chunk_size as int)] + spec_chunks(
            payload.skip(chunk_size as int),
            chunk_size,
        )
    }
}

/// The needles that carry `payload` to `target` as cone `cone_id`.
pub open spec fn spec_needles(
    payload: Seq<u8>,
    target: TreeId,
    chunk_size: nat,
    cone_id: u128,
) -> Seq<NeedleView> {
    let chunks = spec_chunks(payload, chunk_size);
    Seq::new(
        chunks.len(),
        |i: int|
            NeedleView {
                cone_id: cone_id,
                sequence_number: i as u32,
                total_needles: chunks.len() as u32,
                payload: chunks[i],
                target_tree: target,
            },
    )
}

/// Views of a sequence of needles.
pub open spec fn spec_needle_views(needles: Seq<Needle>) -> Seq<NeedleView> {
    needles.map_values(|n: Needle| n@)
}

/// The fragments put back together.
pub proof fn lemma_chunks_flatten(payload: Seq<u8>, chunk_size: nat)
    requires
        chunk_size > 0,
    ensures
        spec_chunks(payload, chunk_size).flatten() == payload,
        spec_chunks(payload, chunk_size).len() == 0 <==> payload.len() == 0,
    decreases payload.len(),
{
    let c = spec_chunks(payload, chunk_size);
    if payload.len() == 0 {
    } else if payload.len() <= chunk_size {
        assert(c.drop_first() =~= Seq::<Seq<u8>>::empty());
        assert(Seq::<Seq<u8>>::empty().flatten() =~= Seq::<u8>::empty());
        assert(c.flatten() =~= payload);
    } else {
        let rest = payload.skip(chunk_size as int);
        lemma_chunks_flatten(rest, chunk_size);
        assert(c.drop_first() =~= spec_chunks(rest, chunk_size));
        assert(payload =~= payload.take(chunk_size as int) + rest);
    }
}

/// The fragments respect the size limit: each is non-empty and holds at
/// most `chunk_size` bytes, all but the last hold exactly `chunk_size`,
/// and there are `ceil(payload.len() / chunk_size)` of them.
pub proof fn lemma_chunk_sizes(payload: Seq<u8>, chunk_size: nat)
    requires
        chunk_size > 0,
    ensures
        ({
            let c = spec_chunks(payload, chunk_size);
            &&& c.len() == (payload.len() + chunk_size - 1) / (chunk_size as int)
            &&& forall|i: int| 0 <= i < c.len() ==> 0 < (#[trigger] c[i]).len() <= chunk_size
            &&& forall|i: int| 0 <= i < c.len() - 1 ==> (#[trigger] c[i]).len() == chunk_size
        }),
    decreases payload.len(),
{
    let c = spec_chunks(payload, chunk_size);
    let n = payload.len() as int;
    let k = chunk_size as int;
    if payload.len() == 0 {
        assert((n + k - 1) / k == 0) by (nonlinear_arith)
            requires
                n == 0,
                k > 0,
        ;
    } else if payload.len() <= chunk_size {
        assert((n + k - 1) / k == 1) by (nonlinear_arith)
            requires
                0 < n <= k,
        ;
    } else {
        let rest = payload.skip(chunk_size as int);
        lemma_chunk_sizes(rest, chunk_size);
        let rc = spec_chunks(rest, chunk_size);
        assert(c == seq![payload.take(chunk_size as int)] + rc);
        let m = rest.len() as int;
        assert(m == n - k);
        assert((n + k - 1) / k == (m + k - 1) / k + 1) by (nonlinear_arith)
            requires
                m == n - k,
                k > 0,
                m > 0,
        {
            vstd::arithmetic::div_mod::lemma_div_plus_one(m + k - 1, k);
        }
        assert forall|i: int| 0 <= i < c.len() implies 0 < (#[trigger] c[i]).len() <= chunk_size by {
            if i > 0 {
                assert(c[i] == rc[i - 1]);
            }
        }
        assert forall|i: int| 0 <= i < c.len() - 1 implies (#[trigger] c[i]).len() == chunk_size by {
            if i > 0 {
                assert(c[i] == rc[i - 1]);
            }
        }
    }
}

/// The needles of a payload respect the size limit: each carries between
/// one and `chunk_size` bytes, and there are
/// `ceil(payload.len() / chunk_size)` of them, each numbered by its position
/// and carrying that count.
pub proof fn lemma_needle_sizes(payload: Seq<u8>, target: TreeId, chunk_size: nat, cone_id: u128)
    requires
        chunk_size > 0,
    ensures
        ({
            let needles = spec_needles(payload, target, chunk_size, cone_id);
            let count = (payload.len() + chunk_size - 1) / (chunk_size as int);
            &&& needles.len() == count
            &&& forall|i: int| 0 <= i < needles.len() ==> 0 < (#[trigger] needles[i]).payload.len()
                <= chunk_size && needles[i].sequence_number == i as u32 && needles[i].total_needles
                == count as u32
        }),
{
    lemma_chunk_sizes(payload, chunk_size);
}

/// Cuts `payload` into pieces of at most `chunk_size` bytes, in order.
fn cut_into_chunks(payload: &[u8], chunk_size: usize) -> (chunks: Vec<Vec<u8>>)
    requires
        chunk_size > 0,
    ensures
        chunks@.map_values(|c: Vec<u8>| c@) == spec_chunks(payload@, chunk_size as nat),
{
    let mut chunks: Vec<Vec<u8>> = Vec::new();
    let mut rest: &[u8] = payload;
    let ghost whole = spec_chunks(payload@, chunk_size as nat);
    while rest.len() > 0
        invariant
            chunk_size > 0,
            whole == spec_chunks(payload@, chunk_size as nat),
            whole == chunks@.map_values(|c: Vec<u8>| c@) + spec_chunks(rest@, chunk_size as nat),
        decreases rest@.len(),
    {
        let take = if rest.len() < chunk_size {
            rest.len()
        } else {
            chunk_size
        };
        let piece = vstd::slice::slice_to_vec(&rest[0..take]);
        let ghost before = rest@;
        let ghost done = chunks@.map_values(|c: Vec<u8>| c@);
        rest = &rest[take..rest.len()];
        chunks.push(piece);
        proof {
            assert(chunks@.map_values(|c: Vec<u8>| c@) =~= done.push(piece@));
            if before.len() <= chunk_size {
                assert(rest@.len() == 0);
                assert(before.take(take as int) =~= before);
            } else {
                assert(rest@ =~= before.skip(chunk_size as int));
                assert(piece@ =~= before.take(chunk_size as int));
            }
            assert(done.push(piece@) + spec_chunks(rest@, chunk_size as nat) =~= done + spec_chunks(
                before,
                chunk_size as nat,
            ));
        }
    }
    proof {
        assert(whole =~= chunks@.map_values(|c: Vec<u8>| c@));
    }
    chunks
}

/// Cuts `payload` into needles for `target_tree` that carry `cone_id`,
/// each with at most `chunk_size` bytes; none for an empty payload.
pub fn split_into_needles_with_id(
    payload: &[u8],
    target_tree: TreeId,
    chunk_size: usize,
    cone_id: u128,
) -> (needles: Vec<Needle>)
    requires
        payload@.len() > 0 ==> chunk_size > 0,
    ensures
        payload@.len() == 0 ==> needles@.len() == 0,
        payload@.len() > 0 ==> spec_needle_views(needles@) == spec_needles(
            payload@,
            target_tree,
            chunk_size as nat,
            cone_id,
        ),
{
    if payload.len() == 0 {
        return Vec::new();
    }
    let chunks = cut_into_chunks(payload, chunk_size);
    let ghost cv = spec_chunks(payload@, chunk_size as nat);
    #[verifier::truncate]
    let total_needles = chunks.len() as u32;
    let mut needles: Vec<Needle> = Vec::new();
    let mut i: usize = 0;
    while i < chunks.len()
        invariant
            i <= chunks@.len(),
            needles@.len() == i,
            cv == spec_chunks(payload@, chunk_size as nat),
            cv == chunks@.map_values(|c: Vec<u8>| c@),
            total_needles == chunks@.len() as u32,
            spec_needle_views(needles@) =~= spec_needles(
                payload@,
                target_tree,
                chunk_size as nat,
                cone_id,
            ).take(i as int),
        decreases chunks@.len() - i,
    {
        #[verifier::truncate]
        let sequence_number = i as u32;
        let ghost before = spec_needle_views(needles@);
        needles.push(
            Needle {
                cone_id,
                sequence_number,
                total_needles,
                payload: chunks[i].clone(),
                target_tree,
            },
        );
        proof {
            assert(cv[i as int] == chunks@[i as int]@);
            assert(cv.len() == chunks@.len());
            let full = spec_needles(payload@, target_tree, chunk_size as nat, cone_id);
            assert(full[i as int] == needles@[i as int]@);
            assert(spec_needle_views(needles@) =~= before.push(needles@[i as int]@));
        }
        i = i + 1;
    }
    proof {
        assert(spec_needles(payload@, target_tree, chunk_size as nat, cone_id).take(
            chunks@.len() as int,
        ) =~= spec_needles(payload@, target_tree, chunk_size as nat, cone_id));
    }
    needles
}

/// Cuts a large payload (a Cone) into needles for `target_tree`, each with at
/// most `chunk_size` bytes. All needles carry the same fresh random cone id;
/// an empty payload gives no needle.
pub fn split_into_needles(payload: &[u8], target_tree: TreeId, chunk_size: usize) -> (needles: Vec<
    Needle,
>)
    requires
        payload@.len() > 0 ==> chunk_size > 0,
    ensures
        payload@.len() == 0 ==> needles@.len() == 0,
        payload@.len() > 0 ==> needles@.len() > 0 && spec_needle_views(needles@) == spec_needles(
            payload@,
            target_tree,
            chunk_size as nat,
            needles@[0].cone_id,
        ),
{
    if payload.len() == 0 {
        return Vec::new();
    }
    let cone_id = new_random_id();
    let needles = split_into_needles_with_id(payload, target_tree, chunk_size, cone_id);
    proof {
        lemma_chunks_flatten(payload@, chunk_size as nat);
        assert(spec_needle_views(needles@).len() == needles@.len());
        assert(spec_needles(payload@, target_tree, chunk_size as nat, cone_id).len() > 0);
        assert(spec_needle_views(needles@)[0] == needles@[0]@);
        assert(needles@[0].cone_id == cone_id);
    }
    needles
}


/// Reassembly buffer of one cone: how many needles it has and the pieces
/// received so far, by sequence number.
#[derive(Debug)]
pub struct ConeBuffer {
    pub total_needles: u32,
    pub chunks: HashMap<u32, Vec<u8>>,
}

/// Mathematical value of a [`ConeBuffer`].
pub struct ConeView {
    pub total: u32,
    pub chunks: Map<u32, Seq<u8>>,
}

impl View for ConeBuffer {
    type V = ConeView;

    open spec fn view(&self) -> ConeView {
        ConeView {
            total: self.total_needles,
            chunks: self.chunks@.map_values(|c: Vec<u8>| c@),
        }
    }
}

/// The buffer of `needle`'s cone once the needle is stored in it: the
/// existing buffer, or a new one sized by the needle, with the needle's
/// bytes under its sequence number unless a copy is already stored there
/// (the first copy of a piece is kept: protection against duplicates).
pub open spec fn spec_buffer_with(state: Map<u128, ConeView>, needle: NeedleView) -> ConeView {
    let buffer = if state.contains_key(needle.cone_id) {
        state[needle.cone_id]
    } else {
        ConeView { total: needle.total_needles, chunks: Map::empty() }
    };
    if buffer.chunks.contains_key(needle.sequence_number) {
        buffer
    } else {
        ConeView {
            total: buffer.total,
            chunks: buffer.chunks.insert(needle.sequence_number, needle.payload),
        }
    }
}

/// The buffer holds as many pieces as the cone has needles.
pub open spec fn spec_is_full(buffer: ConeView) -> bool {
    buffer.chunks.len() as u32 == buffer.total
}

/// Every sequence number below the total has its piece.
pub open spec fn spec_has_all(buffer: ConeView) -> bool {
    forall|i: u32| i < buffer.total ==> #[trigger] buffer.chunks.contains_key(i)
}

/// The pieces `0 .. total` concatenated in order.
pub open spec fn spec_assembled(buffer: ConeView) -> Seq<u8> {
    Seq::new(buffer.total as nat, |i: int| buffer.chunks[i as u32]).flatten_alt()
}

/// What receiving `needle` does: the new state of the buffers and the
/// payload when the cone is complete. A complete cone leaves the state.
pub open spec fn spec_receive(state: Map<u128, ConeView>, needle: NeedleView) -> (Map<
    u128,
    ConeView,
>, Option<Seq<u8>>) {
    let buffer = spec_buffer_with(state, needle);
    if spec_is_full(buffer) && spec_has_all(buffer) {
        (state.remove(needle.cone_id), Some(spec_assembled(buffer)))
    } else {
        (state.insert(needle.cone_id, buffer), None)
    }
}

/// Receiving needles one after another: the final state and what each
/// reception returned.
pub open spec fn spec_receive_all(state: Map<u128, ConeView>, needles: Seq<NeedleView>) -> (Map<
    u128,
    ConeView,
>, Seq<Option<Seq<u8>>>)
    decreases needles.len(),
{
    if needles.len() == 0 {
        (state, seq![])
    } else {
        let (mid, outs) = spec_receive_all(state, needles.drop_last());
        let (last_state, out) = spec_receive(mid, needles.last());
        (last_state, outs.push(out))
    }
}

/// `order` lists each position `0 .. n` exactly once.
pub open spec fn spec_is_permutation(order: Seq<int>, n: nat) -> bool {
    &&& order.len() == n
    &&& forall|k: int| 0 <= k < n ==> 0 <= #[trigger] order[k] < n
    &&& order.no_duplicates()
    &&& forall|i: int| 0 <= i < n ==> #[trigger] order.contains(i)
}

/// The needles of a cone in the order given by `order`.
pub open spec fn spec_arrivals(needles: Seq<NeedleView>, order: Seq<int>) -> Seq<NeedleView> {
    Seq::new(order.len(), |k: int| needles[order[k]])
}

/// Pieces stored after the first `k` arrivals of `order`.
pub open spec fn spec_stored(chunks: Seq<Seq<u8>>, order: Seq<int>, k: nat) -> Map<u32, Seq<u8>>
    decreases k,
{
    if k == 0 {
        Map::empty()
    } else {
        spec_stored(chunks, order, (k - 1) as nat).insert(
            order[k - 1] as u32,
            chunks[order[k - 1]],
        )
    }
}

proof fn lemma_stored(chunks: Seq<Seq<u8>>, order: Seq<int>, k: nat)
    requires
        spec_is_permutation(order, chunks.len()),
        chunks.len() <= u32::MAX,
        k <= chunks.len(),
    ensures
        spec_stored(chunks, order, k).dom().finite(),
        spec_stored(chunks, order, k).len() == k,
        forall|s: u32| #[trigger] spec_stored(chunks, order, k).contains_key(s) <==> exists|j: int|
            0 <= j < k && order[j] as u32 == s,
        forall|j: int| 0 <= j < k ==> #[trigger] spec_stored(chunks, order, k)[order[j] as u32]
            == chunks[order[j]],
    decreases k,
{
    if k > 0 {
        lemma_stored(chunks, order, (k - 1) as nat);
        let prev = spec_stored(chunks, order, (k - 1) as nat);
        let key = order[k - 1] as u32;
        assert(!prev.contains_key(key)) by {
            if prev.contains_key(key) {
                let j = choose|j: int| 0 <= j < k - 1 && order[j] as u32 == key;
                assert(order[j] == order[k - 1]);
            }
        }
        let cur = spec_stored(chunks, order, k);
        assert forall|s: u32| #[trigger] cur.contains_key(s) <==> exists|j: int|
            0 <= j < k && order[j] as u32 == s by {
            if cur.contains_key(s) && s != key {
                assert(prev.contains_key(s));
            }
            if exists|j: int| 0 <= j < k && order[j] as u32 == s {
                let j = choose|j: int| 0 <= j < k && order[j] as u32 == s;
                if j < k - 1 {
                    assert(prev.contains_key(s));
                }
            }
        }
        assert forall|j: int| 0 <= j < k implies #[trigger] cur[order[j] as u32] == chunks[order[j]] by {
            if j < k - 1 {
                assert(order[j] != order[k - 1]);
                assert(order[j] as u32 != key);
            }
        }
    }
}

proof fn lemma_prefix_pending(
    needles: Seq<NeedleView>,
    chunks: Seq<Seq<u8>>,
    cone_id: u128,
    order: Seq<int>,
    state: Map<u128, ConeView>,
    k: nat,
)
    requires
        chunks.len() > 0,
        chunks.len() <= u32::MAX,
        needles.len() == chunks.len(),
        forall|i: int| 0 <= i < needles.len() ==> #[trigger] needles[i] == (NeedleView {
            cone_id: cone_id,
            sequence_number: i as u32,
            total_needles: chunks.len() as u32,
            payload: chunks[i],
            target_tree: needles[i].target_tree,
        }),
        spec_is_permutation(order, chunks.len()),
        !state.contains_key(cone_id),
        k < chunks.len(),
    ensures
        ({
            let (st, outs) = spec_receive_all(state, spec_arrivals(needles, order).take(k as int));
            &&& st == (if k == 0 {
                state
            } else {
                state.insert(
                    cone_id,
                    ConeView { total: chunks.len() as u32, chunks: spec_stored(chunks, order, k) },
                )
            })
            &&& outs.len() == k
            &&& forall|j: int| 0 <= j < k ==> #[trigger] outs[j] is None
        }),
    decreases k,
{
    let arrivals = spec_arrivals(needles, order);
    if k > 0 {
        lemma_prefix_pending(needles, chunks, cone_id, order, state, (k - 1) as nat);
        let prefix = arrivals.take(k as int);
        assert(prefix.drop_last() =~= arrivals.take(k - 1));
        let (mid, outs) = spec_receive_all(state, arrivals.take(k - 1));
        let needle = prefix.last();
        assert(needle == needles[order[k - 1]]);
        lemma_stored(chunks, order, k);
        lemma_stored(chunks, order, (k - 1) as nat);
        let buffer = spec_buffer_with(mid, needle);
        assert(buffer.chunks =~= spec_stored(chunks, order, k));
        assert(buffer.total == chunks.len() as u32);
        assert(!spec_is_full(buffer));
        let (last_state, out) = spec_receive(mid, needle);
        assert(last_state =~= state.insert(
            cone_id,
            ConeView { total: chunks.len() as u32, chunks: spec_stored(chunks, order, k) },
        ));
    }
}

/// Reassembly in any order: the needles of a cone, received in any order by
/// an assembler that has no buffer for that cone, give nothing until the
/// last one, which gives back the whole payload and leaves the buffers as
/// they were.
pub proof fn lemma_reassembly_in_any_order(
    payload: Seq<u8>,
    target: TreeId,
    chunk_size: nat,
    cone_id: u128,
    order: Seq<int>,
    state: Map<u128, ConeView>,
)
    requires
        payload.len() > 0,
        chunk_size > 0,
        spec_chunks(payload, chunk_size).len() <= u32::MAX,
        spec_is_permutation(order, spec_chunks(payload, chunk_size).len()),
        !state.contains_key(cone_id),
    ensures
        ({
            let needles = spec_needles(payload, target, chunk_size, cone_id);
            let (final_state, outs) = spec_receive_all(state, spec_arrivals(needles, order));
            &&& final_state == state
            &&& outs.len() == needles.len()
            &&& outs.last() == Some(payload)
            &&& forall|j: int| 0 <= j < outs.len() - 1 ==> #[trigger] outs[j] is None
        }),
{
    let chunks = spec_chunks(payload, chunk_size);
    let needles = spec_needles(payload, target, chunk_size, cone_id);
    let n = chunks.len();
    lemma_chunks_flatten(payload, chunk_size);
    let arrivals = spec_arrivals(needles, order);
    lemma_prefix_pending(needles, chunks, cone_id, order, state, (n - 1) as nat);
    assert(arrivals.drop_last() =~= arrivals.take(n - 1));
    let (mid, outs) = spec_receive_all(state, arrivals.take(n - 1));
    let needle = arrivals.last();
    assert(needle == needles[order[n - 1]]);
    lemma_stored(chunks, order, n);
    lemma_stored(chunks, order, (n - 1) as nat);
    let stored = spec_stored(chunks, order, n);
    let buffer = spec_buffer_with(mid, needle);
    assert(buffer.chunks =~= stored);
    assert(spec_is_full(buffer));
    assert forall|i: u32| i < buffer.total implies #[trigger] buffer.chunks.contains_key(i) by {
        assert(order.contains(i as int));
        let j = choose|j: int| 0 <= j < order.len() && order[j] == i as int;
    }
    assert(Seq::new(buffer.total as nat, |i: int| buffer.chunks[i as u32]) =~= chunks) by {
        assert forall|i: int| 0 <= i < n implies buffer.chunks[i as u32] == chunks[i] by {
            assert(order.contains(i));
            let j = choose|j: int| 0 <= j < order.len() && order[j] == i;
            assert(stored[order[j] as u32] == chunks[order[j]]);
        }
    }
    chunks.lemma_flatten_and_flatten_alt_are_equivalent();
    let (last_state, out) = spec_receive(mid, needle);
    assert(out == Some(payload));
    assert(last_state =~= state);
    let (fin, all_outs) = spec_receive_all(state, arrivals);
    assert(all_outs == outs.push(out));
    assert forall|j: int| 0 <= j < all_outs.len() - 1 implies #[trigger] all_outs[j] is None by {
        assert(all_outs[j] == outs[j]);
    }
}

/// Reassembles needles (Resin) back into whole payloads. Needles may come
/// by different roots and in any order.
#[derive(Debug)]
pub struct ResinAssembler {
    /// Buffers of the cones being reassembled, by cone id.
    pub active_cones: HashMap<u128, ConeBuffer>,
}

impl View for ResinAssembler {
    type V = Map<u128, ConeView>;

    open spec fn view(&self) -> Map<u128, ConeView> {
        self.active_cones@.map_values(|b: ConeBuffer| b@)
    }
}

impl ResinAssembler {
    /// An assembler with no cone in progress.
    pub fn new() -> (r: Self)
        ensures
            r@ == Map::<u128, ConeView>::empty(),
    {
        let r = ResinAssembler { active_cones: HashMap::new() };
        assert(r@ =~= Map::<u128, ConeView>::empty());
        r
    }

    fn put(&mut self, cone_id: u128, buffer: ConeBuffer)
        ensures
            final(self)@ == old(self)@.insert(cone_id, buffer@),
    {
        self.active_cones.insert(cone_id, buffer);
        assert(final(self)@ =~= old(self)@.insert(cone_id, buffer@));
    }

    /// Adds a needle to its cone, unless a copy of that piece is already
    /// stored (duplicates that come by several roots are dropped). When the
    /// cone then holds all its pieces, returns the whole payload and forgets
    /// the cone; otherwise `None`.
    pub fn receive_needle(&mut self, needle: Needle) -> (r: Option<Vec<u8>>)
        ensures
            final(self)@ == spec_receive(old(self)@, needle@).0,
            r is None <==> spec_receive(old(self)@, needle@).1 is None,
            r matches Some(v) ==> spec_receive(old(self)@, needle@).1 == Some(v@),
    {
        let ghost nv = needle@;
        let ghost start = self@;
        let cone_id = needle.cone_id;
        let mut buffer = match self.active_cones.remove(&cone_id) {
            Some(b) => b,
            None => ConeBuffer { total_needles: needle.total_needles, chunks: HashMap::new() },
        };
        proof {
            assert(self@ =~= start.remove(cone_id));
            let expected = if start.contains_key(cone_id) {
                start[cone_id]
            } else {
                ConeView { total: needle.total_needles, chunks: Map::empty() }
            };
            assert(buffer@.chunks =~= expected.chunks);
        }
        let ghost before_chunks = buffer@.chunks;
        if !buffer.chunks.contains_key(&needle.sequence_number) {
            buffer.chunks.insert(needle.sequence_number, needle.payload);
            proof {
                assert(buffer@.chunks =~= before_chunks.insert(nv.sequence_number, nv.payload));
            }
        }
        proof {
            assert(buffer@ == spec_buffer_with(start, nv));
        }
        assert(buffer@.chunks.dom() =~= buffer.chunks@.dom());
        #[verifier::truncate]
        let stored = buffer.chunks.len() as u32;
        if stored == buffer.total_needles {
            let mut full_payload: Vec<u8> = Vec::new();
            let mut i: u32 = 0;
            let ghost b = buffer@;
            assert(spec_is_full(b));
            while i < buffer.total_needles
                invariant
                    start == old(self)@,
                    nv == needle@,
                    b == buffer@,
                    b == spec_buffer_with(start, nv),
                    spec_is_full(b),
                    cone_id == nv.cone_id,
                    self@ == start.remove(cone_id),
                    i <= b.total,
                    forall|j: u32| j < i ==> #[trigger] b.chunks.contains_key(j),
                    full_payload@ == Seq::new(i as nat, |k: int| b.chunks[k as u32]).flatten_alt(),
                decreases b.total - i,
            {
                match buffer.chunks.get(&i) {
                    Some(chunk) => {
                        let ghost prev = full_payload@;
                        full_payload.extend_from_slice(chunk.as_slice());
                        proof {
                            let s = Seq::new((i + 1) as nat, |k: int| b.chunks[k as u32]);
                            assert(s.drop_last() =~= Seq::new(i as nat, |k: int| b.chunks[k as u32]));
                            assert(s.last() == chunk@);
                            assert(full_payload@ =~= prev + chunk@);
                        }
                        i = i + 1;
                    },
                    None => {
                        self.put(cone_id, buffer);
                        proof {
                            assert(!buffer.chunks@.contains_key(i));
                            assert(!b.chunks.contains_key(i));
                            assert(!spec_has_all(b));
                            assert(self@ =~= start.insert(cone_id, b));
                            assert(spec_receive(start, nv).0 == start.insert(cone_id, b));
                            assert(spec_receive(start, nv).1 is None);
                        }
                        return None;
                    },
                }
            }
            proof {
                assert(spec_has_all(b));
                assert(spec_receive(start, nv).0 == start.remove(cone_id));
                assert(spec_receive(start, nv).1 == Some(full_payload@));
            }
            Some(full_payload)
        } else {
            self.put(cone_id, buffer);
            proof {
                assert(self@ =~= start.insert(cone_id, spec_buffer_with(start, nv)));
            }
            None
        }
    }

    /// Hook for discarding cones whose needles were lost; it keeps every
    /// buffer as it is.
    pub fn clear_abandoned(&mut self)
        ensures
            final(self)@ == old(self)@,
    {
    }
}

} // verus!
