use vstd::prelude::*;
use crate::chunk_plan::Chunk;
use crate::chunk_plan::chunk_end_at;
use crate::chunk_plan::is_chunk_plan;
use crate::chunk_plan::lemma_chunk_plan_properties;
use crate::chunk_plan::lemma_div_up_bounds;
use crate::engine::covered_len;

verus! {

/// Elementwise image of two equal-length sequences under `f`.
pub open spec fn elementwise(f: spec_fn(u32, u32) -> u32, a: Seq<u32>, b: Seq<u32>) -> Seq<u32> {
    Seq::new(a.len(), |i: int| f(a[i], b[i]))
}

/// Concatenating the per-chunk slices of `s`, in chunk order, rebuilds the
/// prefix of `s` the chunks cover.
proof fn lemma_flatten_tiling_prefix(
    s: Seq<u32>,
    chunks: Seq<Chunk>,
    rs: Seq<Seq<u32>>,
    cap: int,
    j: int,
)
    requires
        cap >= 1,
        is_chunk_plan(chunks, s.len() as int, cap),
        rs.len() == chunks.len(),
        forall|i: int|
            0 <= i < rs.len() ==> #[trigger] rs[i] == s.subrange(
                chunks[i].start as int,
                chunks[i].end as int,
            ),
        0 <= j <= rs.len(),
    ensures
        rs.take(j).flatten() == s.take(covered_len(s.len() as int, cap, j)),
    decreases j,
{
    let t = s.len() as int;
    if j == 0 {
        assert(0 * cap == 0) by (nonlinear_arith);
        assert(rs.take(0) =~= Seq::<Seq<u32>>::empty());
        assert(Seq::<Seq<u32>>::empty().flatten() =~= Seq::<u32>::empty());
        assert(s.take(0) =~= Seq::<u32>::empty());
    } else {
        lemma_flatten_tiling_prefix(s, chunks, rs, cap, j - 1);
        assert(rs.take(j) =~= rs.take(j - 1).push(rs[j - 1]));
        rs.take(j - 1).lemma_flatten_push(rs[j - 1]);
        let kk = chunks.len() as int;
        lemma_div_up_bounds(t, cap);
        assert((j - 1) * cap <= (kk - 1) * cap) by (nonlinear_arith)
            requires
                j - 1 <= kk - 1,
                cap >= 1,
        ;
        assert(covered_len(t, cap, j - 1) == (j - 1) * cap);
        assert(chunks[j - 1].start == (j - 1) * cap);
        assert(chunks[j - 1].end == chunk_end_at(t, cap, j - 1));
        assert(covered_len(t, cap, j) == chunk_end_at(t, cap, j - 1));
        assert(0 <= (j - 1) * cap) by (nonlinear_arith)
            requires
                j >= 1,
                cap >= 1,
        ;
        assert((j - 1) * cap <= j * cap) by (nonlinear_arith)
            requires
                cap >= 1,
        ;
        assert(chunks[j - 1].start <= chunks[j - 1].end);
        assert(chunks[j - 1].end <= t);
        assert(s.take(covered_len(t, cap, j - 1)) + s.subrange(
            chunks[j - 1].start as int,
            chunks[j - 1].end as int,
        ) =~= s.take(covered_len(t, cap, j)));
        assert(rs.take(j).flatten() == rs.take(j - 1).flatten() + rs[j - 1]);
    }
}

/// Concatenating chunk-sized pieces, in chunk order, puts piece `j` exactly
/// at its chunk's offsets: the first `j` pieces together are as long as the
/// first `j` chunks.
proof fn lemma_flatten_prefix_len(
    chunks: Seq<Chunk>,
    rs: Seq<Seq<u32>>,
    total: int,
    cap: int,
    j: int,
)
    requires
        total >= 0,
        cap >= 1,
        is_chunk_plan(chunks, total, cap),
        rs.len() == chunks.len(),
        forall|i: int| 0 <= i < rs.len() ==> (#[trigger] rs[i]).len() == chunks[i].size(),
        0 <= j <= rs.len(),
    ensures
        rs.take(j).flatten().len() == covered_len(total, cap, j),
    decreases j,
{
    if j == 0 {
        assert(0 * cap == 0) by (nonlinear_arith);
        assert(rs.take(0) =~= Seq::<Seq<u32>>::empty());
        assert(Seq::<Seq<u32>>::empty().flatten() =~= Seq::<u32>::empty());
    } else {
        lemma_flatten_prefix_len(chunks, rs, total, cap, j - 1);
        assert(rs.take(j) =~= rs.take(j - 1).push(rs[j - 1]));
        rs.take(j - 1).lemma_flatten_push(rs[j - 1]);
        let kk = chunks.len() as int;
        lemma_div_up_bounds(total, cap);
        assert((j - 1) * cap <= (kk - 1) * cap) by (nonlinear_arith)
            requires
                j - 1 <= kk - 1,
                cap >= 1,
        ;
        assert(covered_len(total, cap, j - 1) == (j - 1) * cap);
        assert(chunks[j - 1].start == (j - 1) * cap);
        assert(chunks[j - 1].end == chunk_end_at(total, cap, j - 1));
        assert(covered_len(total, cap, j) == chunk_end_at(total, cap, j - 1));
    }
}

/// Ordered partial-result assembly: concatenating per-chunk results that are
/// merely the right sizes yields a result one element per input element, in
/// which chunk `i`'s piece stands exactly at `[chunks[i].start,
/// chunks[i].end)` — no seam duplicates, drops, or shifts an element.
pub proof fn lemma_chunk_results_assemble_in_place(
    chunks: Seq<Chunk>,
    rs: Seq<Seq<u32>>,
    total: int,
    cap: int,
)
    requires
        total >= 0,
        cap >= 1,
        is_chunk_plan(chunks, total, cap),
        rs.len() == chunks.len(),
        forall|i: int| 0 <= i < rs.len() ==> (#[trigger] rs[i]).len() == chunks[i].size(),
    ensures
        rs.flatten().len() == total,
        forall|i: int|
            0 <= i < rs.len() ==> rs.flatten().subrange(
                (#[trigger] chunks[i]).start as int,
                chunks[i].end as int,
            ) == rs[i],
{
    let kk = chunks.len() as int;
    lemma_chunk_plan_properties(chunks, total, cap);
    lemma_div_up_bounds(total, cap);
    lemma_flatten_prefix_len(chunks, rs, total, cap, kk);
    assert(rs.take(kk) =~= rs);
    assert(covered_len(total, cap, kk) == total);
    assert forall|i: int| 0 <= i < rs.len() implies rs.flatten().subrange(
        (#[trigger] chunks[i]).start as int,
        chunks[i].end as int,
    ) == rs[i] by {
        let front = rs.take(i + 1);
        let back = rs.skip(i + 1);
        assert(rs =~= front + back);
        vstd::seq_lib::lemma_flatten_concat(front, back);
        assert(front =~= rs.take(i).push(rs[i]));
        rs.take(i).lemma_flatten_push(rs[i]);
        lemma_flatten_prefix_len(chunks, rs, total, cap, i);
        assert((i) * cap <= (kk - 1) * cap) by (nonlinear_arith)
            requires
                i <= kk - 1,
                cap >= 1,
        ;
        assert(covered_len(total, cap, i) == i * cap);
        assert(rs.take(i).flatten().len() == chunks[i].start);
        assert(rs.flatten() == rs.take(i).flatten() + rs[i] + back.flatten());
        assert(rs.flatten().subrange(chunks[i].start as int, chunks[i].end as int) =~= rs[i]);
    }
}

/// Chunked execution computes exactly what unchunked execution would: when
/// every chunk's result is the elementwise image of that chunk's slices of
/// the inputs, the in-order concatenation of the chunk results is the
/// elementwise image of the whole inputs — one element per input element,
/// with nothing at a chunk seam duplicated, dropped, or reordered.
pub proof fn lemma_chunked_elementwise_exact(
    f: spec_fn(u32, u32) -> u32,
    a: Seq<u32>,
    b: Seq<u32>,
    chunks: Seq<Chunk>,
    rs: Seq<Seq<u32>>,
    cap: int,
)
    requires
        a.len() == b.len(),
        cap >= 1,
        is_chunk_plan(chunks, a.len() as int, cap),
        rs.len() == chunks.len(),
        forall|i: int|
            0 <= i < rs.len() ==> #[trigger] rs[i] == elementwise(
                f,
                a.subrange(chunks[i].start as int, chunks[i].end as int),
                b.subrange(chunks[i].start as int, chunks[i].end as int),
            ),
    ensures
        rs.flatten() == elementwise(f, a, b),
        rs.flatten().len() == a.len(),
{
    let t = a.len() as int;
    let s = elementwise(f, a, b);
    lemma_chunk_plan_properties(chunks, t, cap);
    assert forall|i: int| 0 <= i < rs.len() implies #[trigger] rs[i] == s.subrange(
        chunks[i].start as int,
        chunks[i].end as int,
    ) by {
        let lo = chunks[i].start as int;
        let hi = chunks[i].end as int;
        assert(chunks[i].end == chunk_end_at(t, cap, i));
        assert(hi <= t);
        assert(elementwise(f, a.subrange(lo, hi), b.subrange(lo, hi)) =~= s.subrange(lo, hi));
    }
    lemma_flatten_tiling_prefix(s, chunks, rs, cap, rs.len() as int);
    assert(rs.take(rs.len() as int) =~= rs);
    let kk = chunks.len() as int;
    lemma_div_up_bounds(t, cap);
    assert(covered_len(t, cap, kk) == t);
    assert(s.take(t) =~= s);
}

} // verus!
