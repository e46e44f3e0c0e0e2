use vstd::prelude::*;

verus! {

/// Half-open element range `[start, end)` into the input pair, sized to fit
/// one set of device buffers.
#[derive(Clone, Copy, Debug, PartialEq, Eq, Structural)]
pub struct Chunk {
    pub start: usize,
    pub end: usize,
}

impl Chunk {
    /// Number of elements the chunk covers.
    pub open spec fn size(self) -> int {
        self.end - self.start
    }

    /// Executable chunk size.
    pub fn len(&self) -> (r: usize)
        requires
            self.start <= self.end,
        ensures
            r == self.size(),
    {
        self.end - self.start
    }
}

/// Ceiling division `ceil(n / d)` for `n >= 0`, `d >= 1`.
pub open spec fn div_up(n: int, d: int) -> int {
    (n + d - 1) / d
}

/// Largest number of elements whose buffer fits under the byte ceiling.
pub open spec fn max_chunk_elements(max_buffer_bytes: int, element_byte_size: int) -> int {
    max_buffer_bytes / element_byte_size
}

/// Number of chunks a vector of `total` elements splits into under a chunk
/// capacity of `cap` elements.
pub open spec fn chunk_count(total: int, cap: int) -> int {
    div_up(total, cap)
}

/// End of chunk `i`: one capacity further, clamped to the total length.
pub open spec fn chunk_end_at(total: int, cap: int, i: int) -> int {
    if total < (i + 1) * cap {
        total
    } else {
        (i + 1) * cap
    }
}

/// What a chunk plan is: `ceil(total / cap)` consecutive ranges, chunk `i`
/// starting at `i * cap`, all full-size except possibly the last.
pub open spec fn is_chunk_plan(chunks: Seq<Chunk>, total: int, cap: int) -> bool {
    &&& chunks.len() == chunk_count(total, cap)
    &&& forall|i: int|
        0 <= i < chunks.len() ==> (#[trigger] chunks[i]).start == i * cap
    &&& forall|i: int|
        0 <= i < chunks.len() ==> (#[trigger] chunks[i]).end == chunk_end_at(total, cap, i)
}

/// `ceil(n / d) == q` exactly when `q` is the unique integer with
/// `(q - 1) * d < n <= q * d`.
pub proof fn lemma_div_up_unique(n: int, d: int, q: int)
    requires
        n >= 0,
        d >= 1,
        q >= 0,
        (q - 1) * d < n,
        n <= q * d,
    ensures
        div_up(n, d) == q,
{
    assert((n + d - 1) / d == q) by (nonlinear_arith)
        requires
            n >= 0,
            d >= 1,
            q >= 0,
            (q - 1) * d < n,
            n <= q * d,
    ;
}

/// Basic bounds of ceiling division.
pub proof fn lemma_div_up_bounds(n: int, d: int)
    requires
        n >= 0,
        d >= 1,
    ensures
        div_up(n, d) >= 0,
        n <= div_up(n, d) * d,
        (div_up(n, d) - 1) * d < n,
        n == 0 ==> div_up(n, d) == 0,
        n >= 1 ==> div_up(n, d) >= 1,
{
    assert(div_up(n, d) >= 0 && n <= div_up(n, d) * d && (div_up(n, d) - 1) * d < n)
        by (nonlinear_arith)
        requires
            n >= 0,
            d >= 1,
    ;
}

/// The invariants of a chunk plan: chunks are non-empty, capacity-bounded,
/// contiguous, ascending, and cover `[0, total)` exactly.
pub proof fn lemma_chunk_plan_properties(chunks: Seq<Chunk>, total: int, cap: int)
    requires
        total >= 0,
        cap >= 1,
        is_chunk_plan(chunks, total, cap),
    ensures
        total == 0 ==> chunks.len() == 0,
        total >= 1 ==> chunks.len() >= 1,
        forall|i: int| 0 <= i < chunks.len() ==> 1 <= (#[trigger] chunks[i]).size() <= cap,
        forall|i: int|
            0 <= i < chunks.len() - 1 ==> (#[trigger] chunks[i]).end == chunks[i + 1].start,
        chunks.len() >= 1 ==> chunks[0].start == 0,
        chunks.len() >= 1 ==> chunks[chunks.len() - 1].end == total,
        forall|i: int| 0 <= i < chunks.len() - 1 ==> (#[trigger] chunks[i]).size() == cap,
{
    lemma_div_up_bounds(total, cap);
    let k = chunks.len() as int;
    assert forall|i: int| 0 <= i < k implies 1 <= (#[trigger] chunks[i]).size() <= cap by {
        assert(chunks[i].start == i * cap);
        assert(chunks[i].end == chunk_end_at(total, cap, i));
        assert(i * cap < total && total - i * cap <= cap ==> 1 <= total - i * cap <= cap);
        assert(i < k ==> i * cap < total) by (nonlinear_arith)
            requires
                cap >= 1,
                total >= 0,
                k == div_up(total, cap),
                0 <= i < k,
        ;
        assert((i + 1) * cap - i * cap == cap) by (nonlinear_arith);
    }
    assert forall|i: int| 0 <= i < k - 1 implies (#[trigger] chunks[i]).end == chunks[i + 1].start
        by {
        assert(chunks[i + 1].start == (i + 1) * cap);
        assert((i + 1) * cap <= total) by (nonlinear_arith)
            requires
                cap >= 1,
                total >= 0,
                k == div_up(total, cap),
                0 <= i < k - 1,
        ;
    }
    if k >= 1 {
        assert(chunks[0].start == 0 * cap);
        assert(0 * cap == 0) by (nonlinear_arith);
        assert(chunks[k - 1].end == chunk_end_at(total, cap, k - 1));
        assert(total <= k * cap);
        assert(chunks[k - 1].end == total);
    }
    assert forall|i: int| 0 <= i < k - 1 implies (#[trigger] chunks[i]).size() == cap by {
        assert(chunks[i].end == chunks[i + 1].start);
        assert(chunks[i + 1].start - chunks[i].start == cap) by (nonlinear_arith)
            requires
                chunks[i].start == i * cap,
                chunks[i + 1].start == (i + 1) * cap,
        ;
    }
}

/// A chunk plan is unique: chunking is a function of the total length and
/// the capacity alone, so planning the same input twice splits it
/// identically.
pub proof fn lemma_chunk_plan_unique(c1: Seq<Chunk>, c2: Seq<Chunk>, total: int, cap: int)
    requires
        is_chunk_plan(c1, total, cap),
        is_chunk_plan(c2, total, cap),
    ensures
        c1 == c2,
{
    assert forall|i: int| 0 <= i < c1.len() implies c1[i] == c2[i] by {
        assert(c1[i].start == i * cap && c2[i].start == i * cap);
        assert(c1[i].end == chunk_end_at(total, cap, i) && c2[i].end == chunk_end_at(
            total,
            cap,
            i,
        ));
    }
    assert(c1 =~= c2);
}

/// Splits `total_elements` into consecutive chunks of at most
/// `floor(max_buffer_bytes / element_byte_size)` elements each: all chunks
/// full-size except possibly the last, together covering the whole range.
/// Zero elements yield zero chunks.
pub fn plan_chunks(total_elements: usize, element_byte_size: usize, max_buffer_bytes: usize) -> (
    chunks: Vec<Chunk>)
    requires
        element_byte_size >= 1,
        max_buffer_bytes >= element_byte_size,
    ensures
        is_chunk_plan(
            chunks@,
            total_elements as int,
            max_chunk_elements(max_buffer_bytes as int, element_byte_size as int),
        ),
{
    let cap: usize = max_buffer_bytes / element_byte_size;
    proof {
        assert(cap >= 1) by (nonlinear_arith)
            requires
                element_byte_size >= 1,
                max_buffer_bytes >= element_byte_size,
                cap == max_buffer_bytes as int / element_byte_size as int,
        ;
    }
    let mut chunks: Vec<Chunk> = Vec::new();
    let mut start: usize = 0;
    while start < total_elements
        invariant
            1 <= cap,
            cap == max_chunk_elements(max_buffer_bytes as int, element_byte_size as int),
            start <= total_elements,
            start == if total_elements <= chunks@.len() * cap {
                total_elements as int
            } else {
                chunks@.len() * cap
            },
            chunks@.len() >= 1 ==> (chunks@.len() - 1) * cap < total_elements,
            forall|i: int|
                0 <= i < chunks@.len() ==> (#[trigger] chunks@[i]).start == i * cap,
            forall|i: int|
                0 <= i < chunks@.len() ==> (#[trigger] chunks@[i]).end == chunk_end_at(
                    total_elements as int,
                    cap as int,
                    i,
                ),
        decreases total_elements - start,
    {
        let ghost k = chunks@.len() as int;
        assert(start == k * cap);
        let end: usize = if total_elements - start < cap {
            total_elements
        } else {
            start + cap
        };
        assert(end == chunk_end_at(total_elements as int, cap as int, k)) by {
            assert((k + 1) * cap == k * cap + cap) by (nonlinear_arith);
        }
        chunks.push(Chunk { start, end });
        start = end;
        assert((chunks@.len() - 1) * cap < total_elements) by {
            assert(k * cap < total_elements);
        }
        assert(start == if total_elements <= chunks@.len() * cap {
            total_elements as int
        } else {
            chunks@.len() * cap
        }) by {
            assert(chunks@.len() * cap == k * cap + cap) by (nonlinear_arith)
                requires
                    chunks@.len() == k + 1,
            ;
        }
    }
    proof {
        let k = chunks@.len() as int;
        if total_elements == 0 {
            lemma_div_up_bounds(0, cap as int);
        } else {
            assert(k >= 1 ==> (k - 1) * cap < total_elements);
            assert(total_elements <= k * cap);
            assert(k >= 1) by {
                if k == 0 {
                    assert(0 * (cap as int) == 0) by (nonlinear_arith);
                }
            }
            lemma_div_up_unique(total_elements as int, cap as int, k);
        }
    }
    chunks
}

} // verus!
