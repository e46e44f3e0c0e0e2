use vstd::prelude::*;
use crate::chunk_plan::Chunk;
use crate::chunk_plan::chunk_end_at;
use crate::chunk_plan::is_chunk_plan;
use crate::chunk_plan::lemma_chunk_plan_properties;
use crate::chunk_plan::lemma_div_up_bounds;
use crate::chunk_plan::max_chunk_elements;
use crate::chunk_plan::plan_chunks;
use crate::dispatch_plan::Dispatch;
use crate::dispatch_plan::dispatch_count;
use crate::dispatch_plan::is_dispatch_plan;
use crate::dispatch_plan::plan_dispatches;
use crate::errors::VecAddError;

verus! {

/// Hardware ceilings the engine plans against: the byte size a single storage
/// buffer may have, the elements one workgroup processes, and the workgroups
/// one dispatch may cover. They are policy values handed in by the caller,
/// not queried from the device.
#[derive(Clone, Copy, Debug, PartialEq, Eq, Structural)]
pub struct ExecLimits {
    pub max_buffer_bytes: usize,
    pub workgroup_size: usize,
    pub max_workgroups_per_dispatch: usize,
}

impl ExecLimits {
    /// The ceilings the engine can plan under.
    pub open spec fn wf(self) -> bool {
        &&& self.max_buffer_bytes >= crate::ELEMENT_BYTES
        &&& self.workgroup_size >= 1
        &&& self.max_workgroups_per_dispatch >= 1
        &&& self.workgroup_size * self.max_workgroups_per_dispatch <= usize::MAX
    }

    /// Elements that fit one buffer under the byte ceiling.
    pub open spec fn chunk_capacity(self) -> int {
        max_chunk_elements(self.max_buffer_bytes as int, crate::ELEMENT_BYTES as int)
    }

    /// A well-formed limit set has room for at least one element per chunk.
    pub proof fn lemma_capacity_pos(self)
        requires
            self.wf(),
        ensures
            self.chunk_capacity() >= 1,
    {
        assert(self.max_buffer_bytes as int / crate::ELEMENT_BYTES as int >= 1)
            by (nonlinear_arith)
            requires
                self.max_buffer_bytes >= crate::ELEMENT_BYTES,
                crate::ELEMENT_BYTES >= 1,
        ;
    }

    /// The reference ceilings: 128 MiB storage buffers, 256 elements per
    /// workgroup, 65535 workgroups per dispatch.
    pub fn reference() -> (r: ExecLimits)
        ensures
            r.wf(),
            r.max_buffer_bytes == 134217728,
            r.workgroup_size == 256,
            r.max_workgroups_per_dispatch == 65535,
    {
        ExecLimits {
            max_buffer_bytes: 134217728,
            workgroup_size: 256,
            max_workgroups_per_dispatch: 65535,
        }
    }
}

/// Elements of the first `k` chunks together: `min(total, k * cap)`.
pub open spec fn covered_len(total: int, cap: int, k: int) -> int {
    if total <= k * cap {
        total
    } else {
        k * cap
    }
}

/// Checks that the two input vectors (as element bit patterns) have the same
/// length. `InputError` exactly when they differ.
pub fn validate_vectors(a: &Vec<u32>, b: &Vec<u32>) -> (r: Result<(), VecAddError>)
    ensures
        r is Ok <==> a@.len() == b@.len(),
        r is Err ==> r == Err::<(), VecAddError>(VecAddError::InputError),
{
    if a.len() != b.len() {
        Err(VecAddError::InputError)
    } else {
        Ok(())
    }
}

/// One engine invocation, driven chunk by chunk.
///
/// The session owns the two input vectors (element bit patterns), the chunk
/// plan over their length, and the result accumulator. The caller repeatedly
/// takes the next chunk, has the device compute it, and pushes the chunk's
/// result; the accumulator grows strictly in chunk order, so the finished
/// result is exactly the concatenation of the chunk results. The session
/// itself requests no device resource.
pub struct AddSession {
    pub a: Vec<u32>,
    pub b: Vec<u32>,
    pub limits: ExecLimits,
    pub chunks: Vec<Chunk>,
    pub next: usize,
    pub acc: Vec<u32>,
}

impl AddSession {
    /// Total number of elements of either input.
    pub open spec fn total(self) -> int {
        self.a@.len() as int
    }

    /// Elements per chunk under the session's limits.
    pub open spec fn cap(self) -> int {
        self.limits.chunk_capacity()
    }

    /// Well-formedness: equal input lengths, the chunk plan of that length,
    /// and an accumulator holding exactly the chunks already pushed.
    pub open spec fn wf(self) -> bool {
        &&& self.limits.wf()
        &&& self.a@.len() == self.b@.len()
        &&& is_chunk_plan(self.chunks@, self.total(), self.cap())
        &&& self.next <= self.chunks@.len()
        &&& self.acc@.len() == covered_len(self.total(), self.cap(), self.next as int)
    }

    /// Starts an engine invocation over two inputs. Fails with `InputError`
    /// exactly when the lengths differ; the check happens before any device
    /// resource could be requested, and a fresh session has an empty
    /// accumulator and all chunks still to do.
    pub fn begin(a: Vec<u32>, b: Vec<u32>, limits: ExecLimits) -> (r: Result<
        AddSession,
        VecAddError,
    >)
        requires
            limits.wf(),
        ensures
            match r {
                Ok(s) => {
                    &&& a@.len() == b@.len()
                    &&& s.wf()
                    &&& s.a@ == a@
                    &&& s.b@ == b@
                    &&& s.limits == limits
                    &&& s.next == 0
                    &&& s.acc@.len() == 0
                },
                Err(e) => a@.len() != b@.len() && e == VecAddError::InputError,
            },
    {
        if a.len() != b.len() {
            return Err(VecAddError::InputError);
        }
        let chunks = plan_chunks(a.len(), crate::ELEMENT_BYTES, limits.max_buffer_bytes);
        proof {
            assert(0 * limits.chunk_capacity() == 0) by (nonlinear_arith);
        }
        Ok(AddSession { a, b, limits, chunks, next: 0, acc: Vec::new() })
    }

    /// Length the finished result will have.
    pub fn total_len(&self) -> (r: usize)
        ensures
            r == self.a@.len(),
    {
        self.a.len()
    }

    /// Whether every chunk's result has been pushed.
    pub fn is_done(&self) -> (r: bool)
        requires
            self.wf(),
        ensures
            r <==> self.next == self.chunks@.len(),
    {
        self.next == self.chunks.len()
    }

    /// The chunk to execute next, in ascending order; `None` once all chunks
    /// are done.
    pub fn next_chunk(&self) -> (r: Option<Chunk>)
        requires
            self.wf(),
        ensures
            self.next < self.chunks@.len() ==> r == Some(self.chunks@[self.next as int]),
            self.next >= self.chunks@.len() ==> r is None,
    {
        if self.next < self.chunks.len() {
            Some(self.chunks[self.next])
        } else {
            None
        }
    }

    /// The current chunk's slice of input A, for upload to the device.
    pub fn chunk_input_a(&self) -> (r: Vec<u32>)
        requires
            self.wf(),
            self.next < self.chunks@.len(),
        ensures
            r@ == self.a@.subrange(
                self.chunks@[self.next as int].start as int,
                self.chunks@[self.next as int].end as int,
            ),
    {
        proof {
            self.limits.lemma_capacity_pos();
            lemma_chunk_plan_properties(self.chunks@, self.total(), self.cap());
        }
        copy_range(&self.a, self.chunks[self.next].start, self.chunks[self.next].end)
    }

    /// The current chunk's slice of input B, for upload to the device.
    pub fn chunk_input_b(&self) -> (r: Vec<u32>)
        requires
            self.wf(),
            self.next < self.chunks@.len(),
        ensures
            r@ == self.b@.subrange(
                self.chunks@[self.next as int].start as int,
                self.chunks@[self.next as int].end as int,
            ),
    {
        proof {
            self.limits.lemma_capacity_pos();
            lemma_chunk_plan_properties(self.chunks@, self.total(), self.cap());
        }
        copy_range(&self.b, self.chunks[self.next].start, self.chunks[self.next].end)
    }

    /// The dispatch plan of the current chunk, under the session's workgroup
    /// ceilings.
    pub fn chunk_dispatches(&self) -> (ds: Vec<Dispatch>)
        requires
            self.wf(),
            self.next < self.chunks@.len(),
        ensures
            is_dispatch_plan(
                ds@,
                self.chunks@[self.next as int].size(),
                self.limits.workgroup_size as int,
                self.limits.max_workgroups_per_dispatch as int,
            ),
    {
        proof {
            self.limits.lemma_capacity_pos();
            lemma_chunk_plan_properties(self.chunks@, self.total(), self.cap());
        }
        let chunk = self.chunks[self.next];
        plan_dispatches(
            chunk.len(),
            self.limits.workgroup_size,
            self.limits.max_workgroups_per_dispatch,
        )
    }

    /// Appends the device's result for the current chunk, exactly chunk-sized,
    /// and moves on to the next chunk. The accumulator grows by precisely the
    /// pushed data, in order.
    pub fn push_chunk_result(&mut self, data: Vec<u32>)
        requires
            old(self).wf(),
            old(self).next < old(self).chunks@.len(),
            data@.len() == old(self).chunks@[old(self).next as int].size(),
        ensures
            final(self).wf(),
            final(self).a@ == old(self).a@,
            final(self).b@ == old(self).b@,
            final(self).limits == old(self).limits,
            final(self).chunks@ == old(self).chunks@,
            final(self).next == old(self).next + 1,
            final(self).acc@ == old(self).acc@ + data@,
    {
        proof {
            let t = self.total();
            let c = self.cap();
            let k = self.next as int;
            let kk = self.chunks@.len() as int;
            self.limits.lemma_capacity_pos();
            lemma_div_up_bounds(t, c);
            assert(k * c <= (kk - 1) * c) by (nonlinear_arith)
                requires
                    k <= kk - 1,
                    c >= 1,
            ;
            assert(covered_len(t, c, k) == k * c);
            assert(self.chunks@[k].start == k * c);
            assert(self.chunks@[k].end == chunk_end_at(t, c, k));
            assert(covered_len(t, c, k + 1) == chunk_end_at(t, c, k));
        }
        let chunk_total: usize = self.chunks.len();
        let mut data = data;
        self.acc.append(&mut data);
        assert(self.next < chunk_total);
        self.next = self.next + 1;
    }

    /// Hands the assembled result out once every chunk is done: the
    /// concatenation of the chunk results in chunk order, one element per
    /// input element.
    pub fn finish(self) -> (r: Vec<u32>)
        requires
            self.wf(),
            self.next == self.chunks@.len(),
        ensures
            r@ == self.acc@,
            r@.len() == self.a@.len(),
    {
        proof {
            self.limits.lemma_capacity_pos();
            lemma_div_up_bounds(self.total(), self.cap());
        }
        self.acc
    }

    /// Whether some chunk of this session's plan needs more than one
    /// dispatch, which is exactly when the kernel must expose the offset
    /// uniform binding.
    pub fn offset_binding_required(&self) -> (r: bool)
        requires
            self.wf(),
        ensures
            r <==> exists|i: int|
                0 <= i < self.chunks@.len() && dispatch_count(
                    (#[trigger] self.chunks@[i]).size(),
                    self.limits.workgroup_size as int,
                    self.limits.max_workgroups_per_dispatch as int,
                ) > 1,
    {
        let wg = self.limits.workgroup_size;
        let maxw = self.limits.max_workgroups_per_dispatch;
        let stride: usize = wg * maxw;
        proof {
            self.limits.lemma_capacity_pos();
            lemma_chunk_plan_properties(self.chunks@, self.total(), self.cap());
            assert(stride >= 1) by (nonlinear_arith)
                requires
                    wg >= 1,
                    maxw >= 1,
                    stride == wg as int * maxw as int,
        ;
        }
        if self.chunks.len() == 0 {
            return false;
        }
        let r = self.chunks[0].len() > stride;
        proof {
            let wgi = wg as int;
            let maxwi = maxw as int;
            let s0 = self.chunks@[0].size();
            lemma_dispatch_count_threshold(s0, wgi, maxwi);
            if r {
                assert(dispatch_count(s0, wgi, maxwi) > 1);
            } else {
                assert forall|i: int|
                    0 <= i < self.chunks@.len() implies dispatch_count(
                    (#[trigger] self.chunks@[i]).size(),
                    wgi,
                    maxwi,
                ) <= 1 by {
                    let si = self.chunks@[i].size();
                    assert(si <= self.cap());
                    assert(s0 <= self.cap());
                    if self.chunks@.len() == 1 {
                        assert(si == s0);
                    } else {
                        assert(s0 == self.cap());
                    }
                    lemma_dispatch_count_threshold(si, wgi, maxwi);
                }
            }
        }
        r
    }
}

/// The engine adds no nondeterminism of its own: two well-formed sessions
/// over inputs of the same length and under the same limits hold the same
/// chunk plan, so they hand out the same chunks in the same order; and since
/// a finished result is exactly the concatenation of the pushed chunk
/// results, invocations handed identical chunk results finish with bitwise
/// identical outputs. Only the device side could differ between runs.
pub proof fn lemma_session_plans_agree(s1: AddSession, s2: AddSession)
    requires
        s1.wf(),
        s2.wf(),
        s1.a@.len() == s2.a@.len(),
        s1.limits == s2.limits,
    ensures
        s1.chunks@ == s2.chunks@,
{
    crate::chunk_plan::lemma_chunk_plan_unique(s1.chunks@, s2.chunks@, s1.total(), s1.cap());
}

/// A chunk needs more than one dispatch exactly when it is larger than one
/// dispatch's element stride.
pub proof fn lemma_dispatch_count_threshold(n: int, workgroup_size: int, max_workgroups: int)
    requires
        n >= 0,
        workgroup_size >= 1,
        max_workgroups >= 1,
    ensures
        dispatch_count(n, workgroup_size, max_workgroups) > 1 <==> n > workgroup_size
            * max_workgroups,
{
    let stride = workgroup_size * max_workgroups;
    assert(stride >= 1) by (nonlinear_arith)
        requires
            workgroup_size >= 1,
            max_workgroups >= 1,
            stride == workgroup_size * max_workgroups,
    ;
    lemma_div_up_bounds(n, stride);
    let q = dispatch_count(n, workgroup_size, max_workgroups);
    assert(q > 1 ==> n > stride) by (nonlinear_arith)
        requires
            stride >= 1,
            (q - 1) * stride < n,
            q > 1 ==> (q - 1) >= 1,
    ;
    assert(n > stride ==> q > 1) by (nonlinear_arith)
        requires
            stride >= 1,
            n <= q * stride,
    ;
}

/// The element index a dispatch starts at, as the 32-bit value the kernel's
/// offset uniform carries; `None` where it does not fit 32 bits. The bound
/// buffers hold only the current chunk's slices, so the offset counts from
/// the chunk's first element: it is the dispatch's chunk-relative start,
/// which recovers the correct index into the slice buffers when a chunk
/// takes more than one dispatch.
pub fn uniform_offset(d: &Dispatch) -> (r: Option<u32>)
    ensures
        d.offset <= u32::MAX ==> r == Some(d.offset as u32),
        d.offset > u32::MAX ==> r is None,
{
    if d.offset > u32::MAX as usize {
        return None;
    }
    Some(d.offset as u32)
}

/// Copy of `v[start..end]`.
fn copy_range(v: &Vec<u32>, start: usize, end: usize) -> (r: Vec<u32>)
    requires
        start <= end,
        end <= v@.len(),
    ensures
        r@ == v@.subrange(start as int, end as int),
{
    let mut r: Vec<u32> = Vec::new();
    let mut k: usize = start;
    while k < end
        invariant
            start <= k <= end,
            end <= v@.len(),
            r@.len() == k - start,
            forall|i: int| 0 <= i < r@.len() ==> r@[i] == v@[start + i],
        decreases end - k,
    {
        r.push(v[k]);
        k = k + 1;
    }
    proof {
        assert(r@ =~= v@.subrange(start as int, end as int));
    }
    r
}

} // verus!
