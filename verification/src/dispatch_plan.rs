use vstd::prelude::*;
use crate::chunk_plan::div_up;
use crate::chunk_plan::lemma_div_up_bounds;
use crate::chunk_plan::lemma_div_up_unique;

verus! {

/// One kernel dispatch within a chunk: it covers `workgroup_count` workgroups
/// starting at element `offset` (counted from the chunk's first element).
#[derive(Clone, Copy, Debug, PartialEq, Eq, Structural)]
pub struct Dispatch {
    pub offset: usize,
    pub workgroup_count: usize,
}

/// Elements one full dispatch covers: `workgroup_size` elements per workgroup,
/// at most `max_workgroups` workgroups.
pub open spec fn dispatch_stride(workgroup_size: int, max_workgroups: int) -> int {
    workgroup_size * max_workgroups
}

/// Number of dispatches a chunk of `n` elements needs.
pub open spec fn dispatch_count(n: int, workgroup_size: int, max_workgroups: int) -> int {
    div_up(n, dispatch_stride(workgroup_size, max_workgroups))
}

/// Workgroups of dispatch `i`: enough for the elements still uncovered,
/// capped at `max_workgroups`.
pub open spec fn dispatch_workgroups_at(n: int, workgroup_size: int, max_workgroups: int, i: int)
    -> int {
    let remaining = n - i * dispatch_stride(workgroup_size, max_workgroups);
    if div_up(remaining, workgroup_size) < max_workgroups {
        div_up(remaining, workgroup_size)
    } else {
        max_workgroups
    }
}

/// What a dispatch plan is: greedy left-to-right, each dispatch taking
/// `min(ceil(remaining / workgroup_size), max_workgroups)` workgroups.
pub open spec fn is_dispatch_plan(
    ds: Seq<Dispatch>,
    n: int,
    workgroup_size: int,
    max_workgroups: int,
) -> bool {
    &&& ds.len() == dispatch_count(n, workgroup_size, max_workgroups)
    &&& forall|i: int|
        0 <= i < ds.len() ==> (#[trigger] ds[i]).offset == i * dispatch_stride(
            workgroup_size,
            max_workgroups,
        )
    &&& forall|i: int|
        0 <= i < ds.len() ==> (#[trigger] ds[i]).workgroup_count == dispatch_workgroups_at(
            n,
            workgroup_size,
            max_workgroups,
            i,
        )
}

/// The invariants of a dispatch plan: every entry takes between 1 and
/// `max_workgroups` workgroups, entries are contiguous in element coverage,
/// and together they cover `[0, n)` exactly, the final workgroup alone
/// possibly reaching past `n` by less than one workgroup.
pub proof fn lemma_dispatch_plan_properties(
    ds: Seq<Dispatch>,
    n: int,
    workgroup_size: int,
    max_workgroups: int,
)
    requires
        n >= 0,
        workgroup_size >= 1,
        max_workgroups >= 1,
        is_dispatch_plan(ds, n, workgroup_size, max_workgroups),
    ensures
        n == 0 ==> ds.len() == 0,
        n >= 1 ==> ds.len() >= 1,
        forall|i: int|
            0 <= i < ds.len() ==> 1 <= (#[trigger] ds[i]).workgroup_count <= max_workgroups,
        forall|i: int|
            0 <= i < ds.len() - 1 ==> (#[trigger] ds[i]).offset + ds[i].workgroup_count
                * workgroup_size == ds[i + 1].offset,
        ds.len() >= 1 ==> ds[0].offset == 0,
        ds.len() >= 1 ==> n <= ds[ds.len() - 1].offset + ds[ds.len() - 1].workgroup_count
            * workgroup_size,
        ds.len() >= 1 ==> ds[ds.len() - 1].offset + (ds[ds.len() - 1].workgroup_count - 1)
            * workgroup_size < n,
{
    let wg = workgroup_size;
    let maxw = max_workgroups;
    let stride = dispatch_stride(wg, maxw);
    assert(stride >= 1) by (nonlinear_arith)
        requires
            wg >= 1,
            maxw >= 1,
            stride == wg * maxw,
    ;
    lemma_div_up_bounds(n, stride);
    let k = ds.len() as int;
    assert(n <= k * stride);
    assert((k - 1) * stride < n);
    assert forall|i: int| 0 <= i < k implies 1 <= (#[trigger] ds[i]).workgroup_count
        <= max_workgroups by {
        let remaining = n - i * stride;
        assert(0 < remaining) by (nonlinear_arith)
            requires
                stride >= 1,
                0 <= i <= k - 1,
                (k - 1) * stride < n,
                remaining == n - i * stride,
        ;
        lemma_div_up_bounds(remaining, wg);
        let q = div_up(remaining, wg);
        assert(q >= 1);
        assert(ds[i].workgroup_count == if q < maxw {
            q
        } else {
            maxw
        });
    }
    assert forall|i: int| 0 <= i < k - 1 implies (#[trigger] ds[i]).offset + ds[i].workgroup_count
        * workgroup_size == ds[i + 1].offset by {
        let remaining = n - i * stride;
        assert(stride < remaining) by (nonlinear_arith)
            requires
                stride >= 1,
                0 <= i <= k - 2,
                (k - 1) * stride < n,
                remaining == n - i * stride,
        ;
        lemma_div_up_bounds(remaining, wg);
        let q = div_up(remaining, wg);
        assert(remaining <= q * wg);
        assert(q >= maxw) by (nonlinear_arith)
            requires
                wg >= 1,
                maxw >= 1,
                stride == wg * maxw,
                stride < remaining,
                remaining <= q * wg,
        ;
        assert(ds[i].workgroup_count == maxw);
        assert(i * stride + maxw * wg == (i + 1) * stride) by (nonlinear_arith)
            requires
                stride == wg * maxw,
        ;
    }
    if k >= 1 {
        assert(ds[0].offset == 0 * stride);
        assert(0 * stride == 0) by (nonlinear_arith);
        let last = k - 1;
        let remaining = n - last * stride;
        assert(0 < remaining);
        assert(remaining <= stride) by (nonlinear_arith)
            requires
                stride >= 1,
                n <= k * stride,
                remaining == n - (k - 1) * stride,
        ;
        lemma_div_up_bounds(remaining, wg);
        let q = div_up(remaining, wg);
        assert(remaining <= q * wg);
        assert((q - 1) * wg < remaining);
        assert(q <= maxw) by (nonlinear_arith)
            requires
                wg >= 1,
                maxw >= 1,
                stride == wg * maxw,
                remaining <= stride,
                (q - 1) * wg < remaining,
        ;
        assert(ds[last].workgroup_count == q);
        assert(n <= last * stride + q * wg);
        assert(last * stride + (q - 1) * wg < n);
    }
}

/// A dispatch plan is unique: it is a function of the chunk size and the two
/// workgroup ceilings alone, so planning the same chunk twice splits it
/// identically.
pub proof fn lemma_dispatch_plan_unique(
    d1: Seq<Dispatch>,
    d2: Seq<Dispatch>,
    n: int,
    workgroup_size: int,
    max_workgroups: int,
)
    requires
        is_dispatch_plan(d1, n, workgroup_size, max_workgroups),
        is_dispatch_plan(d2, n, workgroup_size, max_workgroups),
    ensures
        d1 == d2,
{
    assert forall|i: int| 0 <= i < d1.len() implies d1[i] == d2[i] by {
        assert(d1[i].offset == i * dispatch_stride(workgroup_size, max_workgroups));
        assert(d2[i].offset == i * dispatch_stride(workgroup_size, max_workgroups));
        assert(d1[i].workgroup_count == dispatch_workgroups_at(
            n,
            workgroup_size,
            max_workgroups,
            i,
        ));
        assert(d2[i].workgroup_count == dispatch_workgroups_at(
            n,
            workgroup_size,
            max_workgroups,
            i,
        ));
    }
    assert(d1 =~= d2);
}

/// Splits one chunk of `chunk_element_count` elements into an ordered dispatch
/// plan: greedy left-to-right, each dispatch taking
/// `min(ceil(remaining / workgroup_size), max_workgroups_per_dispatch)`
/// workgroups and advancing the element offset by that many workgroups'
/// elements. Zero elements yield zero dispatches.
pub fn plan_dispatches(
    chunk_element_count: usize,
    workgroup_size: usize,
    max_workgroups_per_dispatch: usize,
) -> (ds: Vec<Dispatch>)
    requires
        workgroup_size >= 1,
        max_workgroups_per_dispatch >= 1,
        workgroup_size * max_workgroups_per_dispatch <= usize::MAX,
    ensures
        is_dispatch_plan(
            ds@,
            chunk_element_count as int,
            workgroup_size as int,
            max_workgroups_per_dispatch as int,
        ),
{
    let n = chunk_element_count;
    let wg = workgroup_size;
    let maxw = max_workgroups_per_dispatch;
    let stride: usize = wg * maxw;
    proof {
        assert(stride >= 1) by (nonlinear_arith)
            requires
                wg >= 1,
                maxw >= 1,
                stride == wg as int * maxw as int,
        ;
    }
    let ghost stride_i = dispatch_stride(wg as int, maxw as int);
    let mut ds: Vec<Dispatch> = Vec::new();
    let mut offset: usize = 0;
    while offset < n
        invariant
            wg >= 1,
            maxw >= 1,
            n == chunk_element_count,
            stride == stride_i,
            stride_i == dispatch_stride(wg as int, maxw as int),
            stride >= 1,
            offset <= n,
            offset == if n <= ds@.len() * stride_i {
                n as int
            } else {
                ds@.len() * stride_i
            },
            ds@.len() >= 1 ==> (ds@.len() - 1) * stride_i < n,
            forall|i: int| 0 <= i < ds@.len() ==> (#[trigger] ds@[i]).offset == i * stride_i,
            forall|i: int|
                0 <= i < ds@.len() ==> (#[trigger] ds@[i]).workgroup_count
                    == dispatch_workgroups_at(n as int, wg as int, maxw as int, i),
        decreases n - offset,
    {
        let ghost k = ds@.len() as int;
        assert(offset == k * stride_i);
        let remaining: usize = n - offset;
        let groups_needed: usize = (remaining - 1) / wg + 1;
        assert(groups_needed == div_up(remaining as int, wg as int)) by {
            assert((remaining - 1) as int / wg as int + 1 == (remaining + wg - 1) as int
                / wg as int) by (nonlinear_arith)
                requires
                    wg >= 1,
                    remaining >= 1,
            ;
        }
        let take: usize = if groups_needed < maxw {
            groups_needed
        } else {
            maxw
        };
        assert(take == dispatch_workgroups_at(n as int, wg as int, maxw as int, k));
        ds.push(Dispatch { offset, workgroup_count: take });
        assert(take * wg <= stride) by (nonlinear_arith)
            requires
                take <= maxw,
                wg >= 1,
                stride == wg as int * maxw as int,
        ;
        let consumed: usize = take * wg;
        if consumed >= remaining {
            offset = n;
            proof {
                assert(ds@.len() * stride_i >= n) by (nonlinear_arith)
                    requires
                        ds@.len() == k + 1,
                        k >= 0,
                        stride_i >= 1,
                        consumed <= stride_i,
                        consumed >= remaining,
                        remaining == n - k * stride_i,
                ;
            }
        } else {
            proof {
                if take < maxw {
                    assert(take == div_up(remaining as int, wg as int));
                    lemma_div_up_bounds(remaining as int, wg as int);
                    assert(remaining <= take * wg);
                    assert(false);
                }
                assert(take == maxw);
                assert(consumed == stride) by (nonlinear_arith)
                    requires
                        consumed == take * wg,
                        take == maxw,
                        stride == wg as int * maxw as int,
                ;
            }
            offset = offset + consumed;
            proof {
                assert(offset == (k + 1) * stride_i) by (nonlinear_arith)
                    requires
                        offset == k * stride_i + stride_i,
                ;
            }
        }
        proof {
            assert(ds@.len() * stride_i == k * stride_i + stride_i) by (nonlinear_arith)
                requires
                    ds@.len() == k + 1,
            ;
        }
    }
    proof {
        let k = ds@.len() as int;
        if n == 0 {
            lemma_div_up_bounds(0, stride_i);
        } else {
            assert(k >= 1) by {
                if k == 0 {
                    assert(0 * stride_i == 0) by (nonlinear_arith);
                }
            }
            lemma_div_up_unique(n as int, stride_i, k);
        }
    }
    ds
}

} // verus!
