use vecadd::chunk_plan::plan_chunks;
use vecadd::dispatch_plan::plan_dispatches;

// Chunk capacity used below: 16 bytes / 4 bytes per element = 4 elements.

#[test]
fn chunk_plan_zero_elements_yields_zero_chunks() {
    let chunks = plan_chunks(0, 4, 16);
    assert_eq!(chunks.len(), 0);
}

#[test]
fn chunk_plan_exact_capacity_yields_one_chunk() {
    let chunks = plan_chunks(4, 4, 16);
    assert_eq!(chunks.len(), 1);
    assert_eq!(chunks[0].start, 0);
    assert_eq!(chunks[0].end, 4);
}

#[test]
fn chunk_plan_one_over_capacity_yields_two_chunks_second_of_size_one() {
    let chunks = plan_chunks(5, 4, 16);
    assert_eq!(chunks.len(), 2);
    assert_eq!(chunks[0].start, 0);
    assert_eq!(chunks[0].end, 4);
    assert_eq!(chunks[1].start, 4);
    assert_eq!(chunks[1].end, 5);
}

#[test]
fn chunk_plan_rounds_capacity_down() {
    // 18 bytes hold four 4-byte elements, the 2 leftover bytes count for nothing.
    let chunks = plan_chunks(8, 4, 18);
    assert_eq!(chunks.len(), 2);
    assert_eq!(chunks[0].end, 4);
}

#[test]
fn chunk_plan_under_reference_buffer_ceiling() {
    // 134,217,728 bytes / 4 bytes per element = 33,554,432 elements per chunk.
    let chunks = plan_chunks(50_000_000, 4, 134_217_728);
    assert_eq!(chunks.len(), 2);
    assert_eq!(chunks[0].start, 0);
    assert_eq!(chunks[0].end, 33_554_432);
    assert_eq!(chunks[1].start, 33_554_432);
    assert_eq!(chunks[1].end, 50_000_000);
}

#[test]
fn dispatch_plan_zero_elements_yields_zero_dispatches() {
    let ds = plan_dispatches(0, 2, 3);
    assert_eq!(ds.len(), 0);
}

#[test]
fn dispatch_plan_single_dispatch_rounds_workgroups_up() {
    // 5 elements at 2 per workgroup need 3 workgroups; the cap of 4 is not hit.
    let ds = plan_dispatches(5, 2, 4);
    assert_eq!(ds.len(), 1);
    assert_eq!(ds[0].offset, 0);
    assert_eq!(ds[0].workgroup_count, 3);
}

#[test]
fn dispatch_plan_one_over_stride_yields_two_entries_second_of_one_workgroup() {
    // One element past workgroup_size * max_workgroups forces a second
    // dispatch covering a single workgroup.
    let wg = 2;
    let maxw = 3;
    let ds = plan_dispatches(wg * maxw + 1, wg, maxw);
    assert_eq!(ds.len(), 2);
    assert_eq!(ds[0].offset, 0);
    assert_eq!(ds[0].workgroup_count, maxw);
    assert_eq!(ds[1].offset, wg * maxw);
    assert_eq!(ds[1].workgroup_count, 1);
}

#[test]
fn dispatch_plan_exact_stride_yields_one_full_dispatch() {
    let ds = plan_dispatches(6, 2, 3);
    assert_eq!(ds.len(), 1);
    assert_eq!(ds[0].offset, 0);
    assert_eq!(ds[0].workgroup_count, 3);
}

#[test]
fn dispatch_plan_under_reference_workgroup_ceiling() {
    // 1,000,000 elements at 256 per workgroup need 3,907 workgroups: a single
    // dispatch under the 65,535 ceiling.
    let ds = plan_dispatches(1_000_000, 256, 65_535);
    assert_eq!(ds.len(), 1);
    assert_eq!(ds[0].workgroup_count, 3_907);

    // A full chunk of 33,554,432 elements needs 131,072 workgroups: three
    // dispatches, the last covering the remaining 2 workgroups.
    let ds = plan_dispatches(33_554_432, 256, 65_535);
    assert_eq!(ds.len(), 3);
    assert_eq!(ds[0].workgroup_count, 65_535);
    assert_eq!(ds[1].workgroup_count, 65_535);
    assert_eq!(ds[1].offset, 256 * 65_535);
    assert_eq!(ds[2].workgroup_count, 2);
}
