use vecadd::engine::uniform_offset;
use vecadd::engine::validate_vectors;
use vecadd::engine::AddSession;
use vecadd::engine::ExecLimits;
use vecadd::errors::VecAddError;

/// Elementwise sum on the host, the reference the engine's output is held to.
fn add_vectors_cpu(a: &[f32], b: &[f32]) -> Vec<f32> {
    a.iter().zip(b.iter()).map(|(x, y)| x + y).collect()
}

/// Drives a whole engine invocation, standing in for the device: each chunk's
/// result is computed on the host from exactly the chunk slices the session
/// hands out, and pushed back in order.
fn drive_session(a: &[f32], b: &[f32], limits: ExecLimits) -> Result<Vec<f32>, VecAddError> {
    let a_bits: Vec<u32> = a.iter().map(|x| x.to_bits()).collect();
    let b_bits: Vec<u32> = b.iter().map(|x| x.to_bits()).collect();
    let mut session = AddSession::begin(a_bits, b_bits, limits)?;
    while let Some(_chunk) = session.next_chunk() {
        let ca = session.chunk_input_a();
        let cb = session.chunk_input_b();
        let data: Vec<u32> = ca
            .iter()
            .zip(cb.iter())
            .map(|(x, y)| (f32::from_bits(*x) + f32::from_bits(*y)).to_bits())
            .collect();
        session.push_chunk_result(data);
    }
    Ok(session.finish().into_iter().map(f32::from_bits).collect())
}

fn small_limits(max_buffer_bytes: usize) -> ExecLimits {
    ExecLimits {
        max_buffer_bytes,
        workgroup_size: 2,
        max_workgroups_per_dispatch: 3,
    }
}

#[test]
fn validate_vectors_accepts_equal_lengths() {
    let a: Vec<u32> = vec![1, 2, 3];
    let b: Vec<u32> = vec![4, 5, 6];
    assert_eq!(validate_vectors(&a, &b), Ok(()));
}

#[test]
fn validate_vectors_rejects_length_mismatch() {
    let a: Vec<u32> = vec![1, 2, 3];
    let b: Vec<u32> = vec![4, 5];
    assert_eq!(validate_vectors(&a, &b), Err(VecAddError::InputError));
}

#[test]
fn begin_rejects_length_mismatch_before_any_chunk_exists() {
    let a: Vec<u32> = vec![0; 3];
    let b: Vec<u32> = vec![0; 4];
    let r = AddSession::begin(a, b, ExecLimits::reference());
    assert!(matches!(r, Err(VecAddError::InputError)));
}

#[test]
fn empty_input_finishes_immediately_with_empty_result() {
    let r = drive_session(&[], &[], ExecLimits::reference()).unwrap();
    assert_eq!(r.len(), 0);
}

#[test]
fn single_chunk_fixed_input() {
    let a = vec![1.0f32; 1000];
    let b = vec![1.0f32; 1000];
    let r = drive_session(&a, &b, ExecLimits::reference()).unwrap();
    let cpu = add_vectors_cpu(&a, &b);
    assert_eq!(r.len(), 1000);
    assert_eq!(cpu.len(), 1000);
    for i in 0..r.len() {
        assert!((r[i] - cpu[i]).abs() <= 1e-6);
        assert!((r[i] - 2.0).abs() <= 1e-6);
    }
}

#[test]
fn multi_chunk_assembly_matches_cpu_exactly() {
    // Capacity of 4 elements forces three chunks over 10 elements; the result
    // must tile the seams with no element duplicated or dropped.
    let a: Vec<f32> = (0..10).map(|i| i as f32 * 1.5).collect();
    let b: Vec<f32> = (0..10).map(|i| 100.0 - i as f32).collect();
    let r = drive_session(&a, &b, small_limits(16)).unwrap();
    let cpu = add_vectors_cpu(&a, &b);
    assert_eq!(r.len(), 10);
    for i in 0..10 {
        assert_eq!(r[i].to_bits(), cpu[i].to_bits());
    }
}

#[test]
fn dispatch_splitting_does_not_change_the_result() {
    // 20 elements in one chunk of capacity 32, but a dispatch stride of
    // 2 * 3 = 6 elements: four dispatches within the chunk.
    let a: Vec<f32> = (0..20).map(|i| i as f32).collect();
    let b: Vec<f32> = (0..20).map(|i| -(i as f32)).collect();
    let limits = small_limits(128);
    let r = drive_session(&a, &b, limits).unwrap();
    let cpu = add_vectors_cpu(&a, &b);
    assert_eq!(r.len(), 20);
    for i in 0..20 {
        assert_eq!(r[i].to_bits(), cpu[i].to_bits());
    }
}

#[test]
fn identical_runs_give_bitwise_identical_outputs() {
    let a: Vec<f32> = (0..50).map(|i| 0.1 * i as f32).collect();
    let b: Vec<f32> = (0..50).map(|i| 0.3 * i as f32).collect();
    let r1 = drive_session(&a, &b, small_limits(16)).unwrap();
    let r2 = drive_session(&a, &b, small_limits(16)).unwrap();
    assert_eq!(r1.len(), r2.len());
    for i in 0..r1.len() {
        assert_eq!(r1[i].to_bits(), r2[i].to_bits());
    }
}

#[test]
fn session_walks_chunks_in_ascending_order() {
    let a: Vec<u32> = (0..10u32).collect();
    let b: Vec<u32> = (0..10u32).collect();
    let mut session = AddSession::begin(a, b, small_limits(16)).unwrap();
    let mut starts: Vec<usize> = Vec::new();
    while let Some(chunk) = session.next_chunk() {
        starts.push(chunk.start);
        let n = session.chunk_input_a().len();
        assert_eq!(n, chunk.end - chunk.start);
        session.push_chunk_result(vec![0; n]);
    }
    assert!(session.is_done());
    assert_eq!(starts, vec![0, 4, 8]);
    assert_eq!(session.finish().len(), 10);
}

#[test]
fn pushed_chunk_results_land_at_their_chunk_offsets() {
    // 10 elements, capacity 4: chunks [0,4), [4,8), [8,10). Each pushed
    // result must stand, untouched, at its own chunk's offsets.
    let a: Vec<u32> = vec![0; 10];
    let b: Vec<u32> = vec![0; 10];
    let mut session = AddSession::begin(a, b, small_limits(16)).unwrap();
    let pieces: [&[u32]; 3] = [&[10, 11, 12, 13], &[20, 21, 22, 23], &[30, 31]];
    let mut i = 0;
    while let Some(chunk) = session.next_chunk() {
        assert_eq!(pieces[i].len(), chunk.end - chunk.start);
        session.push_chunk_result(pieces[i].to_vec());
        i += 1;
    }
    assert_eq!(
        session.finish(),
        vec![10, 11, 12, 13, 20, 21, 22, 23, 30, 31]
    );
}

#[test]
fn chunk_dispatches_follow_the_session_limits() {
    // 7 elements, stride 6: the single chunk of capacity 8 needs 2 dispatches.
    let a: Vec<u32> = vec![0; 7];
    let b: Vec<u32> = vec![0; 7];
    let session = AddSession::begin(a, b, small_limits(32)).unwrap();
    assert!(session.offset_binding_required());
    let ds = session.chunk_dispatches();
    assert_eq!(ds.len(), 2);
    assert_eq!(ds[0].workgroup_count, 3);
    assert_eq!(ds[1].offset, 6);
    assert_eq!(ds[1].workgroup_count, 1);
}

#[test]
fn offset_binding_not_required_for_single_dispatch_plans() {
    let a: Vec<u32> = vec![0; 6];
    let b: Vec<u32> = vec![0; 6];
    let session = AddSession::begin(a, b, small_limits(32)).unwrap();
    assert!(!session.offset_binding_required());
}

#[test]
fn uniform_offset_is_the_chunk_relative_dispatch_start() {
    // 7 elements at stride 6: the second dispatch starts at element 6 of the
    // chunk, and that chunk-relative index is what the kernel's uniform
    // carries — the bound buffers hold only the chunk's slice, whichever
    // chunk of the whole vector it is.
    let ds = vecadd::dispatch_plan::plan_dispatches(7, 2, 3);
    assert_eq!(uniform_offset(&ds[0]), Some(0));
    assert_eq!(uniform_offset(&ds[1]), Some(6));

    let d = vecadd::dispatch_plan::Dispatch {
        offset: u32::MAX as usize + 1,
        workgroup_count: 1,
    };
    assert_eq!(uniform_offset(&d), None);
}
