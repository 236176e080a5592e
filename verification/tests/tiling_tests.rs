use tiff_locator::tiling::{
    plan_tiles, validate_tile, SchedulerStep, TileCheck, TileError, TileScheduler,
};

#[test]
fn plan_covers_cross_product_exactly_once() {
    for &(n_ids, n_files, chunk, file_chunk) in
        &[(5usize, 7usize, 2usize, 3usize), (1, 1, 64, 256), (10, 4, 3, 10), (64, 300, 64, 256)]
    {
        let tiles = plan_tiles(n_ids, n_files, chunk, file_chunk, u64::MAX);
        let mut covered = vec![0u32; n_ids * n_files];
        for t in &tiles {
            assert!(t.id_len >= 1 && t.file_len >= 1);
            assert!(t.id_start + t.id_len <= n_ids);
            assert!(t.file_start + t.file_len <= n_files);
            for q in t.id_start..t.id_start + t.id_len {
                for f in t.file_start..t.file_start + t.file_len {
                    covered[q * n_files + f] += 1;
                }
            }
        }
        assert!(covered.iter().all(|&c| c == 1), "coverage failed for {}x{}", n_ids, n_files);
    }
}

#[test]
fn empty_cross_product_needs_no_tiles() {
    assert_eq!(plan_tiles(0, 10, 64, 256, u64::MAX).len(), 0);
    assert_eq!(plan_tiles(10, 0, 64, 256, u64::MAX).len(), 0);
}

#[test]
fn adaptive_file_chunk_respects_storage_ceiling() {
    // Ceiling of 8192 bytes: at most 4 vectors of 2048 bytes per tile, and
    // with 2 queries at most 8192 / (2 * 4) = 1024 output cells.
    let tiles = plan_tiles(2, 10, 64, 256, 8192);
    for t in &tiles {
        assert!(t.file_len <= 4);
    }
}

#[test]
fn dispatch_with_no_queries_is_empty() {
    let r = validate_tile(0, 0, 5, 0, 512, 1 << 20, 1 << 20);
    assert_eq!(r, Ok(TileCheck::Empty));
    let r = validate_tile(512, 1, 0, 0, 512, 1 << 20, 1 << 20);
    assert_eq!(r, Ok(TileCheck::Empty));
}

#[test]
fn dispatch_beyond_buffer_is_refused() {
    // Buffer holds 4 vectors of 512 values; asking for 3 starting at 2 overruns.
    let buffer_bytes = 4 * 512 * 4;
    let r = validate_tile(512, 1, 3, 2, 512, buffer_bytes, u64::MAX);
    assert_eq!(r, Err(TileError::BufferOverrun));
    let ok = validate_tile(512, 1, 2, 2, 512, buffer_bytes, u64::MAX);
    assert_eq!(ok, Ok(TileCheck::Ready { output_bytes: 8 }));
}

#[test]
fn dispatch_over_storage_ceiling_is_refused() {
    // 100 x 100 output cells need 40000 bytes; the ceiling allows 1024.
    let r = validate_tile(512 * 100, 100, 100, 0, 512, u64::MAX, 1024);
    assert_eq!(r, Err(TileError::OutputTooLarge));
}

#[test]
fn scheduler_with_inflight_one_never_holds_two_pending() {
    let tiles = plan_tiles(4, 4, 1, 2, u64::MAX);
    assert!(tiles.len() >= 2);
    let total = tiles.len();
    let mut sched = TileScheduler::new(tiles, 1);
    let mut submitted = 0usize;
    let mut drained = 0usize;
    loop {
        assert!(submitted - drained <= 1, "more than one tile pending");
        match sched.next_step() {
            SchedulerStep::Submit(_) => {
                sched.note_submitted();
                submitted += 1;
            }
            SchedulerStep::Drain => {
                sched.note_drained();
                drained += 1;
            }
            SchedulerStep::Done => break,
        }
    }
    assert_eq!(submitted, total);
    assert_eq!(drained, total);
}

#[test]
fn scheduler_drains_in_submission_order() {
    let tiles = plan_tiles(6, 1, 2, 1, u64::MAX);
    let total = tiles.len();
    let mut sched = TileScheduler::new(tiles, 2);
    let mut drain_order = Vec::new();
    loop {
        match sched.next_step() {
            SchedulerStep::Submit(_) => sched.note_submitted(),
            SchedulerStep::Drain => {
                drain_order.push(sched.next_drain_index());
                sched.note_drained();
            }
            SchedulerStep::Done => break,
        }
    }
    let expected: Vec<usize> = (0..total).collect();
    assert_eq!(drain_order, expected);
}
