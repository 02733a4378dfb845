use giuroll::snapshot::{free_if_allocated, weather_sync_check};
use giuroll::{Frame, ReadAddrMetadata, RollFrame};
use std::collections::HashSet;

fn set(v: &[usize]) -> HashSet<usize> {
    v.iter().copied().collect()
}

fn frame_with(number: usize, allocs: Vec<usize>, frees: Vec<usize>) -> Frame {
    Frame::capture(
        number,
        vec![ReadAddrMetadata { size: 3, pos: 0x500 }],
        &vec![vec![1, 2, 3]],
        [0u8; 108],
        allocs,
        frees,
        vec![],
        0,
    )
}

#[test]
fn capture_pads_each_region_to_four_bytes() {
    let regions = vec![
        ReadAddrMetadata { size: 3, pos: 0x100 },
        ReadAddrMetadata { size: 4, pos: 0x200 },
        ReadAddrMetadata { size: 0, pos: 4 },
        ReadAddrMetadata { size: 5, pos: 0x300 },
    ];
    let contents = vec![vec![1, 2, 3], vec![4, 5, 6, 7], vec![], vec![8, 9, 10, 11, 12]];
    let f = Frame::capture(9, regions.clone(), &contents, [1u8; 108], vec![], vec![], vec![], 3);
    assert_eq!(
        f.addresses_buf,
        vec![1, 2, 3, 0, 4, 5, 6, 7, 8, 9, 10, 11, 12, 0, 0, 0]
    );
    assert_eq!(f.addresses, regions);
    assert_eq!(f.number, 9);
    assert_eq!(f.weather_sync_check, 51);
    assert!(!f.has_happened && !f.has_called_never_happened);
}

#[test]
fn capture_then_restore_gives_back_the_bytes() {
    let regions = vec![
        ReadAddrMetadata { size: 3, pos: 0x100 },
        ReadAddrMetadata { size: 6, pos: 0x200 },
        ReadAddrMetadata { size: 1, pos: 0x300 },
    ];
    let contents = vec![vec![1, 2, 3], vec![4, 5, 6, 7, 8, 9], vec![10]];
    let f = Frame::capture(2, regions, &contents, [0u8; 108], vec![], vec![], vec![], 0);
    for k in 0..3 {
        assert_eq!(f.region_bytes(k), contents[k]);
    }
    let writes = f.restore_writes();
    assert_eq!(
        writes,
        vec![(0x100, vec![1, 2, 3]), (0x200, vec![4, 5, 6, 7, 8, 9]), (0x300, vec![10])]
    );
}

#[test]
fn weather_check_is_seventeen_times_mod_256() {
    assert_eq!(weather_sync_check(0), 0);
    assert_eq!(weather_sync_check(1), 17);
    assert_eq!(weather_sync_check(16), 16);
    assert_eq!(weather_sync_check(0xFFFF_FFFF), 239);
}

#[test]
fn discard_frees_alloc_then_free_and_keeps_the_rest() {
    let mut f = frame_with(5, vec![10, 20, 30, 20], vec![20, 40, 10]);
    let freed = f.never_happened();
    assert_eq!(set(&freed), set(&[10, 20]));
    assert_eq!(freed.len(), 2);
    assert_eq!(f.allocs, vec![30]);
    assert_eq!(f.frees, vec![40]);
    assert!(f.has_called_never_happened);
}

#[test]
fn confirm_flushes_deferred_frees() {
    let mut f = frame_with(5, vec![10, 20], vec![30, 40]);
    let flushed = f.did_happen();
    assert_eq!(flushed, vec![30, 40]);
    assert!(f.allocs.is_empty());
    assert!(f.frees.is_empty());
    assert!(f.has_happened);
}

#[test]
fn free_if_allocated_releases_only_pending() {
    let mut acc = vec![1, 2];
    let mut freed = vec![];
    free_if_allocated(&mut acc, &vec![3], &vec![2, 3, 9], &mut freed);
    assert_eq!(set(&acc), set(&[1]));
    assert_eq!(set(&freed), set(&[2, 3]));
}

#[test]
fn restore_reconciles_newer_frames() {
    let target = frame_with(10, vec![], vec![]);
    let mut dropped = vec![
        RollFrame::dump_with_guess(frame_with(11, vec![100, 101], vec![101, 7]), [false; 12], [false; 12]),
        RollFrame::dump_with_guess(frame_with(12, vec![200], vec![100]), [true; 12], [false; 12]),
    ];
    let plan = target.restore(&mut dropped, &vec![300, 301], &vec![200, 301, 8]);
    assert_eq!(set(&plan.freed), set(&[101, 100, 200, 301]));
    assert_eq!(set(&plan.leaked), set(&[300]));
    for e in &dropped {
        assert!(e.prev_state.has_called_never_happened);
        assert!(e.prev_state.allocs.is_empty());
        assert!(e.prev_state.frees.is_empty());
    }
    assert_eq!(dropped[1].player_input, [true; 12]);
    assert_eq!(dropped[1].prev_state.number, 12);
}

#[test]
fn pending_allocation_is_leaked_when_never_freed() {
    let target = frame_with(1, vec![], vec![]);
    let mut dropped = vec![RollFrame::dump_with_guess(frame_with(2, vec![5], vec![]), [false; 12], [false; 12])];
    let plan = target.restore(&mut dropped, &vec![], &vec![]);
    assert!(plan.freed.is_empty());
    assert_eq!(plan.leaked, vec![5]);
}

#[test]
fn reused_address_is_released_once() {
    let target = frame_with(1, vec![], vec![]);
    let mut dropped = vec![
        RollFrame::dump_with_guess(frame_with(2, vec![5], vec![5]), [false; 12], [false; 12]),
        RollFrame::dump_with_guess(frame_with(3, vec![5, 6], vec![5]), [false; 12], [false; 12]),
    ];
    let plan = target.restore(&mut dropped, &vec![7], &vec![7, 6]);
    let mut freed = plan.freed.clone();
    freed.sort();
    assert_eq!(freed, vec![5, 6, 7]);
    assert!(plan.leaked.is_empty());
}

#[test]
fn settled_only_after_confirm_or_discard() {
    let mut a = frame_with(1, vec![], vec![]);
    let mut b = frame_with(2, vec![], vec![]);
    assert!(!a.is_settled());
    a.did_happen();
    b.never_happened();
    assert!(a.is_settled());
    assert!(b.is_settled());
}
