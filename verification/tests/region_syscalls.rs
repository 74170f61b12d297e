use task_core::config::PAGE_SIZE;
use task_core::manager::TaskManager;
use task_core::syscall::sys_get_time;
use task_core::syscall::sys_mmap;
use task_core::syscall::sys_munmap;
use task_core::syscall::sys_sbrk;
use task_core::task::AppImage;

fn booted(n: usize) -> TaskManager {
    let mut images = Vec::new();
    for i in 0..n {
        images.push(AppImage { entry: 0x1000 + i, heap_base: 0x8000_0000 });
    }
    let mut m = TaskManager::new(&images, 100);
    m.run_first_task();
    m
}

#[test]
fn mmap_and_exact_munmap_round_trip() {
    let mut m = booted(1);
    assert_eq!(sys_mmap(&mut m, 0x1_0000, PAGE_SIZE, 3), 0);
    // The same range cannot be mapped twice.
    assert_eq!(sys_mmap(&mut m, 0x1_0000, PAGE_SIZE, 3), -1);
    // An exactly matching unmap removes it, after which mapping works again.
    assert_eq!(sys_munmap(&mut m, 0x1_0000, PAGE_SIZE), 0);
    assert_eq!(sys_mmap(&mut m, 0x1_0000, PAGE_SIZE, 3), 0);
}

#[test]
fn mmap_rejects_zero_permission() {
    let mut m = booted(1);
    assert_eq!(sys_mmap(&mut m, 0x1_0000, PAGE_SIZE, 0), -1);
}

#[test]
fn mmap_rejects_high_permission_bits() {
    let mut m = booted(1);
    assert_eq!(sys_mmap(&mut m, 0x1_0000, PAGE_SIZE, 8), -1);
    assert_eq!(sys_mmap(&mut m, 0x1_0000, PAGE_SIZE, 9), -1);
    assert_eq!(sys_mmap(&mut m, 0x1_0000, PAGE_SIZE, 0x10), -1);
}

#[test]
fn mmap_rejects_zero_length() {
    let mut m = booted(1);
    assert_eq!(sys_mmap(&mut m, 0x1_0000, 0, 3), -1);
}

#[test]
fn munmap_zero_length_fails_and_removes_nothing() {
    let mut m = booted(1);
    assert_eq!(sys_mmap(&mut m, 0x1_0000, 2 * PAGE_SIZE, 3), 0);
    // A zero-length request names no mapping, even from an address
    // inside a tracked range.
    assert_eq!(sys_munmap(&mut m, 0x1_1000, 0), -1);
    assert_eq!(sys_munmap(&mut m, 0x1_0000, 0), -1);
    // The mapping is fully intact: both pages still collide, and the
    // exact range still unmaps.
    assert_eq!(sys_mmap(&mut m, 0x1_0000, PAGE_SIZE, 3), -1);
    assert_eq!(sys_mmap(&mut m, 0x1_1000, PAGE_SIZE, 3), -1);
    assert_eq!(sys_munmap(&mut m, 0x1_0000, 2 * PAGE_SIZE), 0);
}

#[test]
fn mmap_rejects_misaligned_start() {
    let mut m = booted(1);
    assert_eq!(sys_mmap(&mut m, 0x1_0001, PAGE_SIZE, 3), -1);
}

#[test]
fn mmap_rounds_length_up_to_pages() {
    let mut m = booted(1);
    // One byte takes a whole page: the next page is still free, the
    // first is taken.
    assert_eq!(sys_mmap(&mut m, 0x1_0000, 1, 3), 0);
    assert_eq!(sys_mmap(&mut m, 0x1_0000 + PAGE_SIZE, PAGE_SIZE, 3), 0);
    assert_eq!(sys_mmap(&mut m, 0x1_0000, PAGE_SIZE, 3), -1);
}

#[test]
fn mmap_rejects_any_overlap() {
    let mut m = booted(1);
    assert_eq!(sys_mmap(&mut m, 0x1_0000, 3 * PAGE_SIZE, 3), 0);
    // Overlapping from below, inside, and above all fail.
    assert_eq!(sys_mmap(&mut m, 0x1_0000 - PAGE_SIZE, 2 * PAGE_SIZE, 3), -1);
    assert_eq!(sys_mmap(&mut m, 0x1_0000 + PAGE_SIZE, PAGE_SIZE, 3), -1);
    assert_eq!(sys_mmap(&mut m, 0x1_0000 + 2 * PAGE_SIZE, 2 * PAGE_SIZE, 3), -1);
}

#[test]
fn munmap_of_partial_range_fails_and_changes_nothing() {
    let mut m = booted(1);
    assert_eq!(sys_mmap(&mut m, 0x1_0000, 2 * PAGE_SIZE, 3), 0);
    // Half of a tracked range does not match its boundaries.
    assert_eq!(sys_munmap(&mut m, 0x1_0000, PAGE_SIZE), -1);
    assert_eq!(sys_munmap(&mut m, 0x1_0000 + PAGE_SIZE, PAGE_SIZE), -1);
    // A range reaching past the mapping does not match either.
    assert_eq!(sys_munmap(&mut m, 0x1_0000, 3 * PAGE_SIZE), -1);
    // The mapping is still fully there: every page still collides.
    assert_eq!(sys_mmap(&mut m, 0x1_0000, PAGE_SIZE, 3), -1);
    assert_eq!(sys_mmap(&mut m, 0x1_0000 + PAGE_SIZE, PAGE_SIZE, 3), -1);
    // And the exact range still unmaps.
    assert_eq!(sys_munmap(&mut m, 0x1_0000, 2 * PAGE_SIZE), 0);
}

#[test]
fn munmap_covers_several_adjacent_ranges_exactly() {
    let mut m = booted(1);
    assert_eq!(sys_mmap(&mut m, 0x1_0000, PAGE_SIZE, 3), 0);
    assert_eq!(sys_mmap(&mut m, 0x1_0000 + PAGE_SIZE, PAGE_SIZE, 7), 0);
    assert_eq!(sys_munmap(&mut m, 0x1_0000, 2 * PAGE_SIZE), 0);
    assert_eq!(sys_mmap(&mut m, 0x1_0000, 2 * PAGE_SIZE, 3), 0);
}

#[test]
fn munmap_with_gap_fails() {
    let mut m = booted(1);
    assert_eq!(sys_mmap(&mut m, 0x1_0000, PAGE_SIZE, 3), 0);
    assert_eq!(sys_mmap(&mut m, 0x1_0000 + 2 * PAGE_SIZE, PAGE_SIZE, 3), 0);
    // The hole in the middle is not mapped, so the span does not match.
    assert_eq!(sys_munmap(&mut m, 0x1_0000, 3 * PAGE_SIZE), -1);
    assert_eq!(sys_mmap(&mut m, 0x1_0000, PAGE_SIZE, 3), -1);
}

#[test]
fn sbrk_round_trip_restores_break() {
    let mut m = booted(1);
    let b0 = sys_sbrk(&mut m, 0);
    assert!(b0 >= 0);
    let before_grow = sys_sbrk(&mut m, 4096);
    assert_eq!(before_grow, b0);
    let before_shrink = sys_sbrk(&mut m, -4096);
    assert_eq!(before_shrink, b0 + 4096);
    assert_eq!(sys_sbrk(&mut m, 0), b0);
}

#[test]
fn sbrk_below_heap_bottom_fails() {
    let mut m = booted(1);
    let b0 = sys_sbrk(&mut m, 0);
    assert_eq!(sys_sbrk(&mut m, -4096), -1);
    assert_eq!(sys_sbrk(&mut m, 0), b0);
}

#[test]
fn get_time_writes_seconds_and_microseconds() {
    let mut m = booted(1);
    assert_eq!(sys_mmap(&mut m, 0x1_0000, PAGE_SIZE, 3), 0);
    let (r, stored) = sys_get_time(&mut m, 0x1_0000, 0, 3_456_789);
    assert_eq!(r, 0);
    let tv = stored.expect("destination resolves");
    assert_eq!(tv.sec, 3);
    assert_eq!(tv.usec, 456_789);
}

#[test]
fn get_time_unresolved_pointer_stores_nothing() {
    let mut m = booted(1);
    let (r, stored) = sys_get_time(&mut m, 0x2_0000, 0, 1);
    assert_eq!(r, 0);
    assert!(stored.is_none());
}

#[test]
fn tracker_agrees_with_installed_mappings() {
    let mut m = booted(1);
    assert_eq!(sys_mmap(&mut m, 0x1_0000, PAGE_SIZE, 3), 0);
    assert_eq!(sys_mmap(&mut m, 0x3_0000, 2 * PAGE_SIZE, 7), 0);
    assert_eq!(sys_mmap(&mut m, 0x2_0000, PAGE_SIZE, 1), 0);
    assert_eq!(sys_munmap(&mut m, 0x3_0000, 2 * PAGE_SIZE), 0);
    assert_eq!(sys_munmap(&mut m, 0x2_8000, PAGE_SIZE), -1);
    let space = &m.tasks[m.current_task].as_ref().unwrap().memory_set;
    // Tracked ranges and installed mappings agree entry for entry, and
    // no two tracked ranges overlap.
    assert_eq!(space.regions.len(), space.page_table.areas.len());
    for (r, a) in space.regions.iter().zip(space.page_table.areas.iter()) {
        assert_eq!((r.start, r.end, r.perm), *a);
    }
    for (i, r) in space.regions.iter().enumerate() {
        for (j, s) in space.regions.iter().enumerate() {
            if i != j {
                assert!(r.end <= s.start || s.end <= r.start);
            }
        }
    }
}

#[test]
fn get_time_pointer_in_heap_resolves() {
    let mut m = booted(1);
    let heap = sys_sbrk(&mut m, 0) as usize;
    assert_eq!(sys_sbrk(&mut m, 64), heap as isize);
    let (r, stored) = sys_get_time(&mut m, heap, 0, 1_000_001);
    assert_eq!(r, 0);
    let tv = stored.expect("heap destination resolves");
    assert_eq!(tv.sec, 1);
    assert_eq!(tv.usec, 1);
}
