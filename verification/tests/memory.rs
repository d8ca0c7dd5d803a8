use tunicore::memory::init_page_alloc;
use tunicore::memory::page_alloc::{
    alloc_frame, free_frame, stats, FrameAllocator, FrameStats, MemRegion, PhysFrame, PAGE_SIZE,
};

fn region(base: u64, length: u64) -> MemRegion {
    MemRegion { base, length, usable: true }
}

#[test]
fn phys_frame_math() {
    assert_eq!(PhysFrame::containing(0x1234), PhysFrame(0x1000));
    assert_eq!(PhysFrame::containing(0x2000), PhysFrame(0x2000));
    assert_eq!(PhysFrame(0x5000).index(), 5);
    assert_eq!(PhysFrame::from_index(7), PhysFrame(7 * PAGE_SIZE as u64));
}

#[test]
fn frame_stats_in_mib() {
    let s = FrameStats { total: 512, used: 256, free: 256 };
    assert_eq!(s.total_mb(), 2);
    assert_eq!(s.used_mb(), 1);
    assert_eq!(s.free_mb(), 1);
}

#[test]
fn uninitialized_allocator_gives_nothing() {
    let mut a = FrameAllocator::new();
    assert_eq!(a.allocate(), None);
    assert_eq!(a.stats(), FrameStats { total: 0, used: 0, free: 0 });
}

#[test]
fn memmap_setup_reserves_low_memory() {
    let mut a = FrameAllocator::new();
    let regions = [
        region(0, 0x9F000),
        MemRegion { base: 0x9F000, length: 0x1000, usable: false },
        region(0x100000, 0x100000),
        region(0x300800, 0x1000),
    ];
    let s = init_page_alloc(&mut a, &regions);
    assert_eq!(s.regions, 2);
    assert_eq!(s.usable_bytes, 0x9F000 + 0x100000);
    assert_eq!(s.stats.total, 0x9F + 0x100);
    assert_eq!(s.stats.used, 256);
    assert_eq!(s.stats.free, 0x9F + 0x100 - 256);
    assert!(!a.is_free(0x50));
    assert!(a.is_free(0x100));
    assert!(!a.is_free(0x9F));
}

#[test]
fn allocate_takes_lowest_free_frame_and_free_gives_it_back() {
    let mut a = FrameAllocator::new();
    init_page_alloc(&mut a, &[region(0x100000, 0x4000)]);
    let f = alloc_frame(&mut a).unwrap();
    assert_eq!(f, PhysFrame(0x100000));
    assert!(!a.is_free(0x100));
    let g = a.allocate().unwrap();
    assert_eq!(g, PhysFrame(0x101000));
    assert_eq!(stats(&a).used, 256 + 2);
    free_frame(&mut a, f);
    assert!(a.is_free(0x100));
    assert_eq!(stats(&a).used, 256 + 1);
    free_frame(&mut a, f);
    assert_eq!(stats(&a).used, 256 + 1);
    assert_eq!(a.allocate(), Some(PhysFrame(0x100000)));
}

#[test]
fn allocator_runs_out() {
    let mut a = FrameAllocator::new();
    init_page_alloc(&mut a, &[region(0x200000, 0x2000)]);
    assert!(a.allocate().is_some());
    assert!(a.allocate().is_some());
    assert_eq!(a.allocate(), None);
}

#[test]
fn mark_free_and_used() {
    let mut a = FrameAllocator::new();
    a.mark_free(10, 3);
    assert!(a.is_free(10) && a.is_free(12) && !a.is_free(13));
    a.mark_used(11);
    assert!(!a.is_free(11));
    assert!(!a.is_free(usize::MAX));
    assert_eq!(a.stats().total, 3);
}

#[test]
fn stats_after_allocations_and_free_then_allocate() {
    let mut a = FrameAllocator::new();
    init_page_alloc(&mut a, &[region(0x100000, 0x8000)]);
    let before = stats(&a);
    let mut got = Vec::new();
    for k in 0..5u64 {
        let f = alloc_frame(&mut a).unwrap();
        assert_eq!(f, PhysFrame(0x100000 + k * 0x1000));
        got.push(f);
    }
    let after = stats(&a);
    assert_eq!(after.used, before.used + 5);
    assert_eq!(after.total, before.total);
    assert_eq!(after.free, after.total.saturating_sub(after.used));
    free_frame(&mut a, got[3]);
    assert_eq!(alloc_frame(&mut a), Some(got[3]));
    free_frame(&mut a, got[1]);
    free_frame(&mut a, got[4]);
    let f = alloc_frame(&mut a).unwrap();
    assert!(f.0 <= got[4].0);
    assert_eq!(f, got[1]);
}
