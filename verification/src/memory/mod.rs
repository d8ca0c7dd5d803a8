//! Memory management: the physical page frame allocator.

pub mod page_alloc;

use vstd::prelude::*;
use crate::memory::page_alloc::{
    FrameAllocator, MemRegion, MemmapSummary, RESERVED_LOW_FRAMES, MAX_FRAMES, memmap_fits,
    memmap_frees, memmap_frames, memmap_count, memmap_bytes, init_from_memmap,
};

verus! {

/// Initialize the page frame allocator from the boot memory map.
pub fn init_page_alloc(alloc: &mut FrameAllocator, regions: &[MemRegion]) -> (s: MemmapSummary)
    requires
        old(alloc).wf(),
        memmap_fits(regions@, old(alloc).spec_total() as int),
        old(alloc).spec_used() + RESERVED_LOW_FRAMES <= usize::MAX,
    ensures
        final(alloc).wf(),
        forall|f: int|
            0 <= f < MAX_FRAMES ==> #[trigger] final(alloc).used_view()[f] == if f < RESERVED_LOW_FRAMES {
                true
            } else if memmap_frees(regions@, f) {
                false
            } else {
                old(alloc).used_view()[f]
            },
        final(alloc).spec_total() == old(alloc).spec_total() + memmap_frames(regions@),
        final(alloc).spec_used() == old(alloc).spec_used() + if final(alloc).spec_total() > 0 {
            RESERVED_LOW_FRAMES as int
        } else {
            0
        },
        final(alloc).spec_initialized(),
        s.regions == memmap_count(regions@),
        s.usable_bytes == memmap_bytes(regions@),
        s.stats.total == final(alloc).spec_total(),
        s.stats.used == final(alloc).spec_used(),
{
    init_from_memmap(alloc, regions)
}

} // verus!
