//! Page frame allocator: physical memory management.
//!
//! A bitmap tracks every 4 KiB physical frame below 4 GiB; a set bit means
//! the frame is in use. Usable frames come from the boot memory map.

use vstd::prelude::*;

verus! {

/// Page frame size: 4 KiB
pub const PAGE_SIZE: usize = 4096;

/// Max supported physical memory: 4 GiB (1M frames)
pub const MAX_FRAMES: usize = 1048576;

/// Bitmap bytes: one bit per frame.
pub const BITMAP_SIZE: usize = 131072;

/// Frames below 1 MiB (BIOS/legacy) that are always reserved.
pub const RESERVED_LOW_FRAMES: usize = 256;

/// Physical frame address
#[derive(Debug, Clone, Copy, PartialEq, Eq, Structural)]
pub struct PhysFrame(pub u64);

impl PhysFrame {
    /// The frame that contains address `addr`.
    pub fn containing(addr: u64) -> (f: Self)
        ensures
            f.0 == addr - addr % 4096,
            f.0 % 4096 == 0,
    {
        let mask: u64 = PAGE_SIZE as u64 - 1;
        let r = PhysFrame(addr & !mask);
        assert(addr & !4095u64 == addr - addr % 4096 && (addr - addr % 4096) % 4096 == 0) by (bit_vector);
        r
    }

    /// Frame number of this frame.
    pub fn index(&self) -> (i: usize)
        ensures
            i == (self.0 / 4096) as usize,
    {
        (self.0 / PAGE_SIZE as u64) as usize
    }

    /// The frame with frame number `idx`.
    pub fn from_index(idx: usize) -> (f: Self)
        requires
            idx * 4096 <= u64::MAX,
        ensures
            f.0 == idx * 4096,
    {
        PhysFrame(idx as u64 * PAGE_SIZE as u64)
    }
}

/// Frame number of a frame address.
pub open spec fn frame_number(f: PhysFrame) -> usize {
    (f.0 / 4096) as usize
}

/// Bit `k` of byte `b` is set.
pub open spec fn bit_set(b: u8, k: int) -> bool {
    (b >> (k as u8)) & 1u8 == 1u8
}

/// Frame `f` is marked used in bitmap `bm`.
pub open spec fn frame_used(bm: Seq<u8>, f: int) -> bool {
    bit_set(bm[f / 8], f % 8)
}

proof fn lemma_bit_clear(b: u8, k: u8, j: u8)
    requires
        k < 8,
        j < 8,
    ensures
        bit_set(b & !(1u8 << k), j as int) == (j != k && bit_set(b, j as int)),
{
    assert(((b & !(1u8 << k)) >> j) & 1u8 == 1u8 <==> (j != k && (b >> j) & 1u8 == 1u8)) by (bit_vector)
        requires
            k < 8,
            j < 8,
    ;
}

proof fn lemma_bit_set(b: u8, k: u8, j: u8)
    requires
        k < 8,
        j < 8,
    ensures
        bit_set(b | (1u8 << k), j as int) == (j == k || bit_set(b, j as int)),
{
    assert(((b | (1u8 << k)) >> j) & 1u8 == 1u8 <==> (j == k || (b >> j) & 1u8 == 1u8)) by (bit_vector)
        requires
            k < 8,
            j < 8,
    ;
}

proof fn lemma_bit_test(b: u8, k: u8)
    requires
        k < 8,
    ensures
        (b & (1u8 << k) == 0) == !bit_set(b, k as int),
        b == 0xFF ==> bit_set(b, k as int),
{
    assert((b & (1u8 << k) == 0) <==> !((b >> k) & 1u8 == 1u8)) by (bit_vector)
        requires
            k < 8,
    ;
    assert(b == 0xFF ==> (b >> k) & 1u8 == 1u8) by (bit_vector)
        requires
            k < 8,
    ;
}

/// Memory statistics
#[derive(Debug, Clone, Copy, PartialEq, Eq, Structural)]
pub struct FrameStats {
    pub total: usize,
    pub used: usize,
    pub free: usize,
}

impl FrameStats {
    /// Total usable memory in MiB.
    pub fn total_mb(&self) -> (m: usize)
        requires
            self.total * 4096 <= usize::MAX,
        ensures
            m as int == (self.total * 4096) as int / 1048576int,
    {
        self.total * PAGE_SIZE / (1024 * 1024)
    }

    /// Used memory in MiB.
    pub fn used_mb(&self) -> (m: usize)
        requires
            self.used * 4096 <= usize::MAX,
        ensures
            m as int == (self.used * 4096) as int / 1048576int,
    {
        self.used * PAGE_SIZE / (1024 * 1024)
    }

    /// Free memory in MiB.
    pub fn free_mb(&self) -> (m: usize)
        requires
            self.free * 4096 <= usize::MAX,
        ensures
            m as int == (self.free * 4096) as int / 1048576int,
    {
        self.free * PAGE_SIZE / (1024 * 1024)
    }
}

/// Bitmap-based physical frame allocator
pub struct FrameAllocator {
    /// 1 = used, 0 = free
    bitmap: Vec<u8>,
    /// Total usable frames detected from the memory map
    total_frames: usize,
    /// Currently allocated frames
    used_frames: usize,
    /// Lowest usable frame index
    min_frame: usize,
    /// Highest usable frame index
    max_frame: usize,
    /// Initialized flag
    initialized: bool,
}

/// `bm2` agrees with `bm1` on every frame except those selected by `sel`,
/// which are marked `to`.
pub open spec fn frames_marked(bm1: Seq<bool>, bm2: Seq<bool>, sel: spec_fn(int) -> bool, to: bool) -> bool {
    &&& bm2.len() == bm1.len()
    &&& forall|f: int| 0 <= f < bm1.len() ==> #[trigger] bm2[f] == if sel(f) { to } else { bm1[f] }
}

/// Frame `f` is the lowest free frame in `lo..=hi`.
pub open spec fn first_free_in(used: Seq<bool>, lo: int, hi: int, f: int) -> bool {
    &&& lo <= f <= hi
    &&& 0 <= f < used.len()
    &&& !used[f]
    &&& forall|g: int| lo <= g < f ==> #[trigger] used[g]
}

/// No frame in `lo..=hi` is free.
pub open spec fn none_free_in(used: Seq<bool>, lo: int, hi: int) -> bool {
    forall|g: int| lo <= g <= hi && 0 <= g < used.len() ==> #[trigger] used[g]
}

impl FrameAllocator {
    /// For each frame, whether it is in use.
    pub closed spec fn used_view(&self) -> Seq<bool> {
        Seq::new(MAX_FRAMES as nat, |f: int| frame_used(self.bitmap@, f))
    }

    /// There is one entry of `used_view` for each frame the bitmap covers.
    pub proof fn lemma_used_view_len(&self)
        ensures
            self.used_view().len() == MAX_FRAMES,
    {
    }

    /// Usable frames counted so far.
    pub closed spec fn spec_total(&self) -> usize {
        self.total_frames
    }

    /// Frames counted as allocated.
    pub closed spec fn spec_used(&self) -> usize {
        self.used_frames
    }

    /// Lowest usable frame seen.
    pub closed spec fn spec_min(&self) -> usize {
        self.min_frame
    }

    /// Highest usable frame seen.
    pub closed spec fn spec_max(&self) -> usize {
        self.max_frame
    }

    /// The allocator has been set up from a memory map.
    pub closed spec fn spec_initialized(&self) -> bool {
        self.initialized
    }

    /// The bitmap covers every frame, and the highest usable frame is a frame.
    pub closed spec fn wf(&self) -> bool {
        &&& self.bitmap@.len() == BITMAP_SIZE
        &&& self.max_frame < MAX_FRAMES
    }

    /// An allocator with every frame marked used and nothing counted.
    pub fn new() -> (a: Self)
        ensures
            a.wf(),
            forall|f: int| 0 <= f < MAX_FRAMES ==> #[trigger] a.used_view()[f],
            a.used_view().len() == MAX_FRAMES,
            a.spec_total() == 0,
            a.spec_used() == 0,
            a.spec_min() == usize::MAX,
            a.spec_max() == 0,
            !a.spec_initialized(),
    {
        let mut bitmap: Vec<u8> = Vec::new();
        let mut k: usize = 0;
        while k < BITMAP_SIZE
            invariant
                k <= BITMAP_SIZE,
                bitmap@.len() == k,
                forall|j: int| 0 <= j < k ==> bitmap@[j] == 0xFF,
            decreases BITMAP_SIZE - k,
        {
            bitmap.push(0xFF);
            k += 1;
        }
        let a = Self {
            bitmap,
            total_frames: 0,
            used_frames: 0,
            min_frame: usize::MAX,
            max_frame: 0,
            initialized: false,
        };
        assert forall|f: int| 0 <= f < MAX_FRAMES implies #[trigger] a.used_view()[f] by {
            lemma_bit_test(0xFF, (f % 8) as u8);
        }
        a
    }

    /// Clear frame `frame`'s bit.
    fn clear_bit(&mut self, frame: usize)
        requires
            old(self).wf(),
            frame < MAX_FRAMES,
        ensures
            final(self).wf(),
            final(self).used_view() == old(self).used_view().update(frame as int, false),
            final(self).total_frames == old(self).total_frames,
            final(self).used_frames == old(self).used_frames,
            final(self).min_frame == old(self).min_frame,
            final(self).max_frame == old(self).max_frame,
            final(self).initialized == old(self).initialized,
    {
        let byte = frame / 8;
        let bit = frame % 8;
        let ghost bm = self.bitmap@;
        self.bitmap[byte] = self.bitmap[byte] & !(1u8 << (bit as u8));
        proof {
            assert forall|f: int| 0 <= f < MAX_FRAMES implies #[trigger] self.used_view()[f] == old(
                self,
            ).used_view().update(frame as int, false)[f] by {
                if f / 8 == byte as int {
                    lemma_bit_clear(bm[byte as int], bit as u8, (f % 8) as u8);
                }
            }
            assert(self.used_view() =~= old(self).used_view().update(frame as int, false));
        }
    }

    /// Set frame `frame`'s bit.
    fn set_bit(&mut self, frame: usize)
        requires
            old(self).wf(),
            frame < MAX_FRAMES,
        ensures
            final(self).wf(),
            final(self).used_view() == old(self).used_view().update(frame as int, true),
            final(self).total_frames == old(self).total_frames,
            final(self).used_frames == old(self).used_frames,
            final(self).min_frame == old(self).min_frame,
            final(self).max_frame == old(self).max_frame,
            final(self).initialized == old(self).initialized,
    {
        let byte = frame / 8;
        let bit = frame % 8;
        let ghost bm = self.bitmap@;
        self.bitmap[byte] = self.bitmap[byte] | (1u8 << (bit as u8));
        proof {
            assert forall|f: int| 0 <= f < MAX_FRAMES implies #[trigger] self.used_view()[f] == old(
                self,
            ).used_view().update(frame as int, true)[f] by {
                if f / 8 == byte as int {
                    lemma_bit_set(bm[byte as int], bit as u8, (f % 8) as u8);
                }
            }
            assert(self.used_view() =~= old(self).used_view().update(frame as int, true));
        }
    }

    /// Mark a range of frames as free (usable); frames past the bitmap are ignored.
    pub fn mark_free(&mut self, start_frame: usize, count: usize)
        requires
            old(self).wf(),
            start_frame + count <= usize::MAX,
            old(self).spec_total() + frames_in_range(start_frame as int, count as int) <= usize::MAX,
        ensures
            final(self).wf(),
            frames_marked(
                old(self).used_view(),
                final(self).used_view(),
                |f: int| start_frame <= f < start_frame + count,
                false,
            ),
            final(self).spec_total() == old(self).spec_total() + frames_in_range(start_frame as int, count as int),
            final(self).spec_used() == old(self).spec_used(),
            final(self).spec_initialized() == old(self).spec_initialized(),
            final(self).spec_min() == if frames_in_range(start_frame as int, count as int) > 0
                && start_frame < old(self).spec_min() {
                start_frame
            } else {
                old(self).spec_min()
            },
            final(self).spec_max() == if frames_in_range(start_frame as int, count as int) > 0
                && last_frame_in_range(start_frame as int, count as int) > old(self).spec_max() {
                last_frame_in_range(start_frame as int, count as int) as usize
            } else {
                old(self).spec_max()
            },
    {
        let mut i: usize = 0;
        while i < count
            invariant
                i <= count,
                start_frame + count <= usize::MAX,
                self.wf(),
                frames_marked(
                    old(self).used_view(),
                    self.used_view(),
                    |f: int| start_frame <= f < start_frame + i,
                    false,
                ),
                self.total_frames == old(self).total_frames + frames_in_range(start_frame as int, i as int),
                old(self).spec_total() + frames_in_range(start_frame as int, count as int) <= usize::MAX,
                self.used_frames == old(self).used_frames,
                self.initialized == old(self).initialized,
                self.min_frame == if frames_in_range(start_frame as int, i as int) > 0
                    && start_frame < old(self).min_frame {
                    start_frame
                } else {
                    old(self).min_frame
                },
                self.max_frame == if frames_in_range(start_frame as int, i as int) > 0
                    && last_frame_in_range(start_frame as int, i as int) > old(self).max_frame {
                    last_frame_in_range(start_frame as int, i as int) as usize
                } else {
                    old(self).max_frame
                },
            decreases count - i,
        {
            let frame = start_frame + i;
            if frame < MAX_FRAMES {
                self.clear_bit(frame);
                self.total_frames += 1;
                if frame < self.min_frame {
                    self.min_frame = frame;
                }
                if frame > self.max_frame {
                    self.max_frame = frame;
                }
            }
            i += 1;
        }
    }

    /// Mark a single frame as used; frames past the bitmap are ignored.
    pub fn mark_used(&mut self, frame: usize)
        requires
            old(self).wf(),
        ensures
            final(self).wf(),
            final(self).used_view() == if frame < MAX_FRAMES {
                old(self).used_view().update(frame as int, true)
            } else {
                old(self).used_view()
            },
            final(self).spec_total() == old(self).spec_total(),
            final(self).spec_used() == old(self).spec_used(),
            final(self).spec_min() == old(self).spec_min(),
            final(self).spec_max() == old(self).spec_max(),
            final(self).spec_initialized() == old(self).spec_initialized(),
    {
        if frame < MAX_FRAMES {
            self.set_bit(frame);
        }
    }

    /// Check if a frame is free
    pub fn is_free(&self, frame: usize) -> (b: bool)
        requires
            self.wf(),
        ensures
            b == (frame < MAX_FRAMES && !self.used_view()[frame as int]),
    {
        if frame >= MAX_FRAMES {
            return false;
        }
        let byte = frame / 8;
        let bit = frame % 8;
        proof {
            lemma_bit_test(self.bitmap@[byte as int], bit as u8);
        }
        self.bitmap[byte] & (1u8 << (bit as u8)) == 0
    }

    /// Allocate the lowest free frame between the usable range's first byte and its last frame.
    pub fn allocate(&mut self) -> (r: Option<PhysFrame>)
        requires
            old(self).wf(),
            old(self).spec_used() < usize::MAX,
        ensures
            final(self).wf(),
            final(self).spec_total() == old(self).spec_total(),
            final(self).spec_min() == old(self).spec_min(),
            final(self).spec_max() == old(self).spec_max(),
            final(self).spec_initialized() == old(self).spec_initialized(),
            r is None <==> !old(self).spec_initialized() || none_free_in(
                old(self).used_view(),
                8 * (old(self).spec_min() / 8) as int,
                old(self).spec_max() as int,
            ),
            r is None ==> final(self).used_view() == old(self).used_view() && final(self).spec_used()
                == old(self).spec_used(),
            r matches Some(pf) ==> {
                let f = pf.0 / 4096;
                &&& pf.0 % 4096 == 0
                &&& first_free_in(
                    old(self).used_view(),
                    8 * (old(self).spec_min() / 8) as int,
                    old(self).spec_max() as int,
                    f as int,
                )
                &&& final(self).used_view() == old(self).used_view().update(f as int, true)
                &&& final(self).spec_used() == old(self).spec_used() + 1
            },
    {
        if !self.initialized {
            return None;
        }
        let ghost lo: int = 8 * (self.min_frame / 8) as int;
        let ghost hi: int = self.max_frame as int;
        let ghost u = self.used_view();
        let first_byte = self.min_frame / 8;
        let last_byte = self.max_frame / 8;
        let mut byte_idx = first_byte;
        while byte_idx <= last_byte
            invariant
                self.wf(),
                self.used_view() == u,
                self.used_frames == old(self).used_frames,
                self.total_frames == old(self).total_frames,
                self.min_frame == old(self).min_frame,
                self.max_frame == old(self).max_frame,
                self.initialized,
                old(self).used_frames < usize::MAX,
                lo == 8 * first_byte as int,
                first_byte == old(self).min_frame / 8,
                hi == self.max_frame as int,
                last_byte as int == hi / 8,
                first_byte <= byte_idx || first_byte > last_byte,
                byte_idx >= first_byte,
                forall|g: int| lo <= g < 8 * byte_idx && g <= hi ==> #[trigger] u[g],
                u == old(self).used_view(),
                old(self).spec_initialized(),
                old(self).wf(),
            ensures
                forall|g: int| lo <= g <= hi ==> #[trigger] u[g],
            decreases last_byte + 1 - byte_idx,
        {
            if byte_idx >= BITMAP_SIZE {
                break;
            }
            if self.bitmap[byte_idx] == 0xFF {
                proof {
                    assert forall|g: int| lo <= g < 8 * (byte_idx + 1) && g <= hi implies #[trigger] u[g] by {
                        if g >= 8 * byte_idx {
                            lemma_bit_test(0xFF, (g % 8) as u8);
                        }
                    }
                }
                byte_idx += 1;
                continue;
            }
            let mut bit: usize = 0;
            while bit < 8
                invariant
                    self.wf(),
                    self.used_view() == u,
                    self.used_frames == old(self).used_frames,
                    self.total_frames == old(self).total_frames,
                    self.min_frame == old(self).min_frame,
                    self.max_frame == old(self).max_frame,
                    self.initialized,
                    old(self).used_frames < usize::MAX,
                    lo == 8 * first_byte as int,
                    first_byte == old(self).min_frame / 8,
                    hi == self.max_frame as int,
                    byte_idx < BITMAP_SIZE,
                    byte_idx >= first_byte,
                    bit <= 8,
                    forall|g: int| lo <= g < 8 * byte_idx + bit && g <= hi ==> #[trigger] u[g],
                    u == old(self).used_view(),
                    old(self).spec_initialized(),
                    old(self).wf(),
                decreases 8 - bit,
            {
                let frame = byte_idx * 8 + bit;
                if frame > self.max_frame {
                    proof {
                        assert forall|g: int| lo <= g <= hi && 0 <= g < u.len() implies #[trigger] u[g] by {
                            assert(g < 8 * byte_idx + bit);
                        }
                        assert(none_free_in(u, lo, hi));
                    }
                    return None;
                }
                if self.is_free(frame) {
                    proof {
                        assert(lo <= frame as int <= hi);
                        assert(!u[frame as int]);
                        assert(!none_free_in(u, lo, hi));
                    }
                    self.mark_used(frame);
                    self.used_frames += 1;
                    proof {
                        assert((frame * 4096) as u64 / 4096 == frame);
                    }
                    return Some(PhysFrame::from_index(frame));
                }
                bit += 1;
            }
            byte_idx += 1;
        }
        None
    }

    /// Free a physical frame; frames already free or past the bitmap are left alone.
    pub fn free(&mut self, frame: PhysFrame)
        requires
            old(self).wf(),
            frame_number(frame) < MAX_FRAMES && old(self).used_view()[frame_number(frame) as int] ==> old(self).spec_used() > 0,
        ensures
            final(self).wf(),
            final(self).used_view() == if frame_number(frame) < MAX_FRAMES {
                old(self).used_view().update(frame_number(frame) as int, false)
            } else {
                old(self).used_view()
            },
            final(self).spec_used() == if frame_number(frame) < MAX_FRAMES && old(self).used_view()[frame_number(frame) as int] {
                (old(self).spec_used() - 1) as usize
            } else {
                old(self).spec_used()
            },
            final(self).spec_total() == old(self).spec_total(),
            final(self).spec_min() == old(self).spec_min(),
            final(self).spec_max() == old(self).spec_max(),
            final(self).spec_initialized() == old(self).spec_initialized(),
    {
        let idx = frame.index();
        if idx < MAX_FRAMES && !self.is_free(idx) {
            self.clear_bit(idx);
            self.used_frames -= 1;
        } else {
            proof {
                if idx < MAX_FRAMES {
                    assert(self.used_view() =~= old(self).used_view().update(idx as int, false));
                }
            }
        }
    }

    /// Get stats
    pub fn stats(&self) -> (s: FrameStats)
        ensures
            s.total == self.spec_total(),
            s.used == self.spec_used(),
            s.free == if self.spec_total() >= self.spec_used() {
                (self.spec_total() - self.spec_used()) as usize
            } else {
                0
            },
    {
        FrameStats {
            total: self.total_frames,
            used: self.used_frames,
            free: self.total_frames.saturating_sub(self.used_frames),
        }
    }
}

/// Number of frames of `start..start+count` that lie inside the bitmap.
pub open spec fn frames_in_range(start: int, count: int) -> int {
    if start >= MAX_FRAMES || count <= 0 {
        0
    } else if start + count <= MAX_FRAMES {
        count
    } else {
        MAX_FRAMES - start
    }
}

/// The highest frame of `start..start+count` inside the bitmap.
pub open spec fn last_frame_in_range(start: int, count: int) -> int {
    if start + count <= MAX_FRAMES {
        start + count - 1
    } else {
        MAX_FRAMES - 1
    }
}


/// One entry of the boot memory map, as the loader reports it.
#[derive(Debug, Clone, Copy, PartialEq, Eq, Structural)]
pub struct MemRegion {
    pub base: u64,
    pub length: u64,
    /// The loader marks this region as usable RAM.
    pub usable: bool,
}

/// What setting up the allocator from a memory map found.
#[derive(Debug, Clone, Copy, PartialEq, Eq, Structural)]
pub struct MemmapSummary {
    /// Usable regions that hold at least one whole frame.
    pub regions: u32,
    /// Bytes in those regions.
    pub usable_bytes: u64,
    /// Allocator statistics once the low frames are reserved.
    pub stats: FrameStats,
}

/// First whole frame of a region.
pub open spec fn region_first_frame(r: MemRegion) -> int {
    (r.base + 4095) / 4096
}

/// One past the last whole frame of a region.
pub open spec fn region_end_frame(r: MemRegion) -> int {
    (r.base + r.length) / 4096
}

/// A usable region that holds at least one whole frame.
pub open spec fn region_counted(r: MemRegion) -> bool {
    r.usable && region_end_frame(r) > region_first_frame(r)
}

/// Frames of a counted region that lie inside the bitmap.
pub open spec fn region_frames(r: MemRegion) -> int {
    if region_counted(r) {
        frames_in_range(region_first_frame(r), region_end_frame(r) - region_first_frame(r))
    } else {
        0
    }
}

/// Frames that the regions of `rs` make usable, counted once per region.
pub open spec fn memmap_frames(rs: Seq<MemRegion>) -> int
    decreases rs.len(),
{
    if rs.len() == 0 {
        0
    } else {
        memmap_frames(rs.drop_last()) + region_frames(rs.last())
    }
}

/// Bytes of the counted regions of `rs`.
pub open spec fn memmap_bytes(rs: Seq<MemRegion>) -> int
    decreases rs.len(),
{
    if rs.len() == 0 {
        0
    } else {
        memmap_bytes(rs.drop_last()) + if region_counted(rs.last()) {
            rs.last().length as int
        } else {
            0
        }
    }
}

/// Number of counted regions of `rs`.
pub open spec fn memmap_count(rs: Seq<MemRegion>) -> int
    decreases rs.len(),
{
    if rs.len() == 0 {
        0
    } else {
        memmap_count(rs.drop_last()) + if region_counted(rs.last()) {
            1int
        } else {
            0
        }
    }
}

/// Lowest usable frame after the regions of `rs`, starting from `m`.
pub open spec fn memmap_min(rs: Seq<MemRegion>, m: int) -> int
    decreases rs.len(),
{
    if rs.len() == 0 {
        m
    } else {
        let p = memmap_min(rs.drop_last(), m);
        let r = rs.last();
        if region_frames(r) > 0 && region_first_frame(r) < p {
            region_first_frame(r)
        } else {
            p
        }
    }
}

/// Highest usable frame after the regions of `rs`, starting from `m`.
pub open spec fn memmap_max(rs: Seq<MemRegion>, m: int) -> int
    decreases rs.len(),
{
    if rs.len() == 0 {
        m
    } else {
        let p = memmap_max(rs.drop_last(), m);
        let r = rs.last();
        let top = last_frame_in_range(region_first_frame(r), region_end_frame(r) - region_first_frame(r));
        if region_frames(r) > 0 && top > p {
            top
        } else {
            p
        }
    }
}

/// Some counted region of `rs` holds frame `f`.
pub open spec fn memmap_frees(rs: Seq<MemRegion>, f: int) -> bool
    decreases rs.len(),
{
    if rs.len() == 0 {
        false
    } else {
        memmap_frees(rs.drop_last(), f) || (region_counted(rs.last()) && region_first_frame(rs.last()) <= f
            < region_end_frame(rs.last()))
    }
}

/// The arithmetic of setting up from `rs` stays within the machine's integers.
pub open spec fn memmap_fits(rs: Seq<MemRegion>, total0: int) -> bool {
    &&& forall|i: int|
        0 <= i < rs.len() && (#[trigger] rs[i]).usable ==> rs[i].base + 4096 <= usize::MAX && rs[i].base
            + rs[i].length <= usize::MAX
    &&& memmap_bytes(rs) <= u64::MAX
    &&& total0 + memmap_frames(rs) <= usize::MAX
    &&& rs.len() <= u32::MAX
}

proof fn lemma_memmap_prefix(rs: Seq<MemRegion>, n: int)
    requires
        0 <= n <= rs.len(),
    ensures
        0 <= memmap_frames(rs.subrange(0, n)) <= memmap_frames(rs),
        0 <= memmap_bytes(rs.subrange(0, n)) <= memmap_bytes(rs),
        0 <= memmap_count(rs.subrange(0, n)) <= memmap_count(rs) <= rs.len(),
    decreases rs.len(),
{
    if n == rs.len() {
        assert(rs.subrange(0, n) =~= rs);
        lemma_memmap_nonneg(rs);
    } else {
        assert(rs.drop_last().subrange(0, n) =~= rs.subrange(0, n));
        lemma_memmap_prefix(rs.drop_last(), n);
        lemma_memmap_nonneg(rs);
    }
}

proof fn lemma_memmap_nonneg(rs: Seq<MemRegion>)
    ensures
        memmap_frames(rs) >= 0,
        memmap_bytes(rs) >= 0,
        0 <= memmap_count(rs) <= rs.len(),
    decreases rs.len(),
{
    if rs.len() > 0 {
        lemma_memmap_nonneg(rs.drop_last());
    }
}

/// Set the allocator up from the boot memory map: free the whole frames of each
/// usable region, then reserve the first 1 MiB.
pub fn init_from_memmap(alloc: &mut FrameAllocator, regions: &[MemRegion]) -> (s: MemmapSummary)
    requires
        old(alloc).wf(),
        memmap_fits(regions@, old(alloc).spec_total() as int),
        old(alloc).spec_used() + RESERVED_LOW_FRAMES <= usize::MAX,
    ensures
        final(alloc).wf(),
        final(alloc).used_view().len() == MAX_FRAMES,
        forall|f: int|
            0 <= f < MAX_FRAMES ==> #[trigger] final(alloc).used_view()[f] == if f < RESERVED_LOW_FRAMES {
                true
            } else if memmap_frees(regions@, f) {
                false
            } else {
                old(alloc).used_view()[f]
            },
        final(alloc).spec_total() == old(alloc).spec_total() + memmap_frames(regions@),
        final(alloc).spec_used() == old(alloc).spec_used() + if final(alloc).spec_total() > 0 {
            RESERVED_LOW_FRAMES as int
        } else {
            0
        },
        final(alloc).spec_min() == memmap_min(regions@, old(alloc).spec_min() as int),
        final(alloc).spec_max() == memmap_max(regions@, old(alloc).spec_max() as int),
        final(alloc).spec_initialized(),
        s.regions == memmap_count(regions@),
        s.usable_bytes == memmap_bytes(regions@),
        s.stats.total == final(alloc).spec_total(),
        s.stats.used == final(alloc).spec_used(),
        s.stats.free == if final(alloc).spec_total() >= final(alloc).spec_used() {
            (final(alloc).spec_total() - final(alloc).spec_used()) as usize
        } else {
            0
        },
{
    let ghost rs = regions@;
    let ghost u0 = alloc.used_view();
    let mut count: u32 = 0;
    let mut total_bytes: u64 = 0;
    let mut i: usize = 0;
    while i < regions.len()
        invariant
            rs == regions@,
            memmap_fits(rs, old(alloc).spec_total() as int),
            i <= rs.len(),
            alloc.wf(),
            u0 == old(alloc).used_view(),
            forall|f: int|
                0 <= f < MAX_FRAMES ==> #[trigger] alloc.used_view()[f] == if memmap_frees(rs.subrange(0, i as int), f) {
                    false
                } else {
                    u0[f]
                },
            alloc.spec_total() == old(alloc).spec_total() + memmap_frames(rs.subrange(0, i as int)),
            alloc.spec_used() == old(alloc).spec_used(),
            alloc.spec_initialized() == old(alloc).spec_initialized(),
            alloc.spec_min() == memmap_min(rs.subrange(0, i as int), old(alloc).spec_min() as int),
            alloc.spec_max() == memmap_max(rs.subrange(0, i as int), old(alloc).spec_max() as int),
            count == memmap_count(rs.subrange(0, i as int)),
            total_bytes == memmap_bytes(rs.subrange(0, i as int)),
        decreases rs.len() - i,
    {
        let r = regions[i];
        proof {
            assert(rs.subrange(0, i + 1).drop_last() =~= rs.subrange(0, i as int));
            assert(rs.subrange(0, i + 1).last() == r);
            assert(rs[i as int] == r);
            lemma_memmap_prefix(rs, i + 1);
        }
        if r.usable {
            assert(r.base + 4096 <= usize::MAX && r.base + r.length <= usize::MAX);
            let base: usize = r.base as usize;
            let length: usize = r.length as usize;
            let start_frame: usize = (base + PAGE_SIZE - 1) / PAGE_SIZE;
            let end_frame: usize = (base + length) / PAGE_SIZE;
            if end_frame > start_frame {
                let n = end_frame - start_frame;
                let ghost before = alloc.used_view();
                alloc.mark_free(start_frame, n);
                total_bytes += r.length;
                count += 1;
                proof {
                    assert forall|f: int| 0 <= f < MAX_FRAMES implies #[trigger] alloc.used_view()[f]
                        == if memmap_frees(rs.subrange(0, i + 1), f) {
                        false
                    } else {
                        u0[f]
                    } by {
                        assert(before[f] == if memmap_frees(rs.subrange(0, i as int), f) {
                            false
                        } else {
                            u0[f]
                        });
                    }
                }
            }
        }
        i += 1;
    }
    proof {
        assert(rs.subrange(0, rs.len() as int) =~= rs);
    }
    let ghost u1 = alloc.used_view();
    let ghost used1 = alloc.spec_used();
    assert(u1.len() == MAX_FRAMES);
    let mut frame: usize = 0;
    while frame < RESERVED_LOW_FRAMES
        invariant
            frame <= RESERVED_LOW_FRAMES,
            alloc.wf(),
            u1.len() == MAX_FRAMES,
            forall|f: int|
                0 <= f < MAX_FRAMES ==> #[trigger] u1[f] == if memmap_frees(rs, f) {
                    false
                } else {
                    old(alloc).used_view()[f]
                },
            forall|f: int| 0 <= f < MAX_FRAMES ==> #[trigger] alloc.used_view()[f] == if f < frame {
                true
            } else {
                u1[f]
            },
            alloc.spec_total() == old(alloc).spec_total() + memmap_frames(rs),
            used1 == old(alloc).spec_used(),
            alloc.spec_used() == used1 + if alloc.spec_total() > 0 {
                frame as int
            } else {
                0
            },
            old(alloc).spec_used() + RESERVED_LOW_FRAMES <= usize::MAX,
            alloc.spec_min() == memmap_min(rs, old(alloc).spec_min() as int),
            alloc.spec_max() == memmap_max(rs, old(alloc).spec_max() as int),
        decreases RESERVED_LOW_FRAMES - frame,
    {
        alloc.mark_used(frame);
        if alloc.total_frames > 0 {
            alloc.used_frames += 1;
        }
        frame += 1;
    }
    let ghost u2 = alloc.used_view();
    alloc.initialized = true;
    assert(alloc.used_view() == u2);
    assert forall|f: int| 0 <= f < MAX_FRAMES implies #[trigger] alloc.used_view()[f] == if f < RESERVED_LOW_FRAMES {
        true
    } else if memmap_frees(rs, f) {
        false
    } else {
        old(alloc).used_view()[f]
    } by {
        assert(u2[f] == if f < frame { true } else { u1[f] });
    }
    MemmapSummary { regions: count, usable_bytes: total_bytes, stats: alloc.stats() }
}

/// `b` is `a` after one allocation that succeeded: one more frame is used,
/// and the total is the same.
pub open spec fn allocated_one(a: FrameAllocator, b: FrameAllocator) -> bool {
    b.spec_used() == a.spec_used() + 1 && b.spec_total() == a.spec_total()
}

/// The lowest frame an allocation scans: the start of the byte that holds
/// the lowest usable frame.
pub open spec fn scan_lo(a: FrameAllocator) -> int {
    8 * (a.spec_min() / 8) as int
}

/// Allocate a physical frame.
pub fn alloc_frame(alloc: &mut FrameAllocator) -> (r: Option<PhysFrame>)
    requires
        old(alloc).wf(),
        old(alloc).spec_used() < usize::MAX,
    ensures
        final(alloc).wf(),
        final(alloc).spec_total() == old(alloc).spec_total(),
        final(alloc).spec_initialized() == old(alloc).spec_initialized(),
        final(alloc).spec_min() == old(alloc).spec_min(),
        final(alloc).spec_max() == old(alloc).spec_max(),
        r is Some ==> allocated_one(*old(alloc), *final(alloc)),
        r is None <==> !old(alloc).spec_initialized() || none_free_in(
            old(alloc).used_view(),
            8 * (old(alloc).spec_min() / 8) as int,
            old(alloc).spec_max() as int,
        ),
        r is None ==> final(alloc).used_view() == old(alloc).used_view() && final(alloc).spec_used()
            == old(alloc).spec_used(),
        r matches Some(pf) ==> {
            let f = pf.0 / 4096;
            &&& pf.0 % 4096 == 0
            &&& first_free_in(
                old(alloc).used_view(),
                8 * (old(alloc).spec_min() / 8) as int,
                old(alloc).spec_max() as int,
                f as int,
            )
            &&& final(alloc).used_view() == old(alloc).used_view().update(f as int, true)
            &&& final(alloc).spec_used() == old(alloc).spec_used() + 1
        },
{
    alloc.allocate()
}

/// Free a physical frame.
pub fn free_frame(alloc: &mut FrameAllocator, frame: PhysFrame)
    requires
        old(alloc).wf(),
        frame_number(frame) < MAX_FRAMES && old(alloc).used_view()[frame_number(frame) as int] ==> old(
            alloc,
        ).spec_used() > 0,
    ensures
        final(alloc).wf(),
        final(alloc).used_view() == if frame_number(frame) < MAX_FRAMES {
            old(alloc).used_view().update(frame_number(frame) as int, false)
        } else {
            old(alloc).used_view()
        },
        final(alloc).spec_used() == if frame_number(frame) < MAX_FRAMES && old(alloc).used_view()[frame_number(
            frame,
        ) as int] {
            (old(alloc).spec_used() - 1) as usize
        } else {
            old(alloc).spec_used()
        },
        final(alloc).spec_total() == old(alloc).spec_total(),
        final(alloc).spec_min() == old(alloc).spec_min(),
        final(alloc).spec_max() == old(alloc).spec_max(),
        final(alloc).spec_initialized() == old(alloc).spec_initialized(),
{
    alloc.free(frame)
}

/// Memory statistics.
pub fn stats(alloc: &FrameAllocator) -> (s: FrameStats)
    ensures
        s.total == alloc.spec_total(),
        s.used == alloc.spec_used(),
        s.free == if alloc.spec_total() >= alloc.spec_used() {
            (alloc.spec_total() - alloc.spec_used()) as usize
        } else {
            0
        },
{
    alloc.stats()
}

/// Freeing the frame that an allocation just took gives back the bitmap as it
/// was before the allocation.
pub proof fn lemma_free_undoes_allocate(used: Seq<bool>, f: int)
    requires
        0 <= f < used.len(),
        !used[f],
    ensures
        used.update(f, true).update(f, false) == used,
{
    assert(used.update(f, true).update(f, false) =~= used);
}

/// An allocation never hands out a frame that was in use, nor one outside the
/// scanned range.
pub proof fn lemma_allocate_takes_free_frame(used: Seq<bool>, lo: int, hi: int, f: int)
    requires
        first_free_in(used, lo, hi, f),
    ensures
        !used[f],
        lo <= f <= hi,
        used.update(f, true)[f],
        forall|g: int| 0 <= g < used.len() && g != f ==> #[trigger] used.update(f, true)[g] == used[g],
{
}

/// Freeing a frame of the scanned range makes room: the next allocation
/// succeeds and returns that frame or a lower one.
pub proof fn lemma_free_then_allocate_lower(used: Seq<bool>, lo: int, hi: int, g: int, f: int)
    requires
        lo <= g <= hi,
        0 <= g < used.len(),
    ensures
        !none_free_in(used.update(g, false), lo, hi),
        first_free_in(used.update(g, false), lo, hi, f) ==> f <= g,
{
    assert(!used.update(g, false)[g]);
}

/// After allocations that each succeed, one after another, the used count
/// has grown by their number, the total is unchanged, and `stats` reports
/// the rest of the total as free.
pub proof fn lemma_stats_after_allocations(states: Seq<FrameAllocator>)
    requires
        states.len() >= 1,
        forall|i: int| 0 <= i < states.len() - 1 ==> allocated_one(states[i], #[trigger] states[i + 1]),
    ensures
        states.last().spec_used() == states[0].spec_used() + (states.len() - 1),
        states.last().spec_total() == states[0].spec_total(),
        states[0].spec_total() >= states[0].spec_used() + (states.len() - 1) ==> states.last().spec_total()
            - states.last().spec_used() == states[0].spec_total() - states[0].spec_used() - (states.len()
            - 1),
    decreases states.len(),
{
    if states.len() > 1 {
        let front = states.drop_last();
        assert forall|i: int| 0 <= i < front.len() - 1 implies allocated_one(front[i], #[trigger] front[i + 1]) by {
            assert(front[i + 1] == states[i + 1]);
        }
        lemma_stats_after_allocations(front);
        let k = states.len() - 2;
        assert(states[k + 1].spec_used() == states[k].spec_used() + 1);
        assert(states[k + 1] == states.last());
        assert(front.last() == states[k]);
        assert(front[0] == states[0]);
    }
}

/// A frame's number leads back to the frame: `from_index` of `index` gives
/// the frame again, for a frame-aligned address whose frame number fits in
/// `usize` (every one does where `usize` has 64 bits).
pub proof fn lemma_frame_index_round_trip(f: PhysFrame)
    requires
        f.0 % 4096 == 0,
        f.0 / 4096 <= usize::MAX,
    ensures
        frame_number(f) * 4096 == f.0,
        frame_number(f) * 4096 <= u64::MAX,
{
}

/// A frame number leads to a frame and back: `from_index(i)` is frame-aligned
/// and its `index` is `i`.
pub proof fn lemma_index_of_from_index(i: usize)
    requires
        i * 4096 <= u64::MAX,
    ensures
        (i * 4096) as u64 % 4096 == 0,
        frame_number(PhysFrame((i * 4096) as u64)) == i,
{
}

/// The frame containing an address is found again from its frame number:
/// `from_index(containing(a).index()) == containing(a)`, whenever the frame
/// number fits in `usize` (always, where `usize` has 64 bits).
pub proof fn lemma_containing_round_trip(a: u64)
    requires
        (a - a % 4096) / 4096 <= usize::MAX,
    ensures
        frame_number(PhysFrame((a - a % 4096) as u64)) * 4096 <= u64::MAX,
        frame_number(PhysFrame((a - a % 4096) as u64)) * 4096 == a - a % 4096,
{
    assert((a - a % 4096) % 4096 == 0) by (nonlinear_arith);
}

/// Free, then allocate: once `free_frame` has given back frame `g` of the
/// scanned window (`after_free` is the allocator after that call), the next
/// `alloc_frame` succeeds, and the frame it returns is `g` or a lower one.
pub proof fn lemma_free_then_alloc_frame(
    before: FrameAllocator,
    after_free: FrameAllocator,
    g: PhysFrame,
    f: int,
)
    requires
        before.spec_initialized(),
        frame_number(g) < MAX_FRAMES,
        scan_lo(before) <= frame_number(g) <= before.spec_max(),
        after_free.used_view() == before.used_view().update(frame_number(g) as int, false),
        after_free.spec_min() == before.spec_min(),
        after_free.spec_max() == before.spec_max(),
        after_free.spec_initialized() == before.spec_initialized(),
    ensures
        after_free.spec_initialized(),
        !none_free_in(after_free.used_view(), scan_lo(after_free), after_free.spec_max() as int),
        first_free_in(after_free.used_view(), scan_lo(after_free), after_free.spec_max() as int, f) ==> f
            <= frame_number(g),
{
    lemma_free_then_allocate_lower(
        before.used_view(),
        scan_lo(before),
        before.spec_max() as int,
        frame_number(g) as int,
        f,
    );
}

} // verus!
