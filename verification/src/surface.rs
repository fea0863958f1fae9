//! The frame source's off-screen surface bookkeeping.
//!
//! Capturing a window draws into an off-screen surface whose creation is
//! expensive. The surface is reused across captures of the same size and
//! reallocated only when the requested size changes. This module holds
//! that decision; the operating-system surface itself lives with the
//! caller, which allocates or reuses exactly as instructed.

use vstd::prelude::*;

verus! {

/// Whether a capture is possible at all: a window with a degenerate
/// client area (zero width or height) yields no frame.
pub fn capture_viable(width: u32, height: u32) -> (r: bool)
    ensures
        r == (width > 0 && height > 0),
{
    width > 0 && height > 0
}

/// Bookkeeping for the reusable capture surface. `alloc_count` counts the
/// allocations performed over the surface's lifetime.
pub struct FrameSurface {
    pub width: u32,
    pub height: u32,
    pub allocated: bool,
    pub alloc_count: u64,
}

impl FrameSurface {
    /// The surface already holds a backing store of exactly this size.
    pub open spec fn matches(self, width: u32, height: u32) -> bool {
        self.allocated && self.width == width && self.height == height
    }

    /// How one `prepare` call changes the bookkeeping.
    pub open spec fn prepare_rel(
        pre: FrameSurface,
        post: FrameSurface,
        width: u32,
        height: u32,
        realloc: bool,
    ) -> bool {
        &&& realloc == !pre.matches(width, height)
        &&& post.matches(width, height)
        &&& post.alloc_count == pre.alloc_count + (if realloc {
            1int
        } else {
            0int
        })
    }

    /// A fresh frame source: nothing allocated yet.
    pub fn new() -> (s: FrameSurface)
        ensures
            !s.allocated,
            s.alloc_count == 0,
    {
        FrameSurface { width: 0, height: 0, allocated: false, alloc_count: 0 }
    }

    /// Make the surface ready for a capture of the given size. Returns
    /// whether the backing store must be (re)allocated; a capture of the
    /// same size as the previous one reuses the store untouched.
    pub fn prepare(&mut self, width: u32, height: u32) -> (realloc: bool)
        requires
            old(self).alloc_count < u64::MAX,
        ensures
            FrameSurface::prepare_rel(*old(self), *final(self), width, height, realloc),
    {
        if self.allocated && self.width == width && self.height == height {
            false
        } else {
            self.width = width;
            self.height = height;
            self.allocated = true;
            self.alloc_count = self.alloc_count + 1;
            true
        }
    }

    /// Release the backing store (the frame source is being dropped or the
    /// target window went away).
    pub fn release(&mut self)
        ensures
            !final(self).allocated,
            final(self).alloc_count == old(self).alloc_count,
    {
        self.allocated = false;
    }
}

/// Two consecutive captures at one size share the backing surface: after a
/// first `prepare` at a new size has allocated once, a second `prepare` at
/// the same size reuses the store and the allocation counter stands still;
/// a later size change allocates exactly once more.
pub proof fn lemma_surface_reuse(
    s0: FrameSurface,
    s1: FrameSurface,
    s2: FrameSurface,
    s3: FrameSurface,
    w: u32,
    h: u32,
    w2: u32,
    h2: u32,
    r1: bool,
    r2: bool,
    r3: bool,
)
    requires
        !s0.matches(w, h),
        FrameSurface::prepare_rel(s0, s1, w, h, r1),
        FrameSurface::prepare_rel(s1, s2, w, h, r2),
        (w2, h2) != (w, h),
        FrameSurface::prepare_rel(s2, s3, w2, h2, r3),
    ensures
        r1 == true && s1.alloc_count == s0.alloc_count + 1,
        r2 == false && s2.alloc_count == s1.alloc_count,
        r3 == true && s3.alloc_count == s2.alloc_count + 1,
{
}

} // verus!
