//! The content extent and the scrollable viewport over the placed words.
use vstd::prelude::*;
use crate::layout::{PlacedRun, sat};

verus! {

/// The bounding box of a layout: the largest right edge and the largest bottom edge.
#[derive(Copy, Clone, Debug, PartialEq, Eq, Structural)]
pub struct ContentExtent {
    pub width: i64,
    pub height: i64,
}

/// The right edge of a placed word.
pub open spec fn right_of(r: PlacedRun) -> int {
    sat(r.x + r.width)
}

/// The bottom edge of a placed word.
pub open spec fn bottom_of(r: PlacedRun) -> int {
    sat(r.y + r.height)
}

/// `e` is the extent of `runs`: each axis is the maximum of 0 and the edges on that axis.
pub open spec fn is_extent_of(e: ContentExtent, runs: Seq<PlacedRun>) -> bool {
    &&& e.width >= 0
    &&& e.height >= 0
    &&& forall|i: int| 0 <= i < runs.len() ==> right_of(#[trigger] runs[i]) <= e.width
    &&& forall|i: int| 0 <= i < runs.len() ==> bottom_of(#[trigger] runs[i]) <= e.height
    &&& (e.width == 0 || exists|i: int| 0 <= i < runs.len() && right_of(#[trigger] runs[i]) == e.width)
    &&& (e.height == 0 || exists|i: int| 0 <= i < runs.len() && bottom_of(#[trigger] runs[i]) == e.height)
}

/// The extent of a layout.
pub fn content_extent(runs: &Vec<PlacedRun>) -> (r: ContentExtent)
    ensures
        is_extent_of(r, runs@),
{
    let mut w: i64 = 0;
    let mut h: i64 = 0;
    let n = runs.len();
    let mut i: usize = 0;
    while i < n
        invariant
            n == runs@.len(),
            i <= n,
            is_extent_of(ContentExtent { width: w, height: h }, runs@.take(i as int)),
        decreases n - i,
    {
        let r = runs[i];
        let right = crate::layout::sat_add(r.x, r.width as i64);
        let bottom = crate::layout::sat_add(r.y, r.height as i64);
        let ghost pre = runs@.take(i as int);
        let ghost post = runs@.take(i + 1);
        assert(post =~= pre.push(r));
        if right > w {
            w = right;
        }
        if bottom > h {
            h = bottom;
        }
        assert(forall|k: int| 0 <= k < pre.len() ==> post[k] == pre[k]);
        assert(post[i as int] == r);
        i += 1;
    }
    assert(runs@.take(n as int) =~= runs@);
    ContentExtent { width: w, height: h }
}

/// Pixels scrolled per scroll unit.
pub const SCROLL_STEP: i64 = 48;

/// The largest offset on an axis: the content beyond the visible size, or 0.
pub open spec fn max_offset(extent: int, visible: int) -> int {
    if extent - visible > 0 { extent - visible } else { 0 }
}

/// `v` clamped to `[0, hi]`.
pub open spec fn clamp_to(v: int, hi: int) -> int {
    if v < 0 {
        0
    } else if v > hi {
        hi
    } else {
        v
    }
}

/// The scroll state over a laid-out document.
pub struct Viewport {
    pub offset_x: i64,
    pub offset_y: i64,
    pub extent: ContentExtent,
    pub width: u32,
    pub height: u32,
}

/// A placed word at its position relative to the viewport, when some of it shows there.
pub open spec fn shown(r: PlacedRun, ox: int, oy: int, width: int, height: int) -> bool {
    let x = r.x - ox;
    let y = r.y - oy;
    x + r.width > 0 && x < width && y + r.height > 0 && y < height
}

/// The words of `runs` among the first `n` that show, each with its index, moved by the offset.
pub open spec fn visible_prefix(runs: Seq<PlacedRun>, ox: int, oy: int, width: int, height: int, n: nat) -> Seq<(usize, PlacedRun)>
    decreases n,
{
    if n == 0 || n > runs.len() {
        Seq::empty()
    } else {
        let p = visible_prefix(runs, ox, oy, width, height, (n - 1) as nat);
        let r = runs[n - 1];
        if shown(r, ox, oy, width, height) {
            p.push(((n - 1) as usize, PlacedRun { x: (r.x - ox) as i64, y: (r.y - oy) as i64, ..r }))
        } else {
            p
        }
    }
}

/// Clamps `v` to `[0, max(0, extent - visible)]`.
fn clamp_offset(v: i128, extent: i64, visible: u32) -> (r: i64)
    ensures
        r == clamp_to(v as int, max_offset(extent as int, visible as int)),
{
    let diff = extent as i128 - visible as i128;
    let hi: i128 = if diff > 0 { diff } else { 0 };
    if v < 0 {
        0
    } else if v > hi {
        hi as i64
    } else {
        v as i64
    }
}

impl Viewport {
    /// The offset stays within its bounds on both axes.
    pub open spec fn wf(&self) -> bool {
        &&& 0 <= self.offset_x <= max_offset(self.extent.width as int, self.width as int)
        &&& 0 <= self.offset_y <= max_offset(self.extent.height as int, self.height as int)
    }

    /// A viewport of the given size at offset zero over empty content.
    pub fn new(width: u32, height: u32) -> (r: Viewport)
        ensures
            r.wf(),
            r.offset_x == 0,
            r.offset_y == 0,
            r.extent == (ContentExtent { width: 0, height: 0 }),
            r.width == width,
            r.height == height,
    {
        Viewport { offset_x: 0, offset_y: 0, extent: ContentExtent { width: 0, height: 0 }, width, height }
    }

    fn reclamp(&mut self)
        ensures
            final(self).extent == old(self).extent,
            final(self).width == old(self).width,
            final(self).height == old(self).height,
            final(self).offset_x == clamp_to(old(self).offset_x as int, max_offset(old(self).extent.width as int, old(self).width as int)),
            final(self).offset_y == clamp_to(old(self).offset_y as int, max_offset(old(self).extent.height as int, old(self).height as int)),
            final(self).wf(),
    {
        self.offset_x = clamp_offset(self.offset_x as i128, self.extent.width, self.width);
        self.offset_y = clamp_offset(self.offset_y as i128, self.extent.height, self.height);
    }

    /// Takes a new content extent and clamps the offset to it.
    pub fn on_content_changed(&mut self, extent: ContentExtent)
        ensures
            final(self).extent == extent,
            final(self).width == old(self).width,
            final(self).height == old(self).height,
            final(self).offset_x == clamp_to(old(self).offset_x as int, max_offset(extent.width as int, old(self).width as int)),
            final(self).offset_y == clamp_to(old(self).offset_y as int, max_offset(extent.height as int, old(self).height as int)),
            final(self).wf(),
    {
        self.extent = extent;
        self.reclamp();
    }

    /// Scrolls by `dx` and `dy` units; the offset moves against the delta and stays clamped.
    pub fn on_scroll(&mut self, dx: i32, dy: i32)
        ensures
            final(self).extent == old(self).extent,
            final(self).width == old(self).width,
            final(self).height == old(self).height,
            final(self).offset_x == clamp_to(old(self).offset_x - dx * 48, max_offset(old(self).extent.width as int, old(self).width as int)),
            final(self).offset_y == clamp_to(old(self).offset_y - dy * 48, max_offset(old(self).extent.height as int, old(self).height as int)),
            final(self).wf(),
    {
        let step = SCROLL_STEP as i128;
        self.offset_x = clamp_offset(self.offset_x as i128 - (dx as i128) * step, self.extent.width, self.width);
        self.offset_y = clamp_offset(self.offset_y as i128 - (dy as i128) * step, self.extent.height, self.height);
    }

    /// Takes a new visible size and clamps the offset to it; returns whether the width
    /// changed, in which case the layout must be computed again.
    pub fn on_resize(&mut self, width: u32, height: u32) -> (relayout: bool)
        ensures
            relayout == (width != old(self).width),
            final(self).extent == old(self).extent,
            final(self).width == width,
            final(self).height == height,
            final(self).offset_x == clamp_to(old(self).offset_x as int, max_offset(old(self).extent.width as int, width as int)),
            final(self).offset_y == clamp_to(old(self).offset_y as int, max_offset(old(self).extent.height as int, height as int)),
            final(self).wf(),
    {
        let relayout = width != self.width;
        self.width = width;
        self.height = height;
        self.reclamp();
        relayout
    }

    /// The words of `runs` that show in the viewport, in order, each with its index in `runs`
    /// and moved by minus the offset.
    pub fn visible_runs(&self, runs: &Vec<PlacedRun>) -> (r: Vec<(usize, PlacedRun)>)
        ensures
            r@ == visible_prefix(runs@, self.offset_x as int, self.offset_y as int, self.width as int, self.height as int, runs@.len()),
    {
        let mut out: Vec<(usize, PlacedRun)> = Vec::new();
        let n = runs.len();
        let mut i: usize = 0;
        while i < n
            invariant
                n == runs@.len(),
                i <= n,
                out@ == visible_prefix(runs@, self.offset_x as int, self.offset_y as int, self.width as int, self.height as int, i as nat),
            decreases n - i,
        {
            let r = runs[i];
            let x = r.x as i128 - self.offset_x as i128;
            let y = r.y as i128 - self.offset_y as i128;
            if x + r.width as i128 > 0 && x < self.width as i128 && y + r.height as i128 > 0 && y < self.height as i128 {
                out.push((i, PlacedRun { x: x as i64, y: y as i64, width: r.width, height: r.height }));
            }
            i += 1;
        }
        out
    }
}

} // verus!
