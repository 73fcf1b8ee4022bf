//! Two-dimensional sizes and integer rectangles.

use vstd::prelude::*;

verus! {

/// A width/height pair, generic over the scalar type.
#[derive(Clone, Copy, Debug, Hash, PartialEq, Eq, Structural)]
pub struct Size<T> {
    pub width: T,
    pub height: T,
}

impl<T> Size<T> {
    #[inline]
    pub fn new(width: T, height: T) -> (r: Self)
        ensures
            r == (Size { width, height }),
    {
        Size { width, height }
    }
}

/// An axis-aligned rectangle in integer atlas coordinates,
/// spanning `x0 <= x < x1` and `y0 <= y < y1`.
pub type Rect = (int, int, int, int);

/// The rectangles a packer has live, keyed by allocation id.
pub type RegionMap = Map<u32, Rect>;

/// Whether two rectangles share no point.
pub open spec fn rects_disjoint(a: Rect, b: Rect) -> bool {
    a.2 <= b.0 || b.2 <= a.0 || a.3 <= b.1 || b.3 <= a.1
}

/// Whether `a` lies inside the box from the origin to `(w, h)`.
pub open spec fn rect_within(a: Rect, w: int, h: int) -> bool {
    0 <= a.0 < a.2 <= w && 0 <= a.1 < a.3 <= h
}

} // verus!
