//! The rectangle packer: free-space management for a fixed-size 2D texture.
//!
//! The packing strategy itself (bucketed shelf packing) comes from the
//! `etagere` crate; this module states what that allocator guarantees —
//! live allocations are pairwise disjoint rectangles inside the atlas,
//! each at least as large as requested — and wraps it in the verified
//! [`Packer`] type that the glyph cache builds on.

use vstd::prelude::*;

use crate::geom::{rect_within, rects_disjoint, Rect, RegionMap};

verus! {

#[verifier::external_type_specification]
#[verifier::external_body]
pub struct ExBucketedAtlasAllocator(etagere::BucketedAtlasAllocator);

/// The live allocations of an allocator, keyed by allocation id; each value
/// is the rectangle `(x0, y0, x1, y1)` that the allocation occupies.
pub uninterp spec fn packer_regions(p: etagere::BucketedAtlasAllocator) -> RegionMap;

/// The `(width, height)` the allocator was created with.
pub uninterp spec fn packer_dims(p: etagere::BucketedAtlasAllocator) -> (int, int);

/// One successful allocation: an opaque id to deallocate with, and the
/// rectangle `x <= px < x_max`, `y <= py < y_max` granted inside the atlas.
#[derive(Clone, Copy, Debug, PartialEq, Eq, Structural)]
pub struct Region {
    pub id: u32,
    pub x: u32,
    pub y: u32,
    pub x_max: u32,
    pub y_max: u32,
}

impl Region {
    /// The rectangle this region occupies, as a mathematical value.
    pub open spec fn rect(self) -> Rect {
        (self.x as int, self.y as int, self.x_max as int, self.y_max as int)
    }
}

/// Relies on `etagere::BucketedAtlasAllocator::new`: a fresh allocator of the
/// given size holds no allocations. (`new` panics for sizes of 65535 or
/// more, and the allocator later rounds a new shelf's height up to a
/// multiple of 64 in 16-bit arithmetic, which overflows past 65472 — so
/// sizes stop at 65472, the largest multiple of 64 below 65536.)
#[verifier::external_body]
fn packer_new(width: u32, height: u32) -> (r: etagere::BucketedAtlasAllocator)
    requires
        1 <= width <= 65472,
        1 <= height <= 65472,
    ensures
        packer_dims(r) == (width as int, height as int),
        packer_regions(r) == RegionMap::empty(),
{
    etagere::BucketedAtlasAllocator::new(etagere::size2(width as i32, height as i32))
}

/// Relies on `etagere::BucketedAtlasAllocator::allocate`: on success the
/// chosen rectangle is at least the requested size, lies inside the atlas,
/// is disjoint from every live allocation, and carries an id distinct from
/// every live id; on failure nothing changes. Which free region is chosen
/// (or whether the attempt fails at all) is the allocator's own decision,
/// so no clause promises success. (Requests stop at 65472: above that the
/// allocator's shelf-height rounding to a multiple of 64 overflows its
/// 16-bit arithmetic.)
#[verifier::external_body]
fn packer_allocate(p: &mut etagere::BucketedAtlasAllocator, width: u32, height: u32) -> (r: Option<
    Region,
>)
    requires
        1 <= width <= 65472,
        1 <= height <= 65472,
    ensures
        packer_dims(*final(p)) == packer_dims(*old(p)),
        r is None ==> packer_regions(*final(p)) == packer_regions(*old(p)),
        r matches Some(reg) ==> !packer_regions(*old(p)).contains_key(reg.id),
        r matches Some(reg) ==> packer_regions(*final(p)) == packer_regions(*old(p)).insert(
            reg.id,
            reg.rect(),
        ),
        r matches Some(reg) ==> rect_within(
            reg.rect(),
            packer_dims(*old(p)).0,
            packer_dims(*old(p)).1,
        ),
        r matches Some(reg) ==> reg.x_max - reg.x >= width && reg.y_max - reg.y >= height,
        r matches Some(reg) ==> forall|other: u32|
            packer_regions(*old(p)).contains_key(other) ==> rects_disjoint(
                reg.rect(),
                packer_regions(*old(p))[other],
            ),
{
    match p.allocate(etagere::size2(width as i32, height as i32)) {
        Some(a) => Some(
            Region {
                id: a.id.serialize(),
                x: a.rectangle.min.x as u32,
                y: a.rectangle.min.y as u32,
                x_max: a.rectangle.max.x as u32,
                y_max: a.rectangle.max.y as u32,
            },
        ),
        None => None,
    }
}

/// Relies on `etagere::BucketedAtlasAllocator::deallocate`: releases one live
/// allocation. (The call panics on an id that is not live, so the contract
/// demands a live one; the freed space becomes reusable once the whole
/// bucket holding it is empty, which the packer manages internally.)
#[verifier::external_body]
fn packer_deallocate(p: &mut etagere::BucketedAtlasAllocator, id: u32)
    requires
        packer_regions(*old(p)).contains_key(id),
    ensures
        packer_regions(*final(p)) == packer_regions(*old(p)).remove(id),
        packer_dims(*final(p)) == packer_dims(*old(p)),
{
    p.deallocate(etagere::AllocId::deserialize(id))
}

/// Free-space tracking for a fixed-size texture.
pub struct Packer {
    inner: etagere::BucketedAtlasAllocator,
    width: u32,
    height: u32,
}

impl Packer {
    /// The rectangles currently allocated, by allocation id.
    pub closed spec fn regions(self) -> RegionMap {
        packer_regions(self.inner)
    }

    /// The fixed size of the managed texture.
    pub closed spec fn dims(self) -> (int, int) {
        (self.width as int, self.height as int)
    }

    pub closed spec fn wf(self) -> bool {
        &&& 1 <= self.width <= 65472
        &&& 1 <= self.height <= 65472
        &&& packer_dims(self.inner) == self.dims()
        &&& forall|id: u32| #[trigger]
            self.regions().contains_key(id) ==> rect_within(
                self.regions()[id],
                self.dims().0,
                self.dims().1,
            )
        &&& forall|a: u32, b: u32|
            a != b && #[trigger] self.regions().contains_key(a)
                && #[trigger] self.regions().contains_key(b) ==> rects_disjoint(
                self.regions()[a],
                self.regions()[b],
            )
    }

    /// A packer for a `width` by `height` texture with all space free.
    /// Sizes are capped at 65472 pixels a side, the largest extent the
    /// backing allocator's 16-bit shelf arithmetic supports.
    pub fn new(width: u32, height: u32) -> (p: Packer)
        requires
            1 <= width <= 65472,
            1 <= height <= 65472,
        ensures
            p.wf(),
            p.regions() == RegionMap::empty(),
            p.dims() == (width as int, height as int),
    {
        let inner = packer_new(width, height);
        Packer { inner, width, height }
    }

    /// Allocate a region of at least `width` by `height` pixels (zero is
    /// clamped to one, so even empty glyphs occupy a valid slot). Returns
    /// `None` when the packer finds no free region of sufficient size; the
    /// tracked space never grows beyond the texture.
    pub fn allocate(&mut self, width: u32, height: u32) -> (r: Option<Region>)
        requires
            old(self).wf(),
        ensures
            final(self).wf(),
            final(self).dims() == old(self).dims(),
            match r {
                Some(reg) => {
                    &&& !old(self).regions().contains_key(reg.id)
                    &&& final(self).regions() == old(self).regions().insert(reg.id, reg.rect())
                    &&& rect_within(reg.rect(), old(self).dims().0, old(self).dims().1)
                    &&& reg.x_max - reg.x >= width
                    &&& reg.y_max - reg.y >= height
                    &&& forall|other: u32|
                        old(self).regions().contains_key(other) ==> rects_disjoint(
                            reg.rect(),
                            old(self).regions()[other],
                        )
                },
                None => final(self).regions() == old(self).regions(),
            },
    {
        let w = if width == 0 {
            1
        } else {
            width
        };
        let h = if height == 0 {
            1
        } else {
            height
        };
        if w > self.width || h > self.height {
            // Larger than the whole texture: no free region can suffice.
            return None;
        }
        let got = packer_allocate(&mut self.inner, w, h);
        proof {
            // Connect the spec views of the updated struct to the raw
            // allocator facts the trusted call established.
            assert(self.regions() == packer_regions(self.inner));
            assert(old(self).regions() == packer_regions(old(self).inner));
            assert(self.dims() == old(self).dims());
        }
        got
    }

    /// Every live region lies inside the managed texture.
    pub proof fn lemma_region_in_bounds(self, id: u32)
        requires
            self.wf(),
            self.regions().contains_key(id),
        ensures
            rect_within(self.regions()[id], self.dims().0, self.dims().1),
    {
    }

    /// Two distinct live regions never overlap.
    pub proof fn lemma_regions_disjoint(self, a: u32, b: u32)
        requires
            self.wf(),
            a != b,
            self.regions().contains_key(a),
            self.regions().contains_key(b),
        ensures
            rects_disjoint(self.regions()[a], self.regions()[b]),
    {
    }

    /// Release a live region back to free space.
    pub fn deallocate(&mut self, id: u32)
        requires
            old(self).wf(),
            old(self).regions().contains_key(id),
        ensures
            final(self).wf(),
            final(self).dims() == old(self).dims(),
            final(self).regions() == old(self).regions().remove(id),
    {
        packer_deallocate(&mut self.inner, id)
    }
}

} // verus!
