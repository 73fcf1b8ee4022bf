//! The glyph atlas cache: an LRU-backed rectangle-packed cache of rasterized
//! glyphs sharing one fixed-size texture.
//!
//! Each cached glyph owns exactly one live packer allocation. Glyphs touched
//! during the current frame sit in the in-use set and are never evicted
//! within that frame; when space runs out, entries are reclaimed strictly
//! in least-recently-used order until either the allocation succeeds or the
//! least recently used entry is itself still in use.

use vstd::prelude::*;

use crate::geom::{rect_within, rects_disjoint, Rect, RegionMap, Size};
use crate::glyph::{CacheGlyphError, GlyphData, GlyphKey, GlyphPlacement};
use crate::lru_store::{
    has_key, index_of, lemma_promoted, lru_entries, lru_get, lru_new, lru_peek_lru, lru_pop_lru,
    lru_promote, lru_put, promoted, unique_keys, value_of, GlyphEntry, GlyphSeq,
};
use crate::packer::Packer;

verus! {

/// The atlas texture starts (and, growth being unimplemented, stays) at
/// this many pixels on each side.
pub const DEFAULT_ATLAS_SIZE: u32 = 256;

/// The pixel rectangle a cached glyph covers inside the atlas.
pub open spec fn data_rect(d: GlyphData) -> Rect {
    (d.x as int, d.y as int, d.x_max as int, d.y_max as int)
}

/// The LRU glyph cache over a shared atlas texture.
pub struct TextAtlas {
    packer: Packer,
    cached_glyphs: lru::LruCache<GlyphKey, GlyphData>,
    glyphs_in_use: Vec<GlyphKey>,
    texture_size: Size<u32>,
}

impl TextAtlas {
    /// The cached entries, from most recently to least recently used.
    pub closed spec fn entries(self) -> GlyphSeq {
        lru_entries(self.cached_glyphs)
    }

    /// The keys used during the current frame, protected from eviction.
    pub closed spec fn in_use(self) -> Set<GlyphKey> {
        self.glyphs_in_use@.to_set()
    }

    /// The live packer allocations backing the cached glyphs.
    pub closed spec fn allocations(self) -> RegionMap {
        self.packer.regions()
    }

    /// The size of the shared atlas texture.
    pub closed spec fn size(self) -> Size<u32> {
        self.texture_size
    }

    /// A cached record is backed by exactly the packer region it names.
    closed spec fn backs(self, d: GlyphData) -> bool {
        &&& self.packer.regions().contains_key(d.alloc_id)
        &&& self.packer.regions()[d.alloc_id] == data_rect(d)
        &&& d.x_max - d.x >= d.width
        &&& d.y_max - d.y >= d.height
    }

    pub closed spec fn wf(self) -> bool {
        &&& self.packer.wf()
        &&& self.packer.dims() == (self.texture_size.width as int, self.texture_size.height as int)
        &&& unique_keys(self.entries())
        &&& forall|e: GlyphEntry| #[trigger] self.entries().contains(e) ==> self.backs(e.1)
        &&& forall|e1: GlyphEntry, e2: GlyphEntry|
            #[trigger] self.entries().contains(e1) && #[trigger] self.entries().contains(e2) && e1
                != e2 ==> e1.1.alloc_id != e2.1.alloc_id
        &&& forall|id: u32| #[trigger]
            self.packer.regions().contains_key(id) ==> exists|e: GlyphEntry|
                #[trigger] self.entries().contains(e) && e.1.alloc_id == id
        &&& forall|i: int|
            0 <= i < self.glyphs_in_use@.len() ==> has_key(
                self.entries(),
                #[trigger] self.glyphs_in_use@[i],
            )
        &&& forall|i: int, j: int|
            0 <= i < j < self.glyphs_in_use@.len() ==> (#[trigger] self.glyphs_in_use@[i]) != (
            #[trigger] self.glyphs_in_use@[j])
    }

    /// An empty cache over a fresh atlas texture of the default size.
    pub fn new() -> (atlas: TextAtlas)
        ensures
            atlas.wf(),
            atlas.entries() == GlyphSeq::empty(),
            atlas.in_use() == Set::<GlyphKey>::empty(),
            atlas.allocations() == RegionMap::empty(),
            atlas.size() == (Size { width: DEFAULT_ATLAS_SIZE, height: DEFAULT_ATLAS_SIZE }),
    {
        let packer = Packer::new(DEFAULT_ATLAS_SIZE, DEFAULT_ATLAS_SIZE);
        let cached_glyphs = lru_new();
        let atlas = TextAtlas {
            packer,
            cached_glyphs,
            glyphs_in_use: Vec::new(),
            texture_size: Size::new(DEFAULT_ATLAS_SIZE, DEFAULT_ATLAS_SIZE),
        };
        proof {
            assert(atlas.in_use() =~= Set::<GlyphKey>::empty());
        }
        atlas
    }

    /// The size of the shared atlas texture, for callers sizing uploads.
    pub fn texture_size(&self) -> (r: Size<u32>)
        ensures
            r == self.size(),
    {
        self.texture_size
    }

    /// Whether `key` was touched during the current frame.
    fn in_use_contains(&self, key: &GlyphKey) -> (r: bool)
        ensures
            r == self.in_use().contains(*key),
    {
        let n = self.glyphs_in_use.len();
        let mut i: usize = 0;
        while i < n
            invariant
                i <= n,
                n == self.glyphs_in_use@.len(),
                forall|m: int| 0 <= m < i ==> (#[trigger] self.glyphs_in_use@[m]) != *key,
            decreases n - i,
        {
            if self.glyphs_in_use[i] == *key {
                proof {
                    assert(self.glyphs_in_use@.contains(*key));
                }
                return true;
            }
            i += 1;
        }
        proof {
            assert(!self.glyphs_in_use@.contains(*key));
        }
        false
    }

    /// Add `key` to the in-use set.
    fn mark_in_use(&mut self, key: GlyphKey)
        requires
            forall|i: int, j: int|
                0 <= i < j < old(self).glyphs_in_use@.len() ==> (#[trigger] old(self).glyphs_in_use@[i])
                    != (#[trigger] old(self).glyphs_in_use@[j]),
        ensures
            final(self).in_use() == old(self).in_use().insert(key),
            final(self).glyphs_in_use@ == old(self).glyphs_in_use@ || final(self).glyphs_in_use@
                == old(self).glyphs_in_use@.push(key),
            forall|i: int, j: int|
                0 <= i < j < final(self).glyphs_in_use@.len() ==> (#[trigger] final(self).glyphs_in_use@[i])
                    != (#[trigger] final(self).glyphs_in_use@[j]),
            final(self).packer == old(self).packer,
            final(self).cached_glyphs == old(self).cached_glyphs,
            final(self).texture_size == old(self).texture_size,
    {
        if self.in_use_contains(&key) {
            proof {
                assert(final(self).in_use() =~= old(self).in_use().insert(key));
            }
        } else {
            self.glyphs_in_use.push(key);
            proof {
                assert(final(self).glyphs_in_use@ == old(self).glyphs_in_use@.push(key));
                assert forall|i: int, j: int|
                    0 <= i < j < self.glyphs_in_use@.len() implies (
                #[trigger] self.glyphs_in_use@[i]) != (#[trigger] self.glyphs_in_use@[j]) by {
                    if j < self.glyphs_in_use@.len() - 1 {
                        assert(old(self).glyphs_in_use@[i] != old(self).glyphs_in_use@[j]);
                    } else {
                        assert(self.glyphs_in_use@[j] == key);
                        assert(!old(self).glyphs_in_use@.contains(key));
                    }
                }
                broadcast use vstd::seq_lib::lemma_seq_contains_after_push;

                assert(self.in_use() =~= old(self).in_use().insert(key));
            }
        }
    }

    /// Promoting a cached key preserves the cache invariant: the entries are
    /// permuted, the packer is untouched, and the in-use set at most gains
    /// the promoted key.
    proof fn lemma_wf_after_promote(pre: TextAtlas, post: TextAtlas, key: GlyphKey)
        requires
            pre.wf(),
            has_key(pre.entries(), key),
            post.entries() == promoted(pre.entries(), key),
            post.packer == pre.packer,
            post.texture_size == pre.texture_size,
            post.glyphs_in_use@ == pre.glyphs_in_use@ || post.glyphs_in_use@
                == pre.glyphs_in_use@.push(key),
            forall|i: int, j: int|
                0 <= i < j < post.glyphs_in_use@.len() ==> (#[trigger] post.glyphs_in_use@[i])
                    != (#[trigger] post.glyphs_in_use@[j]),
        ensures
            post.wf(),
    {
        lemma_promoted(pre.entries(), key);
        assert forall|e: GlyphEntry| #[trigger] post.entries().contains(e) implies post.backs(
            e.1,
        ) by {
            assert(pre.entries().contains(e));
        }
        assert forall|e1: GlyphEntry, e2: GlyphEntry|
            #[trigger] post.entries().contains(e1) && #[trigger] post.entries().contains(e2) && e1
                != e2 implies e1.1.alloc_id != e2.1.alloc_id by {
            assert(pre.entries().contains(e1));
            assert(pre.entries().contains(e2));
        }
        assert forall|id: u32| #[trigger] post.packer.regions().contains_key(id) implies exists|
            e: GlyphEntry,
        |
            #[trigger] post.entries().contains(e) && e.1.alloc_id == id by {
            let e = choose|e: GlyphEntry|
                #[trigger] pre.entries().contains(e) && e.1.alloc_id == id;
            assert(post.entries().contains(e));
        }
        assert forall|i: int| 0 <= i < post.glyphs_in_use@.len() implies has_key(
            post.entries(),
            #[trigger] post.glyphs_in_use@[i],
        ) by {
            if i < pre.glyphs_in_use@.len() {
                assert(has_key(pre.entries(), pre.glyphs_in_use@[i]));
            } else {
                assert(post.glyphs_in_use@[i] == key);
            }
        }
    }

    /// The idempotent fast path of glyph use: a key already cached is
    /// promoted to most recently used and added to the in-use set — no
    /// rasterization, no packer allocation, no texture upload. Returns
    /// whether the key was cached; a miss changes nothing, and the caller
    /// then rasterizes and calls [`TextAtlas::cache_glyph`].
    pub fn use_cached_glyph(&mut self, key: GlyphKey) -> (hit: bool)
        requires
            old(self).wf(),
        ensures
            final(self).wf(),
            hit == has_key(old(self).entries(), key),
            final(self).allocations() == old(self).allocations(),
            final(self).size() == old(self).size(),
            hit ==> final(self).entries() == promoted(old(self).entries(), key),
            hit ==> final(self).in_use() == old(self).in_use().insert(key),
            forall|k2: GlyphKey|
                has_key(old(self).entries(), k2) ==> has_key(final(self).entries(), k2)
                    && value_of(final(self).entries(), k2) == value_of(old(self).entries(), k2),
            !hit ==> final(self).entries() == old(self).entries(),
            !hit ==> final(self).in_use() == old(self).in_use(),
    {
        let hit = lru_promote(&mut self.cached_glyphs, &key);
        proof {
            assert(self.entries() == lru_entries(self.cached_glyphs));
            assert(old(self).entries() == lru_entries(old(self).cached_glyphs));
            assert(self.allocations() == old(self).allocations());
        }
        proof {
            if hit {
                lemma_promoted(old(self).entries(), key);
            }
        }
        if hit {
            let ghost mid = *self;
            self.mark_in_use(key);
            proof {
                assert(self.entries() == mid.entries());
                Self::lemma_wf_after_promote(*old(self), *self, key);
            }
        }
        hit
    }

    /// Previously cached geometry for a key: its atlas rectangle and
    /// placement, promoting the key to most recently used. Nothing is
    /// allocated or uploaded, and the in-use set does not change.
    pub fn get_glyph_data(&mut self, key: &GlyphKey) -> (r: Option<GlyphData>)
        requires
            old(self).wf(),
        ensures
            final(self).wf(),
            final(self).allocations() == old(self).allocations(),
            final(self).size() == old(self).size(),
            final(self).in_use() == old(self).in_use(),
            match r {
                Some(d) => {
                    &&& has_key(old(self).entries(), *key)
                    &&& d == value_of(old(self).entries(), *key)
                    &&& final(self).entries() == promoted(old(self).entries(), *key)
                },
                None => {
                    &&& !has_key(old(self).entries(), *key)
                    &&& final(self).entries() == old(self).entries()
                },
            },
    {
        let r = lru_get(&mut self.cached_glyphs, key);
        proof {
            assert(self.entries() == lru_entries(self.cached_glyphs));
            assert(old(self).entries() == lru_entries(old(self).cached_glyphs));
            if r is Some {
                Self::lemma_wf_after_promote(*old(self), *self, *key);
            }
        }
        r
    }

    /// Evict the least recently used entry to make room, freeing its atlas
    /// region. Fails with `OutOfSpace` when that entry is still in use this
    /// frame (nothing may be evicted then), and with `LruStorageError` when
    /// the cache is already empty.
    fn free_space(&mut self) -> (r: Result<(), CacheGlyphError>)
        requires
            old(self).wf(),
        ensures
            final(self).wf(),
            final(self).size() == old(self).size(),
            final(self).glyphs_in_use@ == old(self).glyphs_in_use@,
            final(self).in_use() == old(self).in_use(),
            match r {
                Ok(()) => {
                    &&& old(self).entries().len() > 0
                    &&& !old(self).in_use().contains(old(self).entries().last().0)
                    &&& final(self).entries() == old(self).entries().drop_last()
                    &&& final(self).allocations() == old(self).allocations().remove(
                        old(self).entries().last().1.alloc_id,
                    )
                },
                Err(e) => {
                    &&& final(self).entries() == old(self).entries()
                    &&& final(self).allocations() == old(self).allocations()
                    &&& (e == CacheGlyphError::OutOfSpace <==> old(self).entries().len() > 0)
                    &&& (e == CacheGlyphError::OutOfSpace || e == CacheGlyphError::LruStorageError)
                    &&& e == CacheGlyphError::OutOfSpace ==> old(self).in_use().contains(
                        old(self).entries().last().0,
                    )
                },
            },
    {
        let peeked = lru_peek_lru(&self.cached_glyphs);
        match peeked {
            Some((key, _data)) => {
                if self.in_use_contains(&key) {
                    return Err(CacheGlyphError::OutOfSpace);
                }
            },
            None => {
                return Err(CacheGlyphError::LruStorageError);
            },
        }
        let popped = lru_pop_lru(&mut self.cached_glyphs);
        match popped {
            Some((key, data)) => {
                proof {
                    assert(self.entries() == lru_entries(self.cached_glyphs));
                    assert(old(self).entries() == lru_entries(old(self).cached_glyphs));
                    let ghost e0 = old(self).entries();
                    assert((key, data) == e0.last());
                    assert(e0.contains(e0[e0.len() - 1]));
                    assert(old(self).backs(data));
                }
                self.packer.deallocate(data.alloc_id);
                proof {
                    self.lemma_wf_after_evict(*old(self), key, data);
                }
                Ok(())
            },
            None => {
                proof {
                    assert(false);
                }
                Err(CacheGlyphError::LruStorageError)
            },
        }
    }

    /// Dropping the least recently used entry together with its atlas
    /// region preserves the cache invariant, provided that entry is not
    /// protected by the in-use set.
    proof fn lemma_wf_after_evict(self, pre: TextAtlas, key: GlyphKey, data: GlyphData)
        requires
            pre.wf(),
            pre.entries().len() > 0,
            (key, data) == pre.entries().last(),
            !pre.in_use().contains(key),
            self.entries() == pre.entries().drop_last(),
            self.packer.wf(),
            self.packer.dims() == pre.packer.dims(),
            self.packer.regions() == pre.packer.regions().remove(data.alloc_id),
            self.glyphs_in_use@ == pre.glyphs_in_use@,
            self.texture_size == pre.texture_size,
        ensures
            self.wf(),
    {
        let e0 = pre.entries();
        let e1 = self.entries();
        let last = e0[e0.len() - 1];
        assert(e0.contains(last));
        assert forall|e: GlyphEntry| #[trigger] e1.contains(e) implies e0.contains(e) && e
            != last by {
            let i = choose|i: int| 0 <= i < e1.len() && e1[i] == e;
            assert(e0[i] == e);
            assert(e0[i].0 != e0[e0.len() - 1].0);
        }
        assert forall|e: GlyphEntry| #[trigger] e1.contains(e) implies self.backs(e.1) by {
            assert(pre.backs(e.1));
            assert(e.1.alloc_id != last.1.alloc_id);
        }
        assert forall|id: u32| #[trigger] self.packer.regions().contains_key(id) implies exists|
            e: GlyphEntry,
        | #[trigger] e1.contains(e) && e.1.alloc_id == id by {
            assert(pre.packer.regions().contains_key(id));
            let e = choose|e: GlyphEntry| #[trigger] e0.contains(e) && e.1.alloc_id == id;
            let i = choose|i: int| 0 <= i < e0.len() && e0[i] == e;
            assert(id != last.1.alloc_id);
            assert(e != last);
            if i == e0.len() - 1 {
                assert(e == last);
            }
            assert(e1[i] == e);
            assert(e1.contains(e));
        }
        assert forall|i: int| 0 <= i < self.glyphs_in_use@.len() implies has_key(
            e1,
            #[trigger] self.glyphs_in_use@[i],
        ) by {
            let k2 = self.glyphs_in_use@[i];
            assert(has_key(e0, k2));
            let m = choose|m: int| 0 <= m < e0.len() && e0[m].0 == k2;
            if m == e0.len() - 1 {
                assert(pre.glyphs_in_use@.contains(k2));
                assert(pre.in_use().contains(k2));
            } else {
                assert(e1[m].0 == k2);
            }
        }
    }

    /// Inserting a freshly allocated glyph at the front of the recency
    /// order preserves the cache invariant.
    proof fn lemma_wf_after_insert(self, pre: TextAtlas, key: GlyphKey, data: GlyphData)
        requires
            pre.wf(),
            !has_key(pre.entries(), key),
            !pre.packer.regions().contains_key(data.alloc_id),
            self.entries() == seq![(key, data)] + pre.entries(),
            self.packer.wf(),
            self.packer.dims() == pre.packer.dims(),
            self.packer.regions() == pre.packer.regions().insert(data.alloc_id, data_rect(data)),
            data.x_max - data.x >= data.width,
            data.y_max - data.y >= data.height,
            self.glyphs_in_use@ == pre.glyphs_in_use@ || self.glyphs_in_use@
                == pre.glyphs_in_use@.push(key),
            forall|i: int, j: int|
                0 <= i < j < self.glyphs_in_use@.len() ==> (#[trigger] self.glyphs_in_use@[i])
                    != (#[trigger] self.glyphs_in_use@[j]),
            self.texture_size == pre.texture_size,
        ensures
            self.wf(),
    {
        let e0 = pre.entries();
        let e1 = self.entries();
        assert(e1[0] == (key, data));
        assert forall|e: GlyphEntry| #[trigger] e1.contains(e) implies e == (key, data)
            || e0.contains(e) by {
            let i = choose|i: int| 0 <= i < e1.len() && e1[i] == e;
            if i > 0 {
                assert(e0[i - 1] == e);
            }
        }
        assert forall|e: GlyphEntry| #[trigger] e0.contains(e) implies e1.contains(e) by {
            let m = choose|m: int| 0 <= m < e0.len() && e0[m] == e;
            assert(e1[m + 1] == e);
        }
        assert(e1.contains(e1[0]));
        assert forall|i: int, j: int| 0 <= i < j < e1.len() implies (#[trigger] e1[i]).0 != (
        #[trigger] e1[j]).0 by {
            if i == 0 {
                assert(e1[j] == e0[j - 1]);
                assert(e0.contains(e0[j - 1]));
                if e0[j - 1].0 == key {
                    assert(has_key(e0, key));
                }
            } else {
                assert(e1[i] == e0[i - 1]);
                assert(e1[j] == e0[j - 1]);
            }
        }
        assert forall|e: GlyphEntry| #[trigger] e1.contains(e) implies self.backs(e.1) by {
            if e == (key, data) {
                assert(self.packer.regions().contains_key(data.alloc_id));
            } else {
                assert(e0.contains(e));
                assert(pre.backs(e.1));
                assert(e.1.alloc_id != data.alloc_id);
            }
        }
        assert forall|e1x: GlyphEntry, e2x: GlyphEntry|
            #[trigger] e1.contains(e1x) && #[trigger] e1.contains(e2x) && e1x != e2x implies
            e1x.1.alloc_id != e2x.1.alloc_id by {
            if e1x == (key, data) {
                assert(e0.contains(e2x));
                assert(pre.backs(e2x.1));
            } else if e2x == (key, data) {
                assert(e0.contains(e1x));
                assert(pre.backs(e1x.1));
            } else {
                assert(e0.contains(e1x));
                assert(e0.contains(e2x));
            }
        }
        assert forall|id: u32| #[trigger] self.packer.regions().contains_key(id) implies exists|
            e: GlyphEntry,
        | #[trigger] e1.contains(e) && e.1.alloc_id == id by {
            if id == data.alloc_id {
                assert(e1.contains((key, data)) && (key, data).1.alloc_id == id);
            } else {
                assert(pre.packer.regions().contains_key(id));
                let e = choose|e: GlyphEntry| #[trigger] e0.contains(e) && e.1.alloc_id == id;
                assert(e1.contains(e));
            }
        }
        assert forall|i: int| 0 <= i < self.glyphs_in_use@.len() implies has_key(
            e1,
            #[trigger] self.glyphs_in_use@[i],
        ) by {
            let k2 = self.glyphs_in_use@[i];
            if i < pre.glyphs_in_use@.len() {
                assert(pre.glyphs_in_use@[i] == k2);
                assert(has_key(e0, k2));
                let m = choose|m: int| 0 <= m < e0.len() && e0[m].0 == k2;
                assert(e1[m + 1].0 == k2);
            } else {
                assert(k2 == key);
                assert(e1[0].0 == key);
            }
        }
    }

    /// Cache a glyph that is not yet resident: allocate atlas space for its
    /// bitmap (evicting least-recently-used entries as needed), record its
    /// geometry as the most recently used entry, and mark it in use. The
    /// returned record tells the caller where to upload the bitmap.
    ///
    /// Entries are only ever evicted from the least-recently-used end, and
    /// never while they are in use this frame: if the least recently used
    /// survivor is still in use, the call fails with `OutOfSpace`; if the
    /// cache empties without the allocation succeeding, it fails with
    /// `LruStorageError`. A key in use this frame is never evicted.
    pub fn cache_glyph(&mut self, key: GlyphKey, placement: GlyphPlacement) -> (r: Result<
        GlyphData,
        CacheGlyphError,
    >)
        requires
            old(self).wf(),
            !has_key(old(self).entries(), key),
        ensures
            final(self).wf(),
            final(self).size() == old(self).size(),
            forall|k: GlyphKey|
                old(self).in_use().contains(k) && has_key(old(self).entries(), k) ==> has_key(
                    final(self).entries(),
                    k,
                ),
            old(self).in_use() == Set::<GlyphKey>::empty() ==> r != Err::<
                GlyphData,
                CacheGlyphError,
            >(CacheGlyphError::OutOfSpace),
            match r {
                Ok(data) => {
                    &&& final(self).entries().len() >= 1
                    &&& final(self).entries().len() <= old(self).entries().len() + 1
                    &&& final(self).entries() == seq![(key, data)] + old(
                        self,
                    ).entries().subrange(0, final(self).entries().len() - 1)
                    &&& forall|j: int|
                        final(self).entries().len() - 1 <= j < old(self).entries().len()
                            ==> !old(self).in_use().contains(
                            (#[trigger] old(self).entries()[j]).0,
                        )
                    &&& final(self).in_use() == old(self).in_use().insert(key)
                    &&& data.left == placement.left
                    &&& data.top == placement.top
                    &&& data.width == placement.width
                    &&& data.height == placement.height
                    &&& rect_within(
                        data_rect(data),
                        old(self).size().width as int,
                        old(self).size().height as int,
                    )
                    &&& data.x_max - data.x >= placement.width
                    &&& data.y_max - data.y >= placement.height
                    &&& final(self).allocations().contains_key(data.alloc_id)
                    &&& final(self).allocations()[data.alloc_id] == data_rect(data)
                },
                Err(e) => {
                    &&& (e == CacheGlyphError::OutOfSpace || e == CacheGlyphError::LruStorageError)
                    &&& final(self).entries().len() <= old(self).entries().len()
                    &&& final(self).entries() == old(self).entries().subrange(
                        0,
                        final(self).entries().len() as int,
                    )
                    &&& forall|j: int|
                        final(self).entries().len() <= j < old(self).entries().len()
                            ==> !old(self).in_use().contains(
                            (#[trigger] old(self).entries()[j]).0,
                        )
                    &&& final(self).in_use() == old(self).in_use()
                    &&& e == CacheGlyphError::OutOfSpace ==> final(self).entries().len() > 0
                        && final(self).in_use().contains(final(self).entries().last().0)
                    &&& e == CacheGlyphError::LruStorageError ==> final(self).entries().len() == 0
                },
            },
    {
        proof {
            assert(old(self).entries() =~= old(self).entries().subrange(
                0,
                old(self).entries().len() as int,
            ));
        }
        loop
            invariant
                old(self).wf(),
                !has_key(old(self).entries(), key),
                self.wf(),
                self.texture_size == old(self).texture_size,
                self.glyphs_in_use@ == old(self).glyphs_in_use@,
                self.entries().len() <= old(self).entries().len(),
                self.entries() == old(self).entries().subrange(0, self.entries().len() as int),
                forall|j: int|
                    self.entries().len() <= j < old(self).entries().len() ==> !old(
                        self,
                    ).in_use().contains((#[trigger] old(self).entries()[j]).0),
            decreases self.entries().len(),
        {
            let ghost mid = *self;
            let got = self.packer.allocate(placement.width, placement.height);
            match got {
                Some(region) => {
                    let data = GlyphData {
                        alloc_id: region.id,
                        x: region.x,
                        y: region.y,
                        x_max: region.x_max,
                        y_max: region.y_max,
                        left: placement.left,
                        top: placement.top,
                        width: placement.width,
                        height: placement.height,
                    };
                    lru_put(&mut self.cached_glyphs, key, data);
                    self.mark_in_use(key);
                    proof {
                        assert(self.entries() == lru_entries(self.cached_glyphs));
                        assert(mid.entries() == lru_entries(mid.cached_glyphs));
                        assert(data_rect(data) == region.rect());
                        self.lemma_wf_after_insert(mid, key, data);
                        assert(self.entries() == seq![(key, data)] + old(
                            self,
                        ).entries().subrange(0, self.entries().len() - 1));
                        assert(self.in_use() =~= old(self).in_use().insert(key));
                        assert forall|k2: GlyphKey|
                            old(self).in_use().contains(k2) && has_key(
                                old(self).entries(),
                                k2,
                            ) implies has_key(self.entries(), k2) by {
                            let m = choose|m: int|
                                0 <= m < old(self).entries().len() && old(self).entries()[m].0
                                    == k2;
                            if m >= self.entries().len() - 1 {
                                assert(!old(self).in_use().contains(old(self).entries()[m].0));
                            } else {
                                assert(self.entries()[m + 1].0 == k2);
                            }
                        }
                    }
                    return Ok(data);
                },
                None => {
                    let ghost mid = *self;
                    let freed = self.free_space();
                    match freed {
                        Ok(()) => {
                            proof {
                                assert(self.entries() =~= old(self).entries().subrange(
                                    0,
                                    self.entries().len() as int,
                                ));
                            }
                        },
                        Err(e) => {
                            proof {
                                assert(self.in_use() =~= old(self).in_use());
                                assert forall|k2: GlyphKey|
                                    old(self).in_use().contains(k2) && has_key(
                                        old(self).entries(),
                                        k2,
                                    ) implies has_key(self.entries(), k2) by {
                                    let m = choose|m: int|
                                        0 <= m < old(self).entries().len() && old(
                                            self,
                                        ).entries()[m].0 == k2;
                                    if m >= self.entries().len() {
                                        assert(!old(self).in_use().contains(
                                            old(self).entries()[m].0,
                                        ));
                                    } else {
                                        assert(self.entries()[m].0 == k2);
                                    }
                                }
                            }
                            return Err(e);
                        },
                    }
                },
            }
        }
    }

    /// Clear the in-use set; called exactly once per frame, after all draw
    /// submission. Nothing else changes: cached glyphs, their recency order
    /// and their atlas space stay as they are.
    pub fn post_render_trim(&mut self)
        requires
            old(self).wf(),
        ensures
            final(self).wf(),
            final(self).in_use() == Set::<GlyphKey>::empty(),
            final(self).entries() == old(self).entries(),
            final(self).allocations() == old(self).allocations(),
            final(self).size() == old(self).size(),
    {
        self.glyphs_in_use = Vec::new();
        proof {
            assert(self.in_use() =~= Set::<GlyphKey>::empty());
        }
    }
}

/// Every cached key is backed by exactly one live atlas allocation, whose
/// rectangle holds the glyph's bitmap and lies inside the atlas texture.
pub proof fn lemma_cached_glyph_in_bounds(a: TextAtlas, k: GlyphKey)
    requires
        a.wf(),
        has_key(a.entries(), k),
    ensures
        a.allocations().contains_key(value_of(a.entries(), k).alloc_id),
        a.allocations()[value_of(a.entries(), k).alloc_id] == data_rect(value_of(a.entries(), k)),
        rect_within(
            data_rect(value_of(a.entries(), k)),
            a.size().width as int,
            a.size().height as int,
        ),
        value_of(a.entries(), k).x as int + value_of(a.entries(), k).width as int <= a.size().width
            as int,
        value_of(a.entries(), k).y as int + value_of(a.entries(), k).height as int
            <= a.size().height as int,
{
    let i = index_of(a.entries(), k);
    assert(0 <= i < a.entries().len() && a.entries()[i].0 == k);
    assert(a.entries().contains(a.entries()[i]));
    let d = a.entries()[i].1;
    assert(a.backs(d));
    a.packer.lemma_region_in_bounds(d.alloc_id);
}

/// No two cached glyphs share atlas space: the rectangles of two distinct
/// cached keys are disjoint.
pub proof fn lemma_cached_glyphs_disjoint(a: TextAtlas, k1: GlyphKey, k2: GlyphKey)
    requires
        a.wf(),
        has_key(a.entries(), k1),
        has_key(a.entries(), k2),
        k1 != k2,
    ensures
        rects_disjoint(
            data_rect(value_of(a.entries(), k1)),
            data_rect(value_of(a.entries(), k2)),
        ),
{
    let i1 = index_of(a.entries(), k1);
    let i2 = index_of(a.entries(), k2);
    assert(0 <= i1 < a.entries().len() && a.entries()[i1].0 == k1);
    assert(0 <= i2 < a.entries().len() && a.entries()[i2].0 == k2);
    let e1 = a.entries()[i1];
    let e2 = a.entries()[i2];
    assert(a.entries().contains(e1));
    assert(a.entries().contains(e2));
    assert(a.backs(e1.1));
    assert(a.backs(e2.1));
    assert(e1.1.alloc_id != e2.1.alloc_id);
    a.packer.lemma_regions_disjoint(e1.1.alloc_id, e2.1.alloc_id);
}

/// Eviction respects the recency order: an eviction pass that keeps the
/// first `kept` entries of a recency order removes exactly the keys of the
/// less recently used suffix, and those keys are really gone. With exactly
/// one eviction the removed key is the single globally least recently used
/// one.
pub proof fn lemma_eviction_order(pre: GlyphSeq, post: GlyphSeq, kept: int)
    requires
        unique_keys(pre),
        0 <= kept <= pre.len(),
        post == pre.subrange(0, kept),
    ensures
        forall|i: int| 0 <= i < kept ==> has_key(post, (#[trigger] pre[i]).0),
        forall|j: int| kept <= j < pre.len() ==> !has_key(post, (#[trigger] pre[j]).0),
        kept == pre.len() - 1 ==> !has_key(post, pre.last().0),
{
    assert forall|i: int| 0 <= i < kept implies has_key(post, (#[trigger] pre[i]).0) by {
        assert(post[i].0 == pre[i].0);
    }
    assert forall|j: int| kept <= j < pre.len() implies !has_key(post, (#[trigger] pre[j]).0) by {
        if has_key(post, pre[j].0) {
            let m = choose|m: int| 0 <= m < post.len() && post[m].0 == pre[j].0;
            assert(pre[m].0 == pre[j].0);
        }
    }
    if kept == pre.len() - 1 {
        assert(pre.last() == pre[kept]);
    }
}

/// Single eviction, exactly: when caching a new glyph ends with as many
/// entries as before — one entry was evicted for one inserted, the shape
/// [`TextAtlas::cache_glyph`]'s contract gives when the allocator needed
/// exactly one region freed — the evicted key is precisely the least
/// recently used one; every other previously cached key survives with its
/// record unchanged, and the new key sits at the most recent position.
pub proof fn lemma_single_eviction(pre: GlyphSeq, post: GlyphSeq, key: GlyphKey, data: GlyphData)
    requires
        unique_keys(pre),
        !has_key(pre, key),
        pre.len() > 0,
        post == seq![(key, data)] + pre.subrange(0, pre.len() - 1),
    ensures
        post.len() == pre.len(),
        post[0] == (key, data),
        unique_keys(post),
        has_key(post, key),
        !has_key(post, pre.last().0),
        forall|i: int| 0 <= i < pre.len() - 1 ==> post[i + 1] == (#[trigger] pre[i]),
        forall|k2: GlyphKey|
            k2 != pre.last().0 && has_key(pre, k2) ==> has_key(post, k2) && value_of(post, k2)
                == value_of(pre, k2),
{
    let last = pre.len() - 1;
    assert forall|i: int| 0 <= i < last implies post[i + 1] == (#[trigger] pre[i]) by {}
    assert(post[0].0 == key);
    assert(has_key(post, key));
    assert forall|u: int, v: int| 0 <= u < v < post.len() implies (#[trigger] post[u]).0 != (
    #[trigger] post[v]).0 by {
        if u == 0 {
            assert(post[v] == pre[v - 1]);
            if pre[v - 1].0 == key {
                assert(has_key(pre, key));
            }
        } else {
            assert(post[u] == pre[u - 1]);
            assert(post[v] == pre[v - 1]);
        }
    }
    if has_key(post, pre.last().0) {
        let q = choose|q: int| 0 <= q < post.len() && post[q].0 == pre.last().0;
        if q == 0 {
            assert(has_key(pre, key));
        } else {
            assert(post[q] == pre[q - 1]);
            assert(pre[q - 1].0 != pre[last].0);
        }
    }
    assert forall|k2: GlyphKey| k2 != pre.last().0 && has_key(pre, k2) implies has_key(post, k2)
        && value_of(post, k2) == value_of(pre, k2) by {
        let m = index_of(pre, k2);
        assert(0 <= m < pre.len() && pre[m].0 == k2);
        if m == last {
            assert(pre[m].0 == pre.last().0);
        }
        assert(post[m + 1] == pre[m]);
        assert(has_key(post, k2));
        let q = index_of(post, k2);
        assert(0 <= q < post.len() && post[q].0 == k2);
        if q == 0 {
            assert(has_key(pre, key));
        }
        assert(post[q] == pre[q - 1]);
        assert(pre[q - 1].0 == k2);
        assert(q - 1 == m);
    }
}

/// Frame reset: once the per-frame trim has emptied the in-use set, no
/// cached entry is protected any more; in particular the least recently
/// used entry — even one that was in use last frame — is evictable again.
pub proof fn lemma_trim_unprotects(a: TextAtlas)
    requires
        a.wf(),
        a.in_use() == Set::<GlyphKey>::empty(),
        a.entries().len() > 0,
    ensures
        !a.in_use().contains(a.entries().last().0),
{
}

} // verus!
