//! Glyph identities, cached glyph records, and the cache error taxonomy.

use vstd::prelude::*;

verus! {

/// The exact identity of a rasterized glyph: font, glyph index, size and
/// sub-pixel variant. Two keys are equal exactly when every part matches;
/// there is no approximate matching.
#[derive(Clone, Copy, Debug, Hash, PartialEq, Eq, Structural)]
pub struct GlyphKey {
    pub font_id: u64,
    pub glyph_id: u16,
    pub font_size_bits: u32,
    pub x_bin: u8,
    pub y_bin: u8,
    pub font_weight: u16,
    pub flags: u32,
}

/// The bitmap placement a rasterizer reports for a glyph: offsets relative
/// to the baseline and the bitmap's pixel size.
#[derive(Clone, Copy, Debug, PartialEq, Eq, Structural)]
pub struct GlyphPlacement {
    pub left: i32,
    pub top: i32,
    pub width: u32,
    pub height: u32,
}

/// A cached glyph: where its bitmap sits inside the shared atlas texture
/// (the pixel rectangle `x..x_max`, `y..y_max`, from which normalized UV
/// coordinates follow by dividing by the atlas size), its placement
/// metadata, and the packer allocation backing it.
#[derive(Clone, Copy, Debug, PartialEq, Eq, Structural)]
pub struct GlyphData {
    pub alloc_id: u32,
    pub x: u32,
    pub y: u32,
    pub x_max: u32,
    pub y_max: u32,
    pub left: i32,
    pub top: i32,
    pub width: u32,
    pub height: u32,
}

/// Why a glyph could not be cached.
#[derive(Clone, Copy, Debug, PartialEq, Eq, Structural)]
pub enum CacheGlyphError {
    /// The rasterization adapter produced no bitmap for the glyph.
    NoGlyphImage,
    /// The atlas has no free region and no evictable entry: every candidate
    /// for eviction is still in use this frame. Atlas growth is not
    /// implemented, so this is terminal for the operation.
    OutOfSpace,
    /// The cache believed itself non-empty but had no entry to evict; a
    /// defensive check that should never fire.
    LruStorageError,
}

impl CacheGlyphError {
    /// A human-readable description of the error.
    pub fn message(&self) -> (r: &'static str)
        ensures
            r@.len() > 0,
    {
        match self {
            CacheGlyphError::NoGlyphImage => {
                proof {
                    reveal_strlit("Unable to get image from proved glyph.");
                }
                "Unable to get image from proved glyph."
            },
            CacheGlyphError::OutOfSpace => {
                proof {
                    reveal_strlit("Atlas texture is not big enough to store new glyphs - TODO");
                }
                "Atlas texture is not big enough to store new glyphs - TODO"
            },
            CacheGlyphError::LruStorageError => {
                proof {
                    reveal_strlit("Error accessing glyphs from LRU - This shouldn't really happen.");
                }
                "Error accessing glyphs from LRU - This shouldn't really happen."
            },
        }
    }
}

} // verus!
