//! Text-buffer gating and menu layout: the decisions behind the 3D UI
//! panel's text rendering.
//!
//! Vertex data is rebuilt only when a line's content changes. Each shaped
//! line is summarized by a content hash over its glyph keys and colors;
//! per frame the new summaries are compared against the stored ones, and
//! only a changed (or new) line summary triggers a rebuild of the text
//! buffer's vertex data.

use vstd::prelude::*;

use crate::glyph::GlyphKey;

verus! {

/// One shaped glyph of a line as the content hash sees it: its cache key
/// and the color it will be drawn with.
#[derive(Clone, Copy, Debug, PartialEq, Eq, Structural)]
pub struct GlyphColor {
    pub key: GlyphKey,
    pub color: u32,
}

/// The multiply–rotate–xor mixing step of the line content hash.
pub open spec fn mix(h: u64, v: u64) -> u64 {
    (((((h << 5) | (h >> 59)) ^ v) as nat * 0x100000001b3 as nat) % 0x10000000000000000 as nat) as u64
}

/// Fold one glyph's identity and color into a running hash.
pub open spec fn glyph_mix(h: u64, g: GlyphColor) -> u64 {
    let packed = (g.key.glyph_id as u64) | ((g.key.font_size_bits as u64) << 16) | ((
    g.key.x_bin as u64) << 48) | ((g.key.y_bin as u64) << 56);
    mix(
        mix(
            mix(mix(h, g.key.font_id), packed),
            (g.key.flags as u64) | ((g.key.font_weight as u64) << 32),
        ),
        g.color as u64,
    )
}

/// The content hash of a whole line: a fold of the mixing step over its
/// glyphs, from an arbitrary fixed seed. Equal lines always hash equally.
pub open spec fn line_hash_of(s: Seq<GlyphColor>) -> u64
    decreases s.len(),
{
    if s.len() == 0 {
        0xcbf29ce484222325
    } else {
        glyph_mix(line_hash_of(s.drop_last()), s.last())
    }
}

/// Compute the content hash of one shaped line.
pub fn line_hash(glyphs: &Vec<GlyphColor>) -> (r: u64)
    ensures
        r == line_hash_of(glyphs@),
{
    let mut h: u64 = 0xcbf29ce484222325;
    let n = glyphs.len();
    let mut i: usize = 0;
    proof {
        assert(glyphs@.subrange(0, 0) =~= Seq::<GlyphColor>::empty());
    }
    while i < n
        invariant
            i <= n,
            n == glyphs@.len(),
            h == line_hash_of(glyphs@.subrange(0, i as int)),
        decreases n - i,
    {
        proof {
            assert(glyphs@.subrange(0, i + 1).drop_last() =~= glyphs@.subrange(0, i as int));
            assert(glyphs@.subrange(0, i + 1).last() == glyphs@[i as int]);
        }
        let g = glyphs[i];
        let packed: u64 = (g.key.glyph_id as u64) | ((g.key.font_size_bits as u64) << 16) | ((
        g.key.x_bin as u64) << 48) | ((g.key.y_bin as u64) << 56);
        h = ((h << 5) | (h >> 59)) ^ g.key.font_id;
        h = h.wrapping_mul(0x100000001b3);
        h = ((h << 5) | (h >> 59)) ^ packed;
        h = h.wrapping_mul(0x100000001b3);
        h = ((h << 5) | (h >> 59)) ^ ((g.key.flags as u64) | ((g.key.font_weight as u64) << 32));
        h = h.wrapping_mul(0x100000001b3);
        h = ((h << 5) | (h >> 59)) ^ (g.color as u64);
        h = h.wrapping_mul(0x100000001b3);
        i += 1;
    }
    proof {
        assert(glyphs@.subrange(0, n as int) =~= glyphs@);
    }
    h
}

/// The stored summary of one shaped line: its content hash and how many
/// glyphs it held when last rebuilt.
#[derive(Clone, Copy, Debug, PartialEq, Eq, Structural)]
pub struct LineRecord {
    pub hash: u64,
    pub length: usize,
}

/// The record compared against for line `i`: the stored one, or a blank
/// for a line not seen before.
pub open spec fn padded(records: Seq<LineRecord>, i: int) -> LineRecord {
    if i < records.len() {
        records[i]
    } else {
        LineRecord { hash: 0, length: 0 }
    }
}

/// Compare this frame's line summaries against the stored ones, store
/// every changed summary, and decide whether the text buffer's vertex data
/// must be rebuilt: exactly when some supplied line's hash differs from
/// its stored (or blank) counterpart. Stored summaries beyond the supplied
/// lines stay untouched.
pub fn observe_lines(records: &mut Vec<LineRecord>, current: &Vec<LineRecord>) -> (rebuild: bool)
    ensures
        final(records)@.len() == (if old(records)@.len() >= current@.len() {
            old(records)@.len()
        } else {
            current@.len()
        }),
        forall|i: int|
            0 <= i < current@.len() ==> final(records)@[i] == (if padded(old(records)@, i).hash
                == (#[trigger] current@[i]).hash {
                padded(old(records)@, i)
            } else {
                current@[i]
            }),
        forall|i: int|
            current@.len() <= i < old(records)@.len() ==> final(records)@[i] == old(records)@[i],
        rebuild == exists|i: int|
            0 <= i < current@.len() && padded(old(records)@, i).hash != (
            #[trigger] current@[i]).hash,
{
    let mut rebuild = false;
    let n = current.len();
    let mut i: usize = 0;
    while i < n
        invariant
            i <= n,
            n == current@.len(),
            records@.len() == (if old(records)@.len() >= i as int {
                old(records)@.len() as int
            } else {
                i as int
            }),
            forall|m: int|
                0 <= m < i ==> records@[m] == (if padded(old(records)@, m).hash == (
                #[trigger] current@[m]).hash {
                    padded(old(records)@, m)
                } else {
                    current@[m]
                }),
            forall|m: int| i <= m < old(records)@.len() ==> records@[m] == old(records)@[m],
            rebuild == exists|m: int|
                0 <= m < i && padded(old(records)@, m).hash != (#[trigger] current@[m]).hash,
        decreases n - i,
    {
        if records.len() <= i {
            records.push(LineRecord { hash: 0, length: 0 });
        }
        let line = current[i];
        if line.hash != records[i].hash {
            records[i] = line;
            rebuild = true;
            proof {
                assert(padded(old(records)@, i as int).hash != current@[i as int].hash);
            }
        }
        i += 1;
    }
    rebuild
}

/// Line-hash gating: when every supplied line hashes to its stored
/// summary — as when identical text and colors are re-supplied, the
/// content hash being a function of the glyph keys and colors alone — no
/// vertex rebuild is triggered; and one changed line always triggers one.
pub proof fn lemma_gating(stored: Seq<LineRecord>, current: Seq<LineRecord>)
    ensures
        (forall|i: int|
            0 <= i < current.len() ==> (#[trigger] current[i]).hash == padded(stored, i).hash)
            ==> !(exists|i: int|
            0 <= i < current.len() && padded(stored, i).hash != (#[trigger] current[i]).hash),
        forall|i: int|
            0 <= i < current.len() && padded(stored, i).hash != (#[trigger] current[i]).hash
                ==> exists|j: int|
                0 <= j < current.len() && padded(stored, j).hash != (#[trigger] current[j]).hash,
{
}

/// The layout facts of the fixed vertical menu widget.
#[derive(Clone, Copy, Debug, PartialEq, Eq, Structural)]
pub struct MenuMetrics {
    /// The length of the longest option string; the background quad is
    /// sized to it.
    pub longest_len: usize,
    /// How many options the menu shows.
    pub option_count: usize,
    /// The selected option, clamped so it never exceeds the option count;
    /// the highlight band spans `selected/count` to `(selected+1)/count`
    /// of the panel height.
    pub selected: u8,
}

/// Size the menu panel: the longest option string, the option count, and
/// the clamped selection. A menu with no options has no panel: `None`.
pub fn menu_metrics(option_lengths: &Vec<usize>, selected: u8) -> (r: Option<MenuMetrics>)
    ensures
        match r {
            Some(m) => {
                &&& option_lengths@.len() > 0
                &&& m.option_count == option_lengths@.len()
                &&& option_lengths@.contains(m.longest_len)
                &&& forall|i: int|
                    0 <= i < option_lengths@.len() ==> #[trigger] option_lengths@[i]
                        <= m.longest_len
                &&& m.selected as int == (if selected as int <= option_lengths@.len() {
                    selected as int
                } else {
                    option_lengths@.len() as int
                })
            },
            None => option_lengths@.len() == 0,
        },
{
    let n = option_lengths.len();
    if n == 0 {
        return None;
    }
    let mut longest: usize = option_lengths[0];
    proof {
        assert(option_lengths@.contains(option_lengths@[0]));
    }
    let mut i: usize = 1;
    while i < n
        invariant
            1 <= i <= n,
            n == option_lengths@.len(),
            option_lengths@.contains(longest),
            forall|m: int| 0 <= m < i ==> #[trigger] option_lengths@[m] <= longest,
        decreases n - i,
    {
        if option_lengths[i] > longest {
            longest = option_lengths[i];
            proof {
                assert(option_lengths@.contains(option_lengths@[i as int]));
            }
        }
        i += 1;
    }
    let clamped: u8 = if (selected as usize) <= n {
        selected
    } else {
        n as u8
    };
    Some(MenuMetrics { longest_len: longest, option_count: n, selected: clamped })
}

} // verus!
