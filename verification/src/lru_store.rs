//! Least-recently-used ordering over cached glyphs.
//!
//! The recency bookkeeping comes from the `lru` crate. Its cache is modelled
//! here as a sequence of key/value entries ordered from most recently used
//! (front) to least recently used (back), with each operation's effect on
//! that sequence stated as a trusted contract; the atlas builds its verified
//! eviction policy on those contracts.

use vstd::prelude::*;

use crate::glyph::{GlyphData, GlyphKey};

verus! {

#[verifier::external_type_specification]
#[verifier::external_body]
#[verifier::reject_recursive_types(K)]
#[verifier::reject_recursive_types(V)]
#[verifier::reject_recursive_types(S)]
pub struct ExLruCache<K, V, S>(lru::LruCache<K, V, S>);

/// One cached entry: a glyph key with its cached record.
pub type GlyphEntry = (GlyphKey, GlyphData);

/// A recency ordering: entries from most recently used to least.
pub type GlyphSeq = Seq<GlyphEntry>;

/// The entries a cache holds, ordered from most recently used (index 0)
/// to least recently used (last index).
pub uninterp spec fn lru_entries(c: lru::LruCache<GlyphKey, GlyphData>) -> GlyphSeq;

/// Whether some entry of `s` carries the key `k`.
pub open spec fn has_key(s: GlyphSeq, k: GlyphKey) -> bool {
    exists|i: int| 0 <= i < s.len() && s[i].0 == k
}

/// An index of `s` whose entry carries the key `k`.
pub open spec fn index_of(s: GlyphSeq, k: GlyphKey) -> int {
    choose|i: int| 0 <= i < s.len() && s[i].0 == k
}

/// The value stored beside the key `k`.
pub open spec fn value_of(s: GlyphSeq, k: GlyphKey) -> GlyphData {
    s[index_of(s, k)].1
}

/// No two entries carry the same key.
pub open spec fn unique_keys(s: GlyphSeq) -> bool {
    forall|i: int, j: int| 0 <= i < j < s.len() ==> (#[trigger] s[i]).0 != (#[trigger] s[j]).0
}

/// The sequence after moving the entry with key `k` to the front, keeping
/// the order of the others.
pub open spec fn promoted(s: GlyphSeq, k: GlyphKey) -> GlyphSeq {
    let i = index_of(s, k);
    seq![s[i]] + s.subrange(0, i) + s.subrange(i + 1, s.len() as int)
}

/// Moving a present key to the front permutes the entries: same length,
/// same members, same keys and values; the front entry afterwards carries
/// the promoted key with its unchanged value.
pub proof fn lemma_promoted(s: GlyphSeq, k: GlyphKey)
    requires
        unique_keys(s),
        has_key(s, k),
    ensures
        promoted(s, k).len() == s.len(),
        unique_keys(promoted(s, k)),
        forall|e: GlyphEntry| #[trigger] promoted(s, k).contains(e) <==> s.contains(e),
        forall|k2: GlyphKey| has_key(promoted(s, k), k2) <==> has_key(s, k2),
        promoted(s, k)[0] == (k, value_of(s, k)),
        forall|k2: GlyphKey|
            has_key(s, k2) ==> value_of(promoted(s, k), k2) == value_of(s, k2),
{
    let i = index_of(s, k);
    let p = promoted(s, k);
    assert(0 <= i < s.len() && s[i].0 == k);
    // Where each entry of the permutation comes from.
    assert forall|j: int| 0 <= j < p.len() implies p[j] == (
        if j == 0 { s[i] } else if j <= i { s[j - 1] } else { s[j] }
    ) by {}
    assert forall|e: GlyphEntry| #[trigger] p.contains(e) implies s.contains(e) by {
        let j = choose|j: int| 0 <= j < p.len() && p[j] == e;
        if j == 0 {
            assert(s[i] == e);
        } else if j <= i {
            assert(s[j - 1] == e);
        } else {
            assert(s[j] == e);
        }
    }
    assert forall|e: GlyphEntry| s.contains(e) implies #[trigger] p.contains(e) by {
        let m = choose|m: int| 0 <= m < s.len() && s[m] == e;
        if m == i {
            assert(p[0] == e);
        } else if m < i {
            assert(p[m + 1] == e);
        } else {
            assert(p[m] == e);
        }
    }
    assert forall|u: int, v: int| 0 <= u < v < p.len() implies (#[trigger] p[u]).0 != (
    #[trigger] p[v]).0 by {
        let fu: int = if u == 0 { i } else if u <= i { u - 1 } else { u };
        let fv: int = if v == 0 { i } else if v <= i { v - 1 } else { v };
        assert(p[u] == s[fu]);
        assert(p[v] == s[fv]);
        assert(fu != fv);
    }
    assert forall|k2: GlyphKey| has_key(p, k2) implies has_key(s, k2) by {
        let j = choose|j: int| 0 <= j < p.len() && p[j].0 == k2;
        assert(p.contains(p[j]));
        let e = p[j];
        assert(s.contains(e));
        let m = choose|m: int| 0 <= m < s.len() && s[m] == e;
        assert(s[m].0 == k2);
    }
    assert forall|k2: GlyphKey| has_key(s, k2) implies has_key(p, k2) by {
        let m = choose|m: int| 0 <= m < s.len() && s[m].0 == k2;
        assert(s.contains(s[m]));
        let e = s[m];
        assert(p.contains(e));
        let j = choose|j: int| 0 <= j < p.len() && p[j] == e;
        assert(p[j].0 == k2);
    }
    assert(index_of(s, k) == i);
    assert(p[0] == s[i]);
    assert(s[i] == (s[i].0, s[i].1));
    assert(value_of(s, k) == s[i].1);
    assert forall|k2: GlyphKey| has_key(s, k2) implies value_of(p, k2) == value_of(s, k2) by {
        let m = index_of(s, k2);
        assert(0 <= m < s.len() && s[m].0 == k2);
        let j = index_of(p, k2);
        assert(has_key(p, k2));
        assert(0 <= j < p.len() && p[j].0 == k2);
        let fj: int = if j == 0 { i } else if j <= i { j - 1 } else { j };
        assert(p[j] == s[fj]);
        assert(s[fj].0 == k2);
        assert(fj == m);
    }
}

/// Relies on `lru::LruCache::unbounded`: a fresh cache with no entries that
/// never evicts on its own.
#[verifier::external_body]
pub fn lru_new() -> (c: lru::LruCache<GlyphKey, GlyphData>)
    ensures
        lru_entries(c) == GlyphSeq::empty(),
{
    lru::LruCache::unbounded()
}

/// Relies on `lru::LruCache::promote`: moves a present key to the
/// most-recently-used position without touching its value; absent keys
/// leave the cache unchanged. Returns whether the key was present.
#[verifier::external_body]
pub fn lru_promote(c: &mut lru::LruCache<GlyphKey, GlyphData>, k: &GlyphKey) -> (r: bool)
    ensures
        r == has_key(lru_entries(*old(c)), *k),
        r ==> lru_entries(*final(c)) == promoted(lru_entries(*old(c)), *k),
        !r ==> lru_entries(*final(c)) == lru_entries(*old(c)),
{
    c.promote(k)
}

/// Relies on `lru::LruCache::get`: returns the value of a present key and
/// promotes it to most recently used; an absent key changes nothing.
#[verifier::external_body]
pub fn lru_get(c: &mut lru::LruCache<GlyphKey, GlyphData>, k: &GlyphKey) -> (r: Option<GlyphData>)
    ensures
        match r {
            Some(v) => {
                &&& has_key(lru_entries(*old(c)), *k)
                &&& v == value_of(lru_entries(*old(c)), *k)
                &&& lru_entries(*final(c)) == promoted(lru_entries(*old(c)), *k)
            },
            None => {
                &&& !has_key(lru_entries(*old(c)), *k)
                &&& lru_entries(*final(c)) == lru_entries(*old(c))
            },
        },
{
    c.get(k).copied()
}

/// Relies on `lru::LruCache::put`: a key not yet present is inserted at the
/// most-recently-used position. (An unbounded cache never evicts on `put`.)
#[verifier::external_body]
pub fn lru_put(c: &mut lru::LruCache<GlyphKey, GlyphData>, k: GlyphKey, v: GlyphData)
    requires
        !has_key(lru_entries(*old(c)), k),
    ensures
        lru_entries(*final(c)) == seq![(k, v)] + lru_entries(*old(c)),
{
    c.put(k, v);
}

/// Relies on `lru::LruCache::peek_lru`: returns the least recently used
/// entry without reordering anything; `None` exactly when the cache is
/// empty.
#[verifier::external_body]
pub fn lru_peek_lru(c: &lru::LruCache<GlyphKey, GlyphData>) -> (r: Option<(GlyphKey, GlyphData)>)
    ensures
        match r {
            Some(kv) => lru_entries(*c).len() > 0 && kv == lru_entries(*c).last(),
            None => lru_entries(*c).len() == 0,
        },
{
    match c.peek_lru() {
        Some((k, v)) => Some((*k, *v)),
        None => None,
    }
}

/// Relies on `lru::LruCache::pop_lru`: removes and returns the least
/// recently used entry; `None` exactly when the cache is empty.
#[verifier::external_body]
pub fn lru_pop_lru(c: &mut lru::LruCache<GlyphKey, GlyphData>) -> (r: Option<(GlyphKey, GlyphData)>)
    ensures
        match r {
            Some(kv) => {
                &&& lru_entries(*old(c)).len() > 0
                &&& kv == lru_entries(*old(c)).last()
                &&& lru_entries(*final(c)) == lru_entries(*old(c)).drop_last()
            },
            None => {
                &&& lru_entries(*old(c)).len() == 0
                &&& lru_entries(*final(c)) == lru_entries(*old(c))
            },
        },
{
    c.pop_lru()
}

} // verus!
