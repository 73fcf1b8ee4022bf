//! The instance-batch diff engine: the per-frame protocol that reconciles
//! this frame's desired instance batches against the GPU-resident batches
//! of the previous frame.
//!
//! The engine owns only the bookkeeping — which resource key has a buffer,
//! with what capacity and instance count. It hands back a plan of buffer
//! operations (write in place, reallocate, create, release) for the caller
//! to perform on the actual GPU buffers.

use std::collections::HashMap;

use vstd::prelude::*;

verus! {

/// One GPU-resident instance batch: its resource key, the capacity in
/// instances of the buffer backing it, and how many instances it holds.
#[derive(Clone, Copy, Debug, PartialEq, Eq, Structural)]
pub struct ResidentEntry {
    pub key: u64,
    pub capacity: u32,
    pub count: u32,
}

/// One step of a reconciliation plan.
#[derive(Clone, Copy, Debug, PartialEq, Eq, Structural)]
pub enum BufferOp {
    /// The key's buffer has enough capacity: overwrite its front with
    /// `count` instances and record the new count; no reallocation.
    Write { key: u64, count: u32 },
    /// The key's buffer is too small: replace it by one sized to exactly
    /// `count` instances and write them.
    Grow { key: u64, count: u32 },
    /// The key is new this frame: register its backing resources once and
    /// allocate a buffer sized to exactly `count` instances.
    Create { key: u64, count: u32 },
    /// The key is gone this frame: release its buffer.
    Release { key: u64 },
}

/// Whether some desired batch carries the key `k`.
pub open spec fn desired_has_key(d: Seq<(u64, u32)>, k: u64) -> bool {
    exists|i: int| 0 <= i < d.len() && d[i].0 == k
}

/// The instance count desired for the key `k`.
pub open spec fn desired_count(d: Seq<(u64, u32)>, k: u64) -> u32 {
    d[choose|i: int| 0 <= i < d.len() && d[i].0 == k].1
}

/// Whether some resident entry carries the key `k`.
pub open spec fn table_has_key(t: Seq<ResidentEntry>, k: u64) -> bool {
    exists|i: int| 0 <= i < t.len() && t[i].key == k
}

/// The capacity of the resident entry carrying the key `k`.
pub open spec fn capacity_of(t: Seq<ResidentEntry>, k: u64) -> u32 {
    t[choose|i: int| 0 <= i < t.len() && t[i].key == k].capacity
}

/// No two desired batches carry the same key.
pub open spec fn unique_desired_keys(d: Seq<(u64, u32)>) -> bool {
    forall|i: int, j: int| 0 <= i < j < d.len() ==> (#[trigger] d[i]).0 != (#[trigger] d[j]).0
}

/// The keys of `t`, in order, that no desired batch carries: the batches
/// to release.
pub open spec fn stale_keys(t: Seq<ResidentEntry>, d: Seq<(u64, u32)>) -> Seq<u64>
    decreases t.len(),
{
    if t.len() == 0 {
        Seq::empty()
    } else if desired_has_key(d, t.last().key) {
        stale_keys(t.drop_last(), d)
    } else {
        stale_keys(t.drop_last(), d).push(t.last().key)
    }
}

/// The operation the plan prescribes for one desired batch.
pub open spec fn op_for(pre: Seq<ResidentEntry>, k: u64, c: u32) -> BufferOp {
    if !table_has_key(pre, k) {
        BufferOp::Create { key: k, count: c }
    } else if c <= capacity_of(pre, k) {
        BufferOp::Write { key: k, count: c }
    } else {
        BufferOp::Grow { key: k, count: c }
    }
}

/// The resident entry a desired batch leaves behind: the old buffer is kept
/// when its capacity suffices, else a buffer of exactly the new count.
pub open spec fn entry_for(pre: Seq<ResidentEntry>, k: u64, c: u32) -> ResidentEntry {
    if table_has_key(pre, k) && c <= capacity_of(pre, k) {
        ResidentEntry { key: k, capacity: capacity_of(pre, k), count: c }
    } else {
        ResidentEntry { key: k, capacity: c, count: c }
    }
}

/// The whole per-frame reconciliation relation: the new resident table has
/// one entry per desired batch, in order; the plan first handles each
/// desired batch, then releases every resident batch whose key is no
/// longer desired, in residency order.
pub open spec fn reconciled(
    pre: Seq<ResidentEntry>,
    d: Seq<(u64, u32)>,
    post: Seq<ResidentEntry>,
    ops: Seq<BufferOp>,
) -> bool {
    &&& post.len() == d.len()
    &&& forall|i: int|
        0 <= i < d.len() ==> post[i] == entry_for(pre, (#[trigger] d[i]).0, d[i].1)
    &&& ops.len() == d.len() + stale_keys(pre, d).len()
    &&& forall|i: int| 0 <= i < d.len() ==> ops[i] == op_for(pre, (#[trigger] d[i]).0, d[i].1)
    &&& forall|j: int|
        0 <= j < stale_keys(pre, d).len() ==> ops[d.len() + j] == (BufferOp::Release {
            key: stale_keys(pre, d)[j],
        })
}

/// The resident table of one concrete renderer: the GPU-side state left by
/// the previous frame, reconciled against each new frame's desired batches.
pub struct ResidentSet {
    table: Vec<ResidentEntry>,
}

impl ResidentSet {
    /// The resident batches, in residency order.
    pub closed spec fn table(self) -> Seq<ResidentEntry> {
        self.table@
    }

    pub closed spec fn wf(self) -> bool {
        &&& forall|i: int, j: int|
            0 <= i < j < self.table@.len() ==> (#[trigger] self.table@[i]).key != (
            #[trigger] self.table@[j]).key
        &&& forall|i: int|
            0 <= i < self.table@.len() ==> 1 <= (#[trigger] self.table@[i]).count
                <= self.table@[i].capacity
    }

    /// An empty resident table: no batch survives from any earlier frame.
    pub fn new() -> (r: ResidentSet)
        ensures
            r.wf(),
            r.table() == Seq::<ResidentEntry>::empty(),
    {
        ResidentSet { table: Vec::new() }
    }

    /// Reconcile this frame's desired batches against the resident table:
    /// snapshot the previous residents, update or create a buffer for each
    /// desired key (in place when its capacity suffices, else sized to
    /// exactly the new count), and release every resident whose key is no
    /// longer desired. Returns the plan of buffer operations, desired keys
    /// first and releases after, for the caller to perform on the GPU.
    ///
    /// The cost is linear in the two frames: the previous residents and
    /// this frame's keys are each indexed by a hash table once, and every
    /// batch is then handled with constant-time lookups.
    #[verifier::loop_isolation(false)]
    pub fn reconcile(&mut self, desired: &Vec<(u64, u32)>) -> (ops: Vec<BufferOp>)
        requires
            old(self).wf(),
            unique_desired_keys(desired@),
            forall|i: int| 0 <= i < desired@.len() ==> 1 <= (#[trigger] desired@[i]).1,
        ensures
            final(self).wf(),
            reconciled(old(self).table(), desired@, final(self).table(), ops@),
    {
        broadcast use vstd::std_specs::hash::group_hash_axioms;

        // Index the previous residents by key.
        let mut prev_caps: HashMap<u64, u32> = HashMap::new();
        let m = self.table.len();
        let mut j: usize = 0;
        while j < m
            invariant
                j <= m,
                forall|q: int|
                    0 <= q < j ==> prev_caps@.contains_key((#[trigger] self.table@[q]).key)
                        && prev_caps@[self.table@[q].key] == self.table@[q].capacity,
                forall|k: u64| #[trigger]
                    prev_caps@.contains_key(k) ==> exists|q: int|
                        0 <= q < j && (#[trigger] self.table@[q]).key == k,
            decreases m - j,
        {
            let entry = self.table[j];
            prev_caps.insert(entry.key, entry.capacity);
            j += 1;
        }
        proof {
            assert forall|k: u64| #[trigger]
                prev_caps@.contains_key(k) implies table_has_key(self.table@, k) by {
                let q = choose|q: int| 0 <= q < m && (#[trigger] self.table@[q]).key == k;
                assert(0 <= q < self.table@.len() && self.table@[q].key == k);
            }
            assert forall|k: u64|
                table_has_key(self.table@, k) implies #[trigger] prev_caps@.contains_key(k)
                && prev_caps@[k] == capacity_of(self.table@, k) by {
                let q = choose|q: int| 0 <= q < self.table@.len() && self.table@[q].key == k;
                assert(prev_caps@[self.table@[q].key] == self.table@[q].capacity);
                assert(capacity_of(self.table@, k) == self.table@[q].capacity);
            }
        }

        // Handle each desired batch with one lookup.
        let mut ops: Vec<BufferOp> = Vec::new();
        let mut new_table: Vec<ResidentEntry> = Vec::new();
        let n = desired.len();
        let mut i: usize = 0;
        while i < n
            invariant
                i <= n,
                new_table@.len() == i as int,
                ops@.len() == i as int,
                forall|q: int|
                    0 <= q < i ==> new_table@[q] == entry_for(
                        self.table@,
                        (#[trigger] desired@[q]).0,
                        desired@[q].1,
                    ),
                forall|q: int|
                    0 <= q < i ==> ops@[q] == op_for(
                        self.table@,
                        (#[trigger] desired@[q]).0,
                        desired@[q].1,
                    ),
            decreases n - i,
        {
            let (key, count) = desired[i];
            match prev_caps.get(&key) {
                Some(cap_ref) => {
                    let cap = *cap_ref;
                    proof {
                        assert(prev_caps@.contains_key(key) && prev_caps@[key] == cap);
                        assert(table_has_key(self.table@, key));
                        assert(capacity_of(self.table@, key) == cap);
                    }
                    if count <= cap {
                        ops.push(BufferOp::Write { key, count });
                        new_table.push(ResidentEntry { key, capacity: cap, count });
                    } else {
                        ops.push(BufferOp::Grow { key, count });
                        new_table.push(ResidentEntry { key, capacity: count, count });
                    }
                },
                None => {
                    proof {
                        assert(!prev_caps@.contains_key(key));
                        assert(!table_has_key(self.table@, key));
                    }
                    ops.push(BufferOp::Create { key, count });
                    new_table.push(ResidentEntry { key, capacity: count, count });
                },
            }
            i += 1;
        }

        // Index this frame's keys, then release every resident whose key
        // is no longer desired.
        let mut desired_seen: HashMap<u64, ()> = HashMap::new();
        let mut t: usize = 0;
        while t < n
            invariant
                t <= n,
                forall|q: int|
                    0 <= q < t ==> desired_seen@.contains_key((#[trigger] desired@[q]).0),
                forall|k: u64| #[trigger]
                    desired_seen@.contains_key(k) ==> desired_has_key(desired@, k),
            decreases n - t,
        {
            let (key, _count) = desired[t];
            desired_seen.insert(key, ());
            t += 1;
        }
        proof {
            assert forall|k: u64|
                desired_has_key(desired@, k) implies #[trigger] desired_seen@.contains_key(k) by {
                let q = choose|q: int| 0 <= q < desired@.len() && (#[trigger] desired@[q]).0 == k;
            }
        }

        let ghost ops1 = ops@;
        proof {
            assert(self.table@.subrange(0, 0) =~= Seq::<ResidentEntry>::empty());
            assert(ops@ =~= ops1 + releases(stale_keys(self.table@.subrange(0, 0), desired@)));
        }
        let mut j2: usize = 0;
        while j2 < m
            invariant
                j2 <= m,
                ops@ == ops1 + releases(stale_keys(self.table@.subrange(0, j2 as int), desired@)),
            decreases m - j2,
        {
            let entry_key = self.table[j2].key;
            let ghost pre_stale = stale_keys(self.table@.subrange(0, j2 as int), desired@);
            proof {
                assert(self.table@.subrange(0, j2 + 1).drop_last() =~= self.table@.subrange(
                    0,
                    j2 as int,
                ));
                assert(self.table@.subrange(0, j2 + 1).last() == self.table@[j2 as int]);
            }
            if !desired_seen.contains_key(&entry_key) {
                proof {
                    assert(!desired_has_key(desired@, entry_key));
                }
                ops.push(BufferOp::Release { key: entry_key });
                proof {
                    assert(stale_keys(self.table@.subrange(0, j2 + 1), desired@) == pre_stale.push(
                        entry_key,
                    ));
                    assert(releases(pre_stale.push(entry_key)) =~= releases(pre_stale).push(
                        BufferOp::Release { key: entry_key },
                    ));
                    assert(ops@ =~= ops1 + releases(
                        stale_keys(self.table@.subrange(0, j2 + 1), desired@),
                    ));
                }
            } else {
                proof {
                    assert(desired_has_key(desired@, entry_key));
                    assert(stale_keys(self.table@.subrange(0, j2 + 1), desired@) == pre_stale);
                }
            }
            j2 += 1;
        }
        proof {
            assert(self.table@.subrange(0, m as int) =~= self.table@);
        }
        self.table = new_table;
        proof {
            assert forall|u: int, v: int| 0 <= u < v < self.table@.len() implies (
            #[trigger] self.table@[u]).key != (#[trigger] self.table@[v]).key by {
                assert(self.table@[u].key == desired@[u].0);
                assert(self.table@[v].key == desired@[v].0);
            }
            assert forall|u: int| 0 <= u < self.table@.len() implies 1 <= (
            #[trigger] self.table@[u]).count <= self.table@[u].capacity by {
                assert(self.table@[u] == entry_for(old(self).table@, desired@[u].0, desired@[u].1));
                assert(1 <= desired@[u].1);
            }
            assert forall|u: int|
                0 <= u < stale_keys(old(self).table@, desired@).len() implies ops@[n + u] == (
            BufferOp::Release { key: stale_keys(old(self).table@, desired@)[u] }) by {
                assert(ops@[n + u] == releases(stale_keys(old(self).table@, desired@))[u]);
            }
        }
        ops
    }
}

/// The release operations for a run of stale keys, in order.
pub open spec fn releases(keys: Seq<u64>) -> Seq<BufferOp> {
    keys.map_values(|k: u64| BufferOp::Release { key: k })
}

/// What the release pass computes, exactly: a key is stale precisely when
/// the previous frame held it and this frame's desired batches do not.
pub proof fn lemma_stale_keys_exact(pre: Seq<ResidentEntry>, d: Seq<(u64, u32)>)
    ensures
        forall|k: u64|
            stale_keys(pre, d).contains(k) <==> (table_has_key(pre, k) && !desired_has_key(d, k)),
    decreases pre.len(),
{
    broadcast use vstd::seq_lib::lemma_seq_contains_after_push;

    if pre.len() == 0 {
    } else {
        let rest = pre.drop_last();
        lemma_stale_keys_exact(rest, d);
        assert(pre[pre.len() - 1].key == pre.last().key);
        assert(table_has_key(pre, pre.last().key));
        assert forall|k: u64| table_has_key(pre, k) implies (table_has_key(rest, k)
            || pre.last().key == k) by {
            let i = choose|i: int| 0 <= i < pre.len() && pre[i].key == k;
            if i < pre.len() - 1 {
                assert(rest[i].key == k);
            }
        }
        assert forall|k: u64| table_has_key(rest, k) implies table_has_key(pre, k) by {
            let i = choose|i: int| 0 <= i < rest.len() && rest[i].key == k;
            assert(pre[i].key == k);
        }
    }
}

/// Diff correctness: after reconciliation the resident keys are exactly
/// this frame's desired keys; every vanished key has its release in the
/// plan; every new key is created with a buffer sized to its instance
/// count; every kept key keeps its buffer when the capacity suffices (a
/// plain write) and otherwise gets a replacement sized to exactly the new
/// count.
pub proof fn lemma_diff_correctness(
    pre: Seq<ResidentEntry>,
    d: Seq<(u64, u32)>,
    post: Seq<ResidentEntry>,
    ops: Seq<BufferOp>,
)
    requires
        reconciled(pre, d, post, ops),
    ensures
        forall|k: u64| table_has_key(post, k) <==> desired_has_key(d, k),
        forall|k: u64|
            table_has_key(pre, k) && !desired_has_key(d, k) ==> ops.contains(
                (BufferOp::Release { key: k }),
            ),
        forall|i: int|
            0 <= i < d.len() && !table_has_key(pre, (#[trigger] d[i]).0) ==> ops.contains(
                (BufferOp::Create { key: d[i].0, count: d[i].1 }),
            ) && post[i] == (ResidentEntry { key: d[i].0, capacity: d[i].1, count: d[i].1 }),
        forall|i: int|
            0 <= i < d.len() && table_has_key(pre, (#[trigger] d[i]).0) && d[i].1 <= capacity_of(
                pre,
                d[i].0,
            ) ==> ops.contains((BufferOp::Write { key: d[i].0, count: d[i].1 })) && post[i] == (
            ResidentEntry { key: d[i].0, capacity: capacity_of(pre, d[i].0), count: d[i].1 }),
        forall|i: int|
            0 <= i < d.len() && table_has_key(pre, (#[trigger] d[i]).0) && d[i].1 > capacity_of(
                pre,
                d[i].0,
            ) ==> ops.contains((BufferOp::Grow { key: d[i].0, count: d[i].1 })) && post[i] == (
            ResidentEntry { key: d[i].0, capacity: d[i].1, count: d[i].1 }),
{
    lemma_stale_keys_exact(pre, d);
    assert forall|k: u64| table_has_key(post, k) implies desired_has_key(d, k) by {
        let i = choose|i: int| 0 <= i < post.len() && post[i].key == k;
        assert(post[i] == entry_for(pre, d[i].0, d[i].1));
        assert(d[i].0 == k);
    }
    assert forall|k: u64| desired_has_key(d, k) implies table_has_key(post, k) by {
        let i = choose|i: int| 0 <= i < d.len() && d[i].0 == k;
        assert(post[i] == entry_for(pre, d[i].0, d[i].1));
        assert(post[i].key == k);
    }
    assert forall|k: u64| table_has_key(pre, k) && !desired_has_key(d, k) implies ops.contains(
        (BufferOp::Release { key: k }),
    ) by {
        assert(stale_keys(pre, d).contains(k));
        let j = choose|j: int| 0 <= j < stale_keys(pre, d).len() && stale_keys(pre, d)[j] == k;
        assert(ops[d.len() + j] == (BufferOp::Release { key: k }));
    }
    assert forall|i: int|
        0 <= i < d.len() && !table_has_key(pre, (#[trigger] d[i]).0) implies ops.contains(
        (BufferOp::Create { key: d[i].0, count: d[i].1 }),
    ) && post[i] == (ResidentEntry { key: d[i].0, capacity: d[i].1, count: d[i].1 }) by {
        assert(ops[i] == op_for(pre, d[i].0, d[i].1));
    }
    assert forall|i: int|
        0 <= i < d.len() && table_has_key(pre, (#[trigger] d[i]).0) && d[i].1 <= capacity_of(
            pre,
            d[i].0,
        ) implies ops.contains((BufferOp::Write { key: d[i].0, count: d[i].1 })) && post[i] == (
    ResidentEntry { key: d[i].0, capacity: capacity_of(pre, d[i].0), count: d[i].1 }) by {
        assert(ops[i] == op_for(pre, d[i].0, d[i].1));
    }
    assert forall|i: int|
        0 <= i < d.len() && table_has_key(pre, (#[trigger] d[i]).0) && d[i].1 > capacity_of(
            pre,
            d[i].0,
        ) implies ops.contains((BufferOp::Grow { key: d[i].0, count: d[i].1 })) && post[i] == (
    ResidentEntry { key: d[i].0, capacity: d[i].1, count: d[i].1 }) by {
        assert(ops[i] == op_for(pre, d[i].0, d[i].1));
    }
}

/// Zero-instance skip: a frame with no desired batches leaves an empty
/// resident table — there is nothing left to draw — and its plan does
/// nothing but release.
pub proof fn lemma_empty_frame(
    pre: Seq<ResidentEntry>,
    d: Seq<(u64, u32)>,
    post: Seq<ResidentEntry>,
    ops: Seq<BufferOp>,
)
    requires
        reconciled(pre, d, post, ops),
        d.len() == 0,
    ensures
        post.len() == 0,
        forall|i: int| 0 <= i < ops.len() ==> (#[trigger] ops[i]) is Release,
{
    assert forall|i: int| 0 <= i < ops.len() implies (#[trigger] ops[i]) is Release by {
        assert(ops[i] == ops[d.len() + i]);
        assert(ops[i] == (BufferOp::Release { key: stale_keys(pre, d)[i] }));
    }
}

/// Whether `v` holds `x`.
fn ids_contain(v: &Vec<u64>, x: u64) -> (r: bool)
    ensures
        r == v@.contains(x),
{
    let n = v.len();
    let mut i: usize = 0;
    while i < n
        invariant
            i <= n,
            n == v@.len(),
            forall|m: int| 0 <= m < i ==> (#[trigger] v@[m]) != x,
        decreases n - i,
    {
        if v[i] == x {
            return true;
        }
        i += 1;
    }
    false
}

/// The ids of `prev`, in order, that `used` does not hold.
pub open spec fn dropped_ids(prev: Seq<u64>, used: Seq<u64>) -> Seq<u64>
    decreases prev.len(),
{
    if prev.len() == 0 {
        Seq::empty()
    } else if used.contains(prev.last()) {
        dropped_ids(prev.drop_last(), used)
    } else {
        dropped_ids(prev.drop_last(), used).push(prev.last())
    }
}

/// Backing-resource retention: of the resource ids referenced by the
/// previous frame, those that this frame's used set no longer references —
/// their storage is to be released, everything else is retained.
pub fn released_resources(previous: &Vec<u64>, used: &Vec<u64>) -> (r: Vec<u64>)
    ensures
        r@ == dropped_ids(previous@, used@),
{
    let mut out: Vec<u64> = Vec::new();
    let n = previous.len();
    let mut i: usize = 0;
    proof {
        assert(previous@.subrange(0, 0) =~= Seq::<u64>::empty());
    }
    while i < n
        invariant
            i <= n,
            n == previous@.len(),
            out@ == dropped_ids(previous@.subrange(0, i as int), used@),
        decreases n - i,
    {
        proof {
            assert(previous@.subrange(0, i + 1).drop_last() =~= previous@.subrange(0, i as int));
            assert(previous@.subrange(0, i + 1).last() == previous@[i as int]);
        }
        if !ids_contain(used, previous[i]) {
            out.push(previous[i]);
        }
        i += 1;
    }
    proof {
        assert(previous@.subrange(0, n as int) =~= previous@);
    }
    out
}

/// The per-frame presence diff for keyed widget renderers: ids touched
/// during the prep pass stay resident; when the pass finishes, every
/// resident id that was not touched this frame is handed back so its GPU
/// data can be dropped.
pub struct FrameSet {
    resident: Vec<u64>,
    touched: Vec<u64>,
}

impl FrameSet {
    /// The ids with live GPU data.
    pub closed spec fn resident(self) -> Seq<u64> {
        self.resident@
    }

    /// The ids wanted so far this frame.
    pub closed spec fn touched(self) -> Seq<u64> {
        self.touched@
    }

    pub closed spec fn wf(self) -> bool {
        &&& forall|i: int, j: int|
            0 <= i < j < self.resident@.len() ==> (#[trigger] self.resident@[i]) != (
            #[trigger] self.resident@[j])
        &&& forall|i: int, j: int|
            0 <= i < j < self.touched@.len() ==> (#[trigger] self.touched@[i]) != (
            #[trigger] self.touched@[j])
        &&& forall|i: int|
            0 <= i < self.touched@.len() ==> self.resident@.contains(#[trigger] self.touched@[i])
    }

    /// A diff with nothing resident and nothing touched.
    pub fn new() -> (r: FrameSet)
        ensures
            r.wf(),
            r.resident() == Seq::<u64>::empty(),
            r.touched() == Seq::<u64>::empty(),
    {
        FrameSet { resident: Vec::new(), touched: Vec::new() }
    }

    /// Claim `id` for this frame. Returns whether the id is new — only then
    /// does the caller create its GPU data; an id seen before keeps the
    /// data it has.
    pub fn touch(&mut self, id: u64) -> (is_new: bool)
        requires
            old(self).wf(),
        ensures
            final(self).wf(),
            is_new == !old(self).resident().contains(id),
            is_new ==> final(self).resident() == old(self).resident().push(id),
            !is_new ==> final(self).resident() == old(self).resident(),
            old(self).touched().contains(id) ==> final(self).touched() == old(self).touched(),
            !old(self).touched().contains(id) ==> final(self).touched() == old(
                self,
            ).touched().push(id),
    {
        broadcast use vstd::seq_lib::lemma_seq_contains_after_push;

        let is_new = !ids_contain(&self.resident, id);
        if is_new {
            self.resident.push(id);
            proof {
                assert forall|i: int, j: int|
                    0 <= i < j < self.resident@.len() implies (#[trigger] self.resident@[i]) != (
                #[trigger] self.resident@[j]) by {
                    if j == self.resident@.len() - 1 {
                        assert(old(self).resident@.contains(old(self).resident@[i]));
                    }
                }
            }
        }
        if !ids_contain(&self.touched, id) {
            self.touched.push(id);
            proof {
                assert forall|i: int, j: int|
                    0 <= i < j < self.touched@.len() implies (#[trigger] self.touched@[i]) != (
                #[trigger] self.touched@[j]) by {
                    if j == self.touched@.len() - 1 {
                        assert(old(self).touched@.contains(old(self).touched@[i]));
                    }
                }
            }
        }
        is_new
    }

    /// End the prep pass: every resident id not touched this frame is
    /// returned for release; the touched ids become the resident set of the
    /// next frame, and the touched set empties.
    pub fn finish(&mut self) -> (released: Vec<u64>)
        requires
            old(self).wf(),
        ensures
            final(self).wf(),
            released@ == dropped_ids(old(self).resident(), old(self).touched()),
            final(self).resident() == old(self).touched(),
            final(self).touched() == Seq::<u64>::empty(),
    {
        let released = released_resources(&self.resident, &self.touched);
        core::mem::swap(&mut self.resident, &mut self.touched);
        self.touched = Vec::new();
        released
    }
}

} // verus!
