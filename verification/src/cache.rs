//! A bounded cache of decoded frame buffers that forgets the least recently
//! used buffer first.

use vstd::prelude::*;
use vstd::string::*;

use crate::protocol::{BufferView, FrameBuffer};

verus! {

/// `k` is the first position in `entries` of a buffer with id `id`.
pub open spec fn is_entry_pos(entries: Seq<BufferView>, id: Seq<char>, k: int) -> bool {
    &&& 0 <= k < entries.len()
    &&& entries[k].frame_id == id
    &&& forall|j: int| 0 <= j < k ==> entries[j].frame_id != id
}

/// The position in `entries` of the buffer with id `id`, if there is one.
pub open spec fn entry_pos(entries: Seq<BufferView>, id: Seq<char>) -> Option<int> {
    if exists|k: int| is_entry_pos(entries, id, k) {
        Some(choose|k: int| is_entry_pos(entries, id, k))
    } else {
        None
    }
}

/// Whether a buffer with id `id` is held.
pub open spec fn holds_id(entries: Seq<BufferView>, id: Seq<char>) -> bool {
    exists|k: int| 0 <= k < entries.len() && entries[k].frame_id == id
}

/// No two buffers share an id.
pub open spec fn ids_unique(entries: Seq<BufferView>) -> bool {
    forall|i: int, j: int|
        0 <= i < entries.len() && 0 <= j < entries.len() && i != j ==> entries[i].frame_id
            != entries[j].frame_id
}

/// The buffers after a use of the buffer at `k`: it moves to the most
/// recently used end.
pub open spec fn touched(entries: Seq<BufferView>, k: int) -> Seq<BufferView> {
    entries.remove(k).push(entries[k])
}

/// A lookup of `id`: the buffers afterwards, and the buffer found.
pub open spec fn cache_lookup(entries: Seq<BufferView>, id: Seq<char>) -> (
    Seq<BufferView>,
    Option<BufferView>,
) {
    match entry_pos(entries, id) {
        Some(k) => (touched(entries, k), Some(entries[k])),
        None => (entries, None),
    }
}

/// An insertion of `buffer` into a cache of `capacity`: the buffers
/// afterwards, and those that were pushed out. A buffer with the same id is
/// replaced; the newcomer is the most recently used; when there is one buffer
/// too many, the least recently used leaves.
pub open spec fn cache_insert(entries: Seq<BufferView>, capacity: nat, buffer: BufferView) -> (
    Seq<BufferView>,
    Seq<BufferView>,
) {
    let without = match entry_pos(entries, buffer.frame_id) {
        Some(k) => entries.remove(k),
        None => entries,
    };
    let with = without.push(buffer);
    if with.len() > capacity {
        (with.drop_first(), seq![with[0]])
    } else {
        (with, Seq::empty())
    }
}

/// Decoded frame buffers, least recently used first, at most `capacity` of
/// them, no two with the same frame id.
pub struct FrameBufferCache {
    capacity: usize,
    entries: Vec<FrameBuffer>,
}

pub struct CacheView {
    pub capacity: nat,
    pub entries: Seq<BufferView>,
}

impl View for FrameBufferCache {
    type V = CacheView;

    closed spec fn view(&self) -> CacheView {
        CacheView {
            capacity: self.capacity as nat,
            entries: self.entries@.map_values(|b: FrameBuffer| b@),
        }
    }
}

impl CacheView {
    /// The cache is within its bounds.
    pub open spec fn wf(self) -> bool {
        &&& self.capacity >= 1
        &&& self.entries.len() <= self.capacity
        &&& ids_unique(self.entries)
    }
}

/// A copy of `b`.
pub fn copy_buffer(b: &FrameBuffer) -> (r: FrameBuffer)
    ensures
        r@ == b@,
{
    FrameBuffer {
        frame_id: b.frame_id.clone(),
        width: b.width,
        height: b.height,
        rgba_path: b.rgba_path.clone(),
    }
}

/// Removing an entry, or adding one whose id is new, keeps ids unique.
proof fn lemma_unique_remove_push(entries: Seq<BufferView>, k: int, b: BufferView)
    requires
        ids_unique(entries),
        0 <= k < entries.len(),
        forall|j: int| 0 <= j < entries.len() && j != k ==> entries[j].frame_id != b.frame_id,
    ensures
        ids_unique(entries.remove(k)),
        ids_unique(entries.remove(k).push(b)),
{
    let r = entries.remove(k);
    assert forall|j: int| 0 <= j < r.len() implies r[j].frame_id != b.frame_id by {
        if j < k {
            assert(r[j] == entries[j]);
        } else {
            assert(r[j] == entries[j + 1]);
        }
    }
    assert forall|i: int, j: int| 0 <= i < r.len() && 0 <= j < r.len() && i != j implies r[i].frame_id
        != r[j].frame_id by {
        let ii = if i < k { i } else { i + 1 };
        let jj = if j < k { j } else { j + 1 };
        assert(r[i] == entries[ii]);
        assert(r[j] == entries[jj]);
    }
}

impl FrameBufferCache {
    /// An empty cache that holds at most `capacity` buffers, and at least one.
    pub fn new(capacity: usize) -> (c: Self)
        ensures
            c@.capacity == if capacity >= 1 { capacity as nat } else { 1 },
            c@.entries == Seq::<BufferView>::empty(),
            c@.wf(),
    {
        let c = FrameBufferCache {
            capacity: if capacity >= 1 { capacity } else { 1 },
            entries: Vec::new(),
        };
        assert(c@.entries =~= Seq::<BufferView>::empty());
        c
    }

    /// The number of buffers held.
    pub fn len(&self) -> (n: usize)
        ensures
            n == self@.entries.len(),
    {
        self.entries.len()
    }

    /// The buffers held, least recently used first.
    pub fn buffers(&self) -> (v: &Vec<FrameBuffer>)
        ensures
            v@.map_values(|b: FrameBuffer| b@) == self@.entries,
    {
        &self.entries
    }

    fn find(&self, frame_id: &String) -> (r: Option<usize>)
        ensures
            match r {
                Some(i) => entry_pos(self@.entries, frame_id@) == Some(i as int) && i
                    < self@.entries.len(),
                None => entry_pos(self@.entries, frame_id@) is None,
            },
    {
        let ghost s = self@.entries;
        let mut i: usize = 0;
        while i < self.entries.len()
            invariant
                0 <= i <= self.entries.len(),
                s == self@.entries,
                forall|j: int| 0 <= j < i ==> s[j].frame_id != frame_id@,
            decreases self.entries.len() - i,
        {
            if self.entries[i].frame_id == *frame_id {
                proof {
                    assert(s[i as int] == self.entries@[i as int]@);
                    assert(is_entry_pos(s, frame_id@, i as int));
                    lemma_entry_pos_unique(s, frame_id@, i as int);
                }
                return Some(i);
            }
            assert(s[i as int] == self.entries@[i as int]@);
            i = i + 1;
        }
        proof {
            if exists|k: int| is_entry_pos(s, frame_id@, k) {
                let k = choose|k: int| is_entry_pos(s, frame_id@, k);
                assert(s[k].frame_id == frame_id@);
            }
        }
        None
    }

    /// Whether a buffer with id `frame_id` is held.
    pub fn contains(&self, frame_id: &str) -> (r: bool)
        ensures
            r == (entry_pos(self@.entries, frame_id@) is Some),
            r == holds_id(self@.entries, frame_id@),
    {
        let key = String::from_str(frame_id);
        let r = self.find(&key).is_some();
        proof {
            if holds_id(self@.entries, frame_id@) {
                let k = choose|k: int|
                    0 <= k < self@.entries.len() && self@.entries[k].frame_id == frame_id@;
                lemma_some_first(self@.entries, frame_id@, k);
            }
            if r {
                let k = entry_pos(self@.entries, frame_id@)->0;
                assert(is_entry_pos(self@.entries, frame_id@, k));
            }
        }
        r
    }

    /// Looks up `frame_id` and, when it is held, marks it most recently used
    /// and gives a copy of it.
    pub fn get(&mut self, frame_id: &str) -> (r: Option<FrameBuffer>)
        requires
            old(self)@.wf(),
        ensures
            final(self)@.wf(),
            final(self)@.capacity == old(self)@.capacity,
            final(self)@.entries == cache_lookup(old(self)@.entries, frame_id@).0,
            match (r, cache_lookup(old(self)@.entries, frame_id@).1) {
                (Some(b), Some(v)) => b@ == v,
                (None, None) => true,
                _ => false,
            },
    {
        let key = String::from_str(frame_id);
        match self.find(&key) {
            Some(k) => {
                let ghost s = self@.entries;
                let b = self.entries.remove(k);
                let r = copy_buffer(&b);
                self.entries.push(b);
                proof {
                    assert(self@.entries =~= touched(s, k as int));
                    lemma_unique_remove_push(s, k as int, s[k as int]);
                }
                Some(r)
            },
            None => None,
        }
    }

    /// Stores `buffer` as the most recently used one, replacing any buffer
    /// with the same id, and gives back the buffers that no longer fit.
    pub fn insert(&mut self, buffer: FrameBuffer) -> (evicted: Vec<FrameBuffer>)
        requires
            old(self)@.wf(),
        ensures
            final(self)@.wf(),
            final(self)@.capacity == old(self)@.capacity,
            (final(self)@.entries, evicted@.map_values(|b: FrameBuffer| b@)) == cache_insert(
                old(self)@.entries,
                old(self)@.capacity,
                buffer@,
            ),
    {
        let ghost s = self@.entries;
        let ghost bv = buffer@;
        let mut evicted: Vec<FrameBuffer> = Vec::new();
        match self.find(&buffer.frame_id) {
            Some(k) => {
                let _replaced = self.entries.remove(k);
                proof {
                    assert(self@.entries =~= s.remove(k as int));
                    assert forall|j: int| 0 <= j < s.len() && j != k implies s[j].frame_id
                        != bv.frame_id by {
                        assert(s[k as int].frame_id == bv.frame_id);
                    }
                    lemma_unique_remove_push(s, k as int, bv);
                }
            },
            None => {
                proof {
                    assert forall|j: int| 0 <= j < s.len() implies s[j].frame_id
                        != bv.frame_id by {
                        if s[j].frame_id == bv.frame_id {
                            lemma_some_first(s, bv.frame_id, j);
                        }
                    }
                }
            },
        }
        let ghost without = self@.entries;
        assert(forall|j: int| 0 <= j < without.len() ==> without[j].frame_id != bv.frame_id) by {
            if entry_pos(s, bv.frame_id) is Some {
                let k = entry_pos(s, bv.frame_id)->0;
                assert(is_entry_pos(s, bv.frame_id, k));
                assert forall|j: int| 0 <= j < without.len() implies without[j].frame_id
                    != bv.frame_id by {
                    if j < k {
                        assert(without[j] == s[j]);
                    } else {
                        assert(without[j] == s[j + 1]);
                    }
                }
            }
        }
        self.entries.push(buffer);
        let ghost with = self@.entries;
        assert(with =~= without.push(bv));
        assert(ids_unique(with)) by {
            assert forall|i: int, j: int| 0 <= i < with.len() && 0 <= j < with.len() && i != j implies with[i].frame_id
                != with[j].frame_id by {
                if i < without.len() && j < without.len() {
                    assert(with[i] == without[i]);
                    assert(with[j] == without[j]);
                }
            }
        }
        if self.entries.len() > self.capacity {
            let oldest = self.entries.remove(0);
            evicted.push(oldest);
            proof {
                assert(self@.entries =~= with.drop_first());
                assert(evicted@.map_values(|b: FrameBuffer| b@) =~= seq![with[0]]);
                let d = with.drop_first();
                assert forall|i: int, j: int| 0 <= i < d.len() && 0 <= j < d.len() && i != j implies d[i].frame_id
                    != d[j].frame_id by {
                    assert(d[i] == with[i + 1]);
                    assert(d[j] == with[j + 1]);
                }
            }
        } else {
            assert(evicted@.map_values(|b: FrameBuffer| b@) =~= Seq::<BufferView>::empty());
        }
        evicted
    }

    /// Forgets every buffer, and gives them back, least recently used first.
    pub fn clear(&mut self) -> (drained: Vec<FrameBuffer>)
        requires
            old(self)@.wf(),
        ensures
            final(self)@.wf(),
            final(self)@.capacity == old(self)@.capacity,
            final(self)@.entries == Seq::<BufferView>::empty(),
            drained@.map_values(|b: FrameBuffer| b@) == old(self)@.entries,
    {
        let mut drained: Vec<FrameBuffer> = Vec::new();
        std::mem::swap(&mut drained, &mut self.entries);
        assert(self@.entries =~= Seq::<BufferView>::empty());
        drained
    }
}

/// The first position of an id is unique.
pub proof fn lemma_entry_pos_unique(entries: Seq<BufferView>, id: Seq<char>, k: int)
    requires
        is_entry_pos(entries, id, k),
    ensures
        entry_pos(entries, id) == Some(k),
{
    let k2 = choose|k: int| is_entry_pos(entries, id, k);
    assert(is_entry_pos(entries, id, k2));
    if k2 < k {
        assert(entries[k2].frame_id != id);
    }
    if k < k2 {
        assert(entries[k].frame_id != id);
    }
}

/// When some entry holds `id`, there is a first one.
pub proof fn lemma_some_first(entries: Seq<BufferView>, id: Seq<char>, k: int)
    requires
        0 <= k < entries.len(),
        entries[k].frame_id == id,
    ensures
        entry_pos(entries, id) is Some,
        is_entry_pos(entries, id, entry_pos(entries, id)->0),
    decreases k,
{
    if exists|j: int| 0 <= j < k && entries[j].frame_id == id {
        let j = choose|j: int| 0 <= j < k && entries[j].frame_id == id;
        lemma_some_first(entries, id, j);
    } else {
        assert(is_entry_pos(entries, id, k));
    }
}


/// When no entry holds `id`, there is no first position of it.
proof fn lemma_no_entry(entries: Seq<BufferView>, id: Seq<char>)
    requires
        !holds_id(entries, id),
    ensures
        entry_pos(entries, id) is None,
{
    if exists|k: int| is_entry_pos(entries, id, k) {
        let k = choose|k: int| is_entry_pos(entries, id, k);
        assert(entries[k].frame_id == id);
    }
}

/// The buffers left once an insertion has taken out the old buffer of the
/// newcomer's id hold no buffer of that id.
proof fn lemma_without_lacks(entries: Seq<BufferView>, id: Seq<char>)
    requires
        ids_unique(entries),
    ensures
        ({
            let without = match entry_pos(entries, id) {
                Some(k) => entries.remove(k),
                None => entries,
            };
            &&& !holds_id(without, id)
            &&& ids_unique(without)
            &&& without.len() == (if holds_id(entries, id) {
                entries.len() - 1
            } else {
                entries.len() as int
            })
        }),
{
    match entry_pos(entries, id) {
        Some(k) => {
            assert(is_entry_pos(entries, id, k)) by {
                let k2 = choose|k: int| is_entry_pos(entries, id, k);
                assert(is_entry_pos(entries, id, k2));
            }
            let w = entries.remove(k);
            assert forall|j: int| 0 <= j < w.len() implies w[j].frame_id != id by {
                if j < k {
                    assert(w[j] == entries[j]);
                } else {
                    assert(w[j] == entries[j + 1]);
                }
            }
            assert forall|i: int, j: int| 0 <= i < w.len() && 0 <= j < w.len() && i != j implies w[i].frame_id
                != w[j].frame_id by {
                let ii = if i < k { i } else { i + 1 };
                let jj = if j < k { j } else { j + 1 };
                assert(w[i] == entries[ii]);
                assert(w[j] == entries[jj]);
            }
            assert(holds_id(entries, id));
        },
        None => {
            if holds_id(entries, id) {
                let k = choose|k: int| 0 <= k < entries.len() && entries[k].frame_id == id;
                lemma_some_first(entries, id, k);
            }
        },
    }
}

/// Law: a buffer just stored is found again by its id, as it was stored,
/// whatever the cache held before (within its bounds).
pub proof fn law_insert_then_lookup(entries: Seq<BufferView>, capacity: nat, buffer: BufferView)
    requires
        (CacheView { capacity, entries }).wf(),
    ensures
        cache_lookup(cache_insert(entries, capacity, buffer).0, buffer.frame_id).1 == Some(buffer),
{
    lemma_without_lacks(entries, buffer.frame_id);
    let without = match entry_pos(entries, buffer.frame_id) {
        Some(k) => entries.remove(k),
        None => entries,
    };
    let with = without.push(buffer);
    let after = cache_insert(entries, capacity, buffer).0;
    let last = after.len() - 1;
    assert(after[last] == buffer);
    assert forall|j: int| 0 <= j < last implies after[j].frame_id != buffer.frame_id by {
        if with.len() > capacity {
            assert(after[j] == with[j + 1]);
            assert(with[j + 1] == without[j + 1]);
        } else {
            assert(after[j] == without[j]);
        }
    }
    assert(is_entry_pos(after, buffer.frame_id, last));
    lemma_entry_pos_unique(after, buffer.frame_id, last);
}

/// Law: an insertion keeps the cache within its capacity, with no two buffers
/// of the same id.
pub proof fn law_insert_keeps_bounds(entries: Seq<BufferView>, capacity: nat, buffer: BufferView)
    requires
        (CacheView { capacity, entries }).wf(),
    ensures
        (CacheView { capacity, entries: cache_insert(entries, capacity, buffer).0 }).wf(),
{
    lemma_without_lacks(entries, buffer.frame_id);
    let without = match entry_pos(entries, buffer.frame_id) {
        Some(k) => entries.remove(k),
        None => entries,
    };
    let with = without.push(buffer);
    assert(ids_unique(with)) by {
        assert forall|i: int, j: int| 0 <= i < with.len() && 0 <= j < with.len() && i != j implies with[i].frame_id
            != with[j].frame_id by {
            if i < without.len() && j < without.len() {
                assert(with[i] == without[i]);
                assert(with[j] == without[j]);
            } else if i < without.len() {
                assert(with[i] == without[i]);
            } else {
                assert(with[j] == without[j]);
            }
        }
    }
    if with.len() > capacity {
        let d = with.drop_first();
        assert forall|i: int, j: int| 0 <= i < d.len() && 0 <= j < d.len() && i != j implies d[i].frame_id
            != d[j].frame_id by {
            assert(d[i] == with[i + 1]);
            assert(d[j] == with[j + 1]);
        }
    }
}

/// Law: something is pushed out only when the cache was full and the
/// newcomer's id was new to it, and then it is the least recently used buffer.
pub proof fn law_eviction_takes_least_recent(
    entries: Seq<BufferView>,
    capacity: nat,
    buffer: BufferView,
)
    requires
        (CacheView { capacity, entries }).wf(),
    ensures
        ({
            let evicted = cache_insert(entries, capacity, buffer).1;
            &&& evicted.len() <= 1
            &&& evicted.len() == 1 <==> (entries.len() == capacity && !holds_id(
                entries,
                buffer.frame_id,
            ))
            &&& evicted.len() == 1 ==> evicted[0] == entries[0]
        }),
{
    lemma_without_lacks(entries, buffer.frame_id);
    if !holds_id(entries, buffer.frame_id) {
        lemma_no_entry(entries, buffer.frame_id);
    }
}

/// Law: a lookup keeps every buffer, only their order changes: the same
/// number of buffers, and the same ids held.
pub proof fn law_lookup_keeps_buffers(entries: Seq<BufferView>, id: Seq<char>, other: Seq<char>)
    ensures
        cache_lookup(entries, id).0.len() == entries.len(),
        holds_id(cache_lookup(entries, id).0, other) == holds_id(entries, other),
{
    match entry_pos(entries, id) {
        Some(k) => {
            assert(is_entry_pos(entries, id, k)) by {
                let k2 = choose|k: int| is_entry_pos(entries, id, k);
                assert(is_entry_pos(entries, id, k2));
            }
            let t = touched(entries, k);
            if holds_id(entries, other) {
                let j = choose|j: int| 0 <= j < entries.len() && entries[j].frame_id == other;
                if j == k {
                    assert(t[t.len() - 1].frame_id == other);
                } else if j < k {
                    assert(t[j] == entries[j]);
                } else {
                    assert(t[j - 1] == entries[j]);
                }
            }
            if holds_id(t, other) {
                let j = choose|j: int| 0 <= j < t.len() && t[j].frame_id == other;
                if j == t.len() - 1 {
                    assert(entries[k].frame_id == other);
                } else if j < k {
                    assert(t[j] == entries[j]);
                } else {
                    assert(t[j] == entries[j + 1]);
                }
            }
        },
        None => {},
    }
}

/// Law: a lookup that finds a buffer hands out that very buffer and makes it
/// the most recently used one: it leaves its place for the end, and the
/// others keep their order. A lookup that finds nothing changes nothing.
pub proof fn law_lookup_refreshes_recency(entries: Seq<BufferView>, id: Seq<char>, k: int)
    requires
        ids_unique(entries),
    ensures
        0 <= k < entries.len() && entries[k].frame_id == id ==> {
            &&& cache_lookup(entries, id).1 == Some(entries[k])
            &&& cache_lookup(entries, id).0 == entries.remove(k).push(entries[k])
        },
        !holds_id(entries, id) ==> cache_lookup(entries, id) == (entries, None::<BufferView>),
{
    if 0 <= k < entries.len() && entries[k].frame_id == id {
        assert(is_entry_pos(entries, id, k));
        lemma_entry_pos_unique(entries, id, k);
    }
    if !holds_id(entries, id) {
        if exists|j: int| is_entry_pos(entries, id, j) {
            let j = choose|j: int| is_entry_pos(entries, id, j);
            assert(entries[j].frame_id == id);
        }
    }
}

/// Law: a buffer just looked up is not the one that the next insertion of a
/// new buffer into the full cache pushes out (for a capacity of two or more);
/// it stays in the cache.
pub proof fn law_lookup_protects_from_eviction(
    entries: Seq<BufferView>,
    capacity: nat,
    k: int,
    buffer: BufferView,
)
    requires
        (CacheView { capacity, entries }).wf(),
        capacity >= 2,
        entries.len() == capacity,
        0 <= k < entries.len(),
        !holds_id(entries, buffer.frame_id),
    ensures
        ({
            let id = entries[k].frame_id;
            let looked = cache_lookup(entries, id).0;
            let (kept, evicted) = cache_insert(looked, capacity, buffer);
            &&& evicted.len() == 1
            &&& evicted[0].frame_id != id
            &&& kept.contains(entries[k])
        }),
{
    let id = entries[k].frame_id;
    law_lookup_refreshes_recency(entries, id, k);
    let looked = entries.remove(k).push(entries[k]);
    assert(!holds_id(looked, buffer.frame_id)) by {
        assert forall|i: int| 0 <= i < looked.len() implies looked[i].frame_id != buffer.frame_id by {
            if i < k {
                assert(looked[i] == entries[i]);
            } else if i < looked.len() - 1 {
                assert(looked[i] == entries[i + 1]);
            } else {
                assert(looked[i] == entries[k]);
            }
        }
    }
    if exists|j: int| is_entry_pos(looked, buffer.frame_id, j) {
        let j = choose|j: int| is_entry_pos(looked, buffer.frame_id, j);
        assert(looked[j].frame_id == buffer.frame_id);
    }
    assert(entry_pos(looked, buffer.frame_id) is None);
    let with = looked.push(buffer);
    assert(with[0] == looked[0]);
    if k == 0 {
        assert(looked[0] == entries[1]);
    } else {
        assert(looked[0] == entries[0]);
    }
    let kept = with.drop_first();
    assert(kept[looked.len() - 2] == entries[k]);
}

} // verus!
