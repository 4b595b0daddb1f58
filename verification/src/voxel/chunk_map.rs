//! A map from chunk positions to per-chunk values.
use vstd::prelude::*;

use crate::coordinates::AbsChunkPos;

verus! {

/// A map keyed by chunk position, holding each position at most once.
pub struct ChunkMap<V> {
    entries: Vec<(AbsChunkPos, V)>,
}

/// No position occurs twice among the entries.
pub open spec fn keys_unique<V>(s: Seq<(AbsChunkPos, V)>) -> bool {
    forall|i: int, j: int| 0 <= i < s.len() && 0 <= j < s.len() && i != j ==> #[trigger] s[i].0 != #[trigger] s[j].0
}

/// The map described by a sequence of entries with unique keys.
pub open spec fn entries_map<V>(s: Seq<(AbsChunkPos, V)>) -> Map<AbsChunkPos, V> {
    Map::new(
        |p: AbsChunkPos| exists|i: int| 0 <= i < s.len() && #[trigger] s[i].0 == p,
        |p: AbsChunkPos| s[choose|i: int| 0 <= i < s.len() && #[trigger] s[i].0 == p].1,
    )
}

proof fn lemma_entries_map_at<V>(s: Seq<(AbsChunkPos, V)>, k: int)
    requires
        keys_unique(s),
        0 <= k < s.len(),
    ensures
        entries_map(s).contains_key(s[k].0),
        entries_map(s)[s[k].0] == s[k].1,
{
    let p = s[k].0;
    assert(exists|i: int| 0 <= i < s.len() && #[trigger] s[i].0 == p);
    let c = choose|i: int| 0 <= i < s.len() && #[trigger] s[i].0 == p;
    assert(c == k);
}

impl<V> View for ChunkMap<V> {
    type V = Map<AbsChunkPos, V>;

    /// The positions and their values.
    closed spec fn view(&self) -> Map<AbsChunkPos, V> {
        entries_map(self.entries@)
    }
}

impl<V> ChunkMap<V> {
    /// The entries have unique positions.
    #[verifier::type_invariant]
    closed spec fn inv(self) -> bool {
        keys_unique(self.entries@)
    }

    /// An empty map.
    pub fn new() -> (r: ChunkMap<V>)
        ensures
            r@ == Map::<AbsChunkPos, V>::empty(),
    {
        let r = ChunkMap { entries: Vec::new() };
        assert(r@ =~= Map::<AbsChunkPos, V>::empty());
        r
    }

    /// The number of entries.
    pub fn len(&self) -> (r: usize)
        ensures
            r == self@.len(),
    {
        proof {
            use_type_invariant(self);
            self.lemma_len();
        }
        self.entries.len()
    }

    proof fn lemma_len(self)
        requires
            keys_unique(self.entries@),
        ensures
            self@.dom().finite(),
            self@.len() == self.entries@.len(),
        decreases self.entries@.len(),
    {
        let s = self.entries@;
        let keys = s.map_values(|e: (AbsChunkPos, V)| e.0);
        let dom = keys.to_set();
        assert(self@.dom() =~= dom) by {
            assert forall|p: AbsChunkPos| self@.dom().contains(p) implies dom.contains(p) by {
                let i = choose|i: int| 0 <= i < s.len() && #[trigger] s[i].0 == p;
                assert(keys[i] == p);
            }
            assert forall|p: AbsChunkPos| dom.contains(p) implies self@.dom().contains(p) by {
                let i = choose|i: int| 0 <= i < keys.len() && #[trigger] keys[i] == p;
                assert(s[i].0 == p);
            }
        }
        assert(keys.no_duplicates()) by {
            assert forall|i: int, j: int| 0 <= i < keys.len() && 0 <= j < keys.len() && i != j implies keys[i]
                != keys[j] by {
                assert(s[i].0 != s[j].0);
            }
        }
        keys.unique_seq_to_set();
    }

    /// Index of the entry holding `pos`, if any.
    fn find(&self, pos: &AbsChunkPos) -> (r: Option<usize>)
        ensures
            r matches Some(i) ==> i < self.entries@.len() && self.entries@[i as int].0 == *pos,
            r is None ==> forall|i: int| 0 <= i < self.entries@.len() ==> #[trigger] self.entries@[i].0 != *pos,
    {
        let mut i: usize = 0;
        while i < self.entries.len()
            invariant
                i <= self.entries@.len(),
                forall|j: int| 0 <= j < i ==> #[trigger] self.entries@[j].0 != *pos,
            decreases self.entries@.len() - i,
        {
            if self.entries[i].0 == *pos {
                return Some(i);
            }
            i = i + 1;
        }
        None
    }

    /// True when a value is stored for `pos`.
    pub fn contains_key(&self, pos: &AbsChunkPos) -> (r: bool)
        ensures
            r == self@.contains_key(*pos),
    {
        proof {
            use_type_invariant(self);
        }
        match self.find(pos) {
            Some(i) => {
                proof {
                    lemma_entries_map_at(self.entries@, i as int);
                }
                true
            },
            None => false,
        }
    }

    /// The value stored for `pos`, if any.
    pub fn get(&self, pos: &AbsChunkPos) -> (r: Option<&V>)
        ensures
            r is Some == self@.contains_key(*pos),
            r matches Some(v) ==> *v == self@[*pos],
    {
        proof {
            use_type_invariant(self);
        }
        match self.find(pos) {
            Some(i) => {
                proof {
                    lemma_entries_map_at(self.entries@, i as int);
                }
                Some(&self.entries[i].1)
            },
            None => None,
        }
    }

    /// Stores `value` for `pos`, replacing any previous value.
    pub fn insert(&mut self, pos: AbsChunkPos, value: V)
        ensures
            final(self)@ == old(self)@.insert(pos, value),
    {
        proof {
            use_type_invariant(&*self);
        }
        let ghost s0 = self.entries@;
        let found = self.find(&pos);
        let mut entries: Vec<(AbsChunkPos, V)> = Vec::new();
        std::mem::swap(&mut entries, &mut self.entries);
        match found {
            Some(i) => {
                entries.set(i, (pos, value));
                proof {
                    let s1 = entries@;
                    assert(s1 == s0.update(i as int, (pos, value)));
                    assert(keys_unique(s1)) by {
                        assert forall|a: int, b: int|
                            0 <= a < s1.len() && 0 <= b < s1.len() && a != b implies #[trigger] s1[a].0
                            != #[trigger] s1[b].0 by {
                            assert(s0[a].0 != s0[b].0);
                        }
                    }
                    assert(entries_map(s1) =~= entries_map(s0).insert(pos, value)) by {
                        lemma_entries_map_at(s1, i as int);
                        assert forall|q: AbsChunkPos| #[trigger] entries_map(s1).contains_key(q) <==> entries_map(
                            s0,
                        ).insert(pos, value).contains_key(q) by {
                            if entries_map(s0).contains_key(q) {
                                let k = choose|k: int| 0 <= k < s0.len() && #[trigger] s0[k].0 == q;
                                assert(s1[k].0 == q);
                            }
                            if entries_map(s1).contains_key(q) {
                                let k = choose|k: int| 0 <= k < s1.len() && #[trigger] s1[k].0 == q;
                                assert(s0[k].0 == q);
                            }
                        }
                        assert forall|q: AbsChunkPos| #[trigger] entries_map(s1).contains_key(q) implies entries_map(
                            s1,
                        )[q] == entries_map(s0).insert(pos, value)[q] by {
                            if q != pos {
                                let k = choose|k: int| 0 <= k < s1.len() && #[trigger] s1[k].0 == q;
                                lemma_entries_map_at(s1, k);
                                lemma_entries_map_at(s0, k);
                            }
                        }
                    }
                }
            },
            None => {
                entries.push((pos, value));
                proof {
                    let s1 = entries@;
                    let n = s0.len() as int;
                    assert(keys_unique(s1)) by {
                        assert forall|a: int, b: int|
                            0 <= a < s1.len() && 0 <= b < s1.len() && a != b implies #[trigger] s1[a].0
                            != #[trigger] s1[b].0 by {
                            if a < n && b < n {
                                assert(s0[a].0 != s0[b].0);
                            } else if a < n {
                                assert(s0[a].0 != pos);
                            } else {
                                assert(s0[b].0 != pos);
                            }
                        }
                    }
                    assert(entries_map(s1) =~= entries_map(s0).insert(pos, value)) by {
                        lemma_entries_map_at(s1, n);
                        assert forall|q: AbsChunkPos| #[trigger] entries_map(s1).contains_key(q) <==> entries_map(
                            s0,
                        ).insert(pos, value).contains_key(q) by {
                            if entries_map(s0).contains_key(q) {
                                let k = choose|k: int| 0 <= k < s0.len() && #[trigger] s0[k].0 == q;
                                assert(s1[k].0 == q);
                            }
                            if entries_map(s1).contains_key(q) && q != pos {
                                let k = choose|k: int| 0 <= k < s1.len() && #[trigger] s1[k].0 == q;
                                assert(k < n);
                                assert(s0[k].0 == q);
                            }
                        }
                        assert forall|q: AbsChunkPos| #[trigger] entries_map(s1).contains_key(q) implies entries_map(
                            s1,
                        )[q] == entries_map(s0).insert(pos, value)[q] by {
                            if q != pos {
                                let k = choose|k: int| 0 <= k < s1.len() && #[trigger] s1[k].0 == q;
                                assert(k < n);
                                lemma_entries_map_at(s1, k);
                                lemma_entries_map_at(s0, k);
                            }
                        }
                    }
                }
            },
        }
        self.entries = entries;
    }

    /// Stores `value` for `pos` unless a value is already stored there; returns whether it stored.
    pub fn insert_if_absent(&mut self, pos: AbsChunkPos, value: V) -> (r: bool)
        ensures
            r == !old(self)@.contains_key(pos),
            r ==> final(self)@ == old(self)@.insert(pos, value),
            !r ==> final(self)@ == old(self)@,
    {
        if self.contains_key(&pos) {
            false
        } else {
            self.insert(pos, value);
            true
        }
    }

    /// The stored positions, each once.
    pub fn keys(&self) -> (r: Vec<AbsChunkPos>)
        ensures
            r@.no_duplicates(),
            forall|p: AbsChunkPos| #[trigger] r@.contains(p) <==> self@.contains_key(p),
    {
        proof {
            use_type_invariant(self);
        }
        let mut out: Vec<AbsChunkPos> = Vec::new();
        let mut i: usize = 0;
        while i < self.entries.len()
            invariant
                keys_unique(self.entries@),
                i <= self.entries@.len(),
                out@.len() == i,
                forall|k: int| 0 <= k < i ==> #[trigger] out@[k] == self.entries@[k].0,
            decreases self.entries@.len() - i,
        {
            out.push(self.entries[i].0);
            i = i + 1;
        }
        proof {
            let s = self.entries@;
            assert forall|p: AbsChunkPos| #[trigger] out@.contains(p) <==> self@.contains_key(p) by {
                if out@.contains(p) {
                    let k = choose|k: int| 0 <= k < out@.len() && out@[k] == p;
                    assert(s[k].0 == p);
                }
                if self@.contains_key(p) {
                    let k = choose|k: int| 0 <= k < s.len() && #[trigger] s[k].0 == p;
                    assert(out@[k] == p);
                }
            }
            assert forall|a: int, b: int| 0 <= a < out@.len() && 0 <= b < out@.len() && a != b implies out@[a]
                != out@[b] by {
                assert(s[a].0 != s[b].0);
            }
        }
        out
    }

    /// Removes the value stored for `pos`, returning it.
    pub fn remove(&mut self, pos: &AbsChunkPos) -> (r: Option<V>)
        ensures
            r is Some == old(self)@.contains_key(*pos),
            r matches Some(v) ==> v == old(self)@[*pos],
            final(self)@ == old(self)@.remove(*pos),
    {
        proof {
            use_type_invariant(&*self);
        }
        let ghost s0 = self.entries@;
        match self.find(pos) {
            None => {
                proof {
                    assert(self@ =~= self@.remove(*pos));
                }
                None
            },
            Some(i) => {
                proof {
                    lemma_entries_map_at(s0, i as int);
                }
                let mut entries: Vec<(AbsChunkPos, V)> = Vec::new();
                std::mem::swap(&mut entries, &mut self.entries);
                let (_, v) = entries.remove(i);
                proof {
                    let s1 = entries@;
                    assert(s1 =~= s0.remove(i as int));
                    assert(keys_unique(s1)) by {
                        assert forall|a: int, b: int|
                            0 <= a < s1.len() && 0 <= b < s1.len() && a != b implies #[trigger] s1[a].0
                            != #[trigger] s1[b].0 by {
                            let a0 = if a < i { a } else { a + 1 };
                            let b0 = if b < i { b } else { b + 1 };
                            assert(s1[a] == s0[a0] && s1[b] == s0[b0]);
                            assert(s0[a0].0 != s0[b0].0);
                        }
                    }
                    assert(entries_map(s1) =~= entries_map(s0).remove(*pos)) by {
                        assert forall|q: AbsChunkPos| #[trigger] entries_map(s1).contains_key(q) <==> entries_map(
                            s0,
                        ).remove(*pos).contains_key(q) by {
                            if entries_map(s1).contains_key(q) {
                                let k = choose|k: int| 0 <= k < s1.len() && #[trigger] s1[k].0 == q;
                                let k0 = if k < i { k } else { k + 1 };
                                assert(s0[k0].0 == q);
                                assert(k0 != i);
                            }
                            if entries_map(s0).contains_key(q) && q != *pos {
                                let k = choose|k: int| 0 <= k < s0.len() && #[trigger] s0[k].0 == q;
                                assert(k != i);
                                let k1 = if k < i { k } else { k - 1 };
                                assert(s1[k1].0 == q);
                            }
                        }
                        assert forall|q: AbsChunkPos| #[trigger] entries_map(s1).contains_key(q) implies entries_map(
                            s1,
                        )[q] == entries_map(s0)[q] by {
                            let k = choose|k: int| 0 <= k < s1.len() && #[trigger] s1[k].0 == q;
                            let k0 = if k < i { k } else { k + 1 };
                            lemma_entries_map_at(s1, k);
                            lemma_entries_map_at(s0, k0);
                        }
                    }
                }
                self.entries = entries;
                Some(v)
            },
        }
    }
}

} // verus!
