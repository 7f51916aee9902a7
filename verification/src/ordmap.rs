//! An insertion-order-preserving map from string keys to values.
//!
//! The same structure serves the request's per-item batch and the
//! response's success and failure tables, so the order in which results are
//! reported is the order in which the client named the items.

use vstd::pervasive::VecAdditionalExecFns;
use vstd::prelude::*;

verus! {

/// Value of the first entry carrying key `k`, if any.
pub open spec fn seq_map_lookup<T>(m: Seq<(Seq<char>, T)>, k: Seq<char>) -> Option<T>
    decreases m.len(),
{
    if m.len() == 0 {
        None
    } else if m[0].0 == k {
        Some(m[0].1)
    } else {
        seq_map_lookup(m.drop_first(), k)
    }
}

pub open spec fn seq_map_contains<T>(m: Seq<(Seq<char>, T)>, k: Seq<char>) -> bool {
    seq_map_lookup(m, k) is Some
}

/// Index of the first entry carrying key `k`; `m.len()` when there is none.
pub open spec fn seq_map_index_of<T>(m: Seq<(Seq<char>, T)>, k: Seq<char>) -> int
    decreases m.len(),
{
    if m.len() == 0 {
        0
    } else if m[0].0 == k {
        0
    } else {
        1 + seq_map_index_of(m.drop_first(), k)
    }
}

/// Replace the value under `k` in place, or append a new entry at the end.
pub open spec fn seq_map_set<T>(m: Seq<(Seq<char>, T)>, k: Seq<char>, v: T) -> Seq<
    (Seq<char>, T),
> {
    if seq_map_contains(m, k) {
        m.update(seq_map_index_of(m, k), (k, v))
    } else {
        m.push((k, v))
    }
}

/// The keys of the entry sequence, in entry order.
pub open spec fn seq_map_keys<T>(m: Seq<(Seq<char>, T)>) -> Seq<Seq<char>> {
    m.map_values(|e: (Seq<char>, T)| e.0)
}

pub open spec fn seq_map_keys_distinct<T>(m: Seq<(Seq<char>, T)>) -> bool {
    forall|i: int, j: int| 0 <= i < j < m.len() ==> m[i].0 != m[j].0
}

/// The recursive lookup agrees with the quantified reading of the entry
/// sequence: `k` is present exactly when some entry carries it, and the
/// lookup returns the value of the first such entry.
pub proof fn lemma_seq_map_lookup<T>(m: Seq<(Seq<char>, T)>, k: Seq<char>)
    ensures
        seq_map_contains(m, k) <==> exists|i: int| 0 <= i < m.len() && m[i].0 == k,
        seq_map_contains(m, k) ==> {
            let ix = seq_map_index_of(m, k);
            &&& 0 <= ix < m.len()
            &&& m[ix].0 == k
            &&& seq_map_lookup(m, k) == Some(m[ix].1)
            &&& forall|i: int| 0 <= i < ix ==> m[i].0 != k
        },
        !seq_map_contains(m, k) ==> seq_map_index_of(m, k) == m.len(),
    decreases m.len(),
{
    if m.len() > 0 && m[0].0 != k {
        lemma_seq_map_lookup(m.drop_first(), k);
        assert(forall|j: int| 0 <= j < m.len() - 1 ==> #[trigger] m.drop_first()[j] == m[j + 1]);
        assert(seq_map_index_of(m, k) == 1 + seq_map_index_of(m.drop_first(), k));
        assert forall|i: int| 0 <= i < m.len() && m[i].0 == k implies seq_map_contains(
            m,
            k,
        ) by {
            assert(m.drop_first()[i - 1] == m[i]);
        }
        if seq_map_contains(m, k) {
            let ix = seq_map_index_of(m, k);
            assert(m.drop_first()[ix - 1] == m[ix]);
            assert forall|i: int| 0 <= i < ix implies m[i].0 != k by {
                if i > 0 {
                    assert(m.drop_first()[i - 1] == m[i]);
                }
            }
        }
    }
}

/// How a lookup reads through a pushed entry.
pub proof fn lemma_seq_map_lookup_push<T>(m: Seq<(Seq<char>, T)>, k: Seq<char>, e: (Seq<char>, T))
    ensures
        seq_map_lookup(m.push(e), k) == if seq_map_contains(m, k) {
            seq_map_lookup(m, k)
        } else if e.0 == k {
            Some(e.1)
        } else {
            None::<T>
        },
    decreases m.len(),
{
    if m.len() == 0 {
        assert(m.push(e).drop_first() =~= Seq::<(Seq<char>, T)>::empty());
    } else {
        assert(m.push(e).drop_first() =~= m.drop_first().push(e));
        lemma_seq_map_lookup_push(m.drop_first(), k, e);
    }
}

/// Map from string keys to values that keeps the order in which keys were
/// first inserted.
#[derive(Debug)]
pub struct OrderedStringMap<V> {
    entries: Vec<(String, V)>,
}

impl<V: View> View for OrderedStringMap<V> {
    type V = Seq<(Seq<char>, V::V)>;

    closed spec fn view(&self) -> Seq<(Seq<char>, V::V)> {
        self.entries@.map_values(|e: (String, V)| (e.0@, e.1@))
    }
}

impl<V: View> OrderedStringMap<V> {
    /// Keys are unique; every caller that inserts keeps this.
    pub open spec fn wf(&self) -> bool {
        seq_map_keys_distinct(self@)
    }

    pub fn new() -> (r: Self)
        ensures
            r@ == Seq::<(Seq<char>, V::V)>::empty(),
            r.wf(),
    {
        let r = OrderedStringMap { entries: Vec::new() };
        proof {
            assert(r@ =~= Seq::<(Seq<char>, V::V)>::empty());
        }
        r
    }

    pub fn len(&self) -> (r: usize)
        ensures
            r == self@.len(),
    {
        self.entries.len()
    }

    pub fn is_empty(&self) -> (r: bool)
        ensures
            r == (self@.len() == 0),
    {
        self.entries.len() == 0
    }

    pub fn key_at(&self, i: usize) -> (r: &String)
        requires
            i < self@.len(),
        ensures
            r@ == self@[i as int].0,
    {
        &self.entries[i].0
    }

    pub fn value_at(&self, i: usize) -> (r: &V)
        requires
            i < self@.len(),
        ensures
            r@ == self@[i as int].1,
    {
        &self.entries[i].1
    }

    /// Index of the first entry carrying key `k`, or the length if absent.
    fn index_of(&self, k: &String) -> (r: usize)
        ensures
            r == seq_map_index_of(self@, k@),
    {
        proof {
            lemma_seq_map_lookup(self@, k@);
        }
        let n = self.entries.len();
        let mut i: usize = 0;
        while i < n
            invariant
                n == self@.len(),
                0 <= i <= n,
                forall|j: int| 0 <= j < i ==> self@[j].0 != k@,
                seq_map_index_of(self@, k@) >= i,
            decreases n - i,
        {
            let hit = self.entries[i].0 == *k;
            proof {
                assert(self@[i as int].0 == self.entries@[i as int].0@);
            }
            if hit {
                proof {
                    lemma_seq_map_lookup(self@, k@);
                }
                return i;
            }
            proof {
                lemma_index_of_past(self@, k@, i + 1);
            }
            i = i + 1;
        }
        proof {
            lemma_seq_map_lookup(self@, k@);
        }
        n
    }

    pub fn contains_key(&self, k: &String) -> (r: bool)
        ensures
            r == seq_map_contains(self@, k@),
    {
        proof {
            lemma_seq_map_lookup(self@, k@);
        }
        self.index_of(k) < self.entries.len()
    }

    pub fn get(&self, k: &String) -> (r: Option<&V>)
        ensures
            match r {
                Some(v) => seq_map_lookup(self@, k@) == Some(v@),
                None => !seq_map_contains(self@, k@),
            },
    {
        proof {
            lemma_seq_map_lookup(self@, k@);
        }
        let ix = self.index_of(k);
        if ix < self.entries.len() {
            Some(&self.entries[ix].1)
        } else {
            None
        }
    }

    /// Add a new key at the end; the key must not be present yet.
    pub fn append(&mut self, k: String, v: V)
        requires
            !seq_map_contains(old(self)@, k@),
        ensures
            final(self)@ == old(self)@.push((k@, v@)),
            old(self).wf() ==> final(self).wf(),
    {
        proof {
            lemma_seq_map_lookup(old(self)@, k@);
        }
        self.entries.push((k, v));
        proof {
            assert(self@ =~= old(self)@.push((k@, v@)));
        }
    }

    /// Replace the value under `k` in place, or append a new entry.
    pub fn set(&mut self, k: String, v: V)
        ensures
            final(self)@ == seq_map_set(old(self)@, k@, v@),
            old(self).wf() ==> final(self).wf(),
    {
        proof {
            lemma_seq_map_lookup(old(self)@, k@);
        }
        let ix = self.index_of(&k);
        if ix < self.entries.len() {
            self.entries.set(ix, (k, v));
            proof {
                assert(self@ =~= old(self)@.update(ix as int, (k@, v@)));
                if old(self).wf() {
                    assert forall|i: int, j: int| 0 <= i < j < self@.len() implies self@[i].0
                        != self@[j].0 by {
                        assert(old(self)@[ix as int].0 == k@);
                    }
                }
            }
        } else {
            self.entries.push((k, v));
            proof {
                assert(self@ =~= old(self)@.push((k@, v@)));
            }
        }
    }
}

/// If the first `i` entries miss `k`, the first match sits at `i` or later.
proof fn lemma_index_of_past<T>(m: Seq<(Seq<char>, T)>, k: Seq<char>, i: int)
    requires
        0 <= i <= m.len(),
        forall|j: int| 0 <= j < i ==> m[j].0 != k,
    ensures
        seq_map_index_of(m, k) >= i,
        seq_map_index_of(m, k) >= 0,
    decreases m.len(),
{
    if m.len() > 0 && m[0].0 != k {
        let i2: int = if i > 0 {
            i - 1
        } else {
            0
        };
        assert forall|j: int| 0 <= j < i2 implies m.drop_first()[j].0 != k by {
            assert(m.drop_first()[j] == m[j + 1]);
        }
        lemma_index_of_past(m.drop_first(), k, i2);
        assert(seq_map_index_of(m, k) == 1 + seq_map_index_of(m.drop_first(), k));
    }
}

} // verus!
