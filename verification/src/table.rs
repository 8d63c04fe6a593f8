//! A small string-keyed association table with overwrite-on-insert
//! semantics, used for the metadata mapping and the translation table.
use vstd::prelude::*;

verus! {

/// The value associated with `k` in `es`, the latest insertion winning.
pub open spec fn spec_lookup<V>(es: Seq<(String, V)>, k: Seq<char>) -> Option<V>
    decreases es.len(),
{
    if es.len() == 0 {
        None
    } else if es.last().0@ == k {
        Some(es.last().1)
    } else {
        spec_lookup(es.drop_last(), k)
    }
}

/// A mapping from identifier strings to values, keys unique.
pub struct Table<V> {
    pub entries: Vec<(String, V)>,
}

impl<V> Table<V> {
    /// Keys are pairwise distinct.
    pub open spec fn well_formed(&self) -> bool {
        forall|i: int, j: int|
            0 <= i < j < self.entries@.len() ==> self.entries@[i].0@ != self.entries@[j].0@
    }

    /// The entries, in insertion order.
    pub open spec fn entries_view(&self) -> Seq<(String, V)> {
        self.entries@
    }

    /// The value stored under `k`, if any.
    pub open spec fn spec_get(&self, k: Seq<char>) -> Option<V> {
        spec_lookup(self.entries@, k)
    }

    /// The empty table.
    pub fn new() -> (r: Self)
        ensures
            r.well_formed(),
            forall|k: Seq<char>| r.spec_get(k) is None,
            r.entries_view() == Seq::<(String, V)>::empty(),
    {
        let r = Table { entries: Vec::new() };
        proof {
            assert(r.entries@ =~= Seq::<(String, V)>::empty());
        }
        r
    }

    /// Looks a key up.
    pub fn get(&self, k: &str) -> (r: Option<&V>)
        requires
            self.well_formed(),
        ensures
            match r {
                Some(v) => self.spec_get(k@) == Some(*v),
                None => self.spec_get(k@) is None,
            },
    {
        let n: usize = self.entries.len();
        let mut i: usize = 0;
        while i < n
            invariant
                self.well_formed(),
                n == self.entries@.len(),
                0 <= i <= n,
                forall|j: int| 0 <= j < i ==> self.entries@[j].0@ != k@,
            decreases n - i,
        {
            if crate::text::str_eq(self.entries[i].0.as_str(), k) {
                proof {
                    lemma_lookup_found(self.entries@, k@, i as int);
                }
                return Some(&self.entries[i].1);
            }
            i = i + 1;
        }
        proof {
            lemma_lookup_none(self.entries@, k@);
        }
        None
    }

    /// Binds `k` to `v`, overwriting any earlier binding.
    pub fn insert(&mut self, k: String, v: V)
        requires
            old(self).well_formed(),
        ensures
            final(self).well_formed(),
            final(self).spec_get(k@) == Some(v),
            forall|k2: Seq<char>|
                k2 != k@ ==> final(self).spec_get(k2) == old(self).spec_get(k2),
    {
        let ghost es0 = self.entries@;
        let n: usize = self.entries.len();
        let mut i: usize = 0;
        while i < n
            invariant
                self.entries@ == es0,
                es0 == old(self).entries@,
                forall|a: int, b: int| 0 <= a < b < es0.len() ==> es0[a].0@ != es0[b].0@,
                n == es0.len(),
                0 <= i <= n,
                forall|j: int| 0 <= j < i ==> es0[j].0@ != k@,
            decreases n - i,
        {
            if crate::text::str_eq(self.entries[i].0.as_str(), k.as_str()) {
                self.entries[i] = (k, v);
                proof {
                    let es1 = self.entries@;
                    assert(forall|j: int|
                        0 <= j < es1.len() && j != i ==> es1[j] == es0[j] && es1[j].0@ != es1[i as int].0@);
                    lemma_lookup_found(es1, es1[i as int].0@, i as int);
                    lemma_lookup_unrelated(es0, es1, i as int);
                    assert(es0[i as int].0@ == k@);
                    assert forall|k2: Seq<char>| k2 != k@ implies #[trigger] spec_lookup(
                        self.entries@,
                        k2,
                    ) == spec_lookup(es0, k2) by {
                        assert(spec_lookup(es0, k2) == spec_lookup(es1, k2));
                    }
                    assert(spec_lookup(self.entries@, k@) == Some(v));
                    assert(self.well_formed());
                }
                return ;
            }
            i = i + 1;
        }
        self.entries.push((k, v));
        proof {
            let es1 = self.entries@;
            assert(es1.last() == (k, v));
            assert(es1.drop_last() =~= es0);
        }
    }
}

/// If `k` sits at position `i` and nowhere later, the lookup yields that
/// entry's value.
proof fn lemma_lookup_found<V>(es: Seq<(String, V)>, k: Seq<char>, i: int)
    requires
        0 <= i < es.len(),
        es[i].0@ == k,
        forall|j: int| i < j < es.len() ==> es[j].0@ != k,
    ensures
        spec_lookup(es, k) == Some(es[i].1),
    decreases es.len(),
{
    if i == es.len() - 1 {
    } else {
        assert(es.last().0@ != k);
        assert(es.drop_last()[i] == es[i]);
        lemma_lookup_found(es.drop_last(), k, i);
    }
}

/// If `k` appears nowhere, the lookup yields nothing.
proof fn lemma_lookup_none<V>(es: Seq<(String, V)>, k: Seq<char>)
    requires
        forall|j: int| 0 <= j < es.len() ==> es[j].0@ != k,
    ensures
        spec_lookup(es, k) is None,
    decreases es.len(),
{
    if es.len() > 0 {
        lemma_lookup_none(es.drop_last(), k);
    }
}

/// Replacing the value at one position leaves lookups of other keys alone.
proof fn lemma_lookup_unrelated<V>(es0: Seq<(String, V)>, es1: Seq<(String, V)>, i: int)
    requires
        es0.len() == es1.len(),
        0 <= i < es0.len(),
        es0[i].0@ == es1[i].0@,
        forall|j: int| 0 <= j < es0.len() && j != i ==> es0[j] == es1[j],
    ensures
        forall|k2: Seq<char>| k2 != es0[i].0@ ==> spec_lookup(es0, k2) == spec_lookup(es1, k2),
    decreases es0.len(),
{
    if es0.len() > 0 {
        if i == es0.len() - 1 {
            assert forall|k2: Seq<char>| k2 != es0[i].0@ implies spec_lookup(es0, k2)
                == spec_lookup(es1, k2) by {
                assert(es0.drop_last() =~= es1.drop_last());
            }
        } else {
            assert(es0.drop_last()[i] == es0[i]);
            assert(es1.drop_last()[i] == es1[i]);
            assert(forall|j: int|
                0 <= j < es0.drop_last().len() && j != i ==> es0.drop_last()[j] == es0[j]
                    && es1.drop_last()[j] == es1[j]);
            lemma_lookup_unrelated(es0.drop_last(), es1.drop_last(), i);
            assert(es0.last() == es1.last());
            assert forall|k2: Seq<char>| k2 != es0[i].0@ implies spec_lookup(es0, k2)
                == spec_lookup(es1, k2) by {
                if es0.last().0@ != k2 {
                    assert(spec_lookup(es0, k2) == spec_lookup(es0.drop_last(), k2));
                    assert(spec_lookup(es1, k2) == spec_lookup(es1.drop_last(), k2));
                }
            }
        }
    }
}

} // verus!
