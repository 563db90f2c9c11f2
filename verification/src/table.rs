//! Values found by name.
use vstd::prelude::*;

use crate::text;

verus! {

/// Values by name, each name once.
#[derive(Debug)]
pub struct Table<V> {
    pub entries: Vec<(String, V)>,
}

/// The entry at or after `i` under a name.
pub open spec fn entry_from<V>(v: Seq<(String, V)>, key: Seq<char>, i: int) -> Option<int>
    decreases v.len() - i,
{
    if i < 0 || i >= v.len() {
        None
    } else if v[i].0@ == key {
        Some(i)
    } else {
        entry_from(v, key, i + 1)
    }
}

impl<V> View for Table<V> {
    type V = Map<Seq<char>, V>;

    open spec fn view(&self) -> Map<Seq<char>, V> {
        Map::new(
            |key: Seq<char>| entry_from(self.entries@, key, 0) is Some,
            |key: Seq<char>| self.entries@[entry_from(self.entries@, key, 0)->0].1,
        )
    }
}

proof fn lemma_entry<V>(v: Seq<(String, V)>, key: Seq<char>, i: int)
    requires
        0 <= i,
    ensures
        match entry_from(v, key, i) {
            Some(k) => i <= k < v.len() && v[k].0@ == key && forall|j: int|
                i <= j < k ==> (#[trigger] v[j]).0@ != key,
            None => forall|j: int| i <= j < v.len() ==> (#[trigger] v[j]).0@ != key,
        },
    decreases v.len() - i,
{
    if i < v.len() && v[i].0@ != key {
        lemma_entry(v, key, i + 1);
    }
}

proof fn lemma_entry_is<V>(v: Seq<(String, V)>, key: Seq<char>, i: int, k: int)
    requires
        0 <= i <= k < v.len(),
        v[k].0@ == key,
        forall|j: int| i <= j < k ==> (#[trigger] v[j]).0@ != key,
    ensures
        entry_from(v, key, i) == Some(k),
    decreases k - i,
{
    if i < k {
        lemma_entry_is(v, key, i + 1, k);
    }
}

proof fn lemma_entry_none<V>(v: Seq<(String, V)>, key: Seq<char>, i: int)
    requires
        0 <= i,
        forall|j: int| i <= j < v.len() ==> (#[trigger] v[j]).0@ != key,
    ensures
        entry_from(v, key, i) is None,
    decreases v.len() - i,
{
    if i < v.len() {
        lemma_entry_none(v, key, i + 1);
    }
}

impl<V> Table<V> {
    pub fn new() -> (r: Self)
        ensures
            r@ == Map::<Seq<char>, V>::empty(),
    {
        let r = Table { entries: Vec::new() };
        assert(r@ =~= Map::<Seq<char>, V>::empty());
        r
    }

    fn find(&self, key: &str) -> (r: Option<usize>)
        ensures
            match r {
                Some(k) => entry_from(self.entries@, key@, 0) == Some(k as int) && k
                    < self.entries@.len(),
                None => entry_from(self.entries@, key@, 0) is None,
            },
    {
        let mut i: usize = 0;
        while i < self.entries.len()
            invariant
                i <= self.entries@.len(),
                entry_from(self.entries@, key@, 0) == entry_from(self.entries@, key@, i as int),
            decreases self.entries.len() - i,
        {
            if text::same_str(self.entries[i].0.as_str(), key) {
                return Some(i);
            }
            i += 1;
        }
        None
    }

    pub fn get(&self, key: &str) -> (r: Option<&V>)
        ensures
            match r {
                Some(v) => self@.dom().contains(key@) && self@[key@] == *v,
                None => !self@.dom().contains(key@),
            },
    {
        match self.find(key) {
            Some(k) => Some(&self.entries[k].1),
            None => None,
        }
    }

    pub fn has(&self, key: &str) -> (r: bool)
        ensures
            r == self@.dom().contains(key@),
    {
        self.find(key).is_some()
    }

    /// Puts `value` under `key`, in place of what was there.
    pub fn insert(&mut self, key: String, value: V)
        ensures
            final(self)@ == old(self)@.insert(key@, value),
    {
        let ghost before = self.entries@;
        let ghost kv = key@;
        match self.find(key.as_str()) {
            Some(k) => {
                self.entries.set(k, (key, value));
                proof {
                    let after = self.entries@;
                    lemma_entry(before, kv, 0);
                    assert forall|q: Seq<char>| #[trigger] entry_from(after, q, 0) == entry_from(
                        before,
                        q,
                        0,
                    ) by {
                        lemma_entry(before, q, 0);
                        match entry_from(before, q, 0) {
                            Some(j) => {
                                assert forall|x: int| 0 <= x < j implies (#[trigger] after[x]).0@
                                    != q by {
                                    assert(before[x].0@ == after[x].0@);
                                }
                                assert(after[j].0@ == before[j].0@);
                                lemma_entry_is(after, q, 0, j);
                            },
                            None => {
                                assert forall|x: int| 0 <= x < after.len() implies (
                                #[trigger] after[x]).0@ != q by {
                                    assert(before[x].0@ == after[x].0@);
                                }
                                lemma_entry_none(after, q, 0);
                            },
                        }
                    }
                    assert forall|q: Seq<char>|
                        q != kv && entry_from(before, q, 0) is Some implies ({
                        let j = (#[trigger] entry_from(before, q, 0))->0;
                        0 <= j < before.len() && after[j] == before[j]
                    }) by {
                        lemma_entry(before, q, 0);
                    }
                    assert(self@ =~= old(self)@.insert(kv, value));
                }
            },
            None => {
                self.entries.push((key, value));
                proof {
                    let after = self.entries@;
                    lemma_entry(before, kv, 0);
                    lemma_entry_is(after, kv, 0, before.len() as int);
                    assert forall|q: Seq<char>| q != kv implies #[trigger] entry_from(after, q, 0)
                        == entry_from(before, q, 0) by {
                        lemma_entry(before, q, 0);
                        match entry_from(before, q, 0) {
                            Some(j) => {
                                assert forall|x: int| 0 <= x < j implies (#[trigger] after[x]).0@
                                    != q by {
                                    assert(before[x] == after[x]);
                                }
                                lemma_entry_is(after, q, 0, j);
                            },
                            None => {
                                assert forall|x: int| 0 <= x < after.len() implies (
                                #[trigger] after[x]).0@ != q by {
                                    if x < before.len() {
                                        assert(before[x] == after[x]);
                                    }
                                }
                                lemma_entry_none(after, q, 0);
                            },
                        }
                    }
                    assert forall|q: Seq<char>|
                        q != kv && entry_from(before, q, 0) is Some implies 0 <= (
                    #[trigger] entry_from(before, q, 0))->0 < before.len() by {
                        lemma_entry(before, q, 0);
                    }
                    assert(self@ =~= old(self)@.insert(kv, value));
                }
            },
        }
    }
}

} // verus!
