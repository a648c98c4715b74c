//! A small map keyed by text.

use vstd::prelude::*;

use crate::text::same_text;

verus! {

/// A map from text to values, kept as a list of entries. Where a key occurs
/// in several entries the last one counts.
#[derive(Debug, Clone)]
pub struct StrMap<V> {
    entries: Vec<(String, V)>,
}

/// The map that a list of entries stands for.
pub open spec fn map_of<V>(entries: Seq<(String, V)>) -> Map<Seq<char>, V>
    decreases entries.len(),
{
    if entries.len() == 0 {
        Map::empty()
    } else {
        map_of(entries.drop_last()).insert(entries.last().0@, entries.last().1)
    }
}

impl<V> View for StrMap<V> {
    type V = Map<Seq<char>, V>;

    closed spec fn view(&self) -> Map<Seq<char>, V> {
        map_of(self.entries@)
    }
}

proof fn lemma_no_entry<V>(entries: Seq<(String, V)>, k: Seq<char>)
    requires
        forall|j: int| 0 <= j < entries.len() ==> (#[trigger] entries[j]).0@ != k,
    ensures
        !map_of(entries).contains_key(k),
    decreases entries.len(),
{
    if entries.len() != 0 {
        let front = entries.drop_last();
        assert forall|j: int| 0 <= j < front.len() implies (#[trigger] front[j]).0@ != k by {
            assert(front[j] == entries[j]);
        }
        lemma_no_entry(front, k);
        assert(entries[entries.len() - 1].0@ != k);
    }
}

proof fn lemma_last_entry<V>(entries: Seq<(String, V)>, i: int)
    requires
        0 <= i < entries.len(),
        forall|j: int|
            i < j < entries.len() ==> (#[trigger] entries[j]).0@ != entries[i].0@,
    ensures
        map_of(entries).contains_key(entries[i].0@),
        map_of(entries)[entries[i].0@] == entries[i].1,
    decreases entries.len(),
{
    if i < entries.len() - 1 {
        let front = entries.drop_last();
        assert forall|j: int| i < j < front.len() implies (#[trigger] front[j]).0@
            != front[i].0@ by {
            assert(front[j] == entries[j]);
        }
        lemma_last_entry(front, i);
        assert(entries[entries.len() - 1].0@ != entries[i].0@);
    }
}

proof fn lemma_replace_entry<V>(entries: Seq<(String, V)>, i: int, e: (String, V))
    requires
        0 <= i < entries.len(),
        e.0@ == entries[i].0@,
        forall|j: int|
            i < j < entries.len() ==> (#[trigger] entries[j]).0@ != entries[i].0@,
    ensures
        map_of(entries.update(i, e)) == map_of(entries).insert(e.0@, e.1),
    decreases entries.len(),
{
    let changed = entries.update(i, e);
    if i < entries.len() - 1 {
        let front = entries.drop_last();
        assert forall|j: int| i < j < front.len() implies (#[trigger] front[j]).0@
            != front[i].0@ by {
            assert(front[j] == entries[j]);
        }
        lemma_replace_entry(front, i, e);
        assert(changed.drop_last() =~= front.update(i, e));
        assert(entries[entries.len() - 1].0@ != entries[i].0@);
        assert(map_of(changed) =~= map_of(entries).insert(e.0@, e.1));
    } else {
        assert(changed.drop_last() =~= entries.drop_last());
        assert(map_of(changed) =~= map_of(entries).insert(e.0@, e.1));
    }
}

proof fn lemma_keys_have_entries<V>(entries: Seq<(String, V)>, k: Seq<char>)
    requires
        map_of(entries).contains_key(k),
    ensures
        exists|j: int| 0 <= j < entries.len() && (#[trigger] entries[j]).0@ == k,
    decreases entries.len(),
{
    if entries.last().0@ == k {
        assert(entries[entries.len() - 1].0@ == k);
    } else {
        let front = entries.drop_last();
        lemma_keys_have_entries(front, k);
        let j = choose|j: int| 0 <= j < front.len() && (#[trigger] front[j]).0@ == k;
        assert(entries[j].0@ == k);
    }
}

impl<V> StrMap<V> {
    /// The empty map.
    pub fn new() -> (m: Self)
        ensures
            m@ == Map::<Seq<char>, V>::empty(),
    {
        StrMap { entries: Vec::new() }
    }

    fn position(&self, k: &str) -> (r: Option<usize>)
        ensures
            match r {
                Some(i) => i < self.entries@.len() && self.entries@[i as int].0@ == k@
                    && self@.contains_key(k@) && self@[k@] == self.entries@[i as int].1 && forall|
                    j: int,
                |
                    i < j < self.entries@.len() ==> (#[trigger] self.entries@[j]).0@ != k@,
                None => !self@.contains_key(k@),
            },
    {
        let mut n: usize = self.entries.len();
        while n > 0
            invariant
                n <= self.entries@.len(),
                forall|j: int|
                    n <= j < self.entries@.len() ==> (#[trigger] self.entries@[j]).0@ != k@,
            decreases n,
        {
            n -= 1;
            if same_text(self.entries[n].0.as_str(), k) {
                proof {
                    lemma_last_entry(self.entries@, n as int);
                }
                return Some(n);
            }
        }
        proof {
            lemma_no_entry(self.entries@, k@);
        }
        None
    }

    /// The value kept for `k`, if there is one.
    pub fn get(&self, k: &str) -> (r: Option<&V>)
        ensures
            match r {
                Some(v) => self@.contains_key(k@) && *v == self@[k@],
                None => !self@.contains_key(k@),
            },
    {
        match self.position(k) {
            Some(i) => Some(&self.entries[i].1),
            None => None,
        }
    }

    /// Whether a value is kept for `k`.
    pub fn contains_key(&self, k: &str) -> (r: bool)
        ensures
            r == self@.contains_key(k@),
    {
        self.position(k).is_some()
    }

    /// Keeps `v` for `k`, in place of what was kept for it.
    pub fn insert(&mut self, k: String, v: V)
        ensures
            final(self)@ == old(self)@.insert(k@, v),
    {
        match self.position(k.as_str()) {
            Some(i) => {
                proof {
                    lemma_replace_entry(self.entries@, i as int, (k, v));
                }
                self.entries[i] = (k, v);
            },
            None => {
                let ghost before = self.entries@;
                self.entries.push((k, v));
                assert(self.entries@.drop_last() =~= before);
            },
        }
    }
}

impl StrMap<String> {
    fn covered_by(&self, other: &StrMap<String>) -> (r: bool)
        ensures
            r == forall|k: Seq<char>|
                #![auto]
                self@.contains_key(k) ==> other@.contains_key(k) && self@[k]@ == other@[k]@,
    {
        let mut i: usize = 0;
        while i < self.entries.len()
            invariant
                i <= self.entries@.len(),
                forall|j: int|
                    #![trigger self.entries@[j]]
                    0 <= j < i ==> {
                        let k = self.entries@[j].0@;
                        other@.contains_key(k) && self@[k]@ == other@[k]@
                    },
            decreases self.entries@.len() - i,
        {
            let k = self.entries[i].0.as_str();
            let agrees = match (self.get(k), other.get(k)) {
                (Some(a), Some(b)) => same_text(a.as_str(), b.as_str()),
                _ => false,
            };
            if !agrees {
                proof {
                    lemma_entries_are_keys(self.entries@, i as int);
                    assert(self@.contains_key(k@));
                }
                return false;
            }
            i += 1;
        }
        assert forall|k: Seq<char>| #![auto] self@.contains_key(k) implies other@.contains_key(k)
            && self@[k]@ == other@[k]@ by {
            lemma_keys_have_entries(self.entries@, k);
            let j = choose|j: int|
                0 <= j < self.entries@.len() && (#[trigger] self.entries@[j]).0@ == k;
            assert(self.entries@[j].0@ == k);
        }
        true
    }

    /// Whether both maps keep the same text for the same keys.
    pub fn same(&self, other: &StrMap<String>) -> (r: bool)
        ensures
            r == same_values(self@, other@),
    {
        let r = self.covered_by(other) && other.covered_by(self);
        r
    }
}

/// Whether two maps keep the same text for the same keys.
pub open spec fn same_values(a: Map<Seq<char>, String>, b: Map<Seq<char>, String>) -> bool {
    forall|k: Seq<char>|
        #![auto]
        (a.contains_key(k) <==> b.contains_key(k)) && (a.contains_key(k) ==> a[k]@ == b[k]@)
}

proof fn lemma_entries_are_keys<V>(entries: Seq<(String, V)>, i: int)
    requires
        0 <= i < entries.len(),
    ensures
        map_of(entries).contains_key(entries[i].0@),
    decreases entries.len(),
{
    if i < entries.len() - 1 {
        let front = entries.drop_last();
        lemma_entries_are_keys(front, i);
        assert(front[i] == entries[i]);
    }
}

} // verus!
