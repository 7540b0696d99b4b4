//! A table from text keys to records that remembers the order in which its keys came in.

use crate::text::same_text;
use vstd::prelude::*;

verus! {

/// Records under text keys, each key at most once.
pub struct KeyedTable<V> {
    entries: Vec<(String, V)>,
}

/// Whether no key stands twice.
spec fn distinct<V>(e: Seq<(String, V)>) -> bool {
    forall|i: int, j: int| 0 <= i < j < e.len() ==> e[i].0@ != e[j].0@
}

/// Whether some entry holds `k`.
spec fn held<V>(e: Seq<(String, V)>, k: Seq<char>) -> bool {
    exists|i: int| 0 <= i < e.len() && #[trigger] e[i].0@ == k
}

/// The place of the entry that holds `k`.
spec fn place<V>(e: Seq<(String, V)>, k: Seq<char>) -> int {
    choose|i: int| 0 <= i < e.len() && #[trigger] e[i].0@ == k
}

/// The entries as a map.
spec fn as_map<V>(e: Seq<(String, V)>) -> Map<Seq<char>, V> {
    Map::new(|k: Seq<char>| held(e, k), |k: Seq<char>| e[place(e, k)].1)
}

/// Each entry is found under its key.
proof fn lemma_entry<V>(e: Seq<(String, V)>, i: int)
    requires
        distinct(e),
        0 <= i < e.len(),
    ensures
        held(e, e[i].0@),
        place(e, e[i].0@) == i,
        as_map(e).contains_key(e[i].0@),
        as_map(e)[e[i].0@] == e[i].1,
{
    let k = e[i].0@;
    assert(e[i].0@ == k);
    let p = place(e, k);
    assert(0 <= p < e.len() && e[p].0@ == k);
    if p < i {
        assert(e[p].0@ != e[i].0@);
    } else if i < p {
        assert(e[i].0@ != e[p].0@);
    }
}

impl<V> View for KeyedTable<V> {
    type V = Map<Seq<char>, V>;

    closed spec fn view(&self) -> Map<Seq<char>, V> {
        as_map(self.entries@)
    }
}

impl<V> KeyedTable<V> {
    #[verifier::type_invariant]
    spec fn well_formed(self) -> bool {
        distinct(self.entries@)
    }

    /// The keys, in the order in which they came in.
    pub closed spec fn order(self) -> Seq<Seq<char>> {
        Seq::new(self.entries@.len(), |i: int| self.entries@[i].0@)
    }

    /// A table without records.
    pub fn new() -> (r: Self)
        ensures
            r@ == Map::<Seq<char>, V>::empty(),
            r.order() == Seq::<Seq<char>>::empty(),
    {
        let r = KeyedTable { entries: Vec::new() };
        assert(r@ =~= Map::<Seq<char>, V>::empty());
        r
    }

    /// The place of `key` among the entries, if it is there.
    fn position(&self, key: &str) -> (r: Option<usize>)
        ensures
            match r {
                Some(i) => i < self.entries@.len() && self.entries@[i as int].0@ == key@,
                None => !held(self.entries@, key@),
            },
    {
        for i in 0..self.entries.len()
            invariant
                forall|j: int| 0 <= j < i ==> #[trigger] self.entries@[j].0@ != key@,
        {
            if same_text(self.entries[i].0.as_str(), key) {
                return Some(i);
            }
        }
        None
    }

    /// The number of records.
    pub fn count(&self) -> (n: usize)
        ensures
            n == self.order().len(),
            self.order().no_duplicates(),
            forall|k: Seq<char>| self@.contains_key(k) <==> self.order().contains(k),
    {
        proof {
            use_type_invariant(self);
            assert forall|k: Seq<char>| self@.contains_key(k) <==> self.order().contains(k) by {
                if held(self.entries@, k) {
                    assert(self.order()[place(self.entries@, k)] == k);
                }
                if self.order().contains(k) {
                    let i = choose|i: int| 0 <= i < self.order().len() && self.order()[i] == k;
                    lemma_entry(self.entries@, i);
                }
            }
        }
        self.entries.len()
    }

    /// The record that came in as number `i`.
    pub fn nth(&self, i: usize) -> (v: &V)
        requires
            i < self.order().len(),
        ensures
            self@.contains_key(self.order()[i as int]),
            *v == self@[self.order()[i as int]],
    {
        proof {
            use_type_invariant(self);
            lemma_entry(self.entries@, i as int);
        }
        &self.entries[i].1
    }

    /// Whether `key` has a record.
    pub fn contains(&self, key: &str) -> (r: bool)
        ensures
            r == self@.contains_key(key@),
    {
        match self.position(key) {
            Some(i) => {
                proof {
                    use_type_invariant(self);
                    lemma_entry(self.entries@, i as int);
                }
                true
            },
            None => false,
        }
    }

    /// The record under `key`.
    pub fn get(&self, key: &str) -> (r: Option<&V>)
        ensures
            match r {
                Some(v) => self@.contains_key(key@) && *v == self@[key@],
                None => !self@.contains_key(key@),
            },
    {
        match self.position(key) {
            Some(i) => {
                proof {
                    use_type_invariant(self);
                    lemma_entry(self.entries@, i as int);
                }
                Some(&self.entries[i].1)
            },
            None => None,
        }
    }

    /// Puts `value` under `key`, in place of the record that stood there.
    pub fn insert(&mut self, key: String, value: V)
        ensures
            final(self)@ == old(self)@.insert(key@, value),
            old(self)@.contains_key(key@) ==> final(self).order() == old(self).order(),
            !old(self)@.contains_key(key@) ==> final(self).order() == old(self).order().push(key@),
    {
        proof {
            use_type_invariant(&*self);
        }
        let ghost before = self.entries@;
        let at = self.position(key.as_str());
        let mut entries: Vec<(String, V)> = Vec::new();
        std::mem::swap(&mut entries, &mut self.entries);
        match at {
            Some(i) => {
                proof {
                    lemma_entry(before, i as int);
                }
                entries.set(i, (key, value));
                proof {
                    let after = entries@;
                    assert(forall|j: int| 0 <= j < after.len() ==> #[trigger] after[j].0@ == before[j].0@);
                    assert(distinct(after));
                    assert forall|k: Seq<char>| held(before, k) <==> held(after, k) by {
                        if held(before, k) {
                            assert(after[place(before, k)].0@ == k);
                        }
                        if held(after, k) {
                            assert(before[place(after, k)].0@ == k);
                        }
                    }
                    assert forall|k: Seq<char>| held(after, k) implies as_map(after)[k]
                        == as_map(before).insert(key@, value)[k] by {
                        let p = place(after, k);
                        lemma_entry(after, p);
                        lemma_entry(before, p);
                        if k == key@ {
                            lemma_entry(after, i as int);
                        }
                    }
                    assert(as_map(after) =~= as_map(before).insert(key@, value));
                }
            },
            None => {
                entries.push((key, value));
                proof {
                    let after = entries@;
                    let n = before.len() as int;
                    assert forall|a: int, b: int| 0 <= a < b < after.len() implies after[a].0@
                        != after[b].0@ by {
                        assert(after[a] == before[a]);
                        if b == n {
                            assert(before[a].0@ != key@);
                        }
                    }
                    assert forall|k: Seq<char>| held(after, k) <==> (held(before, k) || k == key@) by {
                        if held(before, k) {
                            assert(after[place(before, k)].0@ == k);
                        }
                        if k == key@ {
                            assert(after[n].0@ == k);
                        }
                        if held(after, k) {
                            let p = place(after, k);
                            if p < n {
                                assert(before[p].0@ == k);
                            }
                        }
                    }
                    assert forall|k: Seq<char>| held(after, k) implies as_map(after)[k]
                        == as_map(before).insert(key@, value)[k] by {
                        let p = place(after, k);
                        lemma_entry(after, p);
                        if p < n {
                            lemma_entry(before, p);
                            assert(before[p].0@ != key@);
                        }
                    }
                    assert(as_map(after) =~= as_map(before).insert(key@, value));
                }
            },
        }
        self.entries = entries;
    }

    /// Takes the record under `key` out.
    pub fn remove(&mut self, key: &str) -> (r: Option<V>)
        ensures
            final(self)@ == old(self)@.remove(key@),
            match r {
                Some(v) => old(self)@.contains_key(key@) && v == old(self)@[key@],
                None => !old(self)@.contains_key(key@),
            },
    {
        proof {
            use_type_invariant(&*self);
        }
        let ghost before = self.entries@;
        match self.position(key) {
            Some(i) => {
                let mut entries: Vec<(String, V)> = Vec::new();
                std::mem::swap(&mut entries, &mut self.entries);
                let (_, v) = entries.remove(i);
                proof {
                    lemma_removed(before, entries@, i as int);
                    lemma_entry(before, i as int);
                }
                self.entries = entries;
                Some(v)
            },
            None => {
                assert(old(self)@.remove(key@) =~= old(self)@);
                None
            },
        }
    }

    /// Keeps the records that `keep` approves of and tells whether one went.
    pub fn retain<F: Fn(&V) -> bool>(&mut self, keep: F) -> (gone: bool)
        requires
            forall|k: Seq<char>| #[trigger]
                old(self)@.contains_key(k) ==> call_requires(keep, (&old(self)@[k],)),
        ensures
            forall|k: Seq<char>| #[trigger]
                final(self)@.contains_key(k) ==> old(self)@.contains_key(k) && final(self)@[k] == old(
                    self,
                )@[k] && call_ensures(keep, (&old(self)@[k],), true),
            forall|k: Seq<char>| #[trigger]
                old(self)@.contains_key(k) && !final(self)@.contains_key(k) ==> call_ensures(
                    keep,
                    (&old(self)@[k],),
                    false,
                ),
            gone == (final(self)@ != old(self)@),
    {
        proof {
            use_type_invariant(&*self);
        }
        let ghost start = self.entries@;
        assert(old(self)@ == as_map(start));
        let mut entries: Vec<(String, V)> = Vec::new();
        std::mem::swap(&mut entries, &mut self.entries);
        let mut i: usize = 0;
        let mut gone = false;
        while i < entries.len()
            invariant
                i <= entries@.len(),
                distinct(start),
                distinct(entries@),
                forall|k: Seq<char>| #[trigger]
                    as_map(start).contains_key(k) ==> call_requires(keep, (&as_map(start)[k],)),
                forall|j: int|
                    0 <= j < entries@.len() ==> as_map(start).contains_key(
                        (#[trigger] entries@[j]).0@,
                    ) && as_map(start)[entries@[j].0@] == entries@[j].1,
                forall|j: int|
                    0 <= j < i ==> call_ensures(keep, (&(#[trigger] entries@[j]).1,), true),
                forall|k: Seq<char>| #[trigger]
                    as_map(start).contains_key(k) && !held(entries@, k) ==> call_ensures(
                        keep,
                        (&as_map(start)[k],),
                        false,
                    ),
                !gone ==> entries@ == start,
                gone ==> exists|k: Seq<char>| #[trigger]
                    as_map(start).contains_key(k) && !held(entries@, k),
            decreases entries@.len() - i,
        {
            let ghost now = entries@;
            if keep(&entries[i].1) {
                i = i + 1;
            } else {
                let _ = entries.remove(i);
                proof {
                    lemma_removed(now, entries@, i as int);
                    lemma_entry(now, i as int);
                    let lost = now[i as int].0@;
                    assert(as_map(start).contains_key(lost));
                    assert(!held(entries@, lost)) by {
                        if held(entries@, lost) {
                            lemma_entry(entries@, place(entries@, lost));
                        }
                    }
                    assert forall|k: Seq<char>| #[trigger]
                        as_map(start).contains_key(k) && !held(entries@, k) implies call_ensures(
                        keep,
                        (&as_map(start)[k],),
                        false,
                    ) by {
                        if held(now, k) {
                            lemma_entry(now, place(now, k));
                            if k != lost {
                                assert(as_map(entries@).contains_key(k));
                            }
                        }
                    }
                    assert forall|j: int| 0 <= j < entries@.len() implies as_map(
                        start,
                    ).contains_key((#[trigger] entries@[j]).0@) && as_map(start)[entries@[j].0@]
                        == entries@[j].1 by {
                        if j < i {
                            assert(entries@[j] == now[j]);
                        } else {
                            assert(entries@[j] == now[j + 1]);
                        }
                    }
                    assert forall|j: int| 0 <= j < i implies call_ensures(
                        keep,
                        (&(#[trigger] entries@[j]).1,),
                        true,
                    ) by {
                        assert(entries@[j] == now[j]);
                    }
                }
                gone = true;
            }
        }
        proof {
            assert forall|k: Seq<char>| #[trigger] as_map(entries@).contains_key(k) implies as_map(
                start,
            ).contains_key(k) && as_map(entries@)[k] == as_map(start)[k] && call_ensures(
                keep,
                (&as_map(start)[k],),
                true,
            ) by {
                let p = place(entries@, k);
                lemma_entry(entries@, p);
            }
            if gone {
                let k = choose|k: Seq<char>| #[trigger]
                    as_map(start).contains_key(k) && !held(entries@, k);
                assert(!as_map(entries@).contains_key(k));
            }
        }
        self.entries = entries;
        gone
    }
}

/// What the map loses with one entry.
proof fn lemma_removed<V>(before: Seq<(String, V)>, after: Seq<(String, V)>, i: int)
    requires
        distinct(before),
        0 <= i < before.len(),
        after == before.remove(i),
    ensures
        distinct(after),
        as_map(after) == as_map(before).remove(before[i].0@),
{
    let key = before[i].0@;
    assert forall|a: int, b: int| 0 <= a < b < after.len() implies after[a].0@ != after[b].0@ by {
        let a2 = if a < i { a } else { a + 1 };
        let b2 = if b < i { b } else { b + 1 };
        assert(after[a] == before[a2] && after[b] == before[b2]);
    }
    assert forall|k: Seq<char>| held(after, k) <==> (held(before, k) && k != key) by {
        if held(after, k) {
            let p = place(after, k);
            let q = if p < i { p } else { p + 1 };
            assert(before[q] == after[p]);
            assert(before[q].0@ == k);
            if q < i {
                assert(before[q].0@ != before[i].0@);
            } else {
                assert(before[i].0@ != before[q].0@);
            }
        }
        if held(before, k) && k != key {
            let p = place(before, k);
            let q = if p < i { p } else { p - 1 };
            assert(after[q] == before[p]);
            assert(after[q].0@ == k);
        }
    }
    assert forall|k: Seq<char>| held(after, k) implies as_map(after)[k] == as_map(before)[k] by {
        let p = place(after, k);
        lemma_entry(after, p);
        let q = if p < i { p } else { p + 1 };
        assert(before[q] == after[p]);
        lemma_entry(before, q);
    }
    assert(as_map(after) =~= as_map(before).remove(key));
}

} // verus!
