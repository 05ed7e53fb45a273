//! A small map from labels to strings that keeps its labels in the order of insertion.
use vstd::prelude::*;
use crate::text::views;

verus! {

/// Each label of `entries` stands once.
pub open spec fn unique_labels(entries: Seq<(String, String)>) -> bool {
    forall|i: int, j: int|
        0 <= i < entries.len() && 0 <= j < entries.len() && i != j ==> #[trigger] entries[i].0@
            != #[trigger] entries[j].0@
}

pub struct LabelMap {
    entries: Vec<(String, String)>,
}

impl LabelMap {
    #[verifier::type_invariant]
    spec fn inv(self) -> bool {
        unique_labels(self.entries@)
    }

    /// The labels, in the order in which they were first inserted.
    pub closed spec fn label_seq(&self) -> Seq<Seq<char>> {
        labels_of(self.entries@)
    }

    pub fn new() -> (r: LabelMap)
        ensures
            r@ == Map::<Seq<char>, Seq<char>>::empty(),
            r.label_seq() == Seq::<Seq<char>>::empty(),
    {
        let r = LabelMap { entries: Vec::new() };
        assert(r@ =~= Map::<Seq<char>, Seq<char>>::empty());
        assert(r.label_seq() =~= Seq::<Seq<char>>::empty());
        r
    }

    proof fn lemma_value_at(&self, i: int)
        requires
            unique_labels(self.entries@),
            0 <= i < self.entries@.len(),
        ensures
            self@.contains_key(self.entries@[i].0@),
            self@[self.entries@[i].0@] == self.entries@[i].1@,
    {
        let k = self.entries@[i].0@;
        assert(self.label_seq()[i] == k);
        let j = self.label_seq().index_of(k);
        assert(self.entries@[j].0@ == k);
    }

    /// The value stored under `key`.
    pub fn get(&self, key: &String) -> (r: Option<&String>)
        ensures
            r is Some <==> self@.contains_key(key@),
            r is Some ==> r->0@ == self@[key@],
    {
        proof {
            use_type_invariant(self);
        }
        match find_label(&self.entries, key) {
            Some(i) => {
                proof {
                    self.lemma_value_at(i as int);
                }
                Some(&self.entries[i].1)
            },
            None => None,
        }
    }

    /// Stores `value` under `key`, replacing what was stored there.
    pub fn insert(&mut self, key: String, value: String)
        ensures
            final(self)@ == old(self)@.insert(key@, value@),
            old(self)@.contains_key(key@) ==> final(self).label_seq() == old(self).label_seq(),
            !old(self)@.contains_key(key@) ==> final(self).label_seq() == old(self).label_seq().push(
                key@,
            ),
    {
        let mut taken = LabelMap { entries: Vec::new() };
        std::mem::swap(self, &mut taken);
        proof {
            use_type_invariant(&taken);
        }
        let ghost before = taken;
        let ghost old_entries = taken.entries@;
        let ghost old_map = taken@;
        let ghost k = key@;
        let ghost v = value@;
        let LabelMap { mut entries } = taken;
        match find_label(&entries, &key) {
            Some(i) => {
                entries.set(i, (key, value));
                let r = LabelMap { entries };
                proof {
                    assert(unique_labels(r.entries@)) by {
                        assert forall|a: int, b: int|
                            0 <= a < r.entries@.len() && 0 <= b < r.entries@.len() && a
                                != b implies #[trigger] r.entries@[a].0@
                            != #[trigger] r.entries@[b].0@ by {
                            if a != i && b != i {
                                assert(old_entries[a].0@ != old_entries[b].0@);
                            } else if a == i {
                                assert(old_entries[i as int].0@ != old_entries[b].0@);
                            } else {
                                assert(old_entries[a].0@ != old_entries[i as int].0@);
                            }
                        }
                    }
                    assert(r.label_seq() =~= before.label_seq());
                    assert(old_map.contains_key(k)) by {
                        before.lemma_value_at(i as int);
                    }
                    assert forall|q: Seq<char>| #[trigger] r@.contains_key(q) implies r@[q]
                        == old_map.insert(k, v)[q] by {
                        let j = r.label_seq().index_of(q);
                        r.lemma_value_at(j);
                        if q != k {
                            assert(old_entries[j].0@ == q);
                            before.lemma_value_at(j);
                        }
                    }
                    assert(r@ =~= old_map.insert(k, v));
                }
                *self = r;
            },
            None => {
                entries.push((key, value));
                proof {
                    let n = old_entries.len() as int;
                    assert forall|a: int, b: int|
                        0 <= a < entries@.len() && 0 <= b < entries@.len() && a
                            != b implies #[trigger] entries@[a].0@
                        != #[trigger] entries@[b].0@ by {
                        if a != n && b != n {
                            assert(old_entries[a].0@ != old_entries[b].0@);
                        } else if a == n {
                            assert(labels_of(old_entries)[b] == old_entries[b].0@);
                        } else {
                            assert(labels_of(old_entries)[a] == old_entries[a].0@);
                        }
                    }
                }
                let r = LabelMap { entries };
                proof {
                    let n = old_entries.len() as int;
                    assert(r.label_seq() =~= before.label_seq().push(k));
                    assert(!old_map.contains_key(k));
                    assert forall|q: Seq<char>| #[trigger] r@.contains_key(q) implies r@[q]
                        == old_map.insert(k, v)[q] by {
                        let j = r.label_seq().index_of(q);
                        r.lemma_value_at(j);
                        if q != k {
                            assert(j != n);
                            assert(old_entries[j].0@ == q);
                            before.lemma_value_at(j);
                        } else {
                            r.lemma_value_at(n);
                        }
                    }
                    assert forall|q: Seq<char>| #[trigger] old_map.insert(k, v).contains_key(
                        q,
                    ) implies r@.contains_key(q) by {
                        if q == k {
                            assert(r.label_seq()[n] == k);
                        } else {
                            let j = before.label_seq().index_of(q);
                            assert(r.label_seq()[j] == q);
                        }
                    }
                    assert(r@ =~= old_map.insert(k, v));
                }
                *self = r;
            },
        }
    }

    /// The labels, in the order in which they were first inserted.
    pub fn labels(&self) -> (r: Vec<String>)
        ensures
            views(r@) == self.label_seq(),
            views(r@).no_duplicates(),
            forall|k: Seq<char>|
                #[trigger] self@.contains_key(k) <==> views(r@).contains(k),
    {
        proof {
            use_type_invariant(self);
        }
        let mut r: Vec<String> = Vec::new();
        let mut i: usize = 0;
        while i < self.entries.len()
            invariant
                i <= self.entries@.len(),
                r@.len() == i,
                forall|j: int| 0 <= j < i ==> #[trigger] r@[j]@ == self.entries@[j].0@,
            decreases self.entries@.len() - i,
        {
            r.push(self.entries[i].0.clone());
            i = i + 1;
        }
        proof {
            assert(views(r@) =~= self.label_seq());
            assert forall|a: int, b: int|
                0 <= a < self.label_seq().len() && 0 <= b < self.label_seq().len() && a
                    != b implies self.label_seq()[a] != self.label_seq()[b] by {
                assert(self.entries@[a].0@ != self.entries@[b].0@);
            }
        }
        r
    }

    /// Builds the map from `(label, value)` pairs; a later pair replaces an earlier one
    /// with the same label.
    pub fn from_pairs(pairs: Vec<(String, String)>) -> (r: LabelMap)
        ensures
            r@ == pairs_map(pairs@),
    {
        let mut r = LabelMap::new();
        let mut rest = pairs;
        let ghost all = pairs@;
        let mut i: usize = 0;
        let n = rest.len();
        while i < n
            invariant
                n == all.len(),
                i <= n,
                rest@ == all,
                r@ == pairs_map(all.take(i as int)),
            decreases n - i,
        {
            let key = rest[i].0.clone();
            let value = rest[i].1.clone();
            r.insert(key, value);
            proof {
                assert(all.take(i + 1).drop_last() =~= all.take(i as int));
            }
            i = i + 1;
        }
        proof {
            assert(all.take(n as int) =~= all);
        }
        r
    }
}

impl View for LabelMap {
    type V = Map<Seq<char>, Seq<char>>;

    closed spec fn view(&self) -> Map<Seq<char>, Seq<char>> {
        Map::new(
            |k: Seq<char>| self.label_seq().contains(k),
            |k: Seq<char>| self.entries@[self.label_seq().index_of(k)].1@,
        )
    }
}

pub open spec fn labels_of(entries: Seq<(String, String)>) -> Seq<Seq<char>> {
    entries.map_values(|e: (String, String)| e.0@)
}

/// Position of `key` among `entries`, if it is there.
fn find_label(entries: &Vec<(String, String)>, key: &String) -> (r: Option<usize>)
    ensures
        match r {
            Some(i) => i < entries@.len() && entries@[i as int].0@ == key@,
            None => !labels_of(entries@).contains(key@),
        },
{
    let mut i: usize = 0;
    while i < entries.len()
        invariant
            i <= entries@.len(),
            forall|k: int| 0 <= k < i ==> entries@[k].0@ != key@,
        decreases entries@.len() - i,
    {
        if entries[i].0 == *key {
            return Some(i);
        }
        i = i + 1;
    }
    proof {
        if labels_of(entries@).contains(key@) {
            let k = choose|k: int|
                0 <= k < labels_of(entries@).len() && labels_of(entries@)[k] == key@;
            assert(entries@[k].0@ == key@);
        }
    }
    None
}

/// The map that inserting `pairs` in order yields.
pub open spec fn pairs_map(pairs: Seq<(String, String)>) -> Map<Seq<char>, Seq<char>>
    decreases pairs.len(),
{
    if pairs.len() == 0 {
        Map::empty()
    } else {
        pairs_map(pairs.drop_last()).insert(pairs.last().0@, pairs.last().1@)
    }
}

} // verus!
