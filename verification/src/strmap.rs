//! A map keyed by texts that remembers the order in which its keys came.
use vstd::prelude::*;

use crate::text::{text_eq, Text};

verus! {

/// The texts of `s` other than `k`.
pub open spec fn without(s: Seq<Text>, k: Text) -> Seq<Text> {
    s.filter(|x: Text| x != k)
}

/// A map from texts to values. It is walked in the order in which the keys first came.
pub struct StrMap<V> {
    entries: Vec<(String, V)>,
}

impl<V: DeepView> View for StrMap<V> {
    type V = Map<Text, V::V>;

    closed spec fn view(&self) -> Map<Text, V::V> {
        Map::new(
            |k: Text| self.keys().contains(k),
            |k: Text| self.entries@[self.keys().index_of(k)].1.deep_view(),
        )
    }
}

impl<V: DeepView> StrMap<V> {
    /// The keys in the order of the walk.
    pub closed spec fn keys(&self) -> Seq<Text> {
        self.entries@.map_values(|e: (String, V)| e.0@)
    }

    /// No key stands twice.
    pub closed spec fn wf(&self) -> bool {
        self.keys().no_duplicates()
    }

    /// The keys of the walk are the keys of the map, each once.
    pub proof fn lemma_keys(&self)
        requires
            self.wf(),
        ensures
            self.keys().no_duplicates(),
            self.keys().len() <= usize::MAX,
            forall|k: Text|
                #![trigger self@.contains_key(k)]
                #![trigger self.keys().contains(k)]
                self@.contains_key(k) <==> self.keys().contains(k),
            forall|i: int|
                0 <= i < self.keys().len() ==> self@.contains_key(#[trigger] self.keys()[i]),
    {
        assert(self.keys().len() == self.entries.len());
        assert forall|i: int| 0 <= i < self.keys().len() implies self@.contains_key(
            #[trigger] self.keys()[i],
        ) by {
            assert(self.keys().contains(self.keys()[i]));
        }
    }

    proof fn lemma_entry(&self, i: int)
        requires
            self.wf(),
            0 <= i < self.keys().len(),
        ensures
            self@.contains_key(self.keys()[i]),
            self@[self.keys()[i]] == self.entries@[i].1.deep_view(),
    {
        let k = self.keys()[i];
        assert(self.keys().contains(k));
        let j = self.keys().index_of(k);
        assert(self.keys()[j] == k);
    }

    pub fn new() -> (r: Self)
        ensures
            r.wf(),
            r@ == Map::<Text, V::V>::empty(),
            r.keys() == Seq::<Text>::empty(),
    {
        let r = StrMap { entries: Vec::new() };
        assert(r.keys() =~= Seq::<Text>::empty());
        assert(r@ =~= Map::<Text, V::V>::empty());
        r
    }

    pub fn len(&self) -> (r: usize)
        ensures
            r == self.keys().len(),
    {
        self.entries.len()
    }

    pub fn is_empty(&self) -> (r: bool)
        ensures
            r == (self.keys().len() == 0),
    {
        self.entries.len() == 0
    }

    fn position(&self, k: &str) -> (r: Option<usize>)
        requires
            self.wf(),
        ensures
            match r {
                Some(i) => i < self.keys().len() && self.keys()[i as int] == k@,
                None => !self.keys().contains(k@),
            },
    {
        let mut i: usize = 0;
        while i < self.entries.len()
            invariant
                i <= self.entries@.len(),
                forall|j: int| 0 <= j < i ==> self.keys()[j] != k@,
            decreases self.entries.len() - i,
        {
            if text_eq(self.entries[i].0.as_str(), k) {
                assert(self.keys()[i as int] == k@);
                return Some(i);
            }
            i += 1;
        }
        None
    }

    pub fn contains(&self, k: &str) -> (r: bool)
        requires
            self.wf(),
        ensures
            r == self@.contains_key(k@),
    {
        match self.position(k) {
            Some(i) => {
                assert(self.keys().contains(self.keys()[i as int]));
                true
            },
            None => false,
        }
    }

    pub fn get(&self, k: &str) -> (r: Option<&V>)
        requires
            self.wf(),
        ensures
            match r {
                Some(v) => self@.contains_key(k@) && v.deep_view() == self@[k@],
                None => !self@.contains_key(k@),
            },
    {
        match self.position(k) {
            Some(i) => {
                proof {
                    self.lemma_entry(i as int);
                }
                Some(&self.entries[i].1)
            },
            None => None,
        }
    }

    pub fn key_at(&self, i: usize) -> (r: &String)
        requires
            i < self.keys().len(),
        ensures
            r@ == self.keys()[i as int],
    {
        &self.entries[i].0
    }

    pub fn value_at(&self, i: usize) -> (r: &V)
        requires
            self.wf(),
            i < self.keys().len(),
        ensures
            r.deep_view() == self@[self.keys()[i as int]],
            self@.contains_key(self.keys()[i as int]),
    {
        proof {
            self.lemma_entry(i as int);
        }
        &self.entries[i].1
    }

    /// The keys in the order of the walk.
    pub fn key_list(&self) -> (r: Vec<String>)
        ensures
            r.deep_view() == self.keys(),
    {
        let mut out: Vec<String> = Vec::new();
        let mut i: usize = 0;
        while i < self.entries.len()
            invariant
                i <= self.entries@.len(),
                out@.len() == i,
                forall|j: int| 0 <= j < i ==> #[trigger] out@[j]@ == self.keys()[j],
            decreases self.entries.len() - i,
        {
            out.push(self.entries[i].0.clone());
            i += 1;
        }
        assert(out.deep_view() =~= self.keys());
        out
    }

    pub fn insert(&mut self, k: String, v: V)
        requires
            old(self).wf(),
        ensures
            final(self).wf(),
            final(self)@ == old(self)@.insert(k@, v.deep_view()),
            final(self).keys() == if old(self)@.contains_key(k@) {
                old(self).keys()
            } else {
                old(self).keys().push(k@)
            },
    {
        let ghost keys = self.keys();
        let ghost map = self@;
        match self.position(k.as_str()) {
            Some(i) => {
                assert(keys.contains(keys[i as int]));
                let ghost before = *self;
                self.entries.set(i, (k, v));
                proof {
                    assert(self.keys() =~= keys);
                    assert forall|x: Text| self@.contains_key(x) implies #[trigger] self@[x]
                        == map.insert(k@, v.deep_view())[x] by {
                        let j = keys.index_of(x);
                        assert(keys[j] == x);
                        self.lemma_entry(j);
                        before.lemma_entry(j);
                    }
                    assert(self@ =~= map.insert(k@, v.deep_view()));
                }
            },
            None => {
                let ghost before = *self;
                self.entries.push((k, v));
                proof {
                    assert(self.keys() =~= keys.push(k@));
                    assert forall|x: Text| #[trigger] self@.contains_key(x) <==> map.insert(
                        k@,
                        v.deep_view(),
                    ).contains_key(x) by {
                        if x == k@ {
                            assert(self.keys()[keys.len() as int] == x);
                        } else {
                            if keys.contains(x) {
                                let j = keys.index_of(x);
                                assert(self.keys()[j] == x);
                            }
                            if self.keys().contains(x) {
                                let j = self.keys().index_of(x);
                                assert(keys[j] == x);
                            }
                        }
                    }
                    assert forall|x: Text| self@.contains_key(x) implies #[trigger] self@[x]
                        == map.insert(k@, v.deep_view())[x] by {
                        let j = self.keys().index_of(x);
                        assert(self.keys()[j] == x);
                        self.lemma_entry(j);
                        if j < keys.len() {
                            before.lemma_entry(j);
                            assert(x != k@);
                        }
                    }
                    assert(self@ =~= map.insert(k@, v.deep_view()));
                }
            },
        }
    }

    pub fn remove(&mut self, k: &str) -> (r: Option<V>)
        requires
            old(self).wf(),
        ensures
            final(self).wf(),
            final(self)@ == old(self)@.remove(k@),
            final(self).keys() == without(old(self).keys(), k@),
            !old(self)@.contains_key(k@) ==> final(self).keys() == old(self).keys(),
            match r {
                Some(v) => old(self)@.contains_key(k@) && v.deep_view() == old(self)@[k@],
                None => !old(self)@.contains_key(k@),
            },
    {
        let ghost keys = self.keys();
        let ghost before = *self;
        match self.position(k) {
            Some(i) => {
                proof {
                    before.lemma_entry(i as int);
                }
                let e = self.entries.remove(i);
                proof {
                    assert(self.keys() =~= keys.remove(i as int));
                    lemma_filter_remove(keys, i as int, k@);
                    assert forall|x: Text| #[trigger] self@.contains_key(x) <==> before@.remove(
                        k@,
                    ).contains_key(x) by {
                        if self.keys().contains(x) {
                            let j = self.keys().index_of(x);
                            if j < i {
                                assert(keys[j] == x);
                            } else {
                                assert(keys[j + 1] == x);
                            }
                        }
                        if keys.contains(x) && x != k@ {
                            let j = keys.index_of(x);
                            assert(keys[j] == x);
                            if j < i {
                                assert(self.keys()[j] == x);
                            } else {
                                assert(self.keys()[j - 1] == x);
                            }
                        }
                    }
                    assert forall|x: Text| self@.contains_key(x) implies #[trigger] self@[x]
                        == before@.remove(k@)[x] by {
                        let j = self.keys().index_of(x);
                        assert(self.keys()[j] == x);
                        self.lemma_entry(j);
                        if j < i {
                            before.lemma_entry(j);
                        } else {
                            before.lemma_entry(j + 1);
                        }
                    }
                    assert(self@ =~= before@.remove(k@));
                }
                Some(e.1)
            },
            None => {
                proof {
                    lemma_filter_absent(keys, k@);
                    assert(self@ =~= before@.remove(k@));
                }
                None
            },
        }
    }
}

proof fn lemma_filter_absent(s: Seq<Text>, k: Text)
    requires
        !s.contains(k),
    ensures
        without(s, k) == s,
    decreases s.len(),
{
    reveal(Seq::filter);
    if s.len() > 0 {
        assert(s.last() != k);
        assert(!s.drop_last().contains(k)) by {
            if s.drop_last().contains(k) {
                let i = s.drop_last().index_of(k);
                assert(s[i] == k);
            }
        }
        lemma_filter_absent(s.drop_last(), k);
        assert(s.drop_last().push(s.last()) =~= s);
    }
}

proof fn lemma_filter_remove(s: Seq<Text>, i: int, k: Text)
    requires
        s.no_duplicates(),
        0 <= i < s.len(),
        s[i] == k,
    ensures
        without(s, k) == s.remove(i),
    decreases s.len(),
{
    reveal(Seq::filter);
    let front = s.drop_last();
    if i == s.len() - 1 {
        assert(!front.contains(k)) by {
            if front.contains(k) {
                let j = front.index_of(k);
                assert(s[j] == k);
            }
        }
        lemma_filter_absent(front, k);
        assert(s.remove(i) =~= front);
    } else {
        assert(front[i] == k);
        lemma_filter_remove(front, i, k);
        assert(s.remove(i) =~= front.remove(i).push(s.last()));
    }
}

} // verus!
