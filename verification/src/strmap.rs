use vstd::prelude::*;

use crate::check::{assoc, lemma_assoc_hit, lemma_assoc_push, lemma_assoc_skip};
use crate::source::pairs_seq;

verus! {

/// A table from strings to strings, each key at most once.
pub struct StrMap {
    entries: Vec<(String, String)>,
}

pub open spec fn distinct_keys(s: Seq<(Seq<char>, Seq<char>)>) -> bool {
    forall|i: int, j: int| 0 <= i < s.len() && 0 <= j < s.len() && i != j ==> s[i].0 != s[j].0
}

proof fn lemma_assoc_distinct(s: Seq<(Seq<char>, Seq<char>)>)
    requires
        distinct_keys(s),
    ensures
        forall|i: int| 0 <= i < s.len() ==> #[trigger] assoc(s).contains_key(s[i].0) && assoc(s)[s[i].0] == s[i].1,
        forall|k: Seq<char>| #[trigger] assoc(s).contains_key(k) ==> exists|i: int| 0 <= i < s.len() && s[i].0 == k,
{
    assert forall|i: int| 0 <= i < s.len() implies #[trigger] assoc(s).contains_key(s[i].0) && assoc(s)[s[i].0] == s[i].1 by {
        lemma_assoc_hit(s, i, s[i].0);
    }
    assert forall|k: Seq<char>| #[trigger] assoc(s).contains_key(k) implies exists|i: int| 0 <= i < s.len() && s[i].0 == k by {
        if !(exists|i: int| 0 <= i < s.len() && s[i].0 == k) {
            lemma_assoc_skip(s, 0, k);
            assert(s.take(0) =~= Seq::<(Seq<char>, Seq<char>)>::empty());
        }
    }
}

impl View for StrMap {
    type V = Map<Seq<char>, Seq<char>>;

    closed spec fn view(&self) -> Map<Seq<char>, Seq<char>> {
        assoc(pairs_seq(self.entries@))
    }
}

impl StrMap {
    pub closed spec fn wf(&self) -> bool {
        distinct_keys(pairs_seq(self.entries@))
    }

    pub fn new() -> (m: StrMap)
        ensures
            m.wf(),
            m@ == Map::<Seq<char>, Seq<char>>::empty(),
    {
        let m = StrMap { entries: Vec::new() };
        assert(pairs_seq(m.entries@) =~= Seq::<(Seq<char>, Seq<char>)>::empty());
        m
    }

    fn index_of(&self, key: &String) -> (r: Option<usize>)
        requires
            self.wf(),
        ensures
            match r {
                Some(i) => i < self.entries@.len() && self.entries@[i as int].0@ == key@,
                None => !self@.contains_key(key@),
            },
    {
        let mut i: usize = 0;
        while i < self.entries.len()
            invariant
                i <= self.entries@.len(),
                forall|j: int| 0 <= j < i ==> pairs_seq(self.entries@)[j].0 != key@,
            decreases self.entries@.len() - i,
        {
            if self.entries[i].0.eq(key) {
                return Some(i);
            }
            i = i + 1;
        }
        proof {
            lemma_assoc_distinct(pairs_seq(self.entries@));
        }
        None
    }

    pub fn get(&self, key: &String) -> (r: Option<String>)
        requires
            self.wf(),
        ensures
            r is Some == self@.contains_key(key@),
            r is Some ==> r.unwrap()@ == self@[key@],
    {
        proof {
            lemma_assoc_distinct(pairs_seq(self.entries@));
        }
        match self.index_of(key) {
            Some(i) => {
                assert(pairs_seq(self.entries@)[i as int].0 == key@);
                assert(assoc(pairs_seq(self.entries@)).contains_key(pairs_seq(self.entries@)[i as int].0));
                Some(self.entries[i].1.clone())
            },
            None => None,
        }
    }

    pub fn insert(&mut self, key: String, value: String)
        requires
            old(self).wf(),
        ensures
            final(self).wf(),
            final(self)@ == old(self)@.insert(key@, value@),
    {
        let ghost s0 = pairs_seq(self.entries@);
        let ghost k = key@;
        let ghost v = value@;
        proof {
            lemma_assoc_distinct(s0);
        }
        match self.index_of(&key) {
            Some(i) => {
                self.entries.set(i, (key, value));
                let ghost s1 = pairs_seq(self.entries@);
                assert(s1 =~= s0.update(i as int, (k, v)));
                assert(s0[i as int].0 == k);
                assert forall|a: int| 0 <= a < s1.len() implies #[trigger] s1[a].0 == s0[a].0 by {
                    if a != i {
                        assert(s1[a] == s0[a]);
                    }
                }
                assert(distinct_keys(s1));
                assert(s1[i as int].0 == k);
                proof {
                    lemma_assoc_distinct(s1);
                }
                assert forall|q: Seq<char>| assoc(s1).contains_key(q) <==> assoc(s0).insert(k, v).contains_key(q) by {
                    if assoc(s1).contains_key(q) {
                        let j = choose|j: int| 0 <= j < s1.len() && s1[j].0 == q;
                        if j != i {
                            assert(s0[j] == s1[j]);
                        }
                    }
                    if assoc(s0).contains_key(q) && q != k {
                        let j = choose|j: int| 0 <= j < s0.len() && s0[j].0 == q;
                        assert(s1[j] == s0[j]);
                    }
                }
                assert forall|q: Seq<char>| #[trigger] assoc(s1).contains_key(q) implies assoc(s1)[q] == assoc(s0).insert(k, v)[q] by {
                    let j = choose|j: int| 0 <= j < s1.len() && s1[j].0 == q;
                    if j != i {
                        assert(s0[j] == s1[j]);
                    }
                }
                assert(assoc(s1) =~= assoc(s0).insert(k, v));
            },
            None => {
                self.entries.push((key, value));
                let ghost s1 = pairs_seq(self.entries@);
                assert(s1 =~= s0.push((k, v)));
                assert forall|a: int, b: int| 0 <= a < s1.len() && 0 <= b < s1.len() && a != b implies s1[a].0 != s1[b].0 by {
                    if a == s0.len() && b < s0.len() {
                        assert(assoc(s0).contains_key(s0[b].0));
                    } else if b == s0.len() && a < s0.len() {
                        assert(assoc(s0).contains_key(s0[a].0));
                    }
                }
                proof {
                    lemma_assoc_push(s0, k, v);
                }
            },
        }
    }

    fn remove_at(&mut self, i: usize)
        requires
            old(self).wf(),
            i < old(self).entries@.len(),
        ensures
            final(self).wf(),
            final(self).entries@ == old(self).entries@.remove(i as int),
            final(self)@ == old(self)@.remove(old(self).entries@[i as int].0@),
    {
        let ghost s0 = pairs_seq(self.entries@);
        let ghost key = s0[i as int].0;
        proof {
            lemma_assoc_distinct(s0);
        }
        self.entries.remove(i);
        let ghost s1 = pairs_seq(self.entries@);
        assert(s1 =~= s0.remove(i as int));
        assert(distinct_keys(s1)) by {
            assert forall|a: int, b: int| 0 <= a < s1.len() && 0 <= b < s1.len() && a != b implies s1[a].0 != s1[b].0 by {
                let a0 = if a < i { a } else { a + 1 };
                let b0 = if b < i { b } else { b + 1 };
                assert(s1[a] == s0[a0]);
                assert(s1[b] == s0[b0]);
            }
        }
        proof {
            lemma_assoc_distinct(s1);
        }
        assert forall|q: Seq<char>| assoc(s1).contains_key(q) <==> assoc(s0).remove(key).contains_key(q) by {
            if assoc(s1).contains_key(q) {
                let j = choose|j: int| 0 <= j < s1.len() && s1[j].0 == q;
                let j0 = if j < i { j } else { j + 1 };
                assert(s1[j] == s0[j0]);
            }
            if assoc(s0).contains_key(q) && q != key {
                let j = choose|j: int| 0 <= j < s0.len() && s0[j].0 == q;
                if j < i {
                    assert(s1[j] == s0[j]);
                } else {
                    assert(s1[j - 1] == s0[j]);
                }
            }
        }
        assert forall|q: Seq<char>| #[trigger] assoc(s1).contains_key(q) implies assoc(s1)[q] == assoc(s0)[q] by {
            let j = choose|j: int| 0 <= j < s1.len() && s1[j].0 == q;
            let j0 = if j < i { j } else { j + 1 };
            assert(s1[j] == s0[j0]);
        }
        assert(assoc(s1) =~= assoc(s0).remove(key));
    }

    pub fn remove(&mut self, key: &String)
        requires
            old(self).wf(),
        ensures
            final(self).wf(),
            final(self)@ == old(self)@.remove(key@),
    {
        match self.index_of(key) {
            Some(i) => {
                self.remove_at(i);
            },
            None => {
                assert(self@ =~= self@.remove(key@));
            },
        }
    }

    /// Keeps only the entries whose value is not `value`.
    pub fn retain_value_ne(&mut self, value: &String)
        requires
            old(self).wf(),
        ensures
            final(self).wf(),
            final(self)@ == old(self)@.restrict(old(self)@.dom().filter(|k: Seq<char>| old(self)@[k] != value@)),
    {
        let ghost m0 = self@;
        let mut i: usize = 0;
        while i < self.entries.len()
            invariant
                self.wf(),
                i <= self.entries@.len(),
                forall|j: int| 0 <= j < i ==> pairs_seq(self.entries@)[j].1 != value@,
                self@.dom().subset_of(m0.dom()),
                forall|k: Seq<char>| #[trigger] self@.contains_key(k) ==> self@[k] == m0[k],
                forall|k: Seq<char>| #[trigger] m0.contains_key(k) && m0[k] != value@ ==> self@.contains_key(k),
            decreases self.entries@.len() - i,
        {
            if self.entries[i].1.eq(value) {
                proof {
                    lemma_assoc_distinct(pairs_seq(self.entries@));
                }
                let ghost before = self.entries@;
                let ghost before_map = self@;
                assert(pairs_seq(before)[i as int].1 == value@);
                assert(assoc(pairs_seq(before)).contains_key(pairs_seq(before)[i as int].0));
                assert(before_map[pairs_seq(before)[i as int].0] == value@);
                self.remove_at(i);
                assert forall|j: int| 0 <= j < i implies pairs_seq(self.entries@)[j].1 != value@ by {
                    assert(self.entries@[j] == before[j]);
                    assert(pairs_seq(self.entries@)[j] == pairs_seq(before)[j]);
                }
            } else {
                i = i + 1;
            }
        }
        proof {
            lemma_assoc_distinct(pairs_seq(self.entries@));
        }
        assert(self@ =~= m0.restrict(m0.dom().filter(|k: Seq<char>| m0[k] != value@)));
    }

    /// The keys, in some order, each once.
    pub fn keys(&self) -> (v: Vec<String>)
        requires
            self.wf(),
        ensures
            forall|i: int| 0 <= i < v@.len() ==> #[trigger] self@.contains_key(v@[i]@),
            forall|k: Seq<char>| #[trigger] self@.contains_key(k) ==> exists|i: int| 0 <= i < v@.len() && v@[i]@ == k,
            forall|i: int, j: int| 0 <= i < v@.len() && 0 <= j < v@.len() && i != j ==> v@[i]@ != v@[j]@,
    {
        proof {
            lemma_assoc_distinct(pairs_seq(self.entries@));
        }
        let mut v: Vec<String> = Vec::new();
        let mut i: usize = 0;
        while i < self.entries.len()
            invariant
                self.wf(),
                i <= self.entries@.len(),
                v@.len() == i,
                forall|j: int| 0 <= j < i ==> #[trigger] v@[j]@ == pairs_seq(self.entries@)[j].0,
            decreases self.entries@.len() - i,
        {
            v.push(self.entries[i].0.clone());
            i = i + 1;
        }
        assert forall|k: Seq<char>| #[trigger] self@.contains_key(k) implies exists|i: int| 0 <= i < v@.len() && v@[i]@ == k by {
            let j = choose|j: int| 0 <= j < pairs_seq(self.entries@).len() && pairs_seq(self.entries@)[j].0 == k;
            assert(v@[j]@ == k);
        }
        v
    }
}

} // verus!
