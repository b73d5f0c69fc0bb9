//! A map keyed by strings, kept as a list of entries with distinct keys.
//!
//! Entries keep the order in which their keys were first inserted, so a map
//! built by inserting keys one by one lists them in first-seen order.

use vstd::prelude::*;
use crate::text::str_eq;

verus! {

/// Well-formedness of a value, so that a map of maps can require its inner
/// maps to be well-formed too.
pub trait Wellformed {
    spec fn is_wf(&self) -> bool;
}

impl Wellformed for String {
    open spec fn is_wf(&self) -> bool {
        true
    }
}

impl Wellformed for Vec<String> {
    open spec fn is_wf(&self) -> bool {
        true
    }
}

pub struct StrMap<T> {
    entries: Vec<(String, T)>,
}

/// If a sequence has no duplicates, the position of its `j`-th element is `j`.
pub proof fn lemma_index_of_unique<A>(s: Seq<A>, j: int)
    requires
        s.no_duplicates(),
        0 <= j < s.len(),
    ensures
        s.contains(s[j]),
        s.index_of(s[j]) == j,
{
    assert(s.contains(s[j]));
    let i = s.index_of(s[j]);
    assert(0 <= i < s.len() && s[i] == s[j]);
}

impl<T: DeepView> StrMap<T> {
    /// The keys, in entry order.
    pub closed spec fn key_seq(&self) -> Seq<Seq<char>> {
        self.entries@.map_values(|e: (String, T)| e.0@)
    }

    /// The values, in entry order.
    pub closed spec fn value_seq(&self) -> Seq<<T as DeepView>::V> {
        self.entries@.map_values(|e: (String, T)| e.1.deep_view())
    }

    /// The map from each key to its value.
    pub closed spec fn map_view(&self) -> Map<Seq<char>, <T as DeepView>::V> {
        Map::new(
            |k: Seq<char>| self.key_seq().contains(k),
            |k: Seq<char>| self.value_seq()[self.key_seq().index_of(k)],
        )
    }

    /// In a well-formed map, the `i`-th entry is the map's entry for its key.
    pub proof fn lemma_view_at(&self, i: int)
        requires
            self.key_seq().no_duplicates(),
            0 <= i < self.key_seq().len(),
        ensures
            self.map_view().dom().contains(self.key_seq()[i]),
            self.map_view()[self.key_seq()[i]] == self.value_seq()[i],
    {
        lemma_index_of_unique(self.key_seq(), i);
    }

    /// The keys of the map are exactly the keys of its entries.
    pub proof fn lemma_dom_iff(&self, k: Seq<char>)
        ensures
            self.map_view().dom().contains(k) <==> self.key_seq().contains(k),
    {
    }

    /// The key sequence and the value sequence have the map's length.
    pub proof fn lemma_lens(&self)
        ensures
            self.key_seq().len() == self.value_seq().len(),
    {
    }
}

impl<T: DeepView> View for StrMap<T> {
    type V = Map<Seq<char>, <T as DeepView>::V>;

    open spec fn view(&self) -> Self::V {
        self.map_view()
    }
}

impl<T: DeepView> DeepView for StrMap<T> {
    type V = Map<Seq<char>, <T as DeepView>::V>;

    open spec fn deep_view(&self) -> Self::V {
        self.map_view()
    }
}

impl<T: DeepView + Wellformed> Wellformed for StrMap<T> {
    open spec fn is_wf(&self) -> bool {
        &&& self.key_seq().no_duplicates()
        &&& forall|i: int| 0 <= i < self.key_seq().len() ==> (#[trigger] self.value_at_spec(i)).is_wf()
    }
}

impl<T: DeepView + Wellformed> StrMap<T> {
    /// The value stored at entry `i`.
    pub closed spec fn value_at_spec(&self, i: int) -> T {
        self.entries@[i].1
    }

    /// An empty map.
    pub fn new() -> (res: Self)
        ensures
            res@ == Map::<Seq<char>, <T as DeepView>::V>::empty(),
            res.is_wf(),
            res.key_seq() == Seq::<Seq<char>>::empty(),
    {
        let res = StrMap { entries: Vec::new() };
        assert(res.key_seq() =~= Seq::<Seq<char>>::empty());
        assert(res@ =~= Map::<Seq<char>, <T as DeepView>::V>::empty());
        res
    }

    /// Number of entries.
    pub fn len(&self) -> (res: usize)
        ensures
            res == self.key_seq().len(),
    {
        self.entries.len()
    }

    /// The key of entry `i`.
    pub fn key_at(&self, i: usize) -> (res: &String)
        requires
            i < self.key_seq().len(),
        ensures
            res@ == self.key_seq()[i as int],
    {
        &self.entries[i].0
    }

    /// The value of entry `i`.
    pub fn value_at(&self, i: usize) -> (res: &T)
        requires
            i < self.key_seq().len(),
        ensures
            *res == self.value_at_spec(i as int),
            res.deep_view() == self.value_seq()[i as int],
    {
        &self.entries[i].1
    }

    /// Position of the entry with key `k`, if any.
    pub fn find(&self, k: &str) -> (res: Option<usize>)
        requires
            self.is_wf(),
        ensures
            res matches Some(i) ==> i < self.key_seq().len() && self.key_seq()[i as int] == k@,
            res is None <==> !self@.dom().contains(k@),
    {
        let mut i: usize = 0;
        while i < self.entries.len()
            invariant
                i <= self.entries@.len(),
                forall|j: int| 0 <= j < i ==> self.key_seq()[j] != k@,
            decreases self.entries@.len() - i,
        {
            if str_eq(self.entries[i].0.as_str(), k) {
                assert(self.key_seq()[i as int] == k@);
                return Some(i);
            }
            i += 1;
        }
        None
    }

    /// The value stored under `k`, if any.
    pub fn get(&self, k: &str) -> (res: Option<&T>)
        requires
            self.is_wf(),
        ensures
            res is Some <==> self@.dom().contains(k@),
            res matches Some(v) ==> v.deep_view() == self@[k@] && v.is_wf(),
    {
        match self.find(k) {
            Some(i) => {
                proof {
                    self.lemma_view_at(i as int);
                    assert(self.value_at_spec(i as int).is_wf());
                }
                Some(&self.entries[i].1)
            },
            None => None,
        }
    }

    /// Store `v` under `k`, replacing any earlier value. A new key goes last.
    pub fn insert(&mut self, k: String, v: T)
        requires
            old(self).is_wf(),
            v.is_wf(),
        ensures
            final(self).is_wf(),
            final(self)@ == old(self)@.insert(k@, v.deep_view()),
            old(self)@.dom().contains(k@) ==> final(self).key_seq() == old(self).key_seq(),
            !old(self)@.dom().contains(k@) ==> final(self).key_seq() == old(self).key_seq().push(k@),
    {
        match self.find(k.as_str()) {
            Some(i) => {
                let ghost ks = self.key_seq();
                let mut e = (k, v);
                self.entries.set_and_swap(i, &mut e);
                assert(self.key_seq() =~= ks);
                proof {
                    lemma_index_of_unique(ks, i as int);
                    assert forall|j: int| 0 <= j < self.key_seq().len() implies (
                    #[trigger] self.value_at_spec(j)).is_wf() by {
                        if j != i {
                            assert(self.value_at_spec(j) == old(self).value_at_spec(j));
                        }
                    }
                    assert forall|kk: Seq<char>| #[trigger] self@.dom().contains(kk) implies self@[kk]
                        == old(self)@.insert(k@, v.deep_view())[kk] by {
                        if kk != k@ {
                            let jj = ks.index_of(kk);
                            assert(self.value_seq()[jj] == old(self).value_seq()[jj]);
                        }
                    }
                    assert(self@ =~= old(self)@.insert(k@, v.deep_view()));
                }
            },
            None => {
                let ghost ks = self.key_seq();
                let ghost kv = k@;
                self.entries.push((k, v));
                assert(self.key_seq() =~= ks.push(kv));
                proof {
                    assert forall|a: int, b: int|
                        0 <= a < self.key_seq().len() && 0 <= b < self.key_seq().len() && a != b
                        implies self.key_seq()[a] != self.key_seq()[b] by {
                        if a < ks.len() && b < ks.len() {
                        } else if a == ks.len() {
                            assert(ks[b] == self.key_seq()[b]);
                        } else {
                            assert(ks[a] == self.key_seq()[a]);
                        }
                    }
                    assert forall|j: int| 0 <= j < self.key_seq().len() implies (
                    #[trigger] self.value_at_spec(j)).is_wf() by {
                        if j < ks.len() {
                            assert(self.value_at_spec(j) == old(self).value_at_spec(j));
                        }
                    }
                    lemma_index_of_unique(self.key_seq(), ks.len() as int);
                    assert forall|kk: Seq<char>| #[trigger] self@.dom().contains(kk) implies self@[kk]
                        == old(self)@.insert(kv, v.deep_view())[kk] by {
                        if kk != kv {
                            let jj = self.key_seq().index_of(kk);
                            assert(jj != ks.len());
                            assert(ks[jj] == kk);
                            lemma_index_of_unique(ks, jj);
                            lemma_index_of_unique(self.key_seq(), jj);
                        }
                    }
                    assert forall|kk: Seq<char>| #[trigger] old(self)@.insert(kv, v.deep_view()).dom().contains(kk)
                        implies self@.dom().contains(kk) by {
                        if kk != kv {
                            let jj = ks.index_of(kk);
                            assert(self.key_seq()[jj] == kk);
                        }
                    }
                    assert(self@ =~= old(self)@.insert(kv, v.deep_view()));
                }
            },
        }
    }

    /// Take out the entry for `k`, returning its value if there was one.
    pub fn remove(&mut self, k: &str) -> (res: Option<T>)
        requires
            old(self).is_wf(),
        ensures
            final(self).is_wf(),
            final(self)@ == old(self)@.remove(k@),
            res is Some <==> old(self)@.dom().contains(k@),
            res matches Some(v) ==> v.deep_view() == old(self)@[k@] && v.is_wf(),
            !old(self)@.dom().contains(k@) ==> final(self).key_seq() == old(self).key_seq(),
    {
        match self.find(k) {
            Some(i) => {
                let ghost ks = self.key_seq();
                proof {
                    self.lemma_view_at(i as int);
                    assert(self.value_at_spec(i as int).is_wf());
                }
                let e = self.entries.remove(i);
                assert(self.key_seq() =~= ks.remove(i as int));
                proof {
                    assert forall|a: int, b: int|
                        0 <= a < self.key_seq().len() && 0 <= b < self.key_seq().len() && a != b
                        implies self.key_seq()[a] != self.key_seq()[b] by {
                        let oa = if a < i { a } else { a + 1 };
                        let ob = if b < i { b } else { b + 1 };
                        assert(self.key_seq()[a] == ks[oa]);
                        assert(self.key_seq()[b] == ks[ob]);
                    }
                    assert forall|j: int| 0 <= j < self.key_seq().len() implies (
                    #[trigger] self.value_at_spec(j)).is_wf() by {
                        let oj = if j < i { j } else { j + 1 };
                        assert(self.value_at_spec(j) == old(self).value_at_spec(oj));
                    }
                    assert forall|kk: Seq<char>| #[trigger] self@.dom().contains(kk) implies
                        old(self)@.remove(k@).dom().contains(kk) && self@[kk] == old(self)@.remove(k@)[kk] by {
                        let jj = self.key_seq().index_of(kk);
                        let oj = if jj < i { jj } else { jj + 1 };
                        assert(ks[oj] == kk);
                        lemma_index_of_unique(ks, oj);
                        assert(self.value_seq()[jj] == old(self).value_seq()[oj]);
                        if kk == k@ {
                            lemma_index_of_unique(ks, i as int);
                        }
                    }
                    assert forall|kk: Seq<char>| #[trigger] old(self)@.remove(k@).dom().contains(kk)
                        implies self@.dom().contains(kk) by {
                        let oj = ks.index_of(kk);
                        assert(oj != i);
                        let jj = if oj < i { oj } else { oj - 1 };
                        assert(self.key_seq()[jj] == kk);
                    }
                    assert(self@ =~= old(self)@.remove(k@));
                }
                Some(e.1)
            },
            None => {
                assert(old(self)@ =~= old(self)@.remove(k@));
                None
            },
        }
    }

    /// Put `v` at entry `i` and hand back the value it replaces; keys stay as they are.
    pub fn replace_value_at(&mut self, i: usize, v: T) -> (res: T)
        requires
            old(self).is_wf(),
            i < old(self).key_seq().len(),
            v.is_wf(),
        ensures
            final(self).is_wf(),
            final(self).key_seq() == old(self).key_seq(),
            final(self).value_seq() == old(self).value_seq().update(i as int, v.deep_view()),
            final(self)@ == old(self)@.insert(old(self).key_seq()[i as int], v.deep_view()),
            res.deep_view() == old(self).value_seq()[i as int],
            res.deep_view() == old(self)@[old(self).key_seq()[i as int]],
            res.is_wf(),
    {
        let ghost ks = self.key_seq();
        proof {
            self.lemma_view_at(i as int);
            assert(self.value_at_spec(i as int).is_wf());
        }
        let k = self.entries[i].0.clone();
        let mut e = (k, v);
        self.entries.set_and_swap(i, &mut e);
        assert(self.key_seq() =~= ks);
        assert(self.value_seq() =~= old(self).value_seq().update(i as int, v.deep_view()));
        proof {
            lemma_index_of_unique(ks, i as int);
            assert forall|j: int| 0 <= j < self.key_seq().len() implies (
            #[trigger] self.value_at_spec(j)).is_wf() by {
                if j != i {
                    assert(self.value_at_spec(j) == old(self).value_at_spec(j));
                }
            }
            assert forall|kk: Seq<char>| #[trigger] self@.dom().contains(kk) implies self@[kk]
                == old(self)@.insert(ks[i as int], v.deep_view())[kk] by {
                if kk != ks[i as int] {
                    let jj = ks.index_of(kk);
                    assert(self.value_seq()[jj] == old(self).value_seq()[jj]);
                }
            }
            assert(self@ =~= old(self)@.insert(ks[i as int], v.deep_view()));
        }
        e.1
    }
}

/// Two well-formed maps with the same keys in the same order, whose values
/// correspond entry by entry through `f`, are related by `map_values(f)`.
pub proof fn lemma_map_values<T: DeepView + Wellformed>(
    a: &StrMap<T>,
    b: &StrMap<T>,
    f: spec_fn(<T as DeepView>::V) -> <T as DeepView>::V,
)
    requires
        a.is_wf(),
        b.is_wf(),
        a.key_seq() == b.key_seq(),
        a.value_seq().len() == b.value_seq().len(),
        forall|j: int| 0 <= j < a.value_seq().len() ==> #[trigger] b.value_seq()[j] == f(a.value_seq()[j]),
    ensures
        b@ == a@.map_values(f),
{
    a.lemma_lens();
    assert forall|k: Seq<char>| #[trigger] b@.dom().contains(k) implies b@[k] == f(a@[k]) by {
        let j = b.key_seq().index_of(k);
        a.lemma_view_at(j);
        b.lemma_view_at(j);
    }
    assert(b@ =~= a@.map_values(f));
}

/// A property holds of some entry's value exactly when it holds of the value
/// under some key of the map.
pub proof fn lemma_exists_value<T: DeepView + Wellformed>(
    a: &StrMap<T>,
    p: spec_fn(<T as DeepView>::V) -> bool,
)
    requires
        a.is_wf(),
    ensures
        (exists|j: int| 0 <= j < a.value_seq().len() && #[trigger] p(a.value_seq()[j])) <==> (exists|k: Seq<
            char,
        >| #[trigger] a@.dom().contains(k) && p(a@[k])),
{
    a.lemma_lens();
    if exists|j: int| 0 <= j < a.value_seq().len() && #[trigger] p(a.value_seq()[j]) {
        let j = choose|j: int| 0 <= j < a.value_seq().len() && #[trigger] p(a.value_seq()[j]);
        a.lemma_view_at(j);
        assert(a@.dom().contains(a.key_seq()[j]) && p(a@[a.key_seq()[j]]));
    }
    if exists|k: Seq<char>| #[trigger] a@.dom().contains(k) && p(a@[k]) {
        let k = choose|k: Seq<char>| #[trigger] a@.dom().contains(k) && p(a@[k]);
        let j = a.key_seq().index_of(k);
        a.lemma_view_at(j);
        assert(p(a.value_seq()[j]));
    }
}

} // verus!
