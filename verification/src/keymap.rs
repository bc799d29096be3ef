//! A small association map, keyed by the deep view of its keys.
//!
//! The caches in this crate are keyed by handles, import paths and
//! definition lists; all of them are kept small, so a vector of entries with
//! linear lookup is enough, and it verifies against a `Map` view.

use vstd::prelude::*;

verus! {

/// A key usable in a [`KeyMap`]: equality and cloning agree with the key's
/// deep view.
pub trait MapKey: DeepView + Sized {
    /// Decides whether two keys have the same deep view.
    fn key_eq(&self, other: &Self) -> (r: bool)
        ensures
            r == (self.deep_view() == other.deep_view()),
    ;

    /// Produces a key with the same deep view.
    fn key_clone(&self) -> (r: Self)
        ensures
            r.deep_view() == self.deep_view(),
    ;
}

/// The map described by a sequence of entries, later entries winning.
spec fn assoc_map<K: DeepView, V>(s: Seq<(K, V)>) -> Map<<K as DeepView>::V, V>
    decreases s.len(),
{
    if s.len() == 0 {
        Map::empty()
    } else {
        assoc_map(s.drop_last()).insert(s.last().0.deep_view(), s.last().1)
    }
}

/// No two entries share a key view.
spec fn distinct_keys<K: DeepView, V>(s: Seq<(K, V)>) -> bool {
    forall|i: int, j: int|
        0 <= i < j < s.len() ==> s[i].0.deep_view() != s[j].0.deep_view()
}

proof fn lemma_assoc_map_contains<K: DeepView, V>(s: Seq<(K, V)>, k: <K as DeepView>::V)
    ensures
        assoc_map(s).dom().contains(k) <==> exists|i: int|
            0 <= i < s.len() && s[i].0.deep_view() == k,
    decreases s.len(),
{
    if s.len() > 0 {
        lemma_assoc_map_contains(s.drop_last(), k);
        if exists|i: int| 0 <= i < s.drop_last().len() && s.drop_last()[i].0.deep_view() == k {
            let i = choose|i: int|
                0 <= i < s.drop_last().len() && s.drop_last()[i].0.deep_view() == k;
            assert(s[i].0.deep_view() == k);
        }
        if exists|i: int| 0 <= i < s.len() && s[i].0.deep_view() == k {
            let i = choose|i: int| 0 <= i < s.len() && s[i].0.deep_view() == k;
            if i < s.len() - 1 {
                assert(s.drop_last()[i].0.deep_view() == k);
            }
        }
    }
}

proof fn lemma_assoc_map_index<K: DeepView, V>(s: Seq<(K, V)>, i: int)
    requires
        0 <= i < s.len(),
        forall|j: int| i < j < s.len() ==> s[j].0.deep_view() != s[i].0.deep_view(),
    ensures
        assoc_map(s).contains_pair(s[i].0.deep_view(), s[i].1),
    decreases s.len(),
{
    if i == s.len() - 1 {
    } else {
        lemma_assoc_map_index(s.drop_last(), i);
    }
}

proof fn lemma_assoc_map_remove<K: DeepView, V>(s: Seq<(K, V)>, i: int)
    requires
        distinct_keys(s),
        0 <= i < s.len(),
    ensures
        distinct_keys(s.remove(i)),
        assoc_map(s.remove(i)) == assoc_map(s).remove(s[i].0.deep_view()),
    decreases s.len(),
{
    let k = s[i].0.deep_view();
    if i == s.len() - 1 {
        assert(s.remove(i) =~= s.drop_last());
        lemma_assoc_map_contains(s.drop_last(), k);
        assert(assoc_map(s.drop_last()) =~= assoc_map(s).remove(k));
    } else {
        lemma_assoc_map_remove(s.drop_last(), i);
        assert(s.remove(i).drop_last() =~= s.drop_last().remove(i));
        assert(s.remove(i).last() == s.last());
        assert(assoc_map(s.remove(i)) == assoc_map(s.drop_last().remove(i)).insert(
            s.last().0.deep_view(),
            s.last().1,
        ));
        assert(assoc_map(s.remove(i)) =~= assoc_map(s).remove(k));
    }
}

/// An association map with distinct keys; its view is the `Map` from key
/// views to values.
pub struct KeyMap<K, V> {
    entries: Vec<(K, V)>,
}

impl<K: MapKey, V> View for KeyMap<K, V> {
    type V = Map<<K as DeepView>::V, V>;

    closed spec fn view(&self) -> Map<<K as DeepView>::V, V> {
        assoc_map(self.entries@)
    }
}

impl<K: MapKey, V> KeyMap<K, V> {
    /// The entry vector holds each key view at most once.
    pub closed spec fn wf(&self) -> bool {
        distinct_keys(self.entries@)
    }

    /// Creates an empty map.
    pub fn new() -> (r: Self)
        ensures
            r.wf(),
            r@ == Map::<<K as DeepView>::V, V>::empty(),
    {
        KeyMap { entries: Vec::new() }
    }

    /// Finds the position of a key, if present.
    fn position(&self, k: &K) -> (r: Option<usize>)
        ensures
            match r {
                Some(i) => i < self.entries@.len() && self.entries@[i as int].0.deep_view()
                    == k.deep_view(),
                None => forall|j: int|
                    0 <= j < self.entries@.len() ==> self.entries@[j].0.deep_view()
                        != k.deep_view(),
            },
    {
        let n = self.entries.len();
        for i in 0..n
            invariant
                n == self.entries@.len(),
                forall|j: int| 0 <= j < i ==> self.entries@[j].0.deep_view() != k.deep_view(),
        {
            if self.entries[i].0.key_eq(k) {
                return Some(i);
            }
        }
        None
    }

    /// Looks a key up.
    pub fn get(&self, k: &K) -> (r: Option<&V>)
        requires
            self.wf(),
        ensures
            match r {
                Some(v) => self@.contains_pair(k.deep_view(), *v),
                None => !self@.dom().contains(k.deep_view()),
            },
    {
        match self.position(k) {
            Some(i) => {
                proof {
                    lemma_assoc_map_index(self.entries@, i as int);
                }
                Some(&self.entries[i].1)
            },
            None => {
                proof {
                    lemma_assoc_map_contains(self.entries@, k.deep_view());
                }
                None
            },
        }
    }

    /// Whether the key is present.
    pub fn contains_key(&self, k: &K) -> (r: bool)
        requires
            self.wf(),
        ensures
            r == self@.dom().contains(k.deep_view()),
    {
        self.get(k).is_some()
    }

    /// Inserts a value, replacing any previous one under the same key view.
    pub fn insert(&mut self, k: K, v: V)
        requires
            old(self).wf(),
        ensures
            final(self).wf(),
            final(self)@ == old(self)@.insert(k.deep_view(), v),
    {
        let ghost pre = self.entries@;
        match self.position(&k) {
            Some(i) => {
                proof {
                    lemma_assoc_map_remove(self.entries@, i as int);
                }
                let _ = self.entries.remove(i);
                self.entries.push((k, v));
                proof {
                    assert(self.entries@.drop_last() =~= pre.remove(i as int));
                    assert(self@ =~= old(self)@.insert(k.deep_view(), v));
                }
            },
            None => {
                self.entries.push((k, v));
                proof {
                    assert(self.entries@.drop_last() =~= pre);
                    assert(self@ =~= old(self)@.insert(k.deep_view(), v));
                }
            },
        }
    }

    /// Removes a key, returning its value when it was present.
    pub fn remove_key(&mut self, k: &K) -> (r: Option<V>)
        requires
            old(self).wf(),
        ensures
            final(self).wf(),
            final(self)@ == old(self)@.remove(k.deep_view()),
            match r {
                Some(v) => old(self)@.contains_pair(k.deep_view(), v),
                None => !old(self)@.dom().contains(k.deep_view()),
            },
    {
        match self.position(k) {
            Some(i) => {
                proof {
                    lemma_assoc_map_index(self.entries@, i as int);
                    lemma_assoc_map_remove(self.entries@, i as int);
                }
                let (_, v) = self.entries.remove(i);
                Some(v)
            },
            None => {
                proof {
                    lemma_assoc_map_contains(self.entries@, k.deep_view());
                    assert(self@ =~= old(self)@.remove(k.deep_view()));
                }
                None
            },
        }
    }
}

impl MapKey for u64 {
    fn key_eq(&self, other: &Self) -> (r: bool) {
        *self == *other
    }

    fn key_clone(&self) -> (r: Self) {
        *self
    }
}


impl<K: MapKey, V> KeyMap<K, V> {
    /// The key views, in entry order.
    pub closed spec fn key_seq(&self) -> Seq<<K as DeepView>::V> {
        self.entries@.map_values(|e: (K, V)| e.0.deep_view())
    }

    /// The key sequence lists the map's domain, each key once.
    pub proof fn lemma_key_seq(&self)
        requires
            self.wf(),
        ensures
            forall|k: <K as DeepView>::V| self@.dom().contains(k) <==> self.key_seq().contains(k),
            forall|i: int, j: int|
                0 <= i < j < self.key_seq().len() ==> self.key_seq()[i] != self.key_seq()[j],
    {
        lemma_assoc_map_contains_all(self.entries@);
        assert forall|k: <K as DeepView>::V| #[trigger]
            self@.dom().contains(k) implies self.key_seq().contains(k) by {
            let i = choose|i: int|
                0 <= i < self.entries@.len() && self.entries@[i].0.deep_view() == k;
            assert(self.key_seq()[i] == k);
        }
        assert forall|k: <K as DeepView>::V| #[trigger]
            self.key_seq().contains(k) implies self@.dom().contains(k) by {
            let i = choose|i: int| 0 <= i < self.key_seq().len() && self.key_seq()[i] == k;
            assert(self.entries@[i].0.deep_view() == k);
        }
    }

    /// How many entries the map has.
    pub fn len(&self) -> (r: usize)
        ensures
            r == self.key_seq().len(),
    {
        self.entries.len()
    }

    /// The key stored at a position.
    pub fn key_at(&self, i: usize) -> (r: &K)
        requires
            i < self.key_seq().len(),
        ensures
            r.deep_view() == self.key_seq()[i as int],
    {
        &self.entries[i].0
    }
}

proof fn lemma_assoc_map_contains_all<K: DeepView, V>(s: Seq<(K, V)>)
    ensures
        forall|k: <K as DeepView>::V|
            assoc_map(s).dom().contains(k) <==> exists|i: int|
                0 <= i < s.len() && s[i].0.deep_view() == k,
{
    assert forall|k: <K as DeepView>::V| true implies (assoc_map(s).dom().contains(k) <==> exists|i: int|
        0 <= i < s.len() && s[i].0.deep_view() == k) by {
        lemma_assoc_map_contains(s, k);
    }
}

/// Copies a vector of strings, keeping each element's characters.
pub fn clone_strings(v: &Vec<String>) -> (r: Vec<String>)
    ensures
        r@ == v@,
{
    let mut r: Vec<String> = Vec::new();
    let n = v.len();
    for i in 0..n
        invariant
            n == v@.len(),
            r@ == v@.take(i as int),
    {
        r.push(v[i].clone());
        proof {
            assert(r@ =~= v@.take(i + 1));
        }
    }
    proof {
        assert(v@.take(n as int) =~= v@);
    }
    r
}

impl MapKey for Vec<String> {
    fn key_eq(&self, other: &Self) -> (r: bool) {
        if self.len() != other.len() {
            proof {
                assert(self.deep_view().len() != other.deep_view().len());
            }
            return false;
        }
        let n = self.len();
        for i in 0..n
            invariant
                n == self@.len() && n == other@.len(),
                forall|j: int| 0 <= j < i ==> self@[j]@ == #[trigger] other@[j]@,
        {
            if !self[i].eq(&other[i]) {
                proof {
                    assert(self.deep_view()[i as int] != other.deep_view()[i as int]);
                }
                return false;
            }
        }
        proof {
            assert(self.deep_view() =~= other.deep_view());
        }
        true
    }

    fn key_clone(&self) -> (r: Self) {
        let r = clone_strings(self);
        proof {
            assert(r.deep_view() =~= self.deep_view());
        }
        r
    }
}

impl MapKey for Vec<u64> {
    fn key_eq(&self, other: &Self) -> (r: bool) {
        if self.len() != other.len() {
            proof {
                assert(self.deep_view().len() != other.deep_view().len());
            }
            return false;
        }
        let n = self.len();
        for i in 0..n
            invariant
                n == self@.len() && n == other@.len(),
                forall|j: int| 0 <= j < i ==> self@[j] == #[trigger] other@[j],
        {
            if self[i] != other[i] {
                proof {
                    assert(self.deep_view()[i as int] != other.deep_view()[i as int]);
                }
                return false;
            }
        }
        proof {
            assert(self.deep_view() =~= other.deep_view());
        }
        true
    }

    fn key_clone(&self) -> (r: Self) {
        let mut r: Vec<u64> = Vec::new();
        let n = self.len();
        for i in 0..n
            invariant
                n == self@.len(),
                r@ == self@.take(i as int),
        {
            r.push(self[i]);
            proof {
                assert(r@ =~= self@.take(i + 1));
            }
        }
        proof {
            assert(self@.take(n as int) =~= self@);
            assert(r.deep_view() =~= self.deep_view());
        }
        r
    }
}


proof fn lemma_assoc_map_finite<K: DeepView, V>(s: Seq<(K, V)>)
    ensures
        assoc_map(s).dom().finite(),
    decreases s.len(),
{
    if s.len() > 0 {
        lemma_assoc_map_finite(s.drop_last());
    }
}

impl<K: MapKey, V> KeyMap<K, V> {
    /// The domain of the view is a finite set.
    pub proof fn lemma_dom_finite(&self)
        ensures
            self@.dom().finite(),
    {
        lemma_assoc_map_finite(self.entries@);
    }
}

} // verus!
