//! A small set of copyable identifiers, with a `Set` view and positional
//! access for iteration.

use vstd::prelude::*;
use crate::keymap::MapKey;

verus! {

/// A duplicate-free vector of identifiers; its view is the set of their
/// deep views.
pub struct IdSet<T> {
    items: Vec<T>,
}

impl<T: MapKey + Copy> View for IdSet<T> {
    type V = Set<<T as DeepView>::V>;

    closed spec fn view(&self) -> Set<<T as DeepView>::V> {
        self.items@.map_values(|t: T| t.deep_view()).to_set()
    }
}

impl<T: MapKey + Copy> IdSet<T> {
    /// The members in insertion order.
    pub closed spec fn elems(&self) -> Seq<T> {
        self.items@
    }

    /// No member occurs twice.
    pub closed spec fn wf(&self) -> bool {
        forall|i: int, j: int|
            0 <= i < j < self.items@.len() ==> self.items@[i].deep_view()
                != self.items@[j].deep_view()
    }

    /// The view holds exactly the deep views of the members.
    pub proof fn lemma_view_elems(&self)
        ensures
            forall|k: <T as DeepView>::V|
                self@.contains(k) <==> exists|i: int|
                    0 <= i < self.elems().len() && self.elems()[i].deep_view() == k,
            forall|i: int|
                0 <= i < self.elems().len() ==> self@.contains(#[trigger] self.elems()[i].deep_view()),
    {
        let m = self.items@.map_values(|t: T| t.deep_view());
        assert forall|k: <T as DeepView>::V| #[trigger]
            self@.contains(k) implies exists|i: int|
            0 <= i < self.elems().len() && self.elems()[i].deep_view() == k by {
            let i = choose|i: int| 0 <= i < m.len() && m[i] == k;
            assert(self.elems()[i].deep_view() == k);
        }
        assert forall|i: int| 0 <= i < self.elems().len() implies self@.contains(
            #[trigger] self.elems()[i].deep_view(),
        ) by {
            assert(m[i] == self.elems()[i].deep_view());
            assert(m.contains(m[i]));
        }
    }

    /// Distinct positions hold distinct members.
    pub proof fn lemma_elems_distinct(&self)
        requires
            self.wf(),
        ensures
            forall|i: int, j: int|
                0 <= i < self.elems().len() && 0 <= j < self.elems().len() && i != j
                    ==> self.elems()[i].deep_view() != self.elems()[j].deep_view(),
    {
        assert forall|i: int, j: int|
            0 <= i < self.elems().len() && 0 <= j < self.elems().len() && i
                != j implies self.elems()[i].deep_view() != self.elems()[j].deep_view() by {
            if i < j {
            } else {
            }
        }
    }

    /// Creates an empty set.
    pub fn new() -> (r: Self)
        ensures
            r.wf(),
            r@ == Set::<<T as DeepView>::V>::empty(),
            r.elems() == Seq::<T>::empty(),
    {
        let r = IdSet { items: Vec::new() };
        proof {
            assert(r@ =~= Set::<<T as DeepView>::V>::empty());
        }
        r
    }

    /// How many members the set has.
    pub fn len(&self) -> (r: usize)
        ensures
            r == self.elems().len(),
    {
        self.items.len()
    }

    /// The member at a position.
    pub fn index(&self, i: usize) -> (r: T)
        requires
            i < self.elems().len(),
        ensures
            r == self.elems()[i as int],
            self@.contains(r.deep_view()),
    {
        proof {
            self.lemma_view_elems();
        }
        self.items[i]
    }

    /// Whether an identifier is a member.
    pub fn contains(&self, x: T) -> (r: bool)
        ensures
            r == self@.contains(x.deep_view()),
    {
        proof {
            self.lemma_view_elems();
        }
        let n = self.items.len();
        for i in 0..n
            invariant
                n == self.items@.len(),
                forall|j: int| 0 <= j < i ==> self.items@[j].deep_view() != x.deep_view(),
        {
            if self.items[i].key_eq(&x) {
                proof {
                    self.lemma_view_elems();
                    assert(self.elems()[i as int].deep_view() == x.deep_view());
                }
                return true;
            }
        }
        false
    }

    /// Adds an identifier; already-present members are kept once.
    pub fn insert(&mut self, x: T)
        requires
            old(self).wf(),
        ensures
            final(self).wf(),
            final(self)@ == old(self)@.insert(x.deep_view()),
            final(self).elems() == if old(self)@.contains(x.deep_view()) {
                old(self).elems()
            } else {
                old(self).elems().push(x)
            },
    {
        if self.contains(x) {
            proof {
                assert(final(self)@ =~= old(self)@.insert(x.deep_view()));
            }
        } else {
            proof {
                old(self).lemma_view_elems();
            }
            self.items.push(x);
            proof {
                self.lemma_view_elems();
                assert forall|k: <T as DeepView>::V| #[trigger] self@.contains(k) implies (old(
                    self,
                )@.contains(k) || k == x.deep_view()) by {
                    let i = choose|i: int|
                        0 <= i < self.elems().len() && self.elems()[i].deep_view() == k;
                    if i < old(self).elems().len() {
                        assert(old(self).elems()[i].deep_view() == k);
                    }
                }
                assert forall|k: <T as DeepView>::V| #[trigger]
                    old(self)@.contains(k) implies self@.contains(k) by {
                    let i = choose|i: int|
                        0 <= i < old(self).elems().len() && old(self).elems()[i].deep_view() == k;
                    assert(self.elems()[i].deep_view() == k);
                }
                assert(self.elems()[old(self).elems().len() as int] == x);
                assert(final(self)@ =~= old(self)@.insert(x.deep_view()));
            }
        }
    }

    /// Hands the members out as a vector, in insertion order.
    pub fn into_vec(self) -> (r: Vec<T>)
        ensures
            r@ == self.elems(),
            self.wf() ==> forall|i: int, j: int|
                0 <= i < j < r@.len() ==> r@[i].deep_view() != r@[j].deep_view(),
    {
        self.items
    }
}

impl MapKey for usize {
    fn key_eq(&self, other: &Self) -> (r: bool) {
        *self == *other
    }

    fn key_clone(&self) -> (r: Self) {
        *self
    }
}

} // verus!
