use core::cmp::Ordering;
use vstd::prelude::*;

use crate::mem_eq::MemEq;
use crate::mem_ord::MemOrd;
use crate::order::{byte_order, lemma_order_antisymmetric, lemma_order_le_transitive};
use crate::repr::MemBytes;

verus! {

/// A value that is compared and ordered by its memory, through `MemEq` and
/// `MemOrd`, wherever equality and ordering are asked of it.
#[derive(Clone, Copy, Debug, Default, Hash)]
pub struct MemOrdered<T>(pub T);

impl<T> From<T> for MemOrdered<T> {
    fn from(inner: T) -> (r: Self) {
        MemOrdered(inner)
    }
}

impl<T> vstd::std_specs::convert::FromSpecImpl<T> for MemOrdered<T> {
    open spec fn obeys_from_spec() -> bool {
        true
    }

    open spec fn from_spec(inner: T) -> Self {
        MemOrdered(inner)
    }
}

impl<T> AsRef<T> for MemOrdered<T> {
    fn as_ref(&self) -> (r: &T)
        ensures
            *r == self.0,
    {
        &self.0
    }
}

impl<T> AsMut<T> for MemOrdered<T> {
    fn as_mut(&mut self) -> (r: &mut T)
        ensures
            *r == old(self).0,
            final(self).0 == *final(r),
    {
        &mut self.0
    }
}

impl<T: MemBytes, U: MemBytes> PartialEq<MemOrdered<U>> for MemOrdered<T> {
    fn eq(&self, other: &MemOrdered<U>) -> (r: bool) {
        self.0.mem_eq(&other.0)
    }
}

impl<T: MemBytes, U: MemBytes> vstd::std_specs::cmp::PartialEqSpecImpl<MemOrdered<U>> for MemOrdered<T> {
    open spec fn obeys_eq_spec() -> bool {
        true
    }

    open spec fn eq_spec(&self, other: &MemOrdered<U>) -> bool {
        self.0.mem_view() == other.0.mem_view()
    }
}

impl<T: MemBytes> Eq for MemOrdered<T> {
}

impl<T: MemBytes, U: MemBytes> PartialOrd<MemOrdered<U>> for MemOrdered<T> {
    fn partial_cmp(&self, other: &MemOrdered<U>) -> (r: Option<Ordering>) {
        Some(self.0.mem_cmp(&other.0))
    }
}

impl<T: MemBytes, U: MemBytes> vstd::std_specs::cmp::PartialOrdSpecImpl<MemOrdered<U>> for MemOrdered<T> {
    open spec fn obeys_partial_cmp_spec() -> bool {
        true
    }

    open spec fn partial_cmp_spec(&self, other: &MemOrdered<U>) -> Option<Ordering> {
        Some(byte_order(self.0.mem_view(), other.0.mem_view()))
    }
}

/// Whether the wrapped values of `s` come in the order of their memory: no
/// value comes after one that follows it.
pub open spec fn mem_sorted<T: MemBytes>(s: Seq<MemOrdered<T>>) -> bool {
    forall|i: int, j: int|
        0 <= i < j < s.len() ==> byte_order(s[i].0.mem_view(), s[j].0.mem_view())
            != Ordering::Greater
}

proof fn lemma_swap_multiset<A>(s: Seq<A>, i: int, j: int)
    requires
        0 <= i < s.len(),
        0 <= j < s.len(),
    ensures
        s.update(i, s[j]).update(j, s[i]).to_multiset() == s.to_multiset(),
{
    broadcast use
        vstd::seq_lib::to_multiset_update,
        vstd::seq_lib::to_multiset_contains,
        vstd::multiset::group_multiset_axioms,
    ;

    let m = s.to_multiset();
    let t = s.update(i, s[j]);
    assert(s.contains(s[i]));
    assert(t[j] == s[j]);
    assert(t.to_multiset() == m.insert(s[j]).remove(s[i]));
    assert(t.update(j, s[i]).to_multiset() == m.insert(s[j]).remove(s[i]).insert(s[i]).remove(
        s[j],
    ));
    assert(m.insert(s[j]).remove(s[i]).insert(s[i]).remove(s[j]) =~= m);
}

/// Whether `a` comes after `b` by the ordering of the wrapper.
fn comes_after<T: MemBytes>(a: &MemOrdered<T>, b: &MemOrdered<T>) -> (r: bool)
    ensures
        r == (byte_order(a.0.mem_view(), b.0.mem_view()) == Ordering::Greater),
{
    matches!(a.partial_cmp(b), Some(Ordering::Greater))
}

impl<T: MemBytes + Copy> MemOrdered<T> {
    /// Sorts `slice` in place by the ordering of the wrapper. The result is
    /// a rearrangement of the input in which the memory of no value compares
    /// after that of a value that follows it.
    pub fn sort_slice(slice: &mut [MemOrdered<T>])
        ensures
            final(slice)@.to_multiset() == old(slice)@.to_multiset(),
            mem_sorted(final(slice)@),
    {
        let n = slice.len();
        let mut i: usize = 1;
        while i < n
            invariant
                slice@.len() == n,
                1 <= i,
                slice@.to_multiset() == old(slice)@.to_multiset(),
                forall|k: int, l: int|
                    0 <= k < l < i && l < n ==> byte_order(
                        slice@[k].0.mem_view(),
                        slice@[l].0.mem_view(),
                    ) != Ordering::Greater,
            decreases n - i,
        {
            let mut j: usize = i;
            while j > 0 && comes_after(&slice[j - 1], &slice[j])
                invariant
                    slice@.len() == n,
                    j <= i < n,
                    slice@.to_multiset() == old(slice)@.to_multiset(),
                    forall|k: int, l: int|
                        0 <= k < l <= i && k != j && l != j ==> byte_order(
                            slice@[k].0.mem_view(),
                            slice@[l].0.mem_view(),
                        ) != Ordering::Greater,
                    forall|l: int|
                        j < l <= i ==> byte_order(slice@[j as int].0.mem_view(), slice@[l].0.mem_view())
                            != Ordering::Greater,
                decreases j,
            {
                let ghost before = slice@;
                let x = slice[j - 1];
                let y = slice[j];
                slice[j - 1] = y;
                slice[j] = x;
                proof {
                    lemma_swap_multiset(before, j - 1, j as int);
                    assert(slice@ == before.update(j - 1, before[j as int]).update(
                        j as int,
                        before[j - 1],
                    ));
                    lemma_order_antisymmetric(x.0.mem_view(), y.0.mem_view());
                    assert forall|l: int| j - 1 < l <= i implies byte_order(
                        slice@[j - 1].0.mem_view(),
                        #[trigger] slice@[l].0.mem_view(),
                    ) != Ordering::Greater by {
                        if l > j {
                            assert(slice@[l] == before[l]);
                        }
                    }
                }
                j -= 1;
            }
            proof {
                let s = slice@;
                assert forall|k: int, l: int| 0 <= k < l <= i implies byte_order(
                    s[k].0.mem_view(),
                    s[l].0.mem_view(),
                ) != Ordering::Greater by {
                    if l == j && k < j - 1 {
                        lemma_order_le_transitive(
                            s[k].0.mem_view(),
                            s[j - 1].0.mem_view(),
                            s[l].0.mem_view(),
                        );
                    }
                }
            }
            i += 1;
        }
    }
}

} // verus!
