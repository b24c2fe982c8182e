use core::cmp::Ordering;
use vstd::prelude::*;

use crate::mem_eq::MemEq;
use crate::order::{
    byte_order, lemma_order_decided_by_prefix, lemma_order_equal_iff, lemma_order_equal_prefix,
    lemma_word_order, nat_order,
};
use crate::raw::{load_word, memcmp};
use crate::repr::MemBytes;

verus! {

/// Ordering of values over the bytes of their memory.
pub trait MemOrd<Rhs: MemBytes + ?Sized = Self>: MemEq<Rhs> {
    /// Returns an ordering between the memory of `self` and `other`: the
    /// bytes compared lexicographically, and where one is a prefix of the
    /// other, the smaller value first.
    fn mem_cmp(&self, other: &Rhs) -> (r: Ordering)
        ensures
            r == byte_order(self.mem_view(), other.mem_view()),
    ;
}

/// Turns the sign of a byte comparison over a common prefix into an
/// ordering, deciding by size where the prefix compared equal.
pub fn convert(cmp: i32, size_a: usize, size_b: usize) -> (r: Ordering)
    ensures
        r == (if cmp < 0 {
            Ordering::Less
        } else if cmp > 0 {
            Ordering::Greater
        } else {
            nat_order(size_a as nat, size_b as nat)
        }),
{
    if cmp < 0 {
        Ordering::Less
    } else if cmp > 0 {
        Ordering::Greater
    } else if size_a < size_b {
        Ordering::Less
    } else if size_a > size_b {
        Ordering::Greater
    } else {
        Ordering::Equal
    }
}

impl<T: MemBytes + ?Sized, U: MemBytes + ?Sized> MemOrd<U> for T {
    fn mem_cmp(&self, other: &U) -> (r: Ordering) {
        let size_a = self.mem_size();
        let size_b = other.mem_size();
        let ghost va = self.mem_view();
        let ghost vb = other.mem_view();
        if size_a == size_b && (size_a == 1 || size_a == 2 || size_a == 4 || size_a == 8) {
            let x = load_word(self, size_a);
            let y = load_word(other, size_b);
            proof {
                assert(va.take(size_a as int) =~= va);
                assert(vb.take(size_b as int) =~= vb);
                lemma_word_order(va, vb);
            }
            if x < y {
                Ordering::Less
            } else if x > y {
                Ordering::Greater
            } else {
                Ordering::Equal
            }
        } else {
            let n = if size_a < size_b {
                size_a
            } else {
                size_b
            };
            let cmp = memcmp(self, other, n);
            proof {
                let pa = va.take(n as int);
                let pb = vb.take(n as int);
                if cmp == 0 {
                    lemma_order_equal_iff(pa, pb);
                    lemma_order_equal_prefix(va, vb, n as nat);
                } else {
                    lemma_order_decided_by_prefix(va, vb, n as nat);
                }
            }
            convert(cmp, size_a, size_b)
        }
    }
}

} // verus!
