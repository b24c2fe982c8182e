use vstd::prelude::*;

use crate::order::{lemma_order_equal_iff, lemma_word_order};
use crate::raw::{load_word, memcmp};
use crate::repr::MemBytes;

verus! {

/// Equality of values over the bytes of their memory.
pub trait MemEq<Rhs: MemBytes + ?Sized = Self>: MemBytes {
    /// Tests whether `self` and `other` are equal in memory: the same number
    /// of bytes, holding the same values.
    fn mem_eq(&self, other: &Rhs) -> (r: bool)
        ensures
            r == (self.mem_view() == other.mem_view()),
    ;

    /// Tests whether `self` and `other` are not equal in memory.
    fn mem_neq(&self, other: &Rhs) -> (r: bool)
        ensures
            r == (self.mem_view() != other.mem_view()),
    {
        !self.mem_eq(other)
    }
}

impl<T: MemBytes + ?Sized, U: MemBytes + ?Sized> MemEq<U> for T {
    fn mem_eq(&self, other: &U) -> (r: bool) {
        let size = self.mem_size();
        if size != other.mem_size() {
            return false;
        }
        let ghost va = self.mem_view();
        let ghost vb = other.mem_view();
        proof {
            assert(va.take(size as int) =~= va);
            assert(vb.take(size as int) =~= vb);
            lemma_order_equal_iff(va, vb);
        }
        if size == 1 || size == 2 || size == 4 || size == 8 {
            let x = load_word(self, size);
            let y = load_word(other, size);
            proof {
                lemma_word_order(va, vb);
            }
            x == y
        } else {
            memcmp(self, other, size) == 0
        }
    }
}

} // verus!
