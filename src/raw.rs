use vstd::prelude::*;

use crate::order::{
    be_value, byte_order, lemma_be_value_bound, lemma_be_value_push, lemma_order_common_prefix,
    lemma_order_reflexive, lemma_pow256_monotone, sign_order,
};
use crate::repr::MemBytes;

verus! {

/// Compares the first `n` bytes of the memory of `a` and `b` lexicographically,
/// as the C `memcmp` does: negative, zero or positive as `a`'s bytes come
/// before, equal or after `b`'s.
pub fn memcmp<A: MemBytes + ?Sized, B: MemBytes + ?Sized>(a: &A, b: &B, n: usize) -> (r: i32)
    requires
        n <= a.mem_view().len(),
        n <= b.mem_view().len(),
    ensures
        sign_order(r as int) == byte_order(
            a.mem_view().take(n as int),
            b.mem_view().take(n as int),
        ),
{
    let ghost va = a.mem_view().take(n as int);
    let ghost vb = b.mem_view().take(n as int);
    let mut i: usize = 0;
    while i < n
        invariant
            i <= n,
            n <= a.mem_view().len(),
            n <= b.mem_view().len(),
            va == a.mem_view().take(n as int),
            vb == b.mem_view().take(n as int),
            forall|j: int| 0 <= j < i ==> va[j] == vb[j],
        decreases n - i,
    {
        let x = a.mem_byte(i);
        let y = b.mem_byte(i);
        if x != y {
            proof {
                lemma_order_common_prefix(va, vb, i as nat);
                assert(va.skip(i as int)[0] == x);
                assert(vb.skip(i as int)[0] == y);
            }
            return x as i32 - y as i32;
        }
        i += 1;
    }
    proof {
        assert(va =~= vb);
        lemma_order_reflexive(va);
    }
    0
}

/// Reads the first `n` bytes of the memory of `a` as one big-endian word.
pub fn load_word<A: MemBytes + ?Sized>(a: &A, n: usize) -> (w: u64)
    requires
        n <= 8,
        n <= a.mem_view().len(),
    ensures
        w == be_value(a.mem_view().take(n as int)),
{
    let ghost v = a.mem_view();
    let mut w: u64 = 0;
    let mut i: usize = 0;
    proof {
        assert(v.take(0) =~= Seq::<u8>::empty());
    }
    while i < n
        invariant
            i <= n,
            n <= 8,
            n <= v.len(),
            v == a.mem_view(),
            w == be_value(v.take(i as int)),
        decreases n - i,
    {
        let x = a.mem_byte(i);
        proof {
            assert(v.take(i + 1) =~= v.take(i as int).push(x));
            lemma_be_value_push(v.take(i as int), x);
            lemma_be_value_bound(v.take(i + 1));
            lemma_pow256_monotone((i + 1) as nat, 8);
        }
        w = w * 256 + x as u64;
        i += 1;
    }
    w
}

} // verus!
