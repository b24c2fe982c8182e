use core::cmp::Ordering;
use vstd::prelude::*;

verus! {

/// Orders two naturals as `usize::cmp` does.
pub open spec fn nat_order(a: nat, b: nat) -> Ordering {
    if a < b {
        Ordering::Less
    } else if a > b {
        Ordering::Greater
    } else {
        Ordering::Equal
    }
}

/// Lexicographic order of byte sequences; where one is a prefix of the
/// other, the shorter comes first.
pub open spec fn byte_order(a: Seq<u8>, b: Seq<u8>) -> Ordering
    decreases a.len(),
{
    if a.len() == 0 || b.len() == 0 {
        nat_order(a.len(), b.len())
    } else if a[0] < b[0] {
        Ordering::Less
    } else if a[0] > b[0] {
        Ordering::Greater
    } else {
        byte_order(a.drop_first(), b.drop_first())
    }
}

/// The opposite of an ordering.
pub open spec fn reversed(o: Ordering) -> Ordering {
    match o {
        Ordering::Less => Ordering::Greater,
        Ordering::Equal => Ordering::Equal,
        Ordering::Greater => Ordering::Less,
    }
}

/// The ordering that the sign of a three-way comparison result stands for.
pub open spec fn sign_order(c: int) -> Ordering {
    if c < 0 {
        Ordering::Less
    } else if c > 0 {
        Ordering::Greater
    } else {
        Ordering::Equal
    }
}

/// `256` raised to `n`.
pub open spec fn pow256(n: nat) -> nat
    decreases n,
{
    if n == 0 {
        1
    } else {
        256 * pow256((n - 1) as nat)
    }
}

/// The unsigned integer whose big-endian bytes are `s`.
pub open spec fn be_value(s: Seq<u8>) -> nat
    decreases s.len(),
{
    if s.len() == 0 {
        0
    } else {
        s[0] as nat * pow256((s.len() - 1) as nat) + be_value(s.drop_first())
    }
}

/// `pow256` grows with its exponent, and `256^8` is one past `u64::MAX`.
pub proof fn lemma_pow256_monotone(m: nat, n: nat)
    requires
        m <= n,
    ensures
        pow256(m) <= pow256(n),
        pow256(8) == 0x1_0000_0000_0000_0000,
    decreases n,
{
    if m < n {
        lemma_pow256_monotone(m, (n - 1) as nat);
    }
    assert(pow256(0) == 1);
    assert(pow256(1) == 0x100);
    assert(pow256(2) == 0x1_0000);
    assert(pow256(3) == 0x100_0000);
    assert(pow256(4) == 0x1_0000_0000);
    assert(pow256(5) == 0x100_0000_0000);
    assert(pow256(6) == 0x1_0000_0000_0000);
    assert(pow256(7) == 0x100_0000_0000_0000);
}

/// A sequence of `n` bytes read as a big-endian integer stays below `256^n`.
pub proof fn lemma_be_value_bound(s: Seq<u8>)
    ensures
        be_value(s) < pow256(s.len()),
    decreases s.len(),
{
    if s.len() > 0 {
        let p = pow256((s.len() - 1) as nat);
        lemma_be_value_bound(s.drop_first());
        let h = s[0] as nat;
        assert(h * p + p <= 256 * p) by (nonlinear_arith)
            requires
                h <= 255,
        ;
    }
}

/// Appending a byte shifts the big-endian value one byte up.
pub proof fn lemma_be_value_push(s: Seq<u8>, x: u8)
    ensures
        be_value(s.push(x)) == be_value(s) * 256 + x as nat,
    decreases s.len(),
{
    if s.len() > 0 {
        assert(s.push(x).drop_first() =~= s.drop_first().push(x));
        lemma_be_value_push(s.drop_first(), x);
        let p = pow256((s.len() - 1) as nat);
        let h = s[0] as nat;
        let r = be_value(s.drop_first());
        assert(pow256(s.len()) == 256 * p);
        assert(h * (256 * p) + r * 256 == (h * p + r) * 256) by (nonlinear_arith);
        assert(s.push(x)[0] == s[0]);
        assert(be_value(s.push(x)) == h * pow256(s.len()) + be_value(s.drop_first().push(x)));
    } else {
        assert(s.push(x).drop_first() =~= Seq::<u8>::empty());
        assert(pow256(0) == 1);
        assert(be_value(s.push(x)) == x as nat * pow256(0) + be_value(Seq::<u8>::empty()));
    }
}

/// Reading two byte sequences of the same length as big-endian integers and
/// comparing the integers orders them as the byte order does: a comparison of
/// same-sized native words agrees with the byte-by-byte comparison.
pub proof fn lemma_word_order(a: Seq<u8>, b: Seq<u8>)
    requires
        a.len() == b.len(),
    ensures
        nat_order(be_value(a), be_value(b)) == byte_order(a, b),
    decreases a.len(),
{
    if a.len() > 0 {
        let p = pow256((a.len() - 1) as nat);
        lemma_be_value_bound(a.drop_first());
        lemma_be_value_bound(b.drop_first());
        lemma_word_order(a.drop_first(), b.drop_first());
        let x = a[0] as nat;
        let y = b[0] as nat;
        let ra = be_value(a.drop_first());
        let rb = be_value(b.drop_first());
        if x < y {
            assert(x * p + ra < y * p + rb) by (nonlinear_arith)
                requires
                    x < y,
                    ra < p,
            ;
        } else if x > y {
            assert(x * p + ra > y * p + rb) by (nonlinear_arith)
                requires
                    x > y,
                    rb < p,
            ;
        }
    }
}

/// Every byte sequence compares `Equal` to itself.
pub proof fn lemma_order_reflexive(a: Seq<u8>)
    ensures
        byte_order(a, a) == Ordering::Equal,
    decreases a.len(),
{
    if a.len() > 0 {
        lemma_order_reflexive(a.drop_first());
    }
}

/// Byte equality does not depend on the order of its operands.
pub proof fn lemma_equality_symmetric(a: Seq<u8>, b: Seq<u8>)
    ensures
        (a == b) == (b == a),
{
}

/// Swapping the operands reverses the ordering.
pub proof fn lemma_order_antisymmetric(a: Seq<u8>, b: Seq<u8>)
    ensures
        byte_order(b, a) == reversed(byte_order(a, b)),
    decreases a.len(),
{
    if a.len() > 0 && b.len() > 0 {
        lemma_order_antisymmetric(a.drop_first(), b.drop_first());
    }
}

/// The ordering says `Equal` exactly when the bytes are equal.
pub proof fn lemma_order_equal_iff(a: Seq<u8>, b: Seq<u8>)
    ensures
        (byte_order(a, b) == Ordering::Equal) == (a == b),
    decreases a.len(),
{
    if a.len() > 0 && b.len() > 0 {
        lemma_order_equal_iff(a.drop_first(), b.drop_first());
        if a[0] == b[0] && a.drop_first() == b.drop_first() {
            assert(a =~= b.drop_first().insert(0, b[0]));
            assert(b =~= b.drop_first().insert(0, b[0]));
        }
    } else if a.len() == 0 && b.len() == 0 {
        assert(a =~= b);
    }
}

/// `Less` is transitive.
pub proof fn lemma_order_transitive(a: Seq<u8>, b: Seq<u8>, c: Seq<u8>)
    requires
        byte_order(a, b) == Ordering::Less,
        byte_order(b, c) == Ordering::Less,
    ensures
        byte_order(a, c) == Ordering::Less,
    decreases a.len(),
{
    if a.len() > 0 && b.len() > 0 && c.len() > 0 && a[0] == b[0] && b[0] == c[0] {
        lemma_order_transitive(a.drop_first(), b.drop_first(), c.drop_first());
    }
}

/// "Not after" is transitive.
pub proof fn lemma_order_le_transitive(a: Seq<u8>, b: Seq<u8>, c: Seq<u8>)
    requires
        byte_order(a, b) != Ordering::Greater,
        byte_order(b, c) != Ordering::Greater,
    ensures
        byte_order(a, c) != Ordering::Greater,
{
    lemma_order_equal_iff(a, b);
    lemma_order_equal_iff(b, c);
    if byte_order(a, b) == Ordering::Less && byte_order(b, c) == Ordering::Less {
        lemma_order_transitive(a, b, c);
    }
}

/// Byte sequences of different lengths are never equal, and never compare
/// `Equal`, whatever they hold.
pub proof fn lemma_size_mismatch(a: Seq<u8>, b: Seq<u8>)
    requires
        a.len() != b.len(),
    ensures
        a != b,
        byte_order(a, b) != Ordering::Equal,
{
    lemma_order_equal_iff(a, b);
}

/// A sequence that is a proper prefix of another comes before it.
pub proof fn lemma_prefix_less(a: Seq<u8>, b: Seq<u8>)
    requires
        a.len() < b.len(),
        a == b.take(a.len() as int),
    ensures
        byte_order(a, b) == Ordering::Less,
    decreases a.len(),
{
    if a.len() > 0 {
        assert(a.drop_first() =~= b.drop_first().take(a.len() - 1));
        lemma_prefix_less(a.drop_first(), b.drop_first());
    }
}

/// The empty sequence comes before every other.
pub proof fn lemma_empty_first(b: Seq<u8>)
    requires
        b.len() > 0,
    ensures
        byte_order(Seq::<u8>::empty(), b) == Ordering::Less,
{
}

/// Bytes that agree on their first `i` positions are ordered by what
/// follows those positions.
pub proof fn lemma_order_common_prefix(a: Seq<u8>, b: Seq<u8>, i: nat)
    requires
        i <= a.len(),
        i <= b.len(),
        forall|j: int| 0 <= j < i ==> a[j] == b[j],
    ensures
        byte_order(a, b) == byte_order(a.skip(i as int), b.skip(i as int)),
    decreases i,
{
    if i > 0 {
        lemma_order_common_prefix(a.drop_first(), b.drop_first(), (i - 1) as nat);
        assert(a.drop_first().skip(i - 1) =~= a.skip(i as int));
        assert(b.drop_first().skip(i - 1) =~= b.skip(i as int));
    } else {
        assert(a.skip(0) =~= a);
        assert(b.skip(0) =~= b);
    }
}

/// Where the first `n` bytes of two sequences already differ, they decide
/// the order of the whole sequences.
pub proof fn lemma_order_decided_by_prefix(a: Seq<u8>, b: Seq<u8>, n: nat)
    requires
        n <= a.len(),
        n <= b.len(),
        byte_order(a.take(n as int), b.take(n as int)) != Ordering::Equal,
    ensures
        byte_order(a, b) == byte_order(a.take(n as int), b.take(n as int)),
    decreases n,
{
    if n > 0 && a[0] == b[0] {
        assert(a.take(n as int).drop_first() =~= a.drop_first().take(n - 1));
        assert(b.take(n as int).drop_first() =~= b.drop_first().take(n - 1));
        lemma_order_decided_by_prefix(a.drop_first(), b.drop_first(), (n - 1) as nat);
    }
}

/// Where the shorter sequence is a prefix of the longer, the lengths decide.
pub proof fn lemma_order_equal_prefix(a: Seq<u8>, b: Seq<u8>, n: nat)
    requires
        n == if a.len() < b.len() { a.len() } else { b.len() },
        a.take(n as int) == b.take(n as int),
    ensures
        byte_order(a, b) == nat_order(a.len(), b.len()),
{
    assert(n <= a.len() && n <= b.len());
    assert forall|j: int| 0 <= j < n implies a[j] == b[j] by {
        assert(a.take(n as int)[j] == a[j]);
        assert(b.take(n as int)[j] == b[j]);
    }
    lemma_order_common_prefix(a, b, n);
}

} // verus!
