use vstd::endian::{endianness, Endian};
use vstd::layout::size_of;
use vstd::prelude::*;

use crate::order::pow256;

verus! {

/// The `n` low bytes of `v`, in the byte order of the machine the code runs on.
pub open spec fn native_bytes(v: nat, n: nat) -> Seq<u8> {
    Seq::new(
        n,
        |i: int|
            {
                let k = match endianness() {
                    Endian::Little => i,
                    Endian::Big => n - 1 - i,
                };
                ((v / pow256(k as nat)) % 256) as u8
            },
    )
}

/// A sized type every byte of whose memory is significant (it holds no
/// padding), together with what those bytes are.
pub trait MemRepr: Sized {
    /// The bytes of the value's memory, in address order.
    spec fn repr(&self) -> Seq<u8>;

    proof fn lemma_repr_len(&self)
        ensures
            self.repr().len() == size_of::<Self>(),
    ;

    /// The byte at offset `i` of the value's memory.
    fn repr_byte(&self, i: usize) -> (b: u8)
        requires
            i < size_of::<Self>(),
        ensures
            b == self.repr()[i as int],
    ;
}

/// Relies on `u16::to_ne_bytes`: the memory of `x`, in native byte order.
#[verifier::external_body]
fn u16_ne_bytes(x: u16) -> (r: [u8; 2])
    ensures
        r@ == native_bytes(x as nat, 2),
{
    x.to_ne_bytes()
}

/// Relies on `u32::to_ne_bytes`: the memory of `x`, in native byte order.
#[verifier::external_body]
fn u32_ne_bytes(x: u32) -> (r: [u8; 4])
    ensures
        r@ == native_bytes(x as nat, 4),
{
    x.to_ne_bytes()
}

/// Relies on `u64::to_ne_bytes`: the memory of `x`, in native byte order.
#[verifier::external_body]
fn u64_ne_bytes(x: u64) -> (r: [u8; 8])
    ensures
        r@ == native_bytes(x as nat, 8),
{
    x.to_ne_bytes()
}

impl MemRepr for u8 {
    open spec fn repr(&self) -> Seq<u8> {
        seq![*self]
    }

    proof fn lemma_repr_len(&self) {
    }

    fn repr_byte(&self, i: usize) -> (b: u8) {
        *self
    }
}

impl MemRepr for i8 {
    open spec fn repr(&self) -> Seq<u8> {
        seq![*self as u8]
    }

    proof fn lemma_repr_len(&self) {
    }

    fn repr_byte(&self, i: usize) -> (b: u8) {
        *self as u8
    }
}

impl MemRepr for u16 {
    open spec fn repr(&self) -> Seq<u8> {
        native_bytes(*self as nat, 2)
    }

    proof fn lemma_repr_len(&self) {
    }

    fn repr_byte(&self, i: usize) -> (b: u8) {
        u16_ne_bytes(*self)[i]
    }
}

impl MemRepr for i16 {
    open spec fn repr(&self) -> Seq<u8> {
        native_bytes(*self as u16 as nat, 2)
    }

    proof fn lemma_repr_len(&self) {
    }

    fn repr_byte(&self, i: usize) -> (b: u8) {
        u16_ne_bytes(*self as u16)[i]
    }
}

impl MemRepr for u32 {
    open spec fn repr(&self) -> Seq<u8> {
        native_bytes(*self as nat, 4)
    }

    proof fn lemma_repr_len(&self) {
    }

    fn repr_byte(&self, i: usize) -> (b: u8) {
        u32_ne_bytes(*self)[i]
    }
}

impl MemRepr for i32 {
    open spec fn repr(&self) -> Seq<u8> {
        native_bytes(*self as u32 as nat, 4)
    }

    proof fn lemma_repr_len(&self) {
    }

    fn repr_byte(&self, i: usize) -> (b: u8) {
        u32_ne_bytes(*self as u32)[i]
    }
}

impl MemRepr for u64 {
    open spec fn repr(&self) -> Seq<u8> {
        native_bytes(*self as nat, 8)
    }

    proof fn lemma_repr_len(&self) {
    }

    fn repr_byte(&self, i: usize) -> (b: u8) {
        u64_ne_bytes(*self)[i]
    }
}

impl MemRepr for i64 {
    open spec fn repr(&self) -> Seq<u8> {
        native_bytes(*self as u64 as nat, 8)
    }

    proof fn lemma_repr_len(&self) {
    }

    fn repr_byte(&self, i: usize) -> (b: u8) {
        u64_ne_bytes(*self as u64)[i]
    }
}

/// The memory of a run of `T` values laid out one after another.
pub open spec fn flat<T: MemRepr>(s: Seq<T>) -> Seq<u8> {
    let w = size_of::<T>() as int;
    Seq::new(s.len() * size_of::<T>(), |i: int| s[i / w].repr()[i % w])
}

/// A value, sized or not, whose memory can be read byte by byte.
pub trait MemBytes {
    /// The bytes of the value's memory, in address order.
    spec fn mem_view(&self) -> Seq<u8>;

    /// The number of bytes of the value's memory.
    fn mem_size(&self) -> (n: usize)
        ensures
            n == self.mem_view().len(),
    ;

    /// The byte at offset `i` of the value's memory.
    fn mem_byte(&self, i: usize) -> (b: u8)
        requires
            i < self.mem_view().len(),
        ensures
            b == self.mem_view()[i as int],
    ;
}

impl<T: MemRepr> MemBytes for T {
    open spec fn mem_view(&self) -> Seq<u8> {
        self.repr()
    }

    fn mem_size(&self) -> (n: usize) {
        proof {
            self.lemma_repr_len();
        }
        core::mem::size_of::<T>()
    }

    fn mem_byte(&self, i: usize) -> (b: u8) {
        proof {
            self.lemma_repr_len();
        }
        self.repr_byte(i)
    }
}

proof fn lemma_flat_index(i: int, n: int, w: int)
    requires
        0 <= i < n * w,
        0 <= n,
        0 <= w,
    ensures
        w > 0,
        0 <= i / w < n,
        0 <= i % w < w,
{
    assert(w > 0) by (nonlinear_arith)
        requires
            0 <= i < n * w,
            0 <= n,
            0 <= w,
    ;
    assert(0 <= i / w < n) by (nonlinear_arith)
        requires
            0 <= i < n * w,
            w > 0,
    ;
    assert(0 <= i % w < w) by (nonlinear_arith)
        requires
            w > 0,
            0 <= i,
    ;
}

impl<T: MemRepr> MemBytes for [T] {
    open spec fn mem_view(&self) -> Seq<u8> {
        flat(self@)
    }

    fn mem_size(&self) -> (n: usize) {
        core::mem::size_of_val(self)
    }

    fn mem_byte(&self, i: usize) -> (b: u8) {
        let w = core::mem::size_of::<T>();
        proof {
            lemma_flat_index(i as int, self@.len() as int, w as int);
        }
        self[i / w].repr_byte(i % w)
    }
}

impl<T: MemRepr, const N: usize> MemBytes for [T; N] {
    open spec fn mem_view(&self) -> Seq<u8> {
        flat(self@)
    }

    fn mem_size(&self) -> (n: usize) {
        self.as_slice().mem_size()
    }

    fn mem_byte(&self, i: usize) -> (b: u8) {
        self.as_slice().mem_byte(i)
    }
}

} // verus!
