//! Comparison of values by the bytes of their memory.
//!
//! A value's memory is modelled as a sequence of bytes (`MemBytes::mem_view`).
//! Two values are equal when those sequences are equal, and they are ordered
//! lexicographically by them, a shorter sequence coming first when it is a
//! prefix of the longer one.
//!
//! Only types whose every byte is significant take part: the unsigned and
//! signed integers up to 64 bits, and arrays and slices of them. Types with
//! padding are left out, since their padding bytes are not fixed.
mod mem_eq;
mod mem_ord;
mod mem_ordered;
mod order;
mod raw;
mod repr;

pub use mem_eq::MemEq;
pub use mem_ord::{convert, MemOrd};
pub use mem_ordered::{mem_sorted, MemOrdered};
pub use order::{
    be_value, byte_order, lemma_be_value_bound, lemma_be_value_push, lemma_empty_first,
    lemma_equality_symmetric, lemma_order_antisymmetric, lemma_order_common_prefix,
    lemma_order_decided_by_prefix, lemma_order_equal_iff, lemma_order_equal_prefix,
    lemma_order_le_transitive, lemma_order_reflexive, lemma_order_transitive,
    lemma_pow256_monotone, lemma_prefix_less, lemma_size_mismatch, lemma_word_order, nat_order,
    pow256, reversed, sign_order,
};
pub use raw::{load_word, memcmp};
pub use repr::{flat, native_bytes, MemBytes, MemRepr};
