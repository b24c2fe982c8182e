use core::cmp::Ordering;
use mem_cmp::{convert, load_word, memcmp, MemOrd};

#[test]
fn compare_bytes() {
    let x = [0u8, 0, 0, 0];
    let y = [0u8, 0, 0, 4];
    assert_eq!(x.cmp(&y), x.mem_cmp(&y));
}

#[test]
fn different_sizes() {
    let a = [0u8, 0, 0];
    let b = [0u8, 0, 2];
    let c = [0u8; 0];

    assert_eq!(a.mem_cmp(&b), Ordering::Less);
    assert_eq!(a[..].mem_cmp(&b[..]), Ordering::Less);

    assert_eq!(b.mem_cmp(&b), Ordering::Equal);
    assert_eq!(b[..].mem_cmp(&b[..]), Ordering::Equal);

    assert_eq!(b.mem_cmp(&c), Ordering::Greater);
    assert_eq!(b[..].mem_cmp(&c[..]), Ordering::Greater);
}

#[test]
fn shorter_prefix_comes_first() {
    let a = [0u8, 0, 0];
    for x in 0..=255u8 {
        let b = [0u8, 0, 0, x];
        assert_eq!(a.mem_cmp(&b), Ordering::Less);
        assert_eq!(b.mem_cmp(&a), Ordering::Greater);
        assert_eq!(a[..].mem_cmp(&b[..]), Ordering::Less);
    }
}

#[test]
fn empty_sequence_comes_first() {
    let e: [u8; 0] = [];
    let one = [0u8];
    let many = [7u8; 9];
    assert_eq!(e[..].mem_cmp(&one[..]), Ordering::Less);
    assert_eq!(e[..].mem_cmp(&many[..]), Ordering::Less);
    assert_eq!(e[..].mem_cmp(&e[..]), Ordering::Equal);
    assert_eq!(many[..].mem_cmp(&many[..]), Ordering::Equal);
    assert_eq!([0u8, 0, 2][..].mem_cmp(&[0u8, 0, 0][..]), Ordering::Greater);
}

#[test]
fn equal_sizes_of_zero_compare_equal() {
    let a: [u32; 0] = [];
    let b: [u8; 0] = [];
    assert_eq!(a.mem_cmp(&b), Ordering::Equal);
}

#[test]
fn ordering_is_antisymmetric_and_consistent() {
    let vals: [[u8; 5]; 4] = [[0, 0, 0, 0, 0], [0, 0, 1, 0, 0], [255, 0, 0, 0, 0], [0, 0, 1, 0, 1]];
    for a in vals.iter() {
        for b in vals.iter() {
            let ab = a.mem_cmp(b);
            let ba = b.mem_cmp(a);
            assert_eq!(ab, ba.reverse());
            assert_eq!(ab == Ordering::Equal, a == b);
            assert_eq!(ab, a.cmp(b));
        }
    }
}

#[test]
fn orders_by_memory_not_by_value() {
    let a = 256u32;
    let b = 1u32;
    assert_eq!(a.mem_cmp(&b), a.to_ne_bytes().cmp(&b.to_ne_bytes()));
    let c = -1i64;
    let d = 5i64;
    assert_eq!(c.mem_cmp(&d), Ordering::Greater);
    assert_eq!(0x1234u16.mem_cmp(&0x3412u16), 0x1234u16.to_ne_bytes().cmp(&0x3412u16.to_ne_bytes()));
}

fn next(seed: &mut u64) -> u8 {
    *seed = seed.wrapping_mul(6364136223846793005).wrapping_add(1442695040888963407);
    (*seed >> 56) as u8
}

#[test]
fn word_fast_path_matches_byte_comparison() {
    let mut seed = 17u64;
    for n in [1usize, 2, 4, 8] {
        for _ in 0..500 {
            let mut a: Vec<u8> = (0..n).map(|_| next(&mut seed)).collect();
            let b: Vec<u8> = (0..n).map(|_| next(&mut seed)).collect();
            if next(&mut seed) < 64 {
                a = b.clone();
            }
            let fast = a[..].mem_cmp(&b[..]);
            let slow = convert(memcmp(&a[..], &b[..], n), n, n);
            assert_eq!(fast, slow);
            assert_eq!(fast, a.cmp(&b));
        }
    }
}

#[test]
fn memcmp_signs() {
    let a = [1u8, 2, 3, 4];
    let b = [1u8, 2, 9, 0];
    assert!(memcmp(&a, &b, 4) < 0);
    assert!(memcmp(&b, &a, 4) > 0);
    assert_eq!(memcmp(&a, &b, 2), 0);
    assert_eq!(memcmp(&a, &b, 0), 0);
    assert_eq!(memcmp(&a, &a, 4), 0);
}

#[test]
fn load_word_reads_big_endian() {
    let a = [0x01u8, 0x02, 0x03, 0x04, 0x05, 0x06, 0x07, 0x08];
    assert_eq!(load_word(&a, 0), 0);
    assert_eq!(load_word(&a, 1), 0x01);
    assert_eq!(load_word(&a, 2), 0x0102);
    assert_eq!(load_word(&a, 4), 0x0102_0304);
    assert_eq!(load_word(&a, 8), 0x0102_0304_0506_0708);
    assert_eq!(load_word(&[0xFFu8; 8], 8), u64::MAX);
}

#[test]
fn convert_cases() {
    assert_eq!(convert(-5, 1, 9), Ordering::Less);
    assert_eq!(convert(-1, 9, 1), Ordering::Less);
    assert_eq!(convert(3, 1, 9), Ordering::Greater);
    assert_eq!(convert(0, 3, 4), Ordering::Less);
    assert_eq!(convert(0, 4, 3), Ordering::Greater);
    assert_eq!(convert(0, 4, 4), Ordering::Equal);
}
