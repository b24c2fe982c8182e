use core::cmp::Ordering;
use mem_cmp::{MemOrd, MemOrdered};

#[test]
fn wrapper_equality_and_order_delegate() {
    let a = MemOrdered([0u8, 0, 0]);
    let b = MemOrdered([0u8, 0, 2]);
    let c = MemOrdered(0u32);
    assert!(a == a);
    assert!(a != b);
    assert!(a < b);
    assert!(b > a);
    assert_eq!(a.partial_cmp(&b), Some(Ordering::Less));
    assert_eq!(b.partial_cmp(&a), Some(Ordering::Greater));
    assert_eq!(a.partial_cmp(&c), Some(Ordering::Less));
    assert!(MemOrdered([0u8; 4]) == c);
}

#[test]
fn wrapper_conversions() {
    let mut w: MemOrdered<u32> = MemOrdered::from(7u32);
    assert_eq!(*w.as_ref(), 7);
    *w.as_mut() = 9;
    assert_eq!(w.0, 9);
}

#[test]
fn sort_wrapped_values() {
    let mut values = [MemOrdered(-1i32), MemOrdered(4), MemOrdered(7), MemOrdered(3)];
    MemOrdered::sort_slice(&mut values);
    let plain: Vec<i32> = values.iter().map(|v| v.0).collect();
    assert_eq!(plain, vec![3, 4, 7, -1]);
}

#[test]
fn sort_agrees_with_pairwise_order() {
    let input: [u32; 8] = [256, 1, 65536, 0, 255, 0x0100_0000, 2, 256];
    let mut values: Vec<MemOrdered<u32>> = input.iter().map(|&x| MemOrdered(x)).collect();
    MemOrdered::sort_slice(&mut values);
    for i in 0..values.len() {
        for j in i + 1..values.len() {
            assert_ne!(values[i].0.mem_cmp(&values[j].0), Ordering::Greater);
        }
    }
    let mut got: Vec<u32> = values.iter().map(|v| v.0).collect();
    let mut want: Vec<u32> = input.to_vec();
    want.sort_by(|a, b| a.to_ne_bytes().cmp(&b.to_ne_bytes()));
    assert_eq!(got, want);
    got.sort();
    let mut plain = input.to_vec();
    plain.sort();
    assert_eq!(got, plain);
}

#[test]
fn sort_empty_and_single() {
    let mut none: [MemOrdered<u8>; 0] = [];
    MemOrdered::sort_slice(&mut none);
    let mut one = [MemOrdered(5u8)];
    MemOrdered::sort_slice(&mut one);
    assert_eq!(one[0].0, 5);
}
