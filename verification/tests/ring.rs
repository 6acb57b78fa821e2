use small_ring::decimal::decimal_string;
use small_ring::ring::{Ring, RingElement, SmallRing, SmallRingElement};
use std::cmp::Ordering;
use std::collections::hash_map::DefaultHasher;
use std::hash::{Hash, Hasher};

fn ring(module: u32) -> SmallRing {
    match SmallRing::new(module) {
        Some(r) => r,
        None => panic!("no ring modulo {}", module),
    }
}

fn hash_of(e: &SmallRingElement) -> u64 {
    let mut hasher = DefaultHasher::new();
    e.hash(&mut hasher);
    hasher.finish()
}

#[test]
fn no_ring_modulo_zero() {
    assert!(SmallRing::new(0).is_none());
}

#[test]
fn ring_knows_its_modulus() {
    assert_eq!(*ring(7).module(), 7);
    assert_eq!(*ring(1).module(), 1);
    assert_eq!(*ring(u32::MAX).module(), u32::MAX);
}

#[test]
fn rings_are_equal_by_modulus() {
    assert_eq!(ring(7), ring(7));
    assert_ne!(ring(7), ring(11));
}

#[test]
fn new_element_keeps_the_raw_value() {
    let e = ring(7).create_element(10);
    assert_eq!(e.value(), 10);
    assert_eq!(*e.ring(), ring(7));
    assert_eq!(ring(7).create_element(u64::MAX).value(), u64::MAX);
}

#[test]
fn first_operation_reduces_the_value() {
    let r = ring(7);
    let e = r.create_element(10);
    assert_eq!(e.value(), 10);
    assert_eq!((e + r.create_element(0)).value(), 3);
}

#[test]
fn adding_zero_reduces_by_the_modulus() {
    for module in [1u32, 2, 7, 11, 65537, u32::MAX] {
        let r = ring(module);
        for value in [0u64, 1, 6, 7, 8, 100, 65537, u64::MAX - 1, u64::MAX] {
            let sum = r.create_element(value) + r.create_element(0);
            assert_eq!(sum.value(), value % (module as u64));
            assert_eq!(*sum.ring(), r);
        }
    }
}

#[test]
fn sum_is_reduced() {
    let r = ring(7);
    assert_eq!((r.create_element(3) + r.create_element(4)).value(), 0);
    assert_eq!((r.create_element(5) + r.create_element(6)).value(), 4);
    assert_eq!((r.create_element(1) + r.create_element(2)).value(), 3);
}

#[test]
fn sum_of_the_largest_values_does_not_overflow() {
    let r = ring(1_000_000_007);
    let big = r.create_element(u64::MAX);
    let expected = ((u64::MAX as u128 * 2) % 1_000_000_007u128) as u64;
    assert_eq!((big + big).value(), expected);
}

#[test]
fn minus_adds_the_modulus_and_the_right_value() {
    let r = ring(7);
    assert_eq!((r.create_element(5) - r.create_element(3)).value(), (5 + 7 + 3) % 7);
    assert_eq!((r.create_element(5) - r.create_element(3)).value(), 1);
    assert_eq!((r.create_element(0) - r.create_element(0)).value(), 0);
    let big = r.create_element(u64::MAX);
    let expected = ((u64::MAX as u128 * 2 + 7) % 7) as u64;
    assert_eq!((big - big).value(), expected);
}

#[test]
fn minus_holds_what_plus_holds() {
    let r = ring(11);
    for a in 0u64..30 {
        for b in 0u64..30 {
            let x = r.create_element(a);
            let y = r.create_element(b);
            assert_eq!((x - y).value(), (x + y).value());
        }
    }
}

#[test]
fn minus_of_the_negative_is_the_difference() {
    let r = ring(11);
    for a in 0u64..30 {
        for b in 0u64..30 {
            let x = r.create_element(a);
            let y = r.create_element(b);
            let expected = (a as i64 - b as i64).rem_euclid(11) as u64;
            assert_eq!((x - (-y)).value(), expected);
            assert_eq!((x + (-y)).value(), expected);
        }
    }
}

#[test]
fn product_is_reduced() {
    let r = ring(7);
    assert_eq!((r.create_element(3) * r.create_element(4)).value(), 5);
    assert_eq!((r.create_element(10) * r.create_element(10)).value(), 2);
    assert_eq!((r.create_element(0) * r.create_element(6)).value(), 0);
}

#[test]
fn product_of_the_largest_values_does_not_overflow() {
    let r = ring(u32::MAX);
    let big = r.create_element(u64::MAX);
    let expected = ((u64::MAX as u128 * u64::MAX as u128) % (u32::MAX as u128)) as u64;
    assert_eq!((big * big).value(), expected);
}

#[test]
fn remainder_is_not_reduced_by_the_modulus() {
    let r = ring(3);
    let e = r.create_element(10) % r.create_element(7);
    assert_eq!(e.value(), 3);
    assert_eq!(*e.ring(), r);
    assert_eq!((r.create_element(10) % r.create_element(4)).value(), 2);
}

#[test]
fn remainder_takes_the_ring_of_the_left_element() {
    let e = ring(7).create_element(10) % ring(11).create_element(4);
    assert_eq!(e.value(), 2);
    assert_eq!(*e.ring(), ring(7));
}

#[test]
fn negative_of_zero_is_zero() {
    assert_eq!((-ring(7).create_element(0)).value(), 0);
    assert_eq!((-ring(1).create_element(0)).value(), 0);
}

#[test]
fn negative_is_the_modulus_less_the_value() {
    let r = ring(7);
    assert_eq!((-r.create_element(3)).value(), 4);
    assert_eq!((-r.create_element(6)).value(), 1);
    assert_eq!((-r.create_element(7)).value(), 0);
    assert_eq!((-r.create_element(10)).value(), 4);
    assert_eq!(*(-r.create_element(3)).ring(), r);
}

#[test]
fn element_and_negative_add_up_to_zero() {
    for module in [1u32, 2, 7, u32::MAX] {
        let r = ring(module);
        for value in [0u64, 1, 5, 7, 12345, u64::MAX] {
            let e = r.create_element(value);
            assert_eq!((e + (-e)).value(), 0);
        }
    }
}

#[test]
fn mismatched_rings_are_not_combined() {
    let a = ring(7).create_element(3);
    let b = ring(11).create_element(4);
    assert!(a.checked_add(b).is_none());
    assert!(a.checked_sub(b).is_none());
    assert!(a.checked_mul(b).is_none());
}

#[test]
fn checked_operations_agree_with_the_operators() {
    let r = ring(7);
    let a = r.create_element(5);
    let b = r.create_element(6);
    assert_eq!(a.checked_add(b).map(|e| e.value()), Some(4));
    assert_eq!(a.checked_sub(b).map(|e| e.value()), Some(4));
    assert_eq!(a.checked_mul(b).map(|e| e.value()), Some(2));
    assert_eq!(a.checked_rem(b).map(|e| e.value()), Some(5));
}

#[test]
fn no_remainder_by_zero() {
    let r = ring(7);
    assert!(r.create_element(5).checked_rem(r.create_element(0)).is_none());
}

#[test]
fn elements_are_equal_by_value() {
    let r = ring(7);
    assert_eq!(r.create_element(3), r.create_element(3));
    assert_ne!(r.create_element(3), r.create_element(10));
    assert_eq!(ring(7).create_element(3), ring(11).create_element(3));
}

#[test]
fn elements_are_ordered_by_value() {
    let r = ring(7);
    assert!(r.create_element(3) < r.create_element(4));
    assert!(r.create_element(10) > r.create_element(4));
    assert!(r.create_element(4) <= r.create_element(4));
    assert!(ring(7).create_element(3) < ring(5).create_element(4));
    assert_eq!(r.create_element(3).cmp(&r.create_element(4)), Ordering::Less);
    assert_eq!(r.create_element(4).cmp(&r.create_element(4)), Ordering::Equal);
    assert_eq!(r.create_element(5).cmp(&r.create_element(4)), Ordering::Greater);
    assert_eq!(
        ring(7).create_element(3).partial_cmp(&ring(11).create_element(3)),
        Some(Ordering::Equal)
    );
}

#[test]
fn equal_elements_hash_alike() {
    let a = ring(7).create_element(3);
    let b = ring(11).create_element(3);
    assert_eq!(hash_of(&a), hash_of(&b));
    assert_eq!(hash_of(&a), hash_of(&a.clone()));
}

#[test]
fn ring_label() {
    assert_eq!(ring(7).to_string(), "Ring (mod 7)");
    assert_eq!(ring(1).to_string(), "Ring (mod 1)");
    assert_eq!(ring(65537).to_string(), "Ring (mod 65537)");
    assert_eq!(ring(u32::MAX).to_string(), "Ring (mod 4294967295)");
}

#[test]
fn element_label() {
    let r = ring(7);
    assert_eq!(r.create_element(0).to_string(), "0");
    assert_eq!(r.create_element(10).to_string(), "10");
    assert_eq!(r.create_element(u64::MAX).to_string(), "18446744073709551615");
}

#[test]
fn decimal_notation() {
    assert_eq!(decimal_string(0), "0");
    assert_eq!(decimal_string(9), "9");
    assert_eq!(decimal_string(10), "10");
    assert_eq!(decimal_string(407), "407");
    assert_eq!(decimal_string(1234567890), "1234567890");
    for v in [0u64, 5, 99, 100, 101, 65535, u64::MAX] {
        assert_eq!(decimal_string(v), format!("{}", v));
    }
}

#[test]
fn rings_and_elements_are_copied() {
    let r = ring(7);
    let s = r;
    let e = r.create_element(3);
    let f = e;
    assert_eq!(r, s);
    assert_eq!(e.value(), f.value());
    assert!(format!("{:?}", e).contains("value"));
}
