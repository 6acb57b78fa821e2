use small_ring::euclid::{extended_euclidean, ExtendedEuclideanView};

fn plain_gcd(x: i64, y: i64) -> i64 {
    let mut a = x.abs();
    let mut b = y.abs();
    while b != 0 {
        let r = a % b;
        a = b;
        b = r;
    }
    a
}

fn coefficients(x: i64, y: i64) -> (i64, i64, ExtendedEuclideanView) {
    match extended_euclidean(x, y) {
        Ok(found) => found,
        Err(g) => panic!("no coefficients for {} and {}: gcd {}", x, y, g),
    }
}

fn failure(x: i64, y: i64) -> i64 {
    match extended_euclidean(x, y) {
        Ok((a, b, _)) => panic!("coefficients {} and {} for {} and {}", a, b, x, y),
        Err(g) => g,
    }
}

#[test]
fn scenario_common_factor_of_240_and_46() {
    assert_eq!(failure(240, 46), 2);
}

#[test]
fn scenario_coprime_17_and_5() {
    let (a, b, _) = coefficients(17, 5);
    assert_eq!(a * 17 + b * 5, 1);
    assert_eq!((a, b), (-2, 7));
}

#[test]
fn scenario_zero_and_seven() {
    assert_eq!(failure(0, 7), 7);
}

#[test]
fn scenario_equal_operands() {
    assert_eq!(failure(5, 5), 5);
}

#[test]
fn trace_of_17_and_5() {
    let (_, _, view) = coefficients(17, 5);
    assert_eq!(view.down(), &vec![[17, 5, 3, 2], [5, 2, 2, 1]]);
    assert_eq!(view.up(), &vec![[5, 1, 2, -2], [17, -2, 5, 7]]);
}

#[test]
fn trace_is_the_same_for_swapped_arguments() {
    let (a, b, view) = coefficients(5, 17);
    assert_eq!((a, b), (7, -2));
    assert_eq!(view.down(), &vec![[17, 5, 3, 2], [5, 2, 2, 1]]);
    assert_eq!(view.up(), &vec![[5, 1, 2, -2], [17, -2, 5, 7]]);
}

#[test]
fn trace_with_one_row() {
    let (a, b, view) = coefficients(3, 2);
    assert_eq!((a, b), (1, -1));
    assert_eq!(view.down(), &vec![[3, 2, 1, 1]]);
    assert_eq!(view.up(), &vec![[3, 1, 2, -1]]);
}

#[test]
fn trace_of_a_longer_run() {
    let (a, b, view) = coefficients(240, 47);
    assert_eq!(
        view.down(),
        &vec![[240, 47, 5, 5], [47, 5, 9, 2], [5, 2, 2, 1]]
    );
    assert_eq!(
        view.up(),
        &vec![[5, 1, 2, -2], [47, -2, 5, 19], [240, 19, 47, -97]]
    );
    assert_eq!((a, b), (19, -97));
    assert_eq!(19 * 240 - 97 * 47, 1);
}

#[test]
fn zero_operand_gives_the_other_magnitude() {
    assert_eq!(failure(7, 0), 7);
    assert_eq!(failure(0, -7), 7);
    assert_eq!(failure(-7, 0), 7);
    assert_eq!(failure(0, 1), 1);
    assert_eq!(failure(0, i64::MAX), i64::MAX);
    assert_eq!(failure(i64::MIN + 1, 0), i64::MAX);
}

#[test]
fn zero_and_zero_gives_zero() {
    assert_eq!(failure(0, 0), 0);
}

#[test]
fn operand_of_magnitude_one_gives_one() {
    assert_eq!(failure(1, 7), 1);
    assert_eq!(failure(7, 1), 1);
    assert_eq!(failure(-1, 7), 1);
    assert_eq!(failure(1, 1), 1);
    assert_eq!(failure(1, -1), 1);
}

#[test]
fn common_factor_gives_the_gcd() {
    assert_eq!(failure(12, 18), 6);
    assert_eq!(failure(18, 12), 6);
    assert_eq!(failure(-12, 18), 6);
    assert_eq!(failure(12, -18), 6);
    assert_eq!(failure(100, 10), 10);
    assert_eq!(failure(10, 100), 10);
    assert_eq!(failure(-5, 5), 5);
    assert_eq!(failure(2, 2), 2);
    assert_eq!(failure(i64::MAX, i64::MAX), i64::MAX);
}

#[test]
fn negative_operands_are_taken_by_magnitude() {
    let expected = (-2, 7);
    for (x, y) in [(17, 5), (-17, 5), (17, -5), (-17, -5)] {
        let (a, b, view) = coefficients(x, y);
        assert_eq!((a, b), expected);
        assert_eq!(a * x.abs() + b * y.abs(), 1);
        assert_eq!(view.down(), &vec![[17, 5, 3, 2], [5, 2, 2, 1]]);
    }
}

#[test]
fn every_small_pair_is_answered_rightly() {
    for x in -40i64..=40 {
        for y in -40i64..=40 {
            let g = plain_gcd(x, y);
            match extended_euclidean(x, y) {
                Ok((a, b, _)) => {
                    assert!(x.abs() >= 2 && y.abs() >= 2);
                    assert_eq!(g, 1);
                    assert_eq!(a * x.abs() + b * y.abs(), 1);
                    if x > 0 && y > 0 {
                        assert_eq!(a * x + b * y, 1);
                    }
                }
                Err(found) => {
                    assert!(x.abs() < 2 || y.abs() < 2 || g > 1);
                    assert_eq!(found, g);
                }
            }
        }
    }
}

#[test]
fn coefficients_are_small() {
    for x in 2i64..=60 {
        for y in 2i64..=60 {
            if let Ok((a, b, _)) = extended_euclidean(x, y) {
                assert!(2 * a.abs() <= y);
                assert!(2 * b.abs() <= x);
            }
        }
    }
}

#[test]
fn swapped_arguments_swap_the_coefficients() {
    for x in -30i64..=30 {
        for y in -30i64..=30 {
            match (extended_euclidean(x, y), extended_euclidean(y, x)) {
                (Ok((a, b, _)), Ok((c, d, _))) => {
                    assert_eq!((c, d), (b, a));
                    assert_eq!(b * y.abs() + a * x.abs(), 1);
                }
                (Err(g), Err(h)) => assert_eq!(g, h),
                _ => panic!("{} and {} answered in two ways", x, y),
            }
        }
    }
}

#[test]
fn every_row_states_a_true_equation() {
    for (x, y) in [(17i64, 5i64), (240, 47), (1071, 463), (99991, 65537), (3, 2)] {
        let (a, b, view) = coefficients(x, y);
        let down = view.down();
        let up = view.up();
        assert_eq!(down.len(), up.len());
        assert_eq!(down[0][0], x);
        assert_eq!(down[0][1], y);
        assert_eq!(down[down.len() - 1][3], 1);
        for i in 0..down.len() {
            let [dx, dy, q, r] = down[i];
            assert_eq!(dx, dy * q + r);
            assert!(0 <= r && r < dy);
            if i + 1 < down.len() {
                assert_eq!(down[i + 1][0], dy);
                assert_eq!(down[i + 1][1], r);
            }
            let [ux, ua, uy, ub] = up[down.len() - 1 - i];
            assert_eq!((ux, uy), (dx, dy));
            assert_eq!(ux * ua + uy * ub, 1);
        }
        let top = up[up.len() - 1];
        assert_eq!((top[1], top[3]), (a, b));
    }
}

#[test]
fn largest_operands_do_not_overflow() {
    let x = i64::MAX;
    let y = i64::MAX - 1;
    let (a, b, view) = coefficients(x, y);
    assert_eq!((a as i128) * (x as i128) + (b as i128) * (y as i128), 1);
    assert_eq!((a, b), (1, -1));
    assert_eq!(view.down(), &vec![[x, y, 1, 1]]);
    let (c, d, _) = coefficients(i64::MIN + 1, 2);
    assert_eq!((c as i128) * (i64::MAX as i128) + (d as i128) * 2, 1);
    assert_eq!((c, d), (1, -(i64::MAX / 2)));
}

#[test]
fn consecutive_fibonacci_numbers_take_the_most_steps() {
    let mut small: i64 = 1;
    let mut big: i64 = 2;
    let mut steps = 1;
    while let Some(next) = big.checked_add(small) {
        small = big;
        big = next;
        steps += 1;
    }
    let (a, b, view) = coefficients(big, small);
    assert_eq!((a as i128) * (big as i128) + (b as i128) * (small as i128), 1);
    assert_eq!(view.down().len(), steps - 1);
    assert_eq!(view.up().len(), steps - 1);
}

#[test]
fn coefficient_gives_the_modular_inverse() {
    let modulus: i64 = 65537;
    for value in [2i64, 3, 1000, 65536, 40000] {
        let (a, _, _) = coefficients(value, modulus);
        let inverse = a.rem_euclid(modulus);
        assert_eq!((inverse * value) % modulus, 1);
    }
}

#[test]
fn view_can_be_cloned_and_shown() {
    let (_, _, view) = coefficients(17, 5);
    let copy = view.clone();
    assert_eq!(copy.down(), view.down());
    assert_eq!(copy.up(), view.up());
    assert!(format!("{:?}", view).contains("down"));
}

#[test]
fn algorithm_is_reached_through_the_ring_module() {
    match small_ring::ring::extended_euclidean(7, 3) {
        Ok((a, b, _)) => assert_eq!((a, b), (1, -2)),
        Err(g) => panic!("gcd {}", g),
    }
}
