//! The extended Euclidean algorithm, with the trace of its two passes.
//!
//! The forward pass divides the larger magnitude by the smaller and goes on
//! with divisor and remainder until the remainder is zero or one. Where it is
//! one, the backward pass substitutes the rows into each other from the last
//! to the first, and ends on the two Bezout coefficients.
use crate::divisibility::{
    coprime, gcd, is_gcd, lemma_gcd_characterised, lemma_gcd_of_remainder, lemma_gcd_symmetric,
    lemma_gcd_unique, lemma_gcd_with_one, lemma_gcd_with_zero,
};
use vstd::math::{abs, max, min};
use vstd::prelude::*;

verus! {

/// Four integers. A forward row `(x, y, q, r)` records the division
/// `x = y * q + r`. A backward row `(x, a, y, b)` records the combination
/// `x * a + y * b = 1`.
pub type Row = (int, int, int, int);

/// The four entries of a recorded row, as integers.
pub open spec fn row(r: [i64; 4]) -> Row {
    (r[0] as int, r[1] as int, r[2] as int, r[3] as int)
}

/// The recorded rows of one pass, as integers.
pub open spec fn rows(t: Seq<[i64; 4]>) -> Seq<Row> {
    Seq::new(t.len(), |i: int| row(t[i]))
}

/// The forward pass on `x` and `y`: the division of `x` by `y`, then that of
/// `y` by the remainder, and so on until the divisor is zero or one.
pub open spec fn forward_rows(x: int, y: int) -> Seq<Row>
    decreases y,
{
    if y <= 1 {
        Seq::empty()
    } else {
        seq![(x, y, x / y, x % y)] + forward_rows(y, x % y)
    }
}

/// The combination reached by substituting the forward rows `t` into each
/// other from the last one back to row `i`.
pub open spec fn back_substitute(t: Seq<Row>, i: int) -> Row
    decreases t.len() - i,
{
    if i + 1 >= t.len() {
        let last = t[t.len() - 1];
        (last.0, 1, last.1, -last.2)
    } else {
        let next = back_substitute(t, i + 1);
        (t[i].0, next.3, next.0, next.1 - next.3 * t[i].2)
    }
}

/// The backward pass over the forward rows `t`: one row for each forward
/// row, the one for the last forward row first.
pub open spec fn backward_rows(t: Seq<Row>) -> Seq<Row> {
    Seq::new(t.len(), |k: int| back_substitute(t, t.len() - 1 - k))
}

/// The forward row `(x, y, q, r)` is the Euclidean division of `x` by `y`.
pub open spec fn is_division(r: Row) -> bool {
    r.0 == r.1 * r.2 + r.3 && 0 <= r.3 < r.1
}

/// The backward row `up` combines the dividend and the divisor of the
/// forward row `down` to one.
pub open spec fn combines_to_one(down: Row, up: Row) -> bool {
    up.0 == down.0 && up.2 == down.1 && up.0 * up.1 + up.2 * up.3 == 1
}

/// The rows `t` are a run of Euclidean divisions by divisors of at least
/// two, each going on with the divisor and the remainder of the one before.
pub open spec fn is_division_chain(t: Seq<Row>) -> bool {
    &&& forall|i: int|
        0 <= i < t.len() ==> {
            &&& is_division(#[trigger] t[i])
            &&& 2 <= t[i].1 <= t[i].0
            &&& 0 <= t[i].2
        }
    &&& forall|i: int|
        0 <= i < t.len() - 1 ==> (#[trigger] t[i + 1]).0 == t[i].1 && t[i + 1].1 == t[i].3
}

/// The larger of the two magnitudes.
pub open spec fn larger(x: int, y: int) -> int {
    max(abs(x) as int, abs(y) as int)
}

/// The smaller of the two magnitudes.
pub open spec fn smaller(x: int, y: int) -> int {
    min(abs(x) as int, abs(y) as int)
}

/// The inputs on which the algorithm finds coefficients: both magnitudes
/// are at least two, and they are coprime.
pub open spec fn has_coefficients(x: int, y: int) -> bool {
    abs(x) >= 2 && abs(y) >= 2 && coprime(abs(x), abs(y))
}

/// The coefficients `(a, b)` that the backward pass ends on, `a` for the
/// magnitude of `x` and `b` for that of `y`.
pub open spec fn bezout_coefficients(x: int, y: int) -> (int, int) {
    let top = back_substitute(forward_rows(larger(x, y), smaller(x, y)), 0);
    if abs(x) < abs(y) {
        (top.3, top.1)
    } else {
        (top.1, top.3)
    }
}

/// What the algorithm answers on `x` and `y`: the coefficients where there
/// are any, and the greatest common divisor of the two magnitudes where
/// there are none.
pub open spec fn euclid_outcome(x: int, y: int) -> Result<(int, int), int> {
    if has_coefficients(x, y) {
        Ok(bezout_coefficients(x, y))
    } else {
        Err(gcd(abs(x), abs(y)) as int)
    }
}

/// The forward pass is a chain of divisions that starts on `x` and `y` and
/// stops on a remainder of zero or one.
pub proof fn lemma_forward_rows_chain(x: int, y: int)
    requires
        0 <= y <= x,
    ensures
        is_division_chain(forward_rows(x, y)),
        y >= 2 ==> forward_rows(x, y).len() >= 1 && forward_rows(x, y)[0].0 == x && forward_rows(
            x,
            y,
        )[0].1 == y,
        y >= 2 ==> 0 <= forward_rows(x, y).last().3 <= 1,
        y < 2 ==> forward_rows(x, y).len() == 0,
    decreases y,
{
    if y >= 2 {
        let head = (x, y, x / y, x % y);
        let rest = forward_rows(y, x % y);
        let t = forward_rows(x, y);
        lemma_forward_rows_chain(y, x % y);
        vstd::arithmetic::div_mod::lemma_fundamental_div_mod(x, y);
        vstd::arithmetic::div_mod::lemma_div_pos_is_pos(x, y);
        assert(t[0] == head);
        assert forall|i: int| 1 <= i < t.len() implies #[trigger] t[i] == rest[i - 1] by {}
        assert forall|i: int| 0 <= i < t.len() - 1 implies (#[trigger] t[i + 1]).0 == t[i].1 && t[i
            + 1].1 == t[i].3 by {
            if i >= 1 {
                assert(t[i] == rest[i - 1]);
                assert(rest[(i - 1) + 1] == t[i + 1]);
            } else {
                assert(t[1] == rest[0]);
            }
        }
        if rest.len() > 0 {
            assert(t.last() == rest.last());
        }
    }
}

/// The forward pass ends on the greatest common divisor: where the last
/// remainder is zero, it is the last divisor, and where the last remainder
/// is one, it is one.
pub proof fn lemma_forward_rows_gcd(x: nat, y: nat)
    requires
        2 <= y <= x,
    ensures
        forward_rows(x as int, y as int).len() >= 1,
        forward_rows(x as int, y as int).last().3 == 0 ==> is_gcd(
            forward_rows(x as int, y as int).last().1 as nat,
            x,
            y,
        ),
        forward_rows(x as int, y as int).last().3 != 0 ==> is_gcd(1, x, y),
    decreases y,
{
    let r = x % y;
    let t = forward_rows(x as int, y as int);
    let rest = forward_rows(y as int, r as int);
    lemma_forward_rows_chain(x as int, y as int);
    if r >= 2 {
        lemma_forward_rows_gcd(y, r);
        lemma_forward_rows_chain(y as int, r as int);
        assert(t.last() == rest.last());
        if t.last().3 == 0 {
            lemma_gcd_of_remainder(t.last().1 as nat, x, y);
        } else {
            lemma_gcd_of_remainder(1, x, y);
        }
    } else {
        assert(rest.len() == 0);
        assert(t.last() == (x as int, y as int, x as int / y as int, r as int));
        if r == 0 {
            lemma_gcd_with_zero(y);
            lemma_gcd_of_remainder(y, x, y);
        } else {
            lemma_gcd_with_one(y);
            lemma_gcd_of_remainder(1, x, y);
        }
    }
}

/// Back-substitution keeps the combination equal to one and the
/// coefficients small: over a division chain that ends on the remainder
/// one, the row reached at `i` combines the dividend and the divisor of
/// forward row `i` to one, with twice each coefficient bounded by the other
/// row entry.
pub proof fn lemma_back_substitute(t: Seq<Row>, i: int)
    requires
        is_division_chain(t),
        0 <= i < t.len(),
        t.last().3 == 1,
    ensures
        back_substitute(t, i).0 == t[i].0,
        back_substitute(t, i).2 == t[i].1,
        back_substitute(t, i).0 * back_substitute(t, i).1 + back_substitute(t, i).2
            * back_substitute(t, i).3 == 1,
        2 * abs(back_substitute(t, i).1) <= t[i].1,
        2 * abs(back_substitute(t, i).3) <= t[i].0,
    decreases t.len() - i,
{
    let (x, y, q, r) = t[i];
    assert(x == y * q + r && y >= 2 && q >= 0 && 0 <= r < y);
    if i + 1 >= t.len() {
        assert(r == 1);
        assert(x * 1 + y * (-q) == 1 && 2 * q <= x) by (nonlinear_arith)
            requires
                x == y * q + 1,
                y >= 2,
                q >= 0,
        ;
    } else {
        let next = back_substitute(t, i + 1);
        lemma_back_substitute(t, i + 1);
        assert(t[i + 1].0 == y && t[i + 1].1 == r);
        let a = next.1;
        let b = next.3;
        assert(y * a + r * b == 1);
        assert(x * b + y * (a - b * q) == 1) by (nonlinear_arith)
            requires
                x == y * q + r,
                y * a + r * b == 1,
        ;
        assert(2 * abs(a - b * q) <= x) by (nonlinear_arith)
            requires
                x == y * q + r,
                2 * abs(a) <= r,
                2 * abs(b) <= y,
                q >= 0,
        ;
    }
}

/// Where `x` and `y` have coefficients, the forward pass on their
/// magnitudes is a division chain that starts on the larger and the smaller
/// and ends on the remainder one.
pub proof fn lemma_forward_rows_end_on_one(x: int, y: int)
    requires
        has_coefficients(x, y),
    ensures
        is_division_chain(forward_rows(larger(x, y), smaller(x, y))),
        forward_rows(larger(x, y), smaller(x, y)).len() >= 1,
        forward_rows(larger(x, y), smaller(x, y))[0].0 == larger(x, y),
        forward_rows(larger(x, y), smaller(x, y))[0].1 == smaller(x, y),
        forward_rows(larger(x, y), smaller(x, y)).last().3 == 1,
{
    let big = larger(x, y) as nat;
    let small = smaller(x, y) as nat;
    let t = forward_rows(big as int, small as int);
    lemma_forward_rows_chain(big as int, small as int);
    lemma_forward_rows_gcd(big, small);
    if t.last().3 == 0 {
        lemma_gcd_symmetric(1, abs(x), abs(y));
        lemma_gcd_unique(1, t.last().1 as nat, big, small);
    }
}

/// Every row of the trace states a true equation: a forward row
/// `(x, y, q, r)` has `x = y * q + r`, and the backward row `(x, a, y, b)`
/// that belongs to it has the same `x` and `y`, and `x * a + y * b = 1`.
pub proof fn lemma_trace_invariants(x: int, y: int)
    requires
        has_coefficients(x, y),
    ensures
        forall|i: int|
            #![trigger forward_rows(larger(x, y), smaller(x, y))[i]]
            0 <= i < forward_rows(larger(x, y), smaller(x, y)).len() ==> {
                &&& is_division(forward_rows(larger(x, y), smaller(x, y))[i])
                &&& combines_to_one(
                    forward_rows(larger(x, y), smaller(x, y))[i],
                    backward_rows(forward_rows(larger(x, y), smaller(x, y)))[forward_rows(
                        larger(x, y),
                        smaller(x, y),
                    ).len() - 1 - i],
                )
            },
{
    let down = forward_rows(larger(x, y), smaller(x, y));
    lemma_forward_rows_end_on_one(x, y);
    assert forall|i: int| 0 <= i < down.len() implies is_division(#[trigger] down[i])
        && combines_to_one(down[i], backward_rows(down)[down.len() - 1 - i]) by {
        lemma_back_substitute(down, i);
    }
}

/// The coefficients combine the two magnitudes to one, and twice each is
/// no more than the magnitude that the other belongs to. On positive `x`
/// and `y` that is Bezout's identity for `x` and `y` themselves.
pub proof fn lemma_bezout_identity(x: int, y: int)
    requires
        has_coefficients(x, y),
    ensures
        euclid_outcome(x, y) == Ok::<(int, int), int>(bezout_coefficients(x, y)),
        bezout_coefficients(x, y).0 * abs(x) + bezout_coefficients(x, y).1 * abs(y) == 1,
        2 * abs(bezout_coefficients(x, y).0) <= abs(y),
        2 * abs(bezout_coefficients(x, y).1) <= abs(x),
        x > 0 && y > 0 ==> bezout_coefficients(x, y).0 * x + bezout_coefficients(x, y).1 * y == 1,
{
    let t = forward_rows(larger(x, y), smaller(x, y));
    lemma_forward_rows_end_on_one(x, y);
    lemma_back_substitute(t, 0);
    let top = back_substitute(t, 0);
    assert(top.0 * top.1 + top.2 * top.3 == top.3 * top.2 + top.1 * top.0) by (nonlinear_arith);
}

/// Where one of the two is zero, the answer is the magnitude of the other,
/// as the greatest common divisor.
pub proof fn lemma_zero_operand(x: int, y: int)
    requires
        x == 0 || y == 0,
    ensures
        x == 0 ==> euclid_outcome(x, y) == Err::<(int, int), int>(abs(y) as int),
        y == 0 ==> euclid_outcome(x, y) == Err::<(int, int), int>(abs(x) as int),
{
    lemma_gcd_characterised(abs(x), abs(y));
    lemma_gcd_with_zero(abs(x));
    lemma_gcd_with_zero(abs(y));
}

/// Where the two magnitudes have a common divisor above one, the answer is
/// their greatest common divisor.
pub proof fn lemma_common_factor(x: int, y: int, g: nat)
    requires
        is_gcd(g, abs(x), abs(y)),
        g > 1,
    ensures
        euclid_outcome(x, y) == Err::<(int, int), int>(g as int),
{
    lemma_gcd_characterised(abs(x), abs(y));
    if coprime(abs(x), abs(y)) {
        lemma_gcd_unique(1, g, abs(x), abs(y));
    }
}

/// What the answer is worth: coefficients are there exactly for coprime
/// magnitudes of at least two, and they obey Bezout's identity; anything
/// else is answered by the greatest common divisor.
proof fn lemma_outcome(x: int, y: int)
    ensures
        match euclid_outcome(x, y) {
            Ok((a, b)) => {
                &&& has_coefficients(x, y)
                &&& a * abs(x) + b * abs(y) == 1
                &&& x > 0 && y > 0 ==> a * x + b * y == 1
                &&& 2 * abs(a) <= abs(y)
                &&& 2 * abs(b) <= abs(x)
            },
            Err(g) => !has_coefficients(x, y) && g >= 0 && is_gcd(g as nat, abs(x), abs(y)),
        },
        x == 0 ==> euclid_outcome(x, y) == Err::<(int, int), int>(abs(y) as int),
        y == 0 ==> euclid_outcome(x, y) == Err::<(int, int), int>(abs(x) as int),
        forall|d: nat|
            d > 1 && #[trigger] is_gcd(d, abs(x), abs(y)) ==> euclid_outcome(x, y) == Err::<
                (int, int),
                int,
            >(d as int),
{
    lemma_gcd_characterised(abs(x), abs(y));
    if has_coefficients(x, y) {
        lemma_bezout_identity(x, y);
    }
    if x == 0 || y == 0 {
        lemma_zero_operand(x, y);
    }
    assert forall|d: nat| d > 1 && #[trigger] is_gcd(d, abs(x), abs(y)) implies euclid_outcome(
        x,
        y,
    ) == Err::<(int, int), int>(d as int) by {
        lemma_common_factor(x, y, d);
    }
}

/// With the two arguments exchanged the coefficients are exchanged too, and
/// a greatest common divisor stays what it was.
pub proof fn lemma_swapped_arguments(x: int, y: int)
    ensures
        match euclid_outcome(x, y) {
            Ok((a, b)) => euclid_outcome(y, x) == Ok::<(int, int), int>((b, a)),
            Err(g) => euclid_outcome(y, x) == Err::<(int, int), int>(g),
        },
{
    lemma_gcd_symmetric(1, abs(x), abs(y));
    if has_coefficients(x, y) {
        if abs(x) == abs(y) {
            lemma_gcd_with_zero(abs(x));
            lemma_gcd_of_remainder(abs(x), abs(x), abs(x));
            lemma_gcd_unique(1, abs(x), abs(x), abs(y));
        }
    } else {
        lemma_gcd_characterised(abs(x), abs(y));
        lemma_gcd_characterised(abs(y), abs(x));
        lemma_gcd_symmetric(gcd(abs(x), abs(y)), abs(x), abs(y));
    }
}

/// The trace of one run of the algorithm: the forward rows `[x, y, q, r]`
/// and the backward rows `[x, a, y, b]`.
#[derive(Debug)]
pub struct ExtendedEuclideanView {
    /// x = y * q + r
    down: Vec<[i64; 4]>,
    /// x * a + y * b = 1
    up: Vec<[i64; 4]>,
}

impl ExtendedEuclideanView {
    /// The forward rows, as integers.
    pub closed spec fn down_rows(&self) -> Seq<Row> {
        rows(self.down@)
    }

    /// The backward rows, as integers.
    pub closed spec fn up_rows(&self) -> Seq<Row> {
        rows(self.up@)
    }

    /// The view holds the two passes of the algorithm on `x` and `y`.
    pub open spec fn is_trace_of(&self, x: int, y: int) -> bool {
        &&& self.down_rows() == forward_rows(larger(x, y), smaller(x, y))
        &&& self.up_rows() == backward_rows(self.down_rows())
    }

    /// The forward rows `[x, y, q, r]`, in the order of the divisions.
    pub fn down(&self) -> (t: &Vec<[i64; 4]>)
        ensures
            rows(t@) == self.down_rows(),
    {
        &self.down
    }

    /// The backward rows `[x, a, y, b]`, in the order of the substitutions.
    pub fn up(&self) -> (t: &Vec<[i64; 4]>)
        ensures
            rows(t@) == self.up_rows(),
    {
        &self.up
    }
}

impl Clone for ExtendedEuclideanView {
    /// A copy that holds the same rows.
    fn clone(&self) -> (copy: Self)
        ensures
            copy.down_rows() == self.down_rows(),
            copy.up_rows() == self.up_rows(),
    {
        ExtendedEuclideanView { down: copy_rows(&self.down), up: copy_rows(&self.up) }
    }
}

/// Copies the rows of one pass.
fn copy_rows(t: &Vec<[i64; 4]>) -> (copy: Vec<[i64; 4]>)
    ensures
        copy@ == t@,
{
    let mut copy: Vec<[i64; 4]> = Vec::new();
    let mut i: usize = 0;
    while i < t.len()
        invariant
            i <= t.len(),
            copy@ == t@.subrange(0, i as int),
        decreases t.len() - i,
    {
        copy.push(t[i]);
        i = i + 1;
        assert(copy@ =~= t@.subrange(0, i as int));
    }
    assert(t@.subrange(0, i as int) =~= t@);
    copy
}

/// Runs the forward pass on `big` and `small`.
fn forward_pass(big: i64, small: i64) -> (down: Vec<[i64; 4]>)
    requires
        2 <= small <= big,
    ensures
        rows(down@) == forward_rows(big as int, small as int),
{
    let mut down: Vec<[i64; 4]> = Vec::new();
    let mut x: i64 = big;
    let mut y: i64 = small;
    while y > 1
        invariant
            0 <= y <= x,
            rows(down@) + forward_rows(x as int, y as int) == forward_rows(
                big as int,
                small as int,
            ),
        decreases y,
    {
        let q: i64 = x / y;
        let r: i64 = x % y;
        proof {
            let ghost before = rows(down@);
            let ghost head = seq![(x as int, y as int, x as int / y as int, x as int % y as int)];
            let ghost rest = forward_rows(y as int, r as int);
            assert(row([x, y, q, r]) == head[0]);
            assert(rows(down@.push([x, y, q, r])) == before + head);
            assert((before + head) + rest == before + (head + rest));
        }
        down.push([x, y, q, r]);
        x = y;
        y = r;
    }
    assert(rows(down@) + Seq::<Row>::empty() == rows(down@));
    down
}

/// Runs the backward pass over the forward rows `down`.
fn backward_pass(down: &Vec<[i64; 4]>) -> (up: Vec<[i64; 4]>)
    requires
        down.len() >= 1,
        is_division_chain(rows(down@)),
        rows(down@).last().3 == 1,
    ensures
        rows(up@) == backward_rows(rows(down@)),
{
    let ghost t = rows(down@);
    let n: usize = down.len();
    let last: [i64; 4] = down[n - 1];
    proof {
        assert(t[n - 1] == row(last));
        lemma_back_substitute(t, n - 1);
    }
    let mut current: [i64; 4] = [last[0], 1, last[1], -last[2]];
    let mut up: Vec<[i64; 4]> = Vec::new();
    up.push(current);
    let mut i: usize = n - 1;
    while i > 0
        invariant
            0 <= i < n,
            n == down.len(),
            t == rows(down@),
            is_division_chain(t),
            t.last().3 == 1,
            up.len() == n - i,
            row(current) == back_substitute(t, i as int),
            forall|k: int| 0 <= k < up.len() ==> row(#[trigger] up[k]) == back_substitute(t, n - 1 - k),
        decreases i,
    {
        i = i - 1;
        let step: [i64; 4] = down[i];
        proof {
            assert(t[i as int] == row(step));
            lemma_back_substitute(t, i as int);
            lemma_back_substitute(t, i + 1);
            let a = current[1] as int;
            let b = current[3] as int;
            let q = step[2] as int;
            assert(t[i + 1].0 == step[1] && t[i + 1].1 == step[3]);
            assert(-step[0] <= 2 * (b * q) <= step[0]) by (nonlinear_arith)
                requires
                    2 * abs(b) <= step[1],
                    q >= 0,
                    step[0] == step[1] * q + step[3],
                    step[3] >= 0,
            ;
        }
        current = [step[0], current[3], current[0], current[1] - current[3] * step[2]];
        up.push(current);
    }
    assert(rows(up@) =~= backward_rows(t));
    up
}

/// Computes the Bezout coefficients of `x` and `y`.
///
/// Both magnitudes are taken first, so the coefficients `(a, b)` belong to
/// `|x|` and `|y|`: `a * |x| + b * |y| = 1`. They come with the trace of the
/// run. Where one magnitude is below two, or the two share a divisor above
/// one, there are no such coefficients, and the answer is the greatest
/// common divisor of the magnitudes instead.
///
/// The magnitude of `i64::MIN` is no `i64`, so that input is left out.
pub fn extended_euclidean(x: i64, y: i64) -> (result: Result<
    (i64, i64, ExtendedEuclideanView),
    i64,
>)
    requires
        x > i64::MIN,
        y > i64::MIN,
    ensures
        match result {
            Ok((a, b, view)) => {
                &&& euclid_outcome(x as int, y as int) == Ok::<(int, int), int>(
                    (a as int, b as int),
                )
                &&& view.is_trace_of(x as int, y as int)
                &&& has_coefficients(x as int, y as int)
                &&& a * abs(x as int) + b * abs(y as int) == 1
                &&& x > 0 && y > 0 ==> a * x + b * y == 1
                &&& 2 * abs(a as int) <= abs(y as int)
                &&& 2 * abs(b as int) <= abs(x as int)
            },
            Err(g) => {
                &&& euclid_outcome(x as int, y as int) == Err::<(int, int), int>(g as int)
                &&& !has_coefficients(x as int, y as int)
                &&& g >= 0
                &&& is_gcd(g as nat, abs(x as int), abs(y as int))
            },
        },
        x == 0 ==> (result matches Err(g) && g == abs(y as int)),
        y == 0 ==> (result matches Err(g) && g == abs(x as int)),
        forall|d: nat|
            d > 1 && #[trigger] is_gcd(d, abs(x as int), abs(y as int)) ==> (result matches Err(g)
                && g == d),
{
    proof {
        lemma_outcome(x as int, y as int);
    }
    let x_size: i64 = if x < 0 { -x } else { x };
    let y_size: i64 = if y < 0 { -y } else { y };
    let swapped = x_size < y_size;
    let (big, small) = if swapped { (y_size, x_size) } else { (x_size, y_size) };
    proof {
        lemma_gcd_characterised(abs(x as int), abs(y as int));
    }
    if small < 2 {
        let g: i64 = if small == 0 { big } else { 1 };
        proof {
            lemma_gcd_with_zero(big as nat);
            lemma_gcd_with_one(big as nat);
            lemma_gcd_symmetric(g as nat, big as nat, small as nat);
        }
        return Err(g);
    }
    let down = forward_pass(big, small);
    proof {
        lemma_forward_rows_chain(big as int, small as int);
        lemma_forward_rows_gcd(big as nat, small as nat);
    }
    let last: [i64; 4] = down[down.len() - 1];
    assert(row(last) == rows(down@).last());
    if last[3] == 0 {
        proof {
            lemma_gcd_symmetric(last[1] as nat, big as nat, small as nat);
            if coprime(abs(x as int), abs(y as int)) {
                lemma_gcd_unique(1, last[1] as nat, abs(x as int), abs(y as int));
            }
        }
        return Err(last[1]);
    }
    let up = backward_pass(&down);
    assert(up.len() == down.len()) by {
        assert(rows(up@).len() == backward_rows(rows(down@)).len());
    }
    let top: [i64; 4] = up[up.len() - 1];
    proof {
        lemma_gcd_symmetric(1, big as nat, small as nat);
        assert(row(top) == rows(up@)[up.len() - 1]);
        assert(row(top) == back_substitute(rows(down@), 0));
    }
    let (a, b) = if swapped { (top[3], top[1]) } else { (top[1], top[3]) };
    Ok((a, b, ExtendedEuclideanView { down, up }))
}

} // verus!
