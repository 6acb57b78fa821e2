//! Finite rings and their elements.
//!
//! [`Ring`] and [`RingElement`] say what a ring and an element can do.
//! [`SmallRing`] is the ring of residues modulo a positive `u32`, and
//! [`SmallRingElement`] an element of it: a `u64` value with the ring it
//! belongs to. A new element keeps the raw value it was made from; every
//! sum, difference, product and negative is reduced below the modulus.
use crate::decimal::{decimal_digits, decimal_string};
pub use crate::euclid::{extended_euclidean, ExtendedEuclideanView};
use std::cmp::Ordering;
use std::fmt::Debug;
use std::hash::{Hash, Hasher};
use std::ops::{Add, Mul, Neg, Rem, Sub};
use vstd::arithmetic::div_mod::{
    lemma_fundamental_div_mod, lemma_mod_bound, lemma_mod_multiples_vanish, lemma_small_mod,
};
use vstd::pervasive::runtime_assert;
use vstd::prelude::*;
use vstd::std_specs::cmp::{PartialEqSpecImpl, PartialOrdSpecImpl};
use vstd::std_specs::ops::{
    AddSpec, AddSpecImpl, MulSpec, MulSpecImpl, NegSpec, NegSpecImpl, RemSpec, RemSpecImpl, SubSpec,
    SubSpecImpl,
};
use vstd::string::StringExecFns;

verus! {

/// A finite ring: it makes elements from raw values and knows its modulus.
/// A ring does not change: what it makes and what it answers depends on
/// the ring and the value alone.
pub trait Ring: Debug + Clone + Send + Sync + 'static {
    type Element: RingElement;

    type Module;

    type Value;

    /// The element that `create_element` makes from `value`.
    spec fn spec_create_element(&self, value: Self::Value) -> Self::Element;

    /// The modulus that `module` answers.
    spec fn spec_module(&self) -> Self::Module;

    /// The element of this ring that stands for `value`.
    fn create_element(&self, value: Self::Value) -> (element: Self::Element)
        ensures
            element == self.spec_create_element(value),
    ;

    /// The modulus of this ring.
    fn module(&self) -> (module: &Self::Module)
        ensures
            *module == self.spec_module(),
    ;
}

/// An element of a finite ring. It can be added, subtracted, multiplied,
/// divided with remainder, negated and compared, and it knows its ring.
pub trait RingElement:
    Add<Output = Self>
    + Sub<Output = Self>
    + Mul<Output = Self>
    + Rem<Output = Self>
    + Neg
    + PartialOrd
    + Hash
    + Debug
    + Clone
    + Copy
    + Send
    + Sync
    + 'static
{
    /// The type of the ring that the element belongs to.
    type Ring;

    /// The ring that `ring` answers.
    spec fn spec_ring(&self) -> Self::Ring;

    /// The ring that the element belongs to.
    fn ring(&self) -> (ring: &Self::Ring)
        ensures
            *ring == self.spec_ring(),
    ;
}

/// The ring of residues modulo a positive number below 2^32.
#[derive(Debug, Clone, Copy, PartialEq, Eq, Hash, Structural)]
pub struct SmallRing {
    module: u32,
}

/// An element of a [`SmallRing`]: a value, and the ring it belongs to.
#[derive(Debug, Clone, Copy)]
pub struct SmallRingElement {
    ring: SmallRing,
    value: u64,
}

impl SmallRing {
    /// No ring has the modulus zero.
    #[verifier::type_invariant]
    spec fn positive(self) -> bool {
        self.module > 0
    }

    /// The modulus of the ring.
    pub closed spec fn modulus(&self) -> nat {
        self.module as nat
    }

    /// The element of this ring that holds `value` as it is.
    pub closed spec fn element(&self, value: u64) -> SmallRingElement {
        SmallRingElement { ring: *self, value }
    }

    /// The ring of residues modulo `module`. There is none modulo zero.
    pub fn new(module: u32) -> (ring: Option<SmallRing>)
        ensures
            module == 0 <==> ring is None,
            ring matches Some(r) ==> r.modulus() == module,
    {
        if module == 0 {
            None
        } else {
            Some(SmallRing { module })
        }
    }

    /// The label `Ring (mod M)`, with the modulus `M` in decimal notation.
    pub fn to_string(&self) -> (label: String)
        ensures
            label@ == "Ring (mod "@ + decimal_digits(self.modulus()) + ")"@,
    {
        let mut label = String::from_str("Ring (mod ");
        let digits = decimal_string(self.module as u64);
        label.append(digits.as_str());
        label.append(")");
        label
    }
}

impl Ring for SmallRing {
    type Element = SmallRingElement;

    type Module = u32;

    type Value = u64;

    open spec fn spec_create_element(&self, value: u64) -> SmallRingElement {
        self.element(value)
    }

    open spec fn spec_module(&self) -> u32 {
        self.modulus() as u32
    }

    /// The element of this ring that holds `value` as it is: the value is
    /// not reduced here, but by the first sum, difference, product or
    /// negative that it enters.
    fn create_element(&self, value: u64) -> (element: SmallRingElement)
        ensures
            element.owner() == *self,
            element.residue() == value,
    {
        SmallRingElement { ring: *self, value }
    }

    /// The modulus of the ring. It is not zero.
    fn module(&self) -> (module: &u32)
        ensures
            *module == self.modulus(),
            *module > 0,
    {
        proof {
            use_type_invariant(self);
        }
        &self.module
    }
}

impl SmallRingElement {
    /// The ring that the element belongs to.
    pub closed spec fn owner(&self) -> SmallRing {
        self.ring
    }

    /// The value that the element holds.
    pub closed spec fn residue(&self) -> nat {
        self.value as nat
    }

    /// The value that the element holds.
    pub fn value(&self) -> (v: u64)
        ensures
            v == self.residue(),
    {
        self.value
    }

    /// The value in decimal notation.
    pub fn to_string(&self) -> (digits: String)
        ensures
            digits@ == decimal_digits(self.residue()),
    {
        decimal_string(self.value)
    }

    /// The order of the two values. The rings are not looked at.
    pub fn cmp(&self, other: &Self) -> (o: Ordering)
        ensures
            o == order_of(self.residue(), other.residue()),
    {
        if self.value < other.value {
            Ordering::Less
        } else if self.value == other.value {
            Ordering::Equal
        } else {
            Ordering::Greater
        }
    }
}

/// How `a` stands to `b` in the order of the natural numbers.
pub open spec fn order_of(a: nat, b: nat) -> Ordering {
    if a < b {
        Ordering::Less
    } else if a == b {
        Ordering::Equal
    } else {
        Ordering::Greater
    }
}

impl RingElement for SmallRingElement {
    type Ring = SmallRing;

    open spec fn spec_ring(&self) -> SmallRing {
        self.owner()
    }

    fn ring(&self) -> (ring: &SmallRing) {
        &self.ring
    }
}

impl AddSpecImpl for SmallRingElement {
    open spec fn obeys_add_spec() -> bool {
        true
    }

    /// Only elements of one ring are added.
    open spec fn add_req(self, rhs: SmallRingElement) -> bool {
        self.owner() == rhs.owner()
    }

    /// The sum of the two values, reduced by the modulus.
    open spec fn add_spec(self, rhs: SmallRingElement) -> SmallRingElement {
        self.owner().element(
            ((self.residue() + rhs.residue()) % self.owner().modulus()) as u64,
        )
    }
}

impl Add for SmallRingElement {
    type Output = SmallRingElement;

    /// The sum of the two values, reduced by the modulus.
    ///
    /// Elements of two rings are never added: the precondition holds
    /// verified callers to it, and any other caller is stopped at run time.
    fn add(self, rhs: SmallRingElement) -> (sum: SmallRingElement)
        ensures
            sum.owner() == self.owner(),
            sum.residue() == (self.residue() + rhs.residue()) % self.owner().modulus(),
            sum.residue() < self.owner().modulus(),
    {
        runtime_assert(self.ring == rhs.ring);
        let ring = self.ring;
        proof {
            use_type_invariant(&ring);
        }
        let wide: u128 = (self.value as u128 + rhs.value as u128) % (ring.module as u128);
        SmallRingElement { ring, value: wide as u64 }
    }
}

impl SubSpecImpl for SmallRingElement {
    open spec fn obeys_sub_spec() -> bool {
        true
    }

    /// Only elements of one ring are combined.
    open spec fn sub_req(self, rhs: SmallRingElement) -> bool {
        self.owner() == rhs.owner()
    }

    /// The left value plus the modulus plus the right value, reduced by the
    /// modulus.
    open spec fn sub_spec(self, rhs: SmallRingElement) -> SmallRingElement {
        self.owner().element(
            ((self.residue() + self.owner().modulus() + rhs.residue())
                % self.owner().modulus()) as u64,
        )
    }
}

impl Sub for SmallRingElement {
    type Output = SmallRingElement;

    /// The left value plus the modulus plus the right value, reduced by the
    /// modulus. The right operand is taken as the negative of what is to be
    /// taken away: `a - (-b)` is the difference of `a` and `b`, and `a - b`
    /// itself holds what `a + b` holds.
    ///
    /// Elements of two rings are never combined: the precondition holds
    /// verified callers to it, and any other caller is stopped at run time.
    fn sub(self, rhs: SmallRingElement) -> (difference: SmallRingElement)
        ensures
            difference.owner() == self.owner(),
            difference.residue() == (self.residue() + self.owner().modulus() + rhs.residue())
                % self.owner().modulus(),
            difference.residue() < self.owner().modulus(),
    {
        runtime_assert(self.ring == rhs.ring);
        let ring = self.ring;
        proof {
            use_type_invariant(&ring);
        }
        let wide: u128 = (self.value as u128 + ring.module as u128 + rhs.value as u128) % (
        ring.module as u128);
        SmallRingElement { ring, value: wide as u64 }
    }
}

impl MulSpecImpl for SmallRingElement {
    open spec fn obeys_mul_spec() -> bool {
        true
    }

    /// Only elements of one ring are multiplied.
    open spec fn mul_req(self, rhs: SmallRingElement) -> bool {
        self.owner() == rhs.owner()
    }

    /// The product of the two values, reduced by the modulus.
    open spec fn mul_spec(self, rhs: SmallRingElement) -> SmallRingElement {
        self.owner().element(
            ((self.residue() * rhs.residue()) % self.owner().modulus()) as u64,
        )
    }
}

impl Mul for SmallRingElement {
    type Output = SmallRingElement;

    /// The product of the two values, reduced by the modulus.
    ///
    /// Elements of two rings are never multiplied: the precondition holds
    /// verified callers to it, and any other caller is stopped at run time.
    fn mul(self, rhs: SmallRingElement) -> (product: SmallRingElement)
        ensures
            product.owner() == self.owner(),
            product.residue() == (self.residue() * rhs.residue()) % self.owner().modulus(),
            product.residue() < self.owner().modulus(),
    {
        runtime_assert(self.ring == rhs.ring);
        let ring = self.ring;
        proof {
            use_type_invariant(&ring);
            assert(self.value * rhs.value <= 0xffff_ffff_ffff_ffff * 0xffff_ffff_ffff_ffff)
                by (nonlinear_arith)
                requires
                    self.value <= 0xffff_ffff_ffff_ffff,
                    rhs.value <= 0xffff_ffff_ffff_ffff,
            ;
        }
        let wide: u128 = (self.value as u128 * rhs.value as u128) % (ring.module as u128);
        SmallRingElement { ring, value: wide as u64 }
    }
}

impl RemSpecImpl for SmallRingElement {
    open spec fn obeys_rem_spec() -> bool {
        true
    }

    /// There is no remainder by an element that holds zero.
    open spec fn rem_req(self, rhs: SmallRingElement) -> bool {
        rhs.residue() != 0
    }

    /// The remainder of the left value by the right value, in the ring of
    /// the left element.
    open spec fn rem_spec(self, rhs: SmallRingElement) -> SmallRingElement {
        self.owner().element((self.residue() % rhs.residue()) as u64)
    }
}

impl Rem for SmallRingElement {
    type Output = SmallRingElement;

    /// The remainder of the left value by the right value, in the ring of
    /// the left element. The rings are not compared, and the modulus takes
    /// no part.
    fn rem(self, rhs: SmallRingElement) -> (remainder: SmallRingElement)
        ensures
            remainder.owner() == self.owner(),
            remainder.residue() == self.residue() % rhs.residue(),
    {
        let value = self.value % rhs.value;
        self.ring.create_element(value)
    }
}

impl NegSpecImpl for SmallRingElement {
    open spec fn obeys_neg_spec() -> bool {
        true
    }

    open spec fn neg_req(self) -> bool {
        true
    }

    /// The modulus less the reduced value, and zero for zero.
    open spec fn neg_spec(self) -> SmallRingElement {
        self.owner().element(
            ((self.owner().modulus() - self.residue() % self.owner().modulus()) % (
            self.owner().modulus() as int)) as u64,
        )
    }
}

impl Neg for SmallRingElement {
    type Output = SmallRingElement;

    /// The negative: the modulus less the reduced value, and zero for zero.
    /// A value that was not reduced yet is reduced first.
    fn neg(self) -> (negative: SmallRingElement)
        ensures
            negative.owner() == self.owner(),
            negative.residue() == (self.owner().modulus() - self.residue()
                % self.owner().modulus()) % (self.owner().modulus() as int),
            negative.residue() < self.owner().modulus(),
    {
        let ring = self.ring;
        proof {
            use_type_invariant(&ring);
        }
        let m: u64 = ring.module as u64;
        let value = (m - self.value % m) % m;
        ring.create_element(value)
    }
}

impl SmallRingElement {
    /// The sum, where the two elements belong to one ring, and nothing
    /// where they do not.
    pub fn checked_add(self, rhs: SmallRingElement) -> (sum: Option<SmallRingElement>)
        ensures
            sum is Some <==> self.owner() == rhs.owner(),
            sum matches Some(s) ==> s == AddSpec::add_spec(self, rhs),
    {
        if self.ring == rhs.ring {
            Some(self + rhs)
        } else {
            None
        }
    }

    /// What `-` gives, where the two elements belong to one ring, and
    /// nothing where they do not.
    pub fn checked_sub(self, rhs: SmallRingElement) -> (difference: Option<SmallRingElement>)
        ensures
            difference is Some <==> self.owner() == rhs.owner(),
            difference matches Some(d) ==> d == SubSpec::sub_spec(self, rhs),
    {
        if self.ring == rhs.ring {
            Some(self - rhs)
        } else {
            None
        }
    }

    /// The product, where the two elements belong to one ring, and nothing
    /// where they do not.
    pub fn checked_mul(self, rhs: SmallRingElement) -> (product: Option<SmallRingElement>)
        ensures
            product is Some <==> self.owner() == rhs.owner(),
            product matches Some(p) ==> p == MulSpec::mul_spec(self, rhs),
    {
        if self.ring == rhs.ring {
            Some(self * rhs)
        } else {
            None
        }
    }

    /// The remainder, where the right element does not hold zero, and
    /// nothing where it does.
    pub fn checked_rem(self, rhs: SmallRingElement) -> (remainder: Option<SmallRingElement>)
        ensures
            remainder is Some <==> rhs.residue() != 0,
            remainder matches Some(r) ==> r == RemSpec::rem_spec(self, rhs),
    {
        if rhs.value != 0 {
            Some(self % rhs)
        } else {
            None
        }
    }
}

/// Two rings are equal exactly where their moduli are, and a modulus is
/// below 2^32.
pub proof fn lemma_ring_is_its_modulus(r: SmallRing, s: SmallRing)
    ensures
        r == s <==> r.modulus() == s.modulus(),
        r.modulus() <= u32::MAX,
{
}

/// An element is its ring and its value, and a new element holds the raw
/// value it was made from.
pub proof fn lemma_element_is_its_parts(ring: SmallRing, value: u64, e: SmallRingElement)
    ensures
        ring.element(value).owner() == ring,
        ring.element(value).residue() == value,
        e.residue() <= u64::MAX,
        e == e.owner().element(e.residue() as u64),
{
}

/// Every sum, product and negative, and whatever `-` gives, lies below the
/// modulus.
pub proof fn lemma_results_are_reduced(a: SmallRingElement, b: SmallRingElement)
    requires
        a.owner().modulus() > 0,
    ensures
        AddSpec::add_spec(a, b).residue() == (a.residue() + b.residue()) % a.owner().modulus(),
        SubSpec::sub_spec(a, b).residue() == (a.residue() + a.owner().modulus() + b.residue())
            % a.owner().modulus(),
        MulSpec::mul_spec(a, b).residue() == (a.residue() * b.residue()) % a.owner().modulus(),
        NegSpec::neg_spec(a).residue() == (a.owner().modulus() - a.residue()
            % a.owner().modulus()) % (a.owner().modulus() as int),
        AddSpec::add_spec(a, b).residue() < a.owner().modulus(),
        SubSpec::sub_spec(a, b).residue() < a.owner().modulus(),
        MulSpec::mul_spec(a, b).residue() < a.owner().modulus(),
        NegSpec::neg_spec(a).residue() < a.owner().modulus(),
{
    let m = a.owner().modulus() as int;
    lemma_mod_bound((a.residue() + b.residue()) as int, m);
    lemma_mod_bound(a.residue() + m + b.residue(), m);
    lemma_mod_bound((a.residue() * b.residue()) as int, m);
    lemma_mod_bound(a.residue() as int, m);
    lemma_mod_bound(m - a.residue() % (m as nat), m);
    assert(a.residue() * b.residue() >= 0) by (nonlinear_arith);
}

/// A new element plus the zero element holds the value reduced by the
/// modulus.
pub proof fn lemma_add_zero_reduces(ring: SmallRing, value: u64)
    requires
        ring.modulus() > 0,
    ensures
        AddSpec::add_spec(ring.element(value), ring.element(0)).owner() == ring,
        AddSpec::add_spec(ring.element(value), ring.element(0)).residue() == (value as nat)
            % ring.modulus(),
{
    lemma_results_are_reduced(ring.element(value), ring.element(0));
}

/// What `-` gives holds what the sum holds: the modulus that it adds is
/// reduced away.
pub proof fn lemma_sub_holds_the_sum(a: SmallRingElement, b: SmallRingElement)
    requires
        a.owner().modulus() > 0,
    ensures
        SubSpec::sub_spec(a, b) == AddSpec::add_spec(a, b),
{
    let m = a.owner().modulus() as int;
    lemma_mod_multiples_vanish(1, (a.residue() + b.residue()) as int, m);
    assert(m * 1 + (a.residue() + b.residue()) == a.residue() + m + b.residue());
}

/// With the negative of `b` on the right, `-` gives the difference of the
/// two values, reduced by the modulus.
pub proof fn lemma_sub_of_negative_is_difference(a: SmallRingElement, b: SmallRingElement)
    requires
        a.owner().modulus() > 0,
        a.owner() == b.owner(),
    ensures
        SubSpec::sub_spec(a, NegSpec::neg_spec(b)).residue() == (a.residue() - b.residue()) % (
        a.owner().modulus() as int),
{
    let m = a.owner().modulus() as int;
    let x = a.residue() as int;
    let y = b.residue() as int;
    let n = NegSpec::neg_spec(b).residue() as int;
    lemma_results_are_reduced(b, a);
    lemma_results_are_reduced(a, NegSpec::neg_spec(b));
    lemma_fundamental_div_mod(y, m);
    lemma_fundamental_div_mod(m - y % m, m);
    let k = 2 + y / m - (m - y % m) / m;
    assert(x + m + n == m * k + (x - y)) by (nonlinear_arith)
        requires
            y == m * (y / m) + y % m,
            m - y % m == m * ((m - y % m) / m) + n,
            k == 2 + y / m - (m - y % m) / m,
    ;
    lemma_mod_multiples_vanish(k, x - y, m);
}

/// An element and its negative add up to zero.
pub proof fn lemma_negative_cancels(a: SmallRingElement)
    requires
        a.owner().modulus() > 0,
    ensures
        AddSpec::add_spec(a, NegSpec::neg_spec(a)).residue() == 0,
{
    let m = a.owner().modulus() as int;
    let x = a.residue() as int;
    let n = NegSpec::neg_spec(a).residue() as int;
    lemma_results_are_reduced(a, a);
    lemma_results_are_reduced(a, NegSpec::neg_spec(a));
    lemma_fundamental_div_mod(x, m);
    lemma_fundamental_div_mod(m - x % m, m);
    let k = 1 + x / m - (m - x % m) / m;
    assert(x + n == m * k + 0) by (nonlinear_arith)
        requires
            x == m * (x / m) + x % m,
            m - x % m == m * ((m - x % m) / m) + n,
            k == 1 + x / m - (m - x % m) / m,
    ;
    lemma_mod_multiples_vanish(k, 0, m);
    lemma_small_mod(0, m as nat);
}

impl PartialEqSpecImpl for SmallRingElement {
    open spec fn obeys_eq_spec() -> bool {
        true
    }

    /// Two elements are equal where their values are. The rings are not
    /// looked at.
    open spec fn eq_spec(&self, other: &SmallRingElement) -> bool {
        self.residue() == other.residue()
    }
}

impl PartialEq for SmallRingElement {
    fn eq(&self, other: &SmallRingElement) -> (equal: bool) {
        self.value == other.value
    }
}

impl Eq for SmallRingElement {

}

impl PartialOrdSpecImpl for SmallRingElement {
    open spec fn obeys_partial_cmp_spec() -> bool {
        true
    }

    /// Elements are ordered as their values are. The rings are not looked
    /// at.
    open spec fn partial_cmp_spec(&self, other: &SmallRingElement) -> Option<Ordering> {
        Some(order_of(self.residue(), other.residue()))
    }
}

impl PartialOrd for SmallRingElement {
    fn partial_cmp(&self, other: &SmallRingElement) -> (o: Option<Ordering>) {
        Some(self.cmp(other))
    }
}

/// `Hash::hash` of std on a `u64`: it feeds the value to the hasher.
/// Nothing is claimed of what the hasher then holds.
pub assume_specification<H: Hasher>[ <u64 as Hash>::hash ](value: &u64, state: &mut H);

impl Hash for SmallRingElement {
    /// Hashes the value alone, as equality compares the value alone.
    fn hash<H: Hasher>(&self, state: &mut H) {
        self.value.hash(state)
    }
}

} // verus!
