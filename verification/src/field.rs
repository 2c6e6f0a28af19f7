//! The arithmetic model that every contract of this crate is stated over.
//!
//! A field element is identified with its canonical representative, a natural
//! number below the modulus. Sums, products and powers are the ordinary integer
//! operations followed by a reduction.

use vstd::arithmetic::div_mod::{
    lemma_add_mod_noop, lemma_mul_mod_noop_general, lemma_small_mod,
};
use vstd::arithmetic::power::{lemma_pow0, lemma_pow_mod_noop, lemma_pow_multiplies, pow};
use vstd::prelude::*;

verus! {

/// A prime field whose elements are identified with their canonical
/// representatives in `0..modulus()`.
pub trait PrimeField: Sized {
    /// The number of elements of the field.
    spec fn modulus() -> nat;

    /// The canonical representative of this element.
    spec fn value(&self) -> nat;

    /// The modulus is at least two, so zero and one are distinct.
    proof fn lemma_modulus()
        ensures
            Self::modulus() > 1,
    ;

    /// Every element is represented by a number below the modulus.
    proof fn lemma_canonical(&self)
        ensures
            self.value() < Self::modulus(),
    ;

    /// The additive identity.
    fn zero() -> (r: Self)
        ensures
            r.value() == 0,
    ;

    /// The multiplicative identity.
    fn one() -> (r: Self)
        ensures
            r.value() == 1,
    ;

    /// Whether this is the additive identity.
    fn is_zero(&self) -> (b: bool)
        ensures
            b == (self.value() == 0),
    ;

    /// Whether this is the multiplicative identity.
    fn is_one(&self) -> (b: bool)
        ensures
            b == (self.value() == 1),
    ;
}

/// The sum `c + Σ coeff_i * value_i` over the integers, where `terms` holds
/// the pairs `(coeff_i, value_i)`.
pub open spec fn linear_sum(c: int, terms: Seq<(nat, nat)>) -> int
    decreases terms.len(),
{
    if terms.len() == 0 {
        c
    } else {
        linear_sum(c, terms.drop_last()) + terms.last().0 * terms.last().1
    }
}

/// The sum `c + Σ coeff_i * lhs_i * rhs_i` over the integers, where `terms`
/// holds the triples `(coeff_i, lhs_i, rhs_i)`.
pub open spec fn product_sum(c: int, terms: Seq<(nat, nat, nat)>) -> int
    decreases terms.len(),
{
    if terms.len() == 0 {
        c
    } else {
        product_sum(c, terms.drop_last()) + terms.last().0 * terms.last().1 * terms.last().2
    }
}

/// The product of all numbers in `factors` over the integers; one when empty.
pub open spec fn product_of(factors: Seq<nat>) -> int
    decreases factors.len(),
{
    if factors.len() == 0 {
        1
    } else {
        product_of(factors.drop_last()) * factors.last()
    }
}

/// Multiplying both sides of a congruence by the same number keeps it.
pub proof fn lemma_mul_congruent(a: int, x: int, y: int, p: int)
    requires
        p > 0,
        x % p == y % p,
    ensures
        (a * x) % p == (a * y) % p,
{
    lemma_mul_mod_noop_general(a, x, p);
    lemma_mul_mod_noop_general(a, y, p);
}

/// A power with a positive exponent splits off one factor.
pub proof fn lemma_pow_unfold(b: int, e: nat)
    requires
        e > 0,
    ensures
        pow(b, e) == b * pow(b, (e - 1) as nat),
{
    reveal(pow);
}

/// Squaring the base, reduced, halves the exponent: `((b²) mod p)^k ≡ b^(2k)`.
pub proof fn lemma_pow_square(b: int, k: nat, p: int)
    requires
        p > 0,
    ensures
        pow((b * b) % p, k) % p == pow(b, 2 * k) % p,
{
    lemma_pow_mod_noop(b * b, k, p);
    assert(pow(b, 2) == b * b) by {
        lemma_pow_unfold(b, 2);
        lemma_pow_unfold(b, 1);
        lemma_pow0(b);
    }
    lemma_pow_multiplies(b, 2, k);
}

/// A canonical representative is its own remainder.
pub proof fn lemma_reduced(x: nat, p: nat)
    requires
        x < p,
    ensures
        (x as int) % (p as int) == x,
{
    lemma_small_mod(x, p);
}

/// A field element has at most one inverse, so inverting one by one and
/// inverting a whole batch agree on every element that has one.
pub proof fn lemma_inverse_unique(p: nat, x: nat, a: nat, b: nat)
    requires
        a < p,
        b < p,
        (a * x) % p == 1,
        (b * x) % p == 1,
    ensures
        a == b,
{
    let m = p as int;
    // a ≡ a * (b * x) = b * (a * x) ≡ b
    lemma_mul_mod_noop_general(a as int, (b * x) as int, m);
    lemma_mul_mod_noop_general(b as int, (a * x) as int, m);
    assert(a * (b * x) == b * (a * x)) by (nonlinear_arith);
    assert(a * 1 == a && b * 1 == b);
    lemma_small_mod(a, p);
    lemma_small_mod(b, p);
}

/// The terms `(c_j, v_j)` of the combination of `values` with the
/// coefficients `coeffs`.
pub open spec fn weigh(coeffs: Seq<nat>, values: Seq<nat>) -> Seq<(nat, nat)> {
    Seq::new(coeffs.len(), |j: int| (coeffs[j], values[j]))
}

/// A linear combination keeps a common ratio: where every `a_j` is `t` times
/// `b_j`, the combination of the `a_j` is `t` times that of the `b_j`. This
/// is why a combination of accumulators `(a_j · G, b_j · G)` that satisfy the
/// pairing equation for `t = τ` satisfies it again.
pub proof fn lemma_linear_sum_scales(p: nat, t: nat, coeffs: Seq<nat>, a: Seq<nat>, b: Seq<nat>)
    requires
        p > 0,
        coeffs.len() == a.len(),
        coeffs.len() == b.len(),
        forall|j: int| 0 <= j < coeffs.len() ==> a[j] % p == (t * #[trigger] b[j]) % p,
    ensures
        linear_sum(0, weigh(coeffs, a)) % (p as int) == (t * linear_sum(0, weigh(coeffs, b))) % (
        p as int),
    decreases coeffs.len(),
{
    let m = p as int;
    let n = coeffs.len() as int;
    if n == 0 {
        assert(t * 0 == 0);
    } else {
        let c = coeffs.last();
        let (x, y) = (a.last(), b.last());
        let head_a = linear_sum(0, weigh(coeffs.drop_last(), a.drop_last()));
        let head_b = linear_sum(0, weigh(coeffs.drop_last(), b.drop_last()));
        assert forall|j: int| 0 <= j < n - 1 implies a.drop_last()[j] % p == (t
            * #[trigger] b.drop_last()[j]) % p by {
            assert(b.drop_last()[j] == b[j]);
        }
        lemma_linear_sum_scales(p, t, coeffs.drop_last(), a.drop_last(), b.drop_last());
        assert(weigh(coeffs, a).drop_last() =~= weigh(coeffs.drop_last(), a.drop_last()));
        assert(weigh(coeffs, b).drop_last() =~= weigh(coeffs.drop_last(), b.drop_last()));
        assert(linear_sum(0, weigh(coeffs, a)) == head_a + c * x);
        assert(linear_sum(0, weigh(coeffs, b)) == head_b + c * y);
        // c * x ≡ c * (t * y) = t * (c * y)
        assert(b[n - 1] == y);
        lemma_mul_congruent(c as int, x as int, (t * y) as int, m);
        assert(c * (t * y) == t * (c * y)) by (nonlinear_arith);
        assert(t * (head_b + c * y) == t * head_b + t * (c * y)) by (nonlinear_arith);
        lemma_add_mod_noop(head_a, (c * x) as int, m);
        lemma_add_mod_noop(t * head_b, (t * (c * y)) as int, m);
    }
}

} // verus!
