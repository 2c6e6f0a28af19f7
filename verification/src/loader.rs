//! Values tagged with the execution context that produced them, and the
//! contexts themselves.
//!
//! The same verification arithmetic runs over plain field elements and over
//! handles to circuit wires. Every operation is described by what it does to
//! the field element or point that a loaded value stands for.

use crate::curve::{msm, CurveAffine, PointValue};
use crate::error::Error;
use crate::field::{
    lemma_mul_congruent, lemma_pow_square, lemma_pow_unfold, lemma_reduced, linear_sum,
    product_of, product_sum, PrimeField,
};
use vstd::arithmetic::div_mod::{lemma_add_mod_noop, lemma_mul_mod_noop_general};
use vstd::arithmetic::power::{lemma_pow0, pow};
use vstd::prelude::*;

verus! {

/// Something that belongs to one execution context. Values of different
/// contexts must not be combined.
pub trait Context {
    /// The identity of the execution context.
    spec fn context(&self) -> int;
}

/// A field element held by an execution context.
pub trait LoadedScalar<F: PrimeField>:
    Sized + Context + Clone + core::fmt::Debug + PartialEq
{
    /// The execution context that values of this type belong to.
    type Loader: Context;

    /// The field element that this value stands for.
    spec fn value(&self) -> nat;

    /// Every loaded value stands for a canonical field element.
    proof fn lemma_canonical(&self)
        ensures
            self.value() < F::modulus(),
    ;

    /// The context that produced this value: the one that the value belongs
    /// to.
    fn loader(&self) -> (r: &Self::Loader)
        ensures
            r.context() == self.context(),
    ;

    /// Another handle to the same field element.
    fn duplicate(&self) -> (r: Self)
        ensures
            r.value() == self.value(),
            r.context() == self.context(),
    ;

    /// The multiplicative identity, loaded in the context of this value.
    fn load_one(&self) -> (r: Self)
        ensures
            r.value() == 1,
            r.context() == self.context(),
    ;

    fn add(&self, rhs: &Self) -> (r: Self)
        requires
            self.context() == rhs.context(),
        ensures
            r.value() == (self.value() + rhs.value()) % F::modulus(),
            r.context() == self.context(),
    ;

    fn sub(&self, rhs: &Self) -> (r: Self)
        requires
            self.context() == rhs.context(),
        ensures
            r.value() == (self.value() - rhs.value()) % (F::modulus() as int),
            r.context() == self.context(),
    ;

    fn mul(&self, rhs: &Self) -> (r: Self)
        requires
            self.context() == rhs.context(),
        ensures
            r.value() == (self.value() * rhs.value()) % F::modulus(),
            r.context() == self.context(),
    ;

    fn neg(&self) -> (r: Self)
        ensures
            r.value() == (-(self.value() as int)) % (F::modulus() as int),
            r.context() == self.context(),
    ;

    /// `a * b + c`.
    fn mul_add(a: &Self, b: &Self, c: &Self) -> (r: Self)
        requires
            a.context() == b.context(),
            a.context() == c.context(),
        ensures
            r.value() == (a.value() * b.value() + c.value()) % F::modulus(),
            r.context() == a.context(),
    ;

    /// `a * b + c` for a constant `c`.
    fn mul_add_constant(a: &Self, b: &Self, c: &F) -> (r: Self)
        requires
            a.context() == b.context(),
        ensures
            r.value() == (a.value() * b.value() + c.value()) % F::modulus(),
            r.context() == a.context(),
    ;

    /// The multiplicative inverse; `None` exactly for zero.
    fn invert(&self) -> (r: Option<Self>)
        ensures
            r is None <==> self.value() == 0,
            r matches Some(inv) ==> (inv.value() * self.value()) % F::modulus() == 1
                && inv.context() == self.context(),
    ;

    fn square(&self) -> (r: Self)
        ensures
            r.value() == (self.value() * self.value()) % F::modulus(),
            r.context() == self.context(),
    {
        self.mul(self)
    }

    /// Inverts every value in place. A value without an inverse keeps the
    /// field element it had.
    fn batch_invert(values: &mut Vec<Self>)
        ensures
            final(values).len() == old(values).len(),
            forall|i: int|
                0 <= i < old(values).len() && (#[trigger] old(values)[i]).value() == 0
                    ==> final(values)[i].value() == 0,
            forall|i: int|
                0 <= i < old(values).len() && (#[trigger] old(values)[i]).value() != 0 ==> (
                final(values)[i].value() * old(values)[i].value()) % F::modulus() == 1,
            forall|i: int|
                0 <= i < old(values).len() ==> final(values)[i].context() == (
                #[trigger] old(values)[i]).context(),
    {
        let n = values.len();
        let mut i: usize = 0;
        while i < n
            invariant
                i <= n,
                values.len() == n,
                n == old(values).len(),
                forall|j: int| i <= j < n ==> values[j] == old(values)[j],
                forall|j: int|
                    0 <= j < i && (#[trigger] old(values)[j]).value() == 0
                        ==> values[j].value() == 0,
                forall|j: int|
                    0 <= j < i && (#[trigger] old(values)[j]).value() != 0 ==> (values[j].value()
                        * old(values)[j].value()) % F::modulus() == 1,
                forall|j: int|
                    0 <= j < i ==> values[j].context() == (#[trigger] old(values)[j]).context(),
            decreases n - i,
        {
            let inverted = match values[i].invert() {
                Some(inv) => inv,
                None => values[i].duplicate(),
            };
            values.set(i, inverted);
            i += 1;
        }
    }

    /// `self` raised to the power `exp`, by binary square-and-multiply.
    fn pow_const(&self, exp: u64) -> (r: Self)
        requires
            exp > 0,
        ensures
            r.value() == pow(self.value() as int, exp as nat) % (F::modulus() as int),
            r.context() == self.context(),
    {
        let ghost p = F::modulus() as int;
        let ghost x = self.value() as int;
        let ghost target = pow(x, exp as nat) % p;
        proof {
            F::lemma_modulus();
        }
        let mut exp = exp;
        let mut base = self.duplicate();
        while exp & 1 == 0
            invariant
                exp > 0,
                p == F::modulus(),
                p > 1,
                base.context() == self.context(),
                pow(base.value() as int, exp as nat) % p == target,
            decreases exp,
        {
            let ghost b = base.value() as int;
            let ghost e = exp;
            base = base.square();
            exp = exp >> 1;
            proof {
                assert(e & 1 == 0 ==> e == 2 * (e >> 1) && (e > 0 ==> (e >> 1) < e && (e >> 1)
                    > 0)) by (bit_vector);
                lemma_pow_square(b, exp as nat, p);
            }
        }
        let mut acc = base.duplicate();
        proof {
            let b = base.value() as int;
            let e = exp;
            assert(e & 1 != 0 ==> e == 2 * (e >> 1) + 1) by (bit_vector);
            assert(e >> 1 == e / 2) by (bit_vector);
            lemma_pow_unfold(b, exp as nat);
        }
        while exp > 1
            invariant
                exp > 0,
                p == F::modulus(),
                p > 1,
                base.context() == self.context(),
                acc.context() == self.context(),
                (acc.value() * pow(base.value() as int, (2 * (exp / 2)) as nat)) % p == target,
            decreases exp,
        {
            let ghost b = base.value() as int;
            let ghost a = acc.value() as int;
            let ghost e = exp;
            exp = exp >> 1;
            base = base.square();
            let ghost b2 = base.value() as int;
            proof {
                assert(e >> 1 == e / 2) by (bit_vector);
                assert(e > 1 ==> (e >> 1) > 0 && (e >> 1) < e) by (bit_vector);
                // b^(2 * (e / 2)) ≡ b2^(e / 2)
                lemma_pow_square(b, exp as nat, p);
                lemma_mul_congruent(a, pow(b, (2 * exp) as nat), pow(b2, exp as nat), p);
            }
            if exp & 1 == 1 {
                acc = acc.mul(&base);
                proof {
                    let h = exp;
                    assert(h & 1 == 1 ==> h == 2 * (h / 2) + 1) by (bit_vector);
                    let rest = pow(b2, (2 * (exp / 2)) as nat);
                    lemma_pow_unfold(b2, exp as nat);
                    // (a * b2 mod p) * rest ≡ a * (b2 * rest)
                    lemma_mul_mod_noop_general(a * b2, rest, p);
                    assert((a * b2) * rest == a * (b2 * rest)) by (nonlinear_arith);
                }
            } else {
                proof {
                    let h = exp;
                    assert(h & 1 != 1 ==> h == 2 * (h / 2)) by (bit_vector);
                }
            }
        }
        proof {
            assert(exp == 1);
            lemma_pow0(base.value() as int);
            acc.lemma_canonical();
            lemma_reduced(acc.value(), F::modulus());
        }
        acc
    }

    /// The first `n` powers of `self`, starting with one.
    fn powers(&self, n: usize) -> (r: Vec<Self>)
        requires
            n > 0,
        ensures
            r.len() == n,
            forall|i: int|
                0 <= i < n ==> (#[trigger] r[i]).value() == pow(self.value() as int, i as nat) % (
                F::modulus() as int) && r[i].context() == self.context(),
    {
        let ghost p = F::modulus() as int;
        let ghost x = self.value() as int;
        let mut out: Vec<Self> = Vec::new();
        out.push(self.load_one());
        proof {
            F::lemma_modulus();
            lemma_pow0(x);
            lemma_reduced(1, F::modulus());
        }
        let mut i: usize = 1;
        while i < n
            invariant
                1 <= i <= n,
                out.len() == i,
                p == F::modulus(),
                x == self.value(),
                p > 1,
                forall|j: int|
                    0 <= j < i ==> (#[trigger] out[j]).value() == pow(x, j as nat) % p
                        && out[j].context() == self.context(),
            decreases n - i,
        {
            let next = out[i - 1].mul(self);
            proof {
                // (x^(i-1) mod p) * x ≡ x^i
                lemma_pow_unfold(x, i as nat);
                lemma_mul_mod_noop_general(pow(x, (i - 1) as nat), x, p);
                let before = pow(x, (i - 1) as nat);
                assert(before * x == x * before) by (nonlinear_arith);
            }
            out.push(next);
            i += 1;
        }
        out
    }
}

/// The `(coefficient, value)` pairs that a slice of weighted values stands for.
pub open spec fn weighted_terms<F: PrimeField, S: LoadedScalar<F>>(values: Seq<(F, &S)>) -> Seq<
    (nat, nat),
> {
    Seq::new(values.len(), |i: int| (values[i].0.value(), values[i].1.value()))
}

/// The `(coefficient, lhs, rhs)` triples that a slice of weighted products
/// stands for.
pub open spec fn weighted_products<F: PrimeField, S: LoadedScalar<F>>(
    values: Seq<(F, &S, &S)>,
) -> Seq<(nat, nat, nat)> {
    Seq::new(values.len(), |i: int| (values[i].0.value(), values[i].1.value(), values[i].2.value()))
}

/// The pairs of a slice of values, each with the coefficient one.
pub open spec fn unit_terms<F: PrimeField, S: LoadedScalar<F>>(values: Seq<&S>) -> Seq<(nat, nat)> {
    Seq::new(values.len(), |i: int| (1nat, values[i].value()))
}

/// The triples of a slice of products, each with the coefficient one.
pub open spec fn unit_products<F: PrimeField, S: LoadedScalar<F>>(values: Seq<(&S, &S)>) -> Seq<
    (nat, nat, nat),
> {
    Seq::new(values.len(), |i: int| (1nat, values[i].0.value(), values[i].1.value()))
}

/// The field elements that a slice of values stands for.
pub open spec fn scalar_values<F: PrimeField, S: LoadedScalar<F>>(values: Seq<&S>) -> Seq<nat> {
    Seq::new(values.len(), |i: int| values[i].value())
}

/// An execution context that holds field elements.
pub trait ScalarLoader<F: PrimeField>: Sized + Context {
    type LoadedScalar: LoadedScalar<F, Loader = Self>;

    /// Lifts a constant into the context.
    fn load_const(&self, value: &F) -> (r: Self::LoadedScalar)
        ensures
            r.value() == value.value(),
            r.context() == self.context(),
    ;

    fn load_zero(&self) -> (r: Self::LoadedScalar)
        ensures
            r.value() == 0,
            r.context() == self.context(),
    {
        let zero = F::zero();
        self.load_const(&zero)
    }

    fn load_one(&self) -> (r: Self::LoadedScalar)
        ensures
            r.value() == 1,
            r.context() == self.context(),
    {
        let one = F::one();
        self.load_const(&one)
    }

    /// Demands that `lhs` and `rhs` stand for the same field element. Equal
    /// values always pass; a failure is a constraint violation that carries
    /// `annotation`.
    fn assert_eq(
        &self,
        annotation: &str,
        lhs: &Self::LoadedScalar,
        rhs: &Self::LoadedScalar,
    ) -> (r: Result<(), Error>)
        requires
            lhs.context() == self.context(),
            rhs.context() == self.context(),
        ensures
            lhs.value() == rhs.value() ==> r is Ok,
            r matches Err(e) ==> e is ConstraintViolation && e.text() == annotation@,
    ;

    /// `constant + Σ coeff_i * value_i`.
    fn sum_with_coeff_and_constant(
        &self,
        values: &[(F, &Self::LoadedScalar)],
        constant: F,
    ) -> (r: Self::LoadedScalar)
        requires
            forall|i: int|
                0 <= i < values.len() ==> (#[trigger] values[i]).1.context() == self.context(),
        ensures
            r.value() == linear_sum(constant.value() as int, weighted_terms(values@)) % (
            F::modulus() as int),
            r.context() == self.context(),
    {
        let ghost p = F::modulus() as int;
        let ghost c = constant.value() as int;
        let ghost terms = weighted_terms(values@);
        proof {
            F::lemma_modulus();
            constant.lemma_canonical();
            lemma_reduced(constant.value(), F::modulus());
        }
        let n = values.len();
        if n == 0 {
            return self.load_const(&constant);
        }
        let loader = values[0].1.loader();
        let mut acc = if values[0].0.is_one() {
            values[0].1.duplicate()
        } else {
            loader.load_const(&values[0].0).mul(values[0].1)
        };
        proof {
            values[0].1.lemma_canonical();
            lemma_reduced(values[0].1.value(), F::modulus());
            assert(terms[0] == (values[0].0.value(), values[0].1.value()));
            assert(1 * values[0].1.value() == values[0].1.value());
            assert(acc.value() == (terms[0].0 * terms[0].1) as int % p);
            assert(terms.take(1).drop_last() =~= terms.take(0));
            assert(linear_sum(0, terms.take(0)) == 0);
            assert(linear_sum(0, terms.take(1)) == terms[0].0 * terms[0].1);
            lemma_linear_sum_shift(c, terms.take(1));
        }
        if !constant.is_zero() {
            acc = loader.load_const(&constant).add(&acc);
            proof {
                lemma_add_mod_noop(c, (terms[0].0 * terms[0].1) as int, p);
            }
        }
        let mut i: usize = 1;
        while i < n
            invariant
                1 <= i <= n,
                n == values.len(),
                terms == weighted_terms(values@),
                p == F::modulus(),
                p > 1,
                loader.context() == self.context(),
                forall|k: int|
                    0 <= k < values.len() ==> (#[trigger] values[k]).1.context() == self.context(),
                acc.context() == self.context(),
                acc.value() == linear_sum(c, terms.take(i as int)) % p,
            decreases n - i,
        {
            let term = if values[i].0.is_one() {
                values[i].1.duplicate()
            } else {
                loader.load_const(&values[i].0).mul(values[i].1)
            };
            let ghost before = linear_sum(c, terms.take(i as int));
            acc = acc.add(&term);
            proof {
                values[i as int].1.lemma_canonical();
                lemma_reduced(values[i as int].1.value(), F::modulus());
                let t = (terms[i as int].0 * terms[i as int].1) as int;
                assert(terms[i as int] == (values[i as int].0.value(), values[i as int].1.value()));
                assert(1 * values[i as int].1.value() == values[i as int].1.value());
                assert(term.value() == t % p);
                assert(terms.take(i + 1).drop_last() =~= terms.take(i as int));
                assert(linear_sum(c, terms.take(i + 1)) == before + t);
                lemma_add_mod_noop(before, t, p);
            }
            i += 1;
        }
        proof {
            assert(terms.take(n as int) =~= terms);
        }
        acc
    }

    /// `constant + Σ coeff_i * lhs_i * rhs_i`.
    fn sum_products_with_coeff_and_constant(
        &self,
        values: &[(F, &Self::LoadedScalar, &Self::LoadedScalar)],
        constant: F,
    ) -> (r: Self::LoadedScalar)
        requires
            forall|i: int|
                0 <= i < values.len() ==> (#[trigger] values[i]).1.context() == self.context()
                    && values[i].2.context() == self.context(),
        ensures
            r.value() == product_sum(constant.value() as int, weighted_products(values@)) % (
            F::modulus() as int),
            r.context() == self.context(),
    {
        let ghost p = F::modulus() as int;
        let ghost c = constant.value() as int;
        let ghost terms = weighted_products(values@);
        proof {
            F::lemma_modulus();
            constant.lemma_canonical();
            lemma_reduced(constant.value(), F::modulus());
        }
        let n = values.len();
        if n == 0 {
            return self.load_const(&constant);
        }
        let loader = values[0].1.loader();
        let mut acc = if values[0].0.is_one() {
            values[0].1.mul(values[0].2)
        } else {
            loader.load_const(&values[0].0).mul(values[0].1).mul(values[0].2)
        };
        proof {
            assert(terms[0] == (values[0].0.value(), values[0].1.value(), values[0].2.value()));
            lemma_triple_product(terms[0].0, terms[0].1, terms[0].2, F::modulus());
            assert(terms.take(1).drop_last() =~= terms.take(0));
            assert(product_sum(0, terms.take(0)) == 0);
            assert(product_sum(0, terms.take(1)) == terms[0].0 * terms[0].1 * terms[0].2);
            lemma_product_sum_shift(c, terms.take(1));
        }
        if !constant.is_zero() {
            acc = loader.load_const(&constant).add(&acc);
            proof {
                lemma_add_mod_noop(c, (terms[0].0 * terms[0].1 * terms[0].2) as int, p);
            }
        }
        let mut i: usize = 1;
        while i < n
            invariant
                1 <= i <= n,
                n == values.len(),
                terms == weighted_products(values@),
                p == F::modulus(),
                p > 1,
                loader.context() == self.context(),
                forall|k: int|
                    0 <= k < values.len() ==> (#[trigger] values[k]).1.context() == self.context()
                        && values[k].2.context() == self.context(),
                acc.context() == self.context(),
                acc.value() == product_sum(c, terms.take(i as int)) % p,
            decreases n - i,
        {
            let term = if values[i].0.is_one() {
                values[i].1.mul(values[i].2)
            } else {
                loader.load_const(&values[i].0).mul(values[i].1).mul(values[i].2)
            };
            let ghost before = product_sum(c, terms.take(i as int));
            acc = acc.add(&term);
            proof {
                let k = i as int;
                let t = (terms[k].0 * terms[k].1 * terms[k].2) as int;
                assert(terms[k] == (values[k].0.value(), values[k].1.value(), values[k].2.value()));
                lemma_triple_product(terms[k].0, terms[k].1, terms[k].2, F::modulus());
                assert(term.value() == t % p);
                assert(terms.take(i + 1).drop_last() =~= terms.take(k));
                assert(product_sum(c, terms.take(i + 1)) == before + t);
                lemma_add_mod_noop(before, t, p);
            }
            i += 1;
        }
        proof {
            assert(terms.take(n as int) =~= terms);
        }
        acc
    }

    /// `Σ coeff_i * value_i`.
    fn sum_with_coeff(&self, values: &[(F, &Self::LoadedScalar)]) -> (r: Self::LoadedScalar)
        requires
            forall|i: int|
                0 <= i < values.len() ==> (#[trigger] values[i]).1.context() == self.context(),
        ensures
            r.value() == linear_sum(0, weighted_terms(values@)) % (F::modulus() as int),
            r.context() == self.context(),
    {
        self.sum_with_coeff_and_constant(values, F::zero())
    }

    /// `Σ coeff_i * lhs_i * rhs_i`.
    fn sum_products_with_coeff(
        &self,
        values: &[(F, &Self::LoadedScalar, &Self::LoadedScalar)],
    ) -> (r: Self::LoadedScalar)
        requires
            forall|i: int|
                0 <= i < values.len() ==> (#[trigger] values[i]).1.context() == self.context()
                    && values[i].2.context() == self.context(),
        ensures
            r.value() == product_sum(0, weighted_products(values@)) % (F::modulus() as int),
            r.context() == self.context(),
    {
        self.sum_products_with_coeff_and_constant(values, F::zero())
    }

    /// `Σ lhs_i * rhs_i`.
    fn sum_products(&self, values: &[(&Self::LoadedScalar, &Self::LoadedScalar)]) -> (r:
        Self::LoadedScalar)
        requires
            forall|i: int|
                0 <= i < values.len() ==> (#[trigger] values[i]).0.context() == self.context()
                    && values[i].1.context() == self.context(),
        ensures
            r.value() == product_sum(0, unit_products(values@)) % (F::modulus() as int),
            r.context() == self.context(),
    {
        let n = values.len();
        let mut weighted: Vec<(F, &Self::LoadedScalar, &Self::LoadedScalar)> = Vec::new();
        let mut i: usize = 0;
        while i < n
            invariant
                i <= n,
                n == values.len(),
                weighted.len() == i,
                forall|k: int|
                    0 <= k < values.len() ==> (#[trigger] values[k]).0.context() == self.context()
                        && values[k].1.context() == self.context(),
                forall|j: int|
                    0 <= j < i ==> (#[trigger] weighted[j]).0.value() == 1 && weighted[j].1
                        == values[j].0 && weighted[j].2 == values[j].1,
            decreases n - i,
        {
            weighted.push((F::one(), values[i].0, values[i].1));
            i += 1;
        }
        proof {
            assert(weighted_products(weighted@) =~= unit_products(values@));
        }
        self.sum_products_with_coeff_and_constant(weighted.as_slice(), F::zero())
    }

    /// `constant + Σ value_i`.
    fn sum_with_const(&self, values: &[&Self::LoadedScalar], constant: F) -> (r: Self::LoadedScalar)
        requires
            forall|i: int|
                0 <= i < values.len() ==> (#[trigger] values[i]).context() == self.context(),
        ensures
            r.value() == linear_sum(constant.value() as int, unit_terms(values@)) % (
            F::modulus() as int),
            r.context() == self.context(),
    {
        let n = values.len();
        let mut weighted: Vec<(F, &Self::LoadedScalar)> = Vec::new();
        let mut i: usize = 0;
        while i < n
            invariant
                i <= n,
                n == values.len(),
                weighted.len() == i,
                forall|k: int|
                    0 <= k < values.len() ==> (#[trigger] values[k]).context() == self.context(),
                forall|j: int|
                    0 <= j < i ==> (#[trigger] weighted[j]).0.value() == 1 && weighted[j].1
                        == values[j],
            decreases n - i,
        {
            weighted.push((F::one(), values[i]));
            i += 1;
        }
        proof {
            assert(weighted_terms(weighted@) =~= unit_terms(values@));
        }
        self.sum_with_coeff_and_constant(weighted.as_slice(), constant)
    }

    /// `Σ value_i`.
    fn sum(&self, values: &[&Self::LoadedScalar]) -> (r: Self::LoadedScalar)
        requires
            forall|i: int|
                0 <= i < values.len() ==> (#[trigger] values[i]).context() == self.context(),
        ensures
            r.value() == linear_sum(0, unit_terms(values@)) % (F::modulus() as int),
            r.context() == self.context(),
    {
        self.sum_with_const(values, F::zero())
    }

    /// `Π value_i`; one for an empty slice.
    fn product(&self, values: &[&Self::LoadedScalar]) -> (r: Self::LoadedScalar)
        requires
            forall|i: int|
                0 <= i < values.len() ==> (#[trigger] values[i]).context() == self.context(),
        ensures
            r.value() == product_of(scalar_values(values@)) % (F::modulus() as int),
            r.context() == self.context(),
    {
        let ghost p = F::modulus() as int;
        let ghost factors = scalar_values(values@);
        let n = values.len();
        let mut acc = self.load_one();
        proof {
            F::lemma_modulus();
            lemma_reduced(1, F::modulus());
        }
        let mut i: usize = 0;
        while i < n
            invariant
                i <= n,
                n == values.len(),
                factors == scalar_values(values@),
                p == F::modulus(),
                p > 1,
                forall|k: int|
                    0 <= k < values.len() ==> (#[trigger] values[k]).context() == self.context(),
                acc.context() == self.context(),
                acc.value() == product_of(factors.take(i as int)) % p,
            decreases n - i,
        {
            let ghost before = product_of(factors.take(i as int));
            acc = acc.mul(values[i]);
            proof {
                let k = i as int;
                assert(factors[k] == values[k].value());
                assert(factors.take(i + 1).drop_last() =~= factors.take(k));
                assert(product_of(factors.take(i + 1)) == before * factors[k]);
                lemma_mul_mod_noop_general(before, factors[k] as int, p);
            }
            i += 1;
        }
        proof {
            assert(factors.take(n as int) =~= factors);
        }
        acc
    }
}

/// Moving the constant of a sum of products out of the sum.
pub proof fn lemma_product_sum_shift(c: int, terms: Seq<(nat, nat, nat)>)
    ensures
        product_sum(c, terms) == c + product_sum(0, terms),
    decreases terms.len(),
{
    if terms.len() > 0 {
        lemma_product_sum_shift(c, terms.drop_last());
    }
}

/// A product of three canonical numbers, reduced after each multiplication or
/// with a leading factor one left out, is the reduced product.
pub proof fn lemma_triple_product(a: nat, l: nat, r: nat, p: nat)
    requires
        p > 0,
    ensures
        (((a * l) % p) * r) % p == (a * l * r) % p,
        a == 1 ==> (l * r) % p == (a * l * r) % p,
{
    lemma_mul_mod_noop_general((a * l) as int, r as int, p as int);
    if a == 1 {
        assert(a * l == l);
    }
}

/// Moving the constant of a linear sum out of the sum.
pub proof fn lemma_linear_sum_shift(c: int, terms: Seq<(nat, nat)>)
    ensures
        linear_sum(c, terms) == c + linear_sum(0, terms),
    decreases terms.len(),
{
    if terms.len() > 0 {
        lemma_linear_sum_shift(c, terms.drop_last());
    }
}

/// A curve point held by an execution context.
pub trait LoadedEcPoint<C: CurveAffine>:
    Sized + Context + Clone + core::fmt::Debug + PartialEq
{
    /// The execution context that values of this type belong to.
    type Loader: Context;

    /// The scalars of the same context.
    type LoadedScalar: LoadedScalar<C::Scalar>;

    /// The point that this value stands for.
    spec fn value(&self) -> PointValue;

    /// The context that produced this value: the one that the value belongs
    /// to.
    fn loader(&self) -> (r: &Self::Loader)
        ensures
            r.context() == self.context(),
    ;

    /// Another handle to the same point.
    fn duplicate(&self) -> (r: Self)
        ensures
            r.value() == self.value(),
            r.context() == self.context(),
    ;

    /// The combination `Σ scalar_i · point_i` of at least one pair, all of
    /// one context.
    fn multi_scalar_multiplication(pairs: Vec<(Self::LoadedScalar, Self)>) -> (r: Self)
        requires
            pairs.len() > 0,
            forall|i: int|
                0 <= i < pairs.len() ==> (#[trigger] pairs[i]).0.context() == pairs[0].1.context()
                    && pairs[i].1.context() == pairs[0].1.context(),
        ensures
            r.value() == msm::<C>(
                Seq::new(pairs@.len(), |i: int| (pairs@[i].0.value(), pairs@[i].1.value())),
            ),
            r.context() == pairs[0].1.context(),
    ;
}

/// An execution context that holds curve points.
pub trait EcPointLoader<C: CurveAffine>: Sized + Context {
    type LoadedEcPoint: LoadedEcPoint<C, Loader = Self>;

    /// Lifts a constant point into the context.
    fn ec_point_load_const(&self, value: &C) -> (r: Self::LoadedEcPoint)
        ensures
            r.value() == value.value(),
            r.context() == self.context(),
    ;

    fn ec_point_load_zero(&self) -> (r: Self::LoadedEcPoint)
        ensures
            r.value() == C::identity_value(),
            r.context() == self.context(),
    {
        let identity = C::identity();
        self.ec_point_load_const(&identity)
    }

    fn ec_point_load_one(&self) -> (r: Self::LoadedEcPoint)
        ensures
            r.value() == C::generator_value(),
            r.context() == self.context(),
    {
        let generator = C::generator();
        self.ec_point_load_const(&generator)
    }

    /// Demands that `lhs` and `rhs` stand for the same point. Equal points
    /// always pass; a failure is a constraint violation that carries
    /// `annotation`.
    fn ec_point_assert_eq(
        &self,
        annotation: &str,
        lhs: &Self::LoadedEcPoint,
        rhs: &Self::LoadedEcPoint,
    ) -> (r: Result<(), Error>)
        requires
            lhs.context() == self.context(),
            rhs.context() == self.context(),
        ensures
            lhs.value() == rhs.value() ==> r is Ok,
            r matches Err(e) ==> e is ConstraintViolation && e.text() == annotation@,
    ;
}

/// An execution context for both scalars and points of one curve.
pub trait Loader<C: CurveAffine>:
    EcPointLoader<C> + ScalarLoader<C::Scalar> + Clone + core::fmt::Debug
{
    /// Picks `a` where `sel` is one and `b` where `sel` is zero. A selector
    /// that is no bit is refused.
    fn ec_point_select(
        &self,
        a: &Self::LoadedEcPoint,
        b: &Self::LoadedEcPoint,
        sel: &Self::LoadedScalar,
    ) -> (r: Result<Self::LoadedEcPoint, Error>)
        requires
            a.context() == self.context(),
            b.context() == self.context(),
            sel.context() == self.context(),
        ensures
            sel.value() == 1 ==> r is Ok && r->Ok_0.value() == a.value(),
            sel.value() == 0 ==> r is Ok && r->Ok_0.value() == b.value(),
            sel.value() > 1 ==> r is Err,
            r matches Ok(point) ==> point.context() == self.context(),
    ;

    /// Opens a named region for cost metering. Does nothing by default.
    fn start_cost_metering(&self, _tag: &str) {
    }

    /// Closes the region that was opened last. Does nothing by default.
    fn end_cost_metering(&self) {
    }
}

} // verus!
