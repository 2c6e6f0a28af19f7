//! The execution context of plain arithmetic: a loaded value is the value.

use crate::bn256::{
    fr_add, fr_invert, fr_modulus, fr_mul, fr_neg, fr_sub, g1_add, g1_mul, Fr, G1Affine,
};
use crate::curve::{msm, CurveAffine, PointValue};
use crate::error::Error;
use crate::field::PrimeField;
use crate::loader::{
    Context, EcPointLoader, LoadedEcPoint, LoadedScalar, Loader, ScalarLoader,
};
use vstd::arithmetic::div_mod::lemma_add_mod_noop;
use vstd::prelude::*;

verus! {

/// The context that computes on field elements and points directly. There
/// is one such context, and this type has no other value.
#[derive(Clone, Copy, Debug, PartialEq, Eq)]
pub struct NativeLoader;

impl Context for NativeLoader {
    /// There is one context of plain arithmetic.
    open spec fn context(&self) -> int {
        0
    }
}

impl Context for Fr {
    open spec fn context(&self) -> int {
        0
    }
}

impl Context for G1Affine {
    open spec fn context(&self) -> int {
        0
    }
}

impl LoadedScalar<Fr> for Fr {
    type Loader = NativeLoader;

    open spec fn value(&self) -> nat {
        PrimeField::value(self)
    }

    proof fn lemma_canonical(&self) {
        PrimeField::lemma_canonical(self);
    }

    fn loader(&self) -> (r: &NativeLoader) {
        &NativeLoader
    }

    fn duplicate(&self) -> (r: Self) {
        *self
    }

    fn load_one(&self) -> (r: Self) {
        Fr::one()
    }

    fn add(&self, rhs: &Self) -> (r: Self) {
        proof {
            use_type_invariant(self);
            use_type_invariant(rhs);
        }
        fr_add(self, rhs)
    }

    fn sub(&self, rhs: &Self) -> (r: Self) {
        proof {
            use_type_invariant(self);
            use_type_invariant(rhs);
        }
        fr_sub(self, rhs)
    }

    fn mul(&self, rhs: &Self) -> (r: Self) {
        proof {
            use_type_invariant(self);
            use_type_invariant(rhs);
        }
        fr_mul(self, rhs)
    }

    fn neg(&self) -> (r: Self) {
        proof {
            use_type_invariant(self);
        }
        fr_neg(self)
    }

    fn mul_add(a: &Self, b: &Self, c: &Self) -> (r: Self) {
        proof {
            use_type_invariant(a);
            use_type_invariant(b);
            use_type_invariant(c);
        }
        let product = fr_mul(a, b);
        proof {
            PrimeField::lemma_canonical(c);
            lemma_add_mod_noop(
                (PrimeField::value(a) * PrimeField::value(b)) as int,
                PrimeField::value(c) as int,
                fr_modulus() as int,
            );
            vstd::arithmetic::div_mod::lemma_small_mod(PrimeField::value(c), fr_modulus());
        }
        fr_add(&product, c)
    }

    fn mul_add_constant(a: &Self, b: &Self, c: &Fr) -> (r: Self) {
        <Fr as LoadedScalar<Fr>>::mul_add(a, b, c)
    }

    fn invert(&self) -> (r: Option<Self>) {
        proof {
            use_type_invariant(self);
        }
        fr_invert(self)
    }
}

impl ScalarLoader<Fr> for NativeLoader {
    type LoadedScalar = Fr;

    fn load_const(&self, value: &Fr) -> (r: Fr) {
        *value
    }

    /// Equal scalars pass; unequal scalars are a constraint violation.
    fn assert_eq(&self, annotation: &str, lhs: &Fr, rhs: &Fr) -> (r: Result<(), Error>)
        ensures
            r is Ok <==> LoadedScalar::value(lhs) == LoadedScalar::value(rhs),
    {
        if lhs.equals(rhs) {
            Ok(())
        } else {
            Err(Error::ConstraintViolation(annotation.to_owned()))
        }
    }
}

impl LoadedEcPoint<G1Affine> for G1Affine {
    type Loader = NativeLoader;

    type LoadedScalar = Fr;

    open spec fn value(&self) -> PointValue {
        CurveAffine::value(self)
    }

    fn loader(&self) -> (r: &NativeLoader) {
        &NativeLoader
    }

    fn duplicate(&self) -> (r: Self) {
        *self
    }

    fn multi_scalar_multiplication(pairs: Vec<(Fr, G1Affine)>) -> (r: Self) {
        let ghost terms = Seq::new(
            pairs@.len(),
            |i: int| (LoadedScalar::value(&pairs@[i].0), LoadedEcPoint::value(&pairs@[i].1)),
        );
        let n = pairs.len();
        let scalar = &pairs[0].0;
        let point = &pairs[0].1;
        proof {
            use_type_invariant(scalar);
            use_type_invariant(point);
            assert(terms.take(1) =~= seq![terms[0]]);
        }
        let mut acc = g1_mul(scalar, point);
        let mut i: usize = 1;
        while i < n
            invariant
                1 <= i <= n,
                n == pairs.len(),
                terms.len() == n,
                forall|j: int|
                    0 <= j < n ==> terms[j] == (
                        LoadedScalar::value(&pairs@[j].0),
                        LoadedEcPoint::value(&pairs@[j].1),
                    ),
                acc.valid(),
                acc.coordinates() == msm::<G1Affine>(terms.take(i as int)),
            decreases n - i,
        {
            let scalar = &pairs[i].0;
            let point = &pairs[i].1;
            proof {
                use_type_invariant(scalar);
                use_type_invariant(point);
            }
            let term = g1_mul(scalar, point);
            acc = g1_add(&acc, &term);
            proof {
                let next = terms.take(i + 1);
                assert(next.drop_last() =~= terms.take(i as int));
                assert(next.last() == terms[i as int]);
            }
            i += 1;
        }
        proof {
            assert(terms.take(n as int) =~= terms);
        }
        acc
    }
}

impl EcPointLoader<G1Affine> for NativeLoader {
    type LoadedEcPoint = G1Affine;

    fn ec_point_load_const(&self, value: &G1Affine) -> (r: G1Affine) {
        let r = *value;
        proof {
            assert(LoadedEcPoint::value(&r) == CurveAffine::value(&r));
        }
        r
    }

    /// Equal points pass; unequal points are a constraint violation.
    fn ec_point_assert_eq(&self, annotation: &str, lhs: &G1Affine, rhs: &G1Affine) -> (r: Result<
        (),
        Error,
    >)
        ensures
            r is Ok <==> LoadedEcPoint::value(lhs) == LoadedEcPoint::value(rhs),
    {
        if lhs.equals(rhs) {
            Ok(())
        } else {
            Err(Error::ConstraintViolation(annotation.to_owned()))
        }
    }
}

impl Loader<G1Affine> for NativeLoader {
    fn ec_point_select(&self, a: &G1Affine, b: &G1Affine, sel: &Fr) -> (r: Result<
        G1Affine,
        Error,
    >) {
        if sel.is_one() {
            Ok(*a)
        } else if sel.is_zero() {
            Ok(*b)
        } else {
            Err(Error::MalformedInput("selector is not a bit".to_owned()))
        }
    }
}

} // verus!
