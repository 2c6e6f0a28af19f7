//! The model of an elliptic-curve group that point contracts are stated over.
//!
//! A point is identified with its affine coordinates, each the canonical
//! representative of a base-field element. The group law itself is supplied
//! by the curve; this crate only combines its results.

use crate::field::PrimeField;
use vstd::prelude::*;

verus! {

/// The affine coordinates `(x, y)` of a point.
pub type PointValue = (nat, nat);

/// A curve in affine form, with its group law stated over coordinates.
pub trait CurveAffine: Sized {
    /// The field of scalars that multiply points of this curve.
    type Scalar: PrimeField;

    /// The coordinates of this point.
    spec fn value(&self) -> PointValue;

    /// The coordinates that stand for the neutral element.
    spec fn identity_value() -> PointValue;

    /// The coordinates of the fixed generator.
    spec fn generator_value() -> PointValue;

    /// The sum of two points.
    spec fn add_value(a: PointValue, b: PointValue) -> PointValue;

    /// The point `a` taken `k` times.
    spec fn mul_value(k: nat, a: PointValue) -> PointValue;

    /// The neutral element.
    fn identity() -> (r: Self)
        ensures
            r.value() == Self::identity_value(),
    ;

    /// The fixed generator.
    fn generator() -> (r: Self)
        ensures
            r.value() == Self::generator_value(),
    ;
}

/// The combination `Σ k_i · P_i` of the pairs `(k_i, P_i)`, summed from the
/// left. The combination of no pairs is the neutral element.
pub open spec fn msm<C: CurveAffine>(pairs: Seq<(nat, PointValue)>) -> PointValue
    decreases pairs.len(),
{
    if pairs.len() == 0 {
        C::identity_value()
    } else if pairs.len() == 1 {
        C::mul_value(pairs[0].0, pairs[0].1)
    } else {
        C::add_value(msm::<C>(pairs.drop_last()), C::mul_value(pairs.last().0, pairs.last().1))
    }
}

} // verus!
