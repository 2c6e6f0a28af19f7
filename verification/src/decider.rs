//! The final check of an accumulator, for a caller that holds the pairing.

use crate::accumulation::KzgAccumulator;
use crate::bn256::{bn256_pairing, pairing_equal, G1Affine, G2Affine};
use crate::error::Error;
use crate::loader::LoadedEcPoint;
use vstd::prelude::*;

verus! {

/// The key of the final check: the powers `[1]` and `[τ]` of the setup in
/// the second group.
#[derive(Clone, Copy, Debug)]
pub struct KzgDecidingKey {
    pub g2: G2Affine,
    pub s_g2: G2Affine,
}

impl KzgDecidingKey {
    pub fn new(g2: G2Affine, s_g2: G2Affine) -> (r: Self)
        ensures
            r.g2 == g2,
            r.s_g2 == s_g2,
    {
        KzgDecidingKey { g2, s_g2 }
    }
}

/// Whether the accumulator `(lhs, rhs)` satisfies `e(lhs, [1]) = e(rhs, [τ])`
/// under the key `([1], [τ])`.
pub open spec fn pairing_holds(
    accumulator: ((nat, nat), (nat, nat)),
    g2: ((nat, nat), (nat, nat)),
    s_g2: ((nat, nat), (nat, nat)),
) -> bool {
    bn256_pairing(accumulator.0, g2) == bn256_pairing(accumulator.1, s_g2)
}

/// Performs the deferred pairing check of one accumulator. An accumulator
/// that does not satisfy the equation is a constraint violation.
pub fn decide(dk: &KzgDecidingKey, accumulator: &KzgAccumulator<G1Affine>) -> (r: Result<(), Error>)
    ensures
        r is Ok <==> pairing_holds(
            (accumulator.lhs.value(), accumulator.rhs.value()),
            dk.g2.coordinates(),
            dk.s_g2.coordinates(),
        ),
        r matches Err(e) ==> e is ConstraintViolation,
{
    let lhs = &accumulator.lhs;
    let rhs = &accumulator.rhs;
    let g2 = &dk.g2;
    let s_g2 = &dk.s_g2;
    proof {
        use_type_invariant(lhs);
        use_type_invariant(rhs);
        use_type_invariant(g2);
        use_type_invariant(s_g2);
    }
    if pairing_equal(lhs, g2, rhs, s_g2) {
        Ok(())
    } else {
        Err(Error::ConstraintViolation("e(lhs, [1]) != e(rhs, [tau])".to_owned()))
    }
}

/// Performs the deferred pairing check of every accumulator. It passes
/// where all hold, and for no accumulators; the first that does not hold is
/// a constraint violation.
pub fn decide_all(dk: &KzgDecidingKey, accumulators: &Vec<KzgAccumulator<G1Affine>>) -> (r: Result<
    (),
    Error,
>)
    ensures
        r is Ok <==> (forall|i: int|
            0 <= i < accumulators.len() ==> pairing_holds(
                ((#[trigger] accumulators[i]).lhs.value(), accumulators[i].rhs.value()),
                dk.g2.coordinates(),
                dk.s_g2.coordinates(),
            )),
        r matches Err(e) ==> e is ConstraintViolation,
{
    let mut i: usize = 0;
    while i < accumulators.len()
        invariant
            i <= accumulators.len(),
            forall|j: int|
                0 <= j < i ==> pairing_holds(
                    ((#[trigger] accumulators[j]).lhs.value(), accumulators[j].rhs.value()),
                    dk.g2.coordinates(),
                    dk.s_g2.coordinates(),
                ),
        decreases accumulators.len() - i,
    {
        match decide(dk, &accumulators[i]) {
            Ok(_) => {},
            Err(e) => {
                return Err(e);
            },
        }
        i += 1;
    }
    Ok(())
}

} // verus!
