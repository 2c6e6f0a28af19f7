//! Base-field elements as limbs in the scalar field.
//!
//! A coordinate of a point does not fit a scalar, so it leaves a circuit in
//! pieces: `LIMBS` limbs of `BITS` bits each, least significant first.

use crate::bn256::{fr_modulus, Fr};
use crate::bytes::{
    le_value, lemma_le_value_bound, lemma_le_value_padded, lemma_le_value_window,
};
use crate::field::{lemma_pow_unfold, PrimeField};
use vstd::arithmetic::power::{lemma_pow0, lemma_pow_multiplies, pow};
use vstd::prelude::*;

verus! {

/// The number of limbs of a base-field element.
pub const LIMBS: usize = 3;

/// The number of bits of a limb.
pub const BITS: usize = 88;

/// Limb `i` of the number `v`: the bits of `v` from bit `BITS * i` up to, not
/// including, bit `BITS * (i + 1)`.
pub open spec fn limb_of(v: nat, i: nat) -> nat {
    ((v as int / pow(2, (BITS * i) as nat)) % pow(2, BITS as nat)) as nat
}

/// A byte is eight bits: `256^k = 2^(8k)`.
pub proof fn lemma_pow_256(k: nat)
    ensures
        pow(256, k) == pow(2, 8 * k),
{
    assert(pow(2, 8) == 256) by {
        lemma_pow0(2);
        lemma_pow_unfold(2, 1);
        lemma_pow_unfold(2, 2);
        lemma_pow_unfold(2, 3);
        lemma_pow_unfold(2, 4);
        lemma_pow_unfold(2, 5);
        lemma_pow_unfold(2, 6);
        lemma_pow_unfold(2, 7);
        lemma_pow_unfold(2, 8);
    }
    lemma_pow_multiplies(2, 8, k);
}

/// A limb is far below the scalar modulus.
pub proof fn lemma_limb_fits()
    ensures
        pow(256, 11) == 0x10000000000000000000000,
        pow(256, 11) < fr_modulus(),
{
    lemma_pow0(256);
    lemma_pow_unfold(256, 1);
    lemma_pow_unfold(256, 2);
    lemma_pow_unfold(256, 3);
    lemma_pow_unfold(256, 4);
    lemma_pow_unfold(256, 5);
    lemma_pow_unfold(256, 6);
    lemma_pow_unfold(256, 7);
    lemma_pow_unfold(256, 8);
    lemma_pow_unfold(256, 9);
    lemma_pow_unfold(256, 10);
    lemma_pow_unfold(256, 11);
    assert(pow(256, 4) == 0x100000000);
    assert(pow(256, 8) == 0x10000000000000000);
}

/// The limbs of the base-field element that `fe` writes in little-endian
/// bytes, each as a scalar.
pub fn fe_to_limbs(fe: &[u8; 32]) -> (r: Vec<Fr>)
    ensures
        r.len() == LIMBS,
        forall|i: int|
            0 <= i < LIMBS ==> (#[trigger] r[i]).value() == limb_of(le_value(fe@), i as nat),
{
    let ghost padded = fe@.push(0u8);
    proof {
        assert(padded.take(32) =~= fe@);
        lemma_le_value_padded(padded, 32);
    }
    let mut out: Vec<Fr> = Vec::new();
    let mut i: usize = 0;
    while i < 3
        invariant
            i <= 3,
            out.len() == i,
            padded == fe@.push(0u8),
            le_value(padded) == le_value(fe@),
            forall|k: int|
                0 <= k < i ==> (#[trigger] out[k]).value() == limb_of(le_value(fe@), k as nat),
        decreases 3 - i,
    {
        let mut limb = [0u8; 32];
        proof {
            assert(limb == vstd::array::spec_array_fill_for_copy_type::<u8, 32>(0u8));
            assert(forall|k: int| 0 <= k < 32 ==> limb@[k] == 0);
        }
        let mut j: usize = 0;
        while j < 11
            invariant
                j <= 11,
                i < 3,
                padded == fe@.push(0u8),
                forall|k: int| 0 <= k < j ==> limb@[k] == padded[11 * i + k],
                forall|k: int| j <= k < 32 ==> limb@[k] == 0,
            decreases 11 - j,
        {
            let at = 11 * i + j;
            if at < 32 {
                limb[j] = fe[at];
            }
            j += 1;
        }
        proof {
            let start = 11 * i as int;
            assert(limb@.take(11) =~= padded.subrange(start, start + 11));
            lemma_le_value_padded(limb@, 11);
            lemma_le_value_window(padded, start, 11);
            lemma_le_value_bound(limb@.take(11));
            lemma_limb_fits();
            lemma_pow_256(11);
            lemma_pow_256((11 * i) as nat);
            assert(8 * (11 * i) == BITS * i);
        }
        let scalar = Fr::from_bytes(limb).unwrap();
        out.push(scalar);
        i += 1;
    }
    out
}

} // verus!
