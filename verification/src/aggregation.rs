//! Aggregation of a batch of verified proofs in the plain-arithmetic context.
//!
//! Each proof of the batch has left an accumulator. The batch is brought down
//! to one accumulator, with the proof of the folding where there was more
//! than one, and that accumulator is laid out as the limbs that a circuit
//! exposes.

use crate::accumulation::{
    accumulator_values, all_accepted, blinding, create_proof, folded_accumulator, written_blind,
    KzgAccumulator, KzgAsProvingKey, KzgAsVerifyingKey,
};
use crate::blake2b::Blake2bTranscript;
use crate::bn256::{chacha20_scalar, Fr, G1Affine};
use crate::bytes::le_value;
use crate::curve::PointValue;
use crate::field::PrimeField;
use crate::kzg::KzgSuccinctVerifyingKey;
use crate::limbs::{fe_to_limbs, limb_of, LIMBS};
use crate::loader::LoadedEcPoint;
use crate::native::NativeLoader;
use vstd::prelude::*;

verus! {

/// The coordinate of an accumulator that its limb `k` belongs to: the
/// coordinates are laid out as `lhs.x`, `lhs.y`, `rhs.x`, `rhs.y`.
pub open spec fn coordinate_of(accumulator: (PointValue, PointValue), k: int) -> nat {
    let c = k / (LIMBS as int);
    if c == 0 {
        accumulator.0.0
    } else if c == 1 {
        accumulator.0.1
    } else if c == 2 {
        accumulator.1.0
    } else {
        accumulator.1.1
    }
}

/// The limbs of an accumulator: those of each of its four coordinates, one
/// coordinate after the other.
pub open spec fn accumulator_limbs(accumulator: (PointValue, PointValue)) -> Seq<nat> {
    Seq::new(
        4 * LIMBS as nat,
        |k: int| limb_of(coordinate_of(accumulator, k), (k % (LIMBS as int)) as nat),
    )
}

/// The limbs of an accumulator as scalars.
pub fn limbs_of_accumulator(accumulator: &KzgAccumulator<G1Affine>) -> (r: Vec<Fr>)
    ensures
        r.len() == 4 * LIMBS,
        forall|k: int|
            0 <= k < 4 * LIMBS ==> (#[trigger] r[k]).value() == accumulator_limbs(
                (accumulator.lhs.value(), accumulator.rhs.value()),
            )[k],
{
    let ghost values = (
        LoadedEcPoint::value(&accumulator.lhs),
        LoadedEcPoint::value(&accumulator.rhs),
    );
    let coordinates = [
        accumulator.lhs.x(),
        accumulator.lhs.y(),
        accumulator.rhs.x(),
        accumulator.rhs.y(),
    ];
    let mut out: Vec<Fr> = Vec::new();
    let mut c: usize = 0;
    while c < 4
        invariant
            c <= 4,
            out.len() == LIMBS * c,
            le_value(coordinates@[0]@) == values.0.0,
            le_value(coordinates@[1]@) == values.0.1,
            le_value(coordinates@[2]@) == values.1.0,
            le_value(coordinates@[3]@) == values.1.1,
            forall|k: int|
                0 <= k < LIMBS * c ==> (#[trigger] out[k]).value() == accumulator_limbs(values)[k],
        decreases 4 - c,
    {
        let mut limbs = fe_to_limbs(&coordinates[c]);
        let ghost before = out@;
        let ghost fresh = limbs@;
        out.append(&mut limbs);
        proof {
            assert forall|k: int| 0 <= k < LIMBS * (c + 1) implies (#[trigger] out[k]).value()
                == accumulator_limbs(values)[k] by {
                if k < LIMBS * c {
                    assert(out[k] == before[k]);
                } else {
                    let i = k - LIMBS * c;
                    assert(out[k] == fresh[i]);
                    assert(k / (LIMBS as int) == c && k % (LIMBS as int) == i);
                }
            }
        }
        c += 1;
    }
    out
}

/// A batch of accumulators brought down to one, ready to be handed to a
/// circuit that verifies the batch again.
pub struct Accumulation {
    svk: G1Affine,
    accumulators: Vec<KzgAccumulator<G1Affine>>,
    accumulator: KzgAccumulator<G1Affine>,
    instances: Vec<Fr>,
    as_vk: KzgAsVerifyingKey,
    as_proof: Option<Vec<u8>>,
}

/// The seed of the generator that blinds a folding.
pub open spec fn blinding_seed() -> Seq<u8> {
    Seq::new(32, |i: int| 0u8)
}

impl Accumulation {
    /// The rows of the instance column that hold the accumulator: the first
    /// `4 * LIMBS` rows of column zero.
    pub fn accumulator_indices() -> (r: Vec<(usize, usize)>)
        ensures
            r.len() == 4 * LIMBS,
            forall|i: int| 0 <= i < r.len() ==> r[i] == (0usize, i as usize),
    {
        let mut out: Vec<(usize, usize)> = Vec::new();
        let mut idx: usize = 0;
        while idx < 4 * LIMBS
            invariant
                idx <= 4 * LIMBS,
                out.len() == idx,
                forall|i: int| 0 <= i < idx ==> out[i] == (0usize, i as usize),
            decreases 4 * LIMBS - idx,
        {
            out.push((0, idx));
            idx += 1;
        }
        out
    }

    /// Brings `accumulators` down to one under the setup powers
    /// `g = [1]` and `s_g = [τ]`. One accumulator is kept as it is, with no
    /// proof. Several are folded, blinded by the scalar that the fixed seed
    /// gives, over a fresh transcript whose bytes become the proof.
    pub fn new(g: G1Affine, s_g: G1Affine, accumulators: Vec<KzgAccumulator<G1Affine>>) -> (r:
        Self)
        requires
            0 < accumulators.len() < usize::MAX,
        ensures
            r.svk() == g.value(),
            r.as_vk().zk(),
            r.accumulators() == accumulator_values::<G1Affine, G1Affine>(accumulators@),
            r.instance_values() == accumulator_limbs(r.accumulator()),
            accumulators.len() == 1 ==> r.proof_bytes() is None && r.accumulator() == (
                accumulators[0].lhs.value(),
                accumulators[0].rhs.value(),
            ),
            accumulators.len() > 1 ==> {
                let blind = blinding::<G1Affine>(
                    Some((g, s_g)),
                    chacha20_scalar(blinding_seed()),
                );
                &&& r.proof_bytes() == Some(
                    written_blind::<G1Affine, NativeLoader, Blake2bTranscript>(blind),
                )
                &&& r.accumulator() == folded_accumulator::<
                    G1Affine,
                    NativeLoader,
                    Blake2bTranscript,
                >(Seq::empty(), accumulator_values::<G1Affine, G1Affine>(accumulators@), blind)
            },
    {
        let as_pk = KzgAsProvingKey::new(Some((g, s_g)));
        let ghost values = accumulator_values::<G1Affine, G1Affine>(accumulators@);
        let (accumulator, as_proof) = if accumulators.len() > 1 {
            let seed = [0u8; 32];
            proof {
                assert(seed == vstd::array::spec_array_fill_for_copy_type::<u8, 32>(0u8));
                assert(seed@ =~= blinding_seed());
            }
            let blind = Fr::from_seed(&seed);
            let mut transcript = Blake2bTranscript::new(Vec::new());
            let folded = create_proof::<G1Affine, NativeLoader, Blake2bTranscript>(
                &as_pk,
                &accumulators,
                &mut transcript,
                &blind,
            );
            proof {
                assert(all_accepted::<G1Affine, NativeLoader, Blake2bTranscript>(
                    values,
                    blinding::<G1Affine>(as_pk.powers, blind.value()),
                ));
                assert(Seq::<u8>::empty().add(
                    written_blind::<G1Affine, NativeLoader, Blake2bTranscript>(
                        blinding::<G1Affine>(Some((g, s_g)), chacha20_scalar(blinding_seed())),
                    ),
                ) =~= written_blind::<G1Affine, NativeLoader, Blake2bTranscript>(
                    blinding::<G1Affine>(Some((g, s_g)), chacha20_scalar(blinding_seed())),
                ));
            }
            (folded.unwrap(), Some(transcript.finalize()))
        } else {
            (
                KzgAccumulator::new(accumulators[0].lhs, accumulators[0].rhs),
                None,
            )
        };
        let instances = limbs_of_accumulator(&accumulator);
        proof {
            assert(Seq::new(instances@.len(), |k: int| instances@[k].value()) =~= accumulator_limbs(
                (accumulator.lhs.value(), accumulator.rhs.value()),
            ));
        }
        Accumulation { svk: g, accumulators, accumulator, instances, as_vk: as_pk.vk(), as_proof }
    }

    /// The first power of the setup, the key of succinct verification.
    pub closed spec fn svk(&self) -> PointValue {
        self.svk.value()
    }

    /// The key for verifying the folding.
    pub closed spec fn as_vk(&self) -> KzgAsVerifyingKey {
        self.as_vk
    }

    /// The accumulators of the batch.
    pub closed spec fn accumulators(&self) -> Seq<(PointValue, PointValue)> {
        accumulator_values::<G1Affine, G1Affine>(self.accumulators@)
    }

    /// The accumulator that the batch was brought down to.
    pub closed spec fn accumulator(&self) -> (PointValue, PointValue) {
        (self.accumulator.lhs.value(), self.accumulator.rhs.value())
    }

    /// The limbs of the accumulator as numbers.
    pub closed spec fn instance_values(&self) -> Seq<nat> {
        Seq::new(self.instances@.len(), |k: int| self.instances@[k].value())
    }

    /// The bytes of the proof of the folding, where there was one.
    pub closed spec fn proof_bytes(&self) -> Option<Seq<u8>> {
        match self.as_proof {
            Some(bytes) => Some(bytes@),
            None => None,
        }
    }

    /// The public inputs of a circuit that verifies the batch: one column,
    /// which holds the limbs of the accumulator.
    pub fn instances(&self) -> (r: Vec<Vec<Fr>>)
        ensures
            r.len() == 1,
            Seq::new(r[0]@.len(), |k: int| r[0]@[k].value()) == self.instance_values(),
    {
        let mut column: Vec<Fr> = Vec::new();
        let mut k: usize = 0;
        while k < self.instances.len()
            invariant
                k <= self.instances.len(),
                column.len() == k,
                forall|i: int| 0 <= i < k ==> column[i] == self.instances[i],
            decreases self.instances.len() - k,
        {
            column.push(self.instances[k]);
            k += 1;
        }
        proof {
            assert(Seq::new(column@.len(), |i: int| column@[i].value()) =~= self.instance_values());
        }
        let mut out: Vec<Vec<Fr>> = Vec::new();
        out.push(column);
        out
    }

    /// The bytes of the proof of the folding; `None` where one accumulator
    /// needed no folding.
    pub fn as_proof(&self) -> (r: Option<&[u8]>)
        ensures
            r is Some <==> self.proof_bytes() is Some,
            r matches Some(bytes) ==> Some(bytes@) == self.proof_bytes(),
    {
        match &self.as_proof {
            Some(bytes) => Some(bytes.as_slice()),
            None => None,
        }
    }

    /// The key of succinct verification: the first power of the setup.
    pub fn succinct_verifying_key(&self) -> (r: KzgSuccinctVerifyingKey<G1Affine>)
        ensures
            r.g.value() == self.svk(),
    {
        KzgSuccinctVerifyingKey::new(self.svk)
    }

    /// The key for verifying the folding.
    pub fn verifying_key(&self) -> (r: KzgAsVerifyingKey)
        ensures
            r == self.as_vk(),
    {
        self.as_vk
    }

    /// The accumulator that the batch was brought down to.
    pub fn final_accumulator(&self) -> (r: KzgAccumulator<G1Affine>)
        ensures
            (r.lhs.value(), r.rhs.value()) == self.accumulator(),
    {
        KzgAccumulator::new(self.accumulator.lhs, self.accumulator.rhs)
    }
}

} // verus!
