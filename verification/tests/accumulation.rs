use halo2curves::bn256::{
    Fr as OutsideFr, G1Affine as OutsideG1, G2Affine as OutsideG2, G1 as OutsideProjective,
};
use halo2curves::ff::Field;
use halo2curves::group::cofactor::CofactorGroup;
use halo2curves::CurveAffine as OutsideCurve;
use halo2curves::group::prime::PrimeCurveAffine;
use halo2curves::group::{Curve, Group};
use rand_chacha::rand_core::SeedableRng;
use rand_chacha::ChaCha20Rng;
use snark_verifier::accumulation::{
    accumulate, create_proof, read_proof, verify, KzgAccumulator, KzgAsProof, KzgAsProvingKey,
    KzgAsVerifyingKey,
};
use snark_verifier::aggregation::{limbs_of_accumulator, Accumulation};
use snark_verifier::blake2b::Blake2bTranscript;
use snark_verifier::bn256::{Fr, G1Affine, G2Affine};
use snark_verifier::curve::CurveAffine;
use snark_verifier::decider::{decide, decide_all, KzgDecidingKey};
use snark_verifier::field::PrimeField;
use snark_verifier::limbs::{fe_to_limbs, BITS, LIMBS};
use snark_verifier::native::NativeLoader;
use snark_verifier::transcript::Transcript;

fn scalar(seed: u8) -> OutsideFr {
    OutsideFr::random(ChaCha20Rng::from_seed([seed; 32]))
}

fn tau() -> OutsideFr {
    scalar(200)
}

fn inside_scalar(x: &OutsideFr) -> Fr {
    Fr::from_bytes(x.to_bytes()).unwrap()
}

fn outside_scalar(x: &Fr) -> OutsideFr {
    OutsideFr::from_bytes(&x.to_bytes()).unwrap()
}

fn inside(p: &OutsideG1) -> G1Affine {
    G1Affine::from_xy(p.x.to_bytes(), p.y.to_bytes()).unwrap()
}

fn outside(p: &G1Affine) -> OutsideG1 {
    OutsideG1 {
        x: halo2curves::bn256::Fq::from_bytes(&p.x()).unwrap(),
        y: halo2curves::bn256::Fq::from_bytes(&p.y()).unwrap(),
    }
}

fn inside_g2(p: &OutsideG2) -> G2Affine {
    G2Affine::from_xy(p.x.to_bytes(), p.y.to_bytes()).unwrap()
}

fn g(k: &OutsideFr) -> OutsideG1 {
    (OutsideG1::generator() * k).to_affine()
}

fn deciding_key() -> KzgDecidingKey {
    let h = OutsideG2::generator();
    let s_h = (h * tau()).to_affine();
    KzgDecidingKey::new(inside_g2(&h), inside_g2(&s_h))
}

fn proving_key() -> KzgAsProvingKey<G1Affine> {
    KzgAsProvingKey::new(Some((G1Affine::generator(), inside(&g(&tau())))))
}

fn valid(seed: u8) -> KzgAccumulator<G1Affine> {
    let b = scalar(seed);
    KzgAccumulator::new(inside(&g(&(b * tau()))), inside(&g(&b)))
}

fn invalid(seed: u8) -> KzgAccumulator<G1Affine> {
    let b = scalar(seed);
    KzgAccumulator::new(inside(&g(&(b * tau() + OutsideFr::ONE))), inside(&g(&b)))
}

fn copy(acc: &KzgAccumulator<G1Affine>) -> KzgAccumulator<G1Affine> {
    KzgAccumulator::new(acc.lhs, acc.rhs)
}

fn same(a: &KzgAccumulator<G1Affine>, b: &KzgAccumulator<G1Affine>) -> bool {
    a.lhs.equals(&b.lhs) && a.rhs.equals(&b.rhs)
}

fn prove(
    pk: &KzgAsProvingKey<G1Affine>,
    instances: &Vec<KzgAccumulator<G1Affine>>,
    blind: u8,
) -> (KzgAccumulator<G1Affine>, Vec<u8>) {
    let mut transcript = Blake2bTranscript::new(Vec::new());
    let folded = create_proof::<G1Affine, NativeLoader, Blake2bTranscript>(
        pk,
        instances,
        &mut transcript,
        &inside_scalar(&scalar(blind)),
    )
    .unwrap();
    (folded, transcript.finalize())
}

#[test]
fn the_second_group_takes_its_points_only() {
    let h = OutsideG2::generator();
    assert!(G2Affine::from_xy(h.x.to_bytes(), h.y.to_bytes()).is_some());
    assert!(G2Affine::from_xy([0u8; 64], [0u8; 64]).is_some());
    assert!(G2Affine::from_xy(h.y.to_bytes(), h.x.to_bytes()).is_none());
    let mut one = [0u8; 64];
    one[0] = 1;
    assert!(G2Affine::from_xy(one, one).is_none());
    assert!(G2Affine::from_xy([0xff; 64], h.y.to_bytes()).is_none());
    let mut high = h.x.to_bytes();
    high[32..].copy_from_slice(&[0xff; 32]);
    assert!(G2Affine::from_xy(high, h.y.to_bytes()).is_none());
}

#[test]
fn a_point_of_the_curve_outside_the_second_group_is_refused() {
    let mut x = halo2curves::bn256::Fq2::from(1u64);
    let found = loop {
        let candidate = x.square() * x + OutsideG2::b();
        if let Some(y) = Option::<halo2curves::bn256::Fq2>::from(candidate.sqrt()) {
            let p = OutsideG2::from_xy(x, y).unwrap();
            if !bool::from(p.to_curve().is_torsion_free()) {
                break p;
            }
        }
        x += halo2curves::bn256::Fq2::ONE;
    };
    assert!(G2Affine::from_xy(found.x.to_bytes(), found.y.to_bytes()).is_none());
}

#[test]
fn a_valid_accumulator_passes_the_pairing_check() {
    let dk = deciding_key();
    assert!(decide(&dk, &valid(1)).is_ok());
    assert!(decide(&dk, &valid(2)).is_ok());
    assert!(decide(&dk, &KzgAccumulator::new(G1Affine::identity(), G1Affine::identity())).is_ok());
}

#[test]
fn an_invalid_accumulator_fails_the_pairing_check() {
    let dk = deciding_key();
    assert!(decide(&dk, &invalid(1)).is_err());
    assert!(decide(&dk, &KzgAccumulator::new(valid(1).lhs, valid(2).rhs)).is_err());
    assert!(decide(&dk, &KzgAccumulator::new(valid(1).rhs, valid(1).lhs)).is_err());
}

#[test]
fn decide_all_holds_where_every_check_holds() {
    let dk = deciding_key();
    assert!(decide_all(&dk, &vec![valid(1), valid(2), valid(3)]).is_ok());
    assert!(decide_all(&dk, &vec![valid(1), invalid(2), valid(3)]).is_err());
    assert!(decide_all(&dk, &vec![valid(1), valid(2), invalid(3)]).is_err());
    assert!(decide_all(&dk, &Vec::new()).is_ok());
}

#[test]
fn folding_one_accumulator_returns_it_unchanged() {
    let acc = valid(1);
    for zk in [false, true] {
        let vk = KzgAsVerifyingKey::new(zk);
        let mut transcript = Blake2bTranscript::new(Vec::new());
        let folded = accumulate::<G1Affine, NativeLoader, Blake2bTranscript>(
            &vk,
            vec![copy(&acc)],
            &mut transcript,
        )
        .unwrap();
        assert!(same(&folded, &acc));
        let mut fresh = Blake2bTranscript::new(Vec::new());
        assert!(transcript.squeeze_challenge().equals(&fresh.squeeze_challenge()));
    }
}

#[test]
fn folding_one_invalid_accumulator_keeps_it_invalid() {
    let vk = KzgAsVerifyingKey::new(true);
    let mut transcript = Blake2bTranscript::new(Vec::new());
    let folded = accumulate::<G1Affine, NativeLoader, Blake2bTranscript>(
        &vk,
        vec![invalid(1)],
        &mut transcript,
    )
    .unwrap();
    assert!(same(&folded, &invalid(1)));
    assert!(decide(&deciding_key(), &folded).is_err());
}

#[test]
fn folding_valid_accumulators_gives_a_valid_accumulator() {
    let dk = deciding_key();
    for n in 2u8..6 {
        let instances: Vec<_> = (0..n).map(|i| valid(10 + i)).collect();
        let (folded, proof) = prove(&proving_key(), &instances, 50);
        assert_eq!(proof.len(), 128);
        assert!(decide(&dk, &folded).is_ok());
        let (folded, proof) = prove(&KzgAsProvingKey::new(None), &instances, 50);
        assert!(proof.is_empty());
        assert!(decide(&dk, &folded).is_ok());
    }
}

#[test]
fn folding_with_an_invalid_accumulator_gives_an_invalid_accumulator() {
    let dk = deciding_key();
    let instances = vec![valid(1), invalid(2), valid(3)];
    let (folded, _) = prove(&proving_key(), &instances, 50);
    assert!(decide(&dk, &folded).is_err());
    let instances = vec![invalid(1), valid(2)];
    let (folded, _) = prove(&KzgAsProvingKey::new(None), &instances, 50);
    assert!(decide(&dk, &folded).is_err());
}

#[test]
fn the_verifier_folds_to_the_accumulator_of_the_prover() {
    let pk = proving_key();
    let instances = vec![valid(1), valid(2), valid(3)];
    let (expected, proof) = prove(&pk, &instances, 51);
    let mut transcript = Blake2bTranscript::new(proof);
    let folded = accumulate::<G1Affine, NativeLoader, Blake2bTranscript>(
        &pk.vk(),
        vec![valid(1), valid(2), valid(3)],
        &mut transcript,
    )
    .unwrap();
    assert!(same(&folded, &expected));
    assert!(!same(&folded, &instances[0]));
}

#[test]
fn the_fold_order_changes_the_accumulator_and_not_its_validity() {
    let dk = deciding_key();
    let pk = proving_key();
    let (forward, forward_proof) = prove(&pk, &vec![valid(1), valid(2)], 52);
    let (backward, backward_proof) = prove(&pk, &vec![valid(2), valid(1)], 52);
    assert!(decide(&dk, &forward).is_ok());
    assert!(decide(&dk, &backward).is_ok());
    assert!(!same(&forward, &backward));

    let mut transcript = Blake2bTranscript::new(backward_proof);
    let replayed = accumulate::<G1Affine, NativeLoader, Blake2bTranscript>(
        &pk.vk(),
        vec![valid(2), valid(1)],
        &mut transcript,
    )
    .unwrap();
    assert!(same(&replayed, &backward));

    let mut transcript = Blake2bTranscript::new(forward_proof);
    let crossed = accumulate::<G1Affine, NativeLoader, Blake2bTranscript>(
        &pk.vk(),
        vec![valid(2), valid(1)],
        &mut transcript,
    )
    .unwrap();
    assert!(!same(&crossed, &forward));
    assert!(decide(&dk, &crossed).is_ok());
}

#[test]
fn the_folded_sides_are_the_combinations_by_powers_of_the_challenge() {
    let instances = vec![valid(1), valid(2), valid(3)];
    let vk = KzgAsVerifyingKey::new(false);
    let mut transcript = Blake2bTranscript::new(Vec::new());
    let proof =
        read_proof::<G1Affine, NativeLoader, Blake2bTranscript>(&vk, &instances, &mut transcript)
            .unwrap();
    assert!(proof.blind.is_none());

    let mut absorbed = Blake2bTranscript::new(Vec::new());
    for acc in instances.iter() {
        absorbed.common_ec_point(&acc.lhs).unwrap();
        absorbed.common_ec_point(&acc.rhs).unwrap();
    }
    assert!(proof.r.equals(&absorbed.squeeze_challenge()));

    let r = outside_scalar(&proof.r);
    let folded = verify::<G1Affine, G1Affine>(&instances, &proof).unwrap();
    let mut lhs = OutsideProjective::identity();
    let mut rhs = OutsideProjective::identity();
    let mut power = OutsideFr::ONE;
    for acc in instances.iter() {
        lhs += outside(&acc.lhs) * power;
        rhs += outside(&acc.rhs) * power;
        power *= r;
    }
    assert!(folded.lhs.equals(&inside(&lhs.to_affine())));
    assert!(folded.rhs.equals(&inside(&rhs.to_affine())));
}

#[test]
fn verify_weighs_the_second_accumulator_by_the_challenge() {
    let instances = vec![valid(1), valid(2)];
    let proof = KzgAsProof { blind: None, r: inside_scalar(&OutsideFr::from(2)) };
    let folded = verify::<G1Affine, G1Affine>(&instances, &proof).unwrap();
    let lhs = outside(&instances[0].lhs) + outside(&instances[1].lhs) * OutsideFr::from(2);
    assert!(folded.lhs.equals(&inside(&lhs.to_affine())));

    let blind = valid(9);
    let proof = KzgAsProof {
        blind: Some((blind.lhs, blind.rhs)),
        r: inside_scalar(&OutsideFr::from(3)),
    };
    let folded = verify::<G1Affine, G1Affine>(&instances, &proof).unwrap();
    let rhs = outside(&instances[0].rhs)
        + outside(&instances[1].rhs) * OutsideFr::from(3)
        + outside(&blind.rhs) * OutsideFr::from(9);
    assert!(folded.rhs.equals(&inside(&rhs.to_affine())));
}

#[test]
fn verify_of_one_accumulator_returns_its_points() {
    let instances = vec![valid(4)];
    let proof = KzgAsProof { blind: None, r: inside_scalar(&scalar(77)) };
    let folded = verify::<G1Affine, G1Affine>(&instances, &proof).unwrap();
    assert!(same(&folded, &instances[0]));
}

#[test]
fn the_blinding_accumulator_is_the_scalar_times_the_setup_powers() {
    let pk = proving_key();
    let (_, proof) = prove(&pk, &vec![valid(1), valid(2)], 53);
    let s = scalar(53);
    let lhs = g(&(s * tau()));
    let rhs = g(&s);
    assert_eq!(&proof[..32], &lhs.x.to_bytes());
    assert_eq!(&proof[32..64], &lhs.y.to_bytes());
    assert_eq!(&proof[64..96], &rhs.x.to_bytes());
    assert_eq!(&proof[96..], &rhs.y.to_bytes());
}

#[test]
fn a_changed_proof_does_not_fold_to_the_accumulator_of_the_prover() {
    let pk = proving_key();
    let (expected, proof) = prove(&pk, &vec![valid(1), valid(2)], 54);
    for at in [0usize, 31, 40, 64, 100, 127] {
        let mut changed = proof.clone();
        changed[at] ^= 1;
        let mut transcript = Blake2bTranscript::new(changed);
        match accumulate::<G1Affine, NativeLoader, Blake2bTranscript>(
            &pk.vk(),
            vec![valid(1), valid(2)],
            &mut transcript,
        ) {
            Ok(folded) => assert!(!same(&folded, &expected)),
            Err(e) => assert!(e.is_malformed_input()),
        }
    }
}

#[test]
fn a_proof_that_ends_early_is_refused() {
    let pk = proving_key();
    let (_, proof) = prove(&pk, &vec![valid(1), valid(2)], 55);
    for len in [0usize, 63, 64, 127] {
        let mut transcript = Blake2bTranscript::new(proof[..len].to_vec());
        let r = accumulate::<G1Affine, NativeLoader, Blake2bTranscript>(
            &pk.vk(),
            vec![valid(1), valid(2)],
            &mut transcript,
        );
        assert!(r.unwrap_err().is_malformed_input());
    }
}

#[test]
fn the_keys_agree_on_blinding() {
    assert!(proving_key().zk());
    assert!(proving_key().vk().is_zk());
    let plain: KzgAsProvingKey<G1Affine> = KzgAsProvingKey::new(None);
    assert!(!plain.zk());
    assert!(!plain.vk().is_zk());
    assert!(KzgAsVerifyingKey::new(true).is_zk());
    assert!(!KzgAsVerifyingKey::new(false).is_zk());
}

#[test]
fn an_aggregation_of_one_keeps_the_accumulator_and_has_no_proof() {
    let acc = valid(1);
    let aggregation =
        Accumulation::new(G1Affine::generator(), inside(&g(&tau())), vec![copy(&acc)]);
    assert!(aggregation.as_proof().is_none());
    assert!(same(&aggregation.final_accumulator(), &acc));
    let instances = aggregation.instances();
    assert_eq!(instances.len(), 1);
    let expected = limbs_of_accumulator(&acc);
    assert_eq!(instances[0].len(), expected.len());
    for (a, b) in instances[0].iter().zip(expected.iter()) {
        assert!(a.equals(b));
    }
}

#[test]
fn an_aggregation_of_two_folds_them_with_a_proof_that_replays() {
    let dk = deciding_key();
    let aggregation =
        Accumulation::new(G1Affine::generator(), inside(&g(&tau())), vec![valid(1), valid(2)]);
    let proof = aggregation.as_proof().unwrap().to_vec();
    assert_eq!(proof.len(), 128);
    let folded = aggregation.final_accumulator();
    assert!(decide(&dk, &folded).is_ok());

    let (expected, expected_proof) = {
        let mut transcript = Blake2bTranscript::new(Vec::new());
        let folded = create_proof::<G1Affine, NativeLoader, Blake2bTranscript>(
            &proving_key(),
            &vec![valid(1), valid(2)],
            &mut transcript,
            &Fr::from_seed(&[0u8; 32]),
        )
        .unwrap();
        (folded, transcript.finalize())
    };
    assert!(same(&folded, &expected));
    assert_eq!(proof, expected_proof);

    let mut transcript = Blake2bTranscript::new(proof);
    let replayed = accumulate::<G1Affine, NativeLoader, Blake2bTranscript>(
        &KzgAsVerifyingKey::new(true),
        vec![valid(1), valid(2)],
        &mut transcript,
    )
    .unwrap();
    assert!(same(&replayed, &folded));

    let instances = aggregation.instances();
    let expected = limbs_of_accumulator(&folded);
    assert_eq!(instances[0].len(), 4 * LIMBS);
    for (a, b) in instances[0].iter().zip(expected.iter()) {
        assert!(a.equals(b));
    }
}

#[test]
fn the_accumulator_sits_in_the_first_rows_of_the_first_column() {
    let indices = Accumulation::accumulator_indices();
    assert_eq!(indices.len(), 12);
    for (i, index) in indices.iter().enumerate() {
        assert_eq!(*index, (0, i));
    }
}

#[test]
fn limbs_are_the_bits_of_the_element_in_order() {
    assert_eq!(LIMBS, 3);
    assert_eq!(BITS, 88);
    let mut fe = [0u8; 32];
    for (i, byte) in fe.iter_mut().enumerate() {
        *byte = i as u8 + 1;
    }
    let limbs = fe_to_limbs(&fe);
    assert_eq!(limbs.len(), 3);
    for (i, limb) in limbs.iter().enumerate() {
        let bytes = limb.to_bytes();
        let end = (11 * i + 11).min(32);
        let width = end - 11 * i;
        assert_eq!(&bytes[..width], &fe[11 * i..end]);
        assert!(bytes[width..].iter().all(|b| *b == 0));
    }
    let shift = OutsideFr::from(2).pow([88u64]);
    let recomposed = outside_scalar(&limbs[0])
        + outside_scalar(&limbs[1]) * shift
        + outside_scalar(&limbs[2]) * shift * shift;
    let mut wide = [0u8; 64];
    wide[..32].copy_from_slice(&fe);
    let expected = <OutsideFr as halo2curves::ff::FromUniformBytes<64>>::from_uniform_bytes(&wide);
    assert_eq!(recomposed, expected);
}

#[test]
fn limbs_of_small_and_of_full_elements() {
    let limbs = fe_to_limbs(&[0u8; 32]);
    assert!(limbs.iter().all(|l| l.is_zero()));
    let mut one = [0u8; 32];
    one[0] = 1;
    let limbs = fe_to_limbs(&one);
    assert!(limbs[0].is_one());
    assert!(limbs[1].is_zero());
    assert!(limbs[2].is_zero());
    let limbs = fe_to_limbs(&[0xff; 32]);
    let low = OutsideFr::from(2).pow([88u64]) - OutsideFr::ONE;
    let high = OutsideFr::from(2).pow([80u64]) - OutsideFr::ONE;
    assert_eq!(outside_scalar(&limbs[0]), low);
    assert_eq!(outside_scalar(&limbs[1]), low);
    assert_eq!(outside_scalar(&limbs[2]), high);
}

#[test]
fn the_limbs_of_an_accumulator_follow_its_coordinates() {
    let acc = valid(5);
    let limbs = limbs_of_accumulator(&acc);
    assert_eq!(limbs.len(), 12);
    let coordinates = [acc.lhs.x(), acc.lhs.y(), acc.rhs.x(), acc.rhs.y()];
    for (c, coordinate) in coordinates.iter().enumerate() {
        let expected = fe_to_limbs(coordinate);
        for i in 0..3 {
            assert!(limbs[3 * c + i].equals(&expected[i]));
        }
    }
}
