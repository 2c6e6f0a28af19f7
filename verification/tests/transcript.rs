use halo2curves::bn256::{Fr as OutsideFr, G1Affine as OutsideG1};
use halo2curves::ff::{Field, FromUniformBytes};
use halo2curves::group::prime::PrimeCurveAffine;
use halo2curves::group::Curve;
use rand_chacha::rand_core::SeedableRng;
use rand_chacha::ChaCha20Rng;
use snark_verifier::blake2b::Blake2bTranscript;
use snark_verifier::bn256::{Fr, G1Affine};
use snark_verifier::curve::CurveAffine;
use snark_verifier::field::PrimeField;
use snark_verifier::transcript::{Transcript, TranscriptRead, TranscriptState, TranscriptWrite};

fn fr(v: u64) -> Fr {
    let mut bytes = [0u8; 32];
    bytes[..8].copy_from_slice(&v.to_le_bytes());
    Fr::from_bytes(bytes).unwrap()
}

fn inside(p: &OutsideG1) -> G1Affine {
    G1Affine::from_xy(p.x.to_bytes(), p.y.to_bytes()).unwrap()
}

fn sample_point(seed: u8) -> G1Affine {
    let k = OutsideFr::random(ChaCha20Rng::from_seed([seed; 32]));
    inside(&(OutsideG1::generator() * k).to_affine())
}

fn digest_to_scalar(fed: &[u8]) -> Fr {
    let hash = blake2b_simd::Params::new().hash_length(64).personal(b"Halo2-Transcript").hash(fed);
    let scalar = OutsideFr::from_uniform_bytes(hash.as_array());
    Fr::from_bytes(scalar.to_bytes()).unwrap()
}

#[test]
fn a_fresh_transcript_squeezes_the_digest_of_the_tag() {
    let mut transcript = Blake2bTranscript::new(Vec::new());
    let challenge = transcript.squeeze_challenge();
    assert!(challenge.equals(&digest_to_scalar(&[0])));
}

#[test]
fn a_challenge_is_the_digest_of_all_that_was_absorbed() {
    let mut transcript = Blake2bTranscript::new(Vec::new());
    let scalar = fr(0x0102030405060708);
    let point = sample_point(1);
    transcript.common_scalar(&scalar).unwrap();
    transcript.common_ec_point(&point).unwrap();
    let first = transcript.squeeze_challenge();

    let mut fed = vec![2u8];
    fed.extend_from_slice(&scalar.to_bytes());
    fed.push(1);
    fed.extend_from_slice(&point.x());
    fed.extend_from_slice(&point.y());
    fed.push(0);
    assert!(first.equals(&digest_to_scalar(&fed)));

    let second = transcript.squeeze_challenge();
    fed.push(0);
    assert!(second.equals(&digest_to_scalar(&fed)));
    assert!(!first.equals(&second));
}

#[test]
fn equal_histories_give_equal_challenges() {
    let run = || {
        let mut transcript = Blake2bTranscript::new(Vec::new());
        transcript.common_ec_point(&sample_point(2)).unwrap();
        transcript.common_scalar(&fr(5)).unwrap();
        let a = transcript.squeeze_challenge();
        transcript.common_scalar(&a).unwrap();
        let b = transcript.squeeze_challenge();
        (a, b)
    };
    let (a1, b1) = run();
    let (a2, b2) = run();
    assert!(a1.equals(&a2));
    assert!(b1.equals(&b2));
}

#[test]
fn a_different_history_gives_a_different_challenge() {
    let mut one = Blake2bTranscript::new(Vec::new());
    one.common_scalar(&fr(5)).unwrap();
    let mut other = Blake2bTranscript::new(Vec::new());
    other.common_scalar(&fr(6)).unwrap();
    assert!(!one.squeeze_challenge().equals(&other.squeeze_challenge()));

    let mut swapped_a = Blake2bTranscript::new(Vec::new());
    swapped_a.common_scalar(&fr(1)).unwrap();
    swapped_a.common_scalar(&fr(2)).unwrap();
    let mut swapped_b = Blake2bTranscript::new(Vec::new());
    swapped_b.common_scalar(&fr(2)).unwrap();
    swapped_b.common_scalar(&fr(1)).unwrap();
    assert!(!swapped_a.squeeze_challenge().equals(&swapped_b.squeeze_challenge()));
}

#[test]
fn the_proof_bytes_do_not_enter_a_challenge_before_they_are_read() {
    let mut empty = Blake2bTranscript::new(Vec::new());
    let mut full = Blake2bTranscript::new(vec![9u8; 32]);
    assert!(empty.squeeze_challenge().equals(&full.squeeze_challenge()));
}

#[test]
fn written_values_are_read_back_with_the_same_challenges() {
    let scalar = fr(123456789);
    let point = sample_point(3);
    let mut writer = Blake2bTranscript::new(Vec::new());
    writer.write_scalar(&scalar).unwrap();
    let c1 = writer.squeeze_challenge();
    writer.write_ec_point(&point).unwrap();
    writer.write_ec_point(&G1Affine::identity()).unwrap();
    let c2 = writer.squeeze_challenge();
    let proof = writer.finalize();
    assert_eq!(proof.len(), 32 + 64 + 64);
    assert_eq!(&proof[..32], &scalar.to_bytes());
    assert_eq!(&proof[32..64], &point.x());
    assert_eq!(&proof[64..96], &point.y());

    let mut reader = Blake2bTranscript::new(proof);
    assert!(reader.read_scalar().unwrap().equals(&scalar));
    assert!(reader.squeeze_challenge().equals(&c1));
    assert!(reader.read_ec_point().unwrap().equals(&point));
    assert!(reader.read_ec_point().unwrap().equals(&G1Affine::identity()));
    assert!(reader.squeeze_challenge().equals(&c2));
    assert!(reader.read_scalar().is_err());
}

#[test]
fn reading_is_absorbing() {
    let scalar = fr(77);
    let mut bytes = Vec::new();
    bytes.extend_from_slice(&scalar.to_bytes());
    let mut reader = Blake2bTranscript::new(bytes);
    reader.read_scalar().unwrap();
    let mut absorber = Blake2bTranscript::new(Vec::new());
    absorber.common_scalar(&scalar).unwrap();
    assert!(reader.squeeze_challenge().equals(&absorber.squeeze_challenge()));
}

#[test]
fn a_proof_that_ends_early_is_malformed() {
    let mut reader = Blake2bTranscript::new(vec![0u8; 31]);
    assert!(reader.read_scalar().unwrap_err().is_malformed_input());
    let mut reader = Blake2bTranscript::new(vec![0u8; 63]);
    assert!(reader.read_ec_point().unwrap_err().is_malformed_input());
    let mut reader = Blake2bTranscript::new(Vec::new());
    assert!(reader.read_scalar().unwrap_err().is_malformed_input());
    assert!(reader.read_ec_point().unwrap_err().is_malformed_input());
}

#[test]
fn a_scalar_that_is_not_canonical_is_malformed() {
    let mut reader = Blake2bTranscript::new(vec![0xffu8; 32]);
    assert!(reader.read_scalar().unwrap_err().is_malformed_input());
}

#[test]
fn bytes_that_are_no_point_are_malformed() {
    let mut bytes = vec![0u8; 64];
    bytes[0] = 1;
    bytes[32] = 3;
    let mut reader = Blake2bTranscript::new(bytes);
    assert!(reader.read_ec_point().unwrap_err().is_malformed_input());
}

#[test]
fn a_failed_read_absorbs_nothing_and_reads_nothing() {
    let scalar = fr(5);
    let mut bytes = vec![0xffu8; 32];
    bytes.extend_from_slice(&scalar.to_bytes());
    let mut reader = Blake2bTranscript::new(bytes);
    assert!(reader.read_scalar().is_err());
    assert!(reader.read_scalar().is_err());
    let mut fresh = Blake2bTranscript::new(Vec::new());
    assert!(reader.squeeze_challenge().equals(&fresh.squeeze_challenge()));
}

#[test]
fn the_generator_is_read_from_its_coordinates() {
    let g = G1Affine::generator();
    let mut bytes = Vec::new();
    bytes.extend_from_slice(&g.x());
    bytes.extend_from_slice(&g.y());
    let mut reader = Blake2bTranscript::new(bytes);
    assert!(reader.read_ec_point().unwrap().equals(&g));
}

#[test]
fn a_challenge_is_reduced_below_the_modulus() {
    let mut transcript = Blake2bTranscript::new(Vec::new());
    for v in 0..16u64 {
        transcript.common_scalar(&fr(v)).unwrap();
        let challenge = transcript.squeeze_challenge();
        assert!(Fr::from_bytes(challenge.to_bytes()).is_some());
        assert!(!challenge.is_zero());
    }
}

#[test]
fn a_transcript_is_fresh_then_absorbing_then_squeezed() {
    let scalar = fr(9);
    let mut transcript = Blake2bTranscript::new(scalar.to_bytes().to_vec());
    assert_eq!(transcript.state(), TranscriptState::Fresh);
    transcript.common_scalar(&scalar).unwrap();
    assert_eq!(transcript.state(), TranscriptState::Absorbing);
    transcript.common_ec_point(&sample_point(1)).unwrap();
    assert_eq!(transcript.state(), TranscriptState::Absorbing);
    transcript.squeeze_challenge();
    assert_eq!(transcript.state(), TranscriptState::Squeezed);
    transcript.squeeze_challenge();
    assert_eq!(transcript.state(), TranscriptState::Squeezed);
    transcript.read_scalar().unwrap();
    assert_eq!(transcript.state(), TranscriptState::Absorbing);
    assert!(transcript.read_scalar().is_err());
    assert_eq!(transcript.state(), TranscriptState::Absorbing);
    transcript.write_ec_point(&G1Affine::generator()).unwrap();
    assert_eq!(transcript.state(), TranscriptState::Absorbing);
}

#[test]
fn a_fresh_transcript_may_squeeze_at_once() {
    let mut transcript = Blake2bTranscript::new(Vec::new());
    transcript.squeeze_challenge();
    assert_eq!(transcript.state(), TranscriptState::Squeezed);
    let mut failed = Blake2bTranscript::new(Vec::new());
    assert!(failed.read_ec_point().is_err());
    assert_eq!(failed.state(), TranscriptState::Fresh);
}

#[test]
fn a_transcript_hands_out_the_context_of_its_values() {
    let mut transcript = Blake2bTranscript::new(Vec::new());
    let challenge = transcript.squeeze_challenge();
    let loader = transcript.loader();
    assert_eq!(*loader, snark_verifier::native::NativeLoader);
    assert_eq!(loader, snark_verifier::loader::LoadedScalar::loader(&challenge));
}
