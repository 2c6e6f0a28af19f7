use halo2curves::bn256::Fr as OutsideFr;
use halo2curves::ff::Field;
use rand_chacha::rand_core::SeedableRng;
use rand_chacha::ChaCha20Rng;
use snark_verifier::bn256::Fr;
use snark_verifier::error::Error;
use snark_verifier::field::PrimeField;
use snark_verifier::loader::{LoadedScalar, ScalarLoader};
use snark_verifier::native::NativeLoader;

const MODULUS: [u8; 32] = [
    0x01, 0x00, 0x00, 0xf0, 0x93, 0xf5, 0xe1, 0x43, 0x91, 0x70, 0xb9, 0x79, 0x48, 0xe8, 0x33, 0x28,
    0x5d, 0x58, 0x81, 0x81, 0xb6, 0x45, 0x50, 0xb8, 0x29, 0xa0, 0x31, 0xe1, 0x72, 0x4e, 0x64, 0x30,
];

fn fr(v: u64) -> Fr {
    let mut bytes = [0u8; 32];
    bytes[..8].copy_from_slice(&v.to_le_bytes());
    Fr::from_bytes(bytes).unwrap()
}

fn minus_one() -> Fr {
    let mut bytes = MODULUS;
    bytes[0] = 0;
    Fr::from_bytes(bytes).unwrap()
}

fn inside(x: &OutsideFr) -> Fr {
    Fr::from_bytes(x.to_bytes()).unwrap()
}

fn outside(x: &Fr) -> OutsideFr {
    OutsideFr::from_bytes(&x.to_bytes()).unwrap()
}

fn sample(seed: u64) -> OutsideFr {
    let mut bytes = [0u8; 32];
    bytes[..8].copy_from_slice(&seed.to_le_bytes());
    OutsideFr::random(ChaCha20Rng::from_seed(bytes))
}

#[test]
fn invert_times_self_is_one() {
    for v in [1u64, 2, 7, 65537, u64::MAX] {
        let x = fr(v);
        let inv = LoadedScalar::invert(&x).unwrap();
        assert!(LoadedScalar::mul(&inv, &x).is_one());
    }
    let x = minus_one();
    let inv = LoadedScalar::invert(&x).unwrap();
    assert!(inv.equals(&minus_one()));
}

#[test]
fn invert_zero_is_absent() {
    assert!(LoadedScalar::invert(&Fr::zero()).is_none());
}

#[test]
fn invert_agrees_with_the_curve_library() {
    let x = sample(11);
    let expected = x.invert().unwrap();
    let got = LoadedScalar::invert(&inside(&x)).unwrap();
    assert_eq!(outside(&got), expected);
}

#[test]
fn batch_invert_inverts_and_keeps_zero() {
    let mut values = vec![fr(2), Fr::zero(), fr(5), Fr::zero(), minus_one()];
    let before = values.clone();
    <Fr as LoadedScalar<Fr>>::batch_invert(&mut values);
    assert_eq!(values.len(), 5);
    for (old, new) in before.iter().zip(values.iter()) {
        match LoadedScalar::invert(old) {
            Some(inv) => assert!(new.equals(&inv)),
            None => assert!(new.is_zero()),
        }
    }
    assert!(LoadedScalar::mul(&values[0], &fr(2)).is_one());
    assert!(values[1].is_zero());
    assert!(values[3].is_zero());
}

#[test]
fn batch_invert_of_nothing_does_nothing() {
    let mut values: Vec<Fr> = Vec::new();
    <Fr as LoadedScalar<Fr>>::batch_invert(&mut values);
    assert!(values.is_empty());
}

#[test]
fn pow_const_is_repeated_multiplication() {
    let x = fr(3);
    assert!(x.pow_const(1).equals(&fr(3)));
    assert!(x.pow_const(2).equals(&fr(9)));
    assert!(x.pow_const(4).equals(&fr(81)));
    assert!(x.pow_const(5).equals(&fr(243)));
    assert!(x.pow_const(6).equals(&fr(729)));
    assert!(x.pow_const(12).equals(&fr(531441)));
    let y = inside(&sample(3));
    let mut expected = y;
    for n in 1u64..40 {
        assert!(y.pow_const(n).equals(&expected));
        expected = LoadedScalar::mul(&expected, &y);
    }
}

#[test]
fn pow_const_of_a_large_exponent_wraps_around_the_modulus() {
    let x = sample(5);
    let expected = x.pow([u64::MAX]);
    assert_eq!(outside(&inside(&x).pow_const(u64::MAX)), expected);
    let expected = x.pow([1u64 << 63]);
    assert_eq!(outside(&inside(&x).pow_const(1u64 << 63)), expected);
}

#[test]
fn powers_start_with_one() {
    let x = fr(5);
    let powers = x.powers(4);
    assert_eq!(powers.len(), 4);
    assert!(powers[0].is_one());
    assert!(powers[1].equals(&fr(5)));
    assert!(powers[2].equals(&fr(25)));
    assert!(powers[3].equals(&fr(125)));
    let single = x.powers(1);
    assert_eq!(single.len(), 1);
    assert!(single[0].is_one());
    let zero_powers = Fr::zero().powers(3);
    assert!(zero_powers[0].is_one());
    assert!(zero_powers[1].is_zero());
    assert!(zero_powers[2].is_zero());
}

#[test]
fn square_is_the_product_with_itself() {
    assert!(LoadedScalar::square(&fr(12)).equals(&fr(144)));
    assert!(LoadedScalar::square(&minus_one()).is_one());
}

#[test]
fn addition_wraps_at_the_modulus() {
    assert!(LoadedScalar::add(&minus_one(), &fr(2)).is_one());
    assert!(LoadedScalar::add(&fr(2), &fr(3)).equals(&fr(5)));
    let (a, b) = (sample(1), sample(2));
    assert_eq!(outside(&LoadedScalar::add(&inside(&a), &inside(&b))), a + b);
}

#[test]
fn subtraction_wraps_below_zero() {
    assert!(LoadedScalar::sub(&Fr::zero(), &Fr::one()).equals(&minus_one()));
    assert!(LoadedScalar::sub(&fr(7), &fr(3)).equals(&fr(4)));
    let (a, b) = (sample(1), sample(2));
    assert_eq!(outside(&LoadedScalar::sub(&inside(&a), &inside(&b))), a - b);
}

#[test]
fn multiplication_reduces() {
    assert!(LoadedScalar::mul(&minus_one(), &minus_one()).is_one());
    assert!(LoadedScalar::mul(&fr(6), &fr(7)).equals(&fr(42)));
    let (a, b) = (sample(1), sample(2));
    assert_eq!(outside(&LoadedScalar::mul(&inside(&a), &inside(&b))), a * b);
}

#[test]
fn negation_is_the_additive_inverse() {
    assert!(LoadedScalar::neg(&Fr::one()).equals(&minus_one()));
    assert!(LoadedScalar::neg(&Fr::zero()).is_zero());
    let a = sample(9);
    assert_eq!(outside(&LoadedScalar::neg(&inside(&a))), -a);
}

#[test]
fn mul_add_multiplies_then_adds() {
    let r = <Fr as LoadedScalar<Fr>>::mul_add(&fr(3), &fr(4), &fr(5));
    assert!(r.equals(&fr(17)));
    let r = <Fr as LoadedScalar<Fr>>::mul_add_constant(&minus_one(), &minus_one(), &minus_one());
    assert!(r.is_zero());
}

#[test]
fn from_bytes_takes_canonical_bytes_only() {
    assert!(Fr::from_bytes(MODULUS).is_none());
    assert!(Fr::from_bytes([0xff; 32]).is_none());
    let mut below = MODULUS;
    below[0] = 0;
    let x = Fr::from_bytes(below).unwrap();
    assert_eq!(x.to_bytes(), below);
    assert!(Fr::from_bytes([0u8; 32]).unwrap().is_zero());
}

#[test]
fn zero_and_one_are_told_apart() {
    assert!(Fr::zero().is_zero());
    assert!(!Fr::zero().is_one());
    assert!(Fr::one().is_one());
    assert!(!Fr::one().is_zero());
    assert!(!fr(256).is_one());
    assert!(!fr(256).is_zero());
    assert!(!Fr::zero().equals(&Fr::one()));
    assert!(fr(77).equals(&fr(77)));
}

#[test]
fn from_seed_draws_what_the_generator_draws() {
    let seed = [0u8; 32];
    let expected = OutsideFr::random(ChaCha20Rng::from_seed(seed));
    assert_eq!(outside(&Fr::from_seed(&seed)), expected);
    let seed = [7u8; 32];
    let expected = OutsideFr::random(ChaCha20Rng::from_seed(seed));
    assert_eq!(outside(&Fr::from_seed(&seed)), expected);
    assert!(!Fr::from_seed(&[0u8; 32]).equals(&Fr::from_seed(&[7u8; 32])));
}

#[test]
fn loading_keeps_the_value() {
    let loader = NativeLoader;
    assert!(loader.load_const(&fr(9)).equals(&fr(9)));
    assert!(loader.load_zero().is_zero());
    assert!(loader.load_one().is_one());
    assert!(fr(9).duplicate().equals(&fr(9)));
    assert!(fr(9).load_one().is_one());
}

#[test]
fn assert_eq_passes_equal_scalars() {
    let loader = NativeLoader;
    assert!(loader.assert_eq("same", &fr(4), &fr(4)).is_ok());
}

#[test]
fn assert_eq_reports_a_constraint_violation() {
    let loader = NativeLoader;
    let err = loader.assert_eq("quotient identity", &fr(4), &fr(5)).unwrap_err();
    assert!(err.is_constraint_violation());
    assert!(!err.is_malformed_input());
    assert_eq!(err.message(), "quotient identity");
    assert!(matches!(err, Error::ConstraintViolation(_)));
}

#[test]
fn sum_with_coeff_and_constant_is_the_linear_combination() {
    let loader = NativeLoader;
    let (a, b, c) = (fr(3), fr(5), fr(11));
    let r = loader.sum_with_coeff_and_constant(&[(fr(2), &a), (fr(1), &b), (fr(4), &c)], fr(7));
    assert!(r.equals(&fr(2 * 3 + 5 + 4 * 11 + 7)));
    let r = loader.sum_with_coeff_and_constant(&[(fr(2), &a)], Fr::zero());
    assert!(r.equals(&fr(6)));
    let r = loader.sum_with_coeff_and_constant(&[(fr(1), &a)], Fr::zero());
    assert!(r.equals(&fr(3)));
    let r = loader.sum_with_coeff_and_constant(&[(Fr::zero(), &a)], fr(1));
    assert!(r.is_one());
}

#[test]
fn sum_with_coeff_and_constant_of_nothing_is_the_constant() {
    let loader = NativeLoader;
    assert!(loader.sum_with_coeff_and_constant(&[], fr(7)).equals(&fr(7)));
    assert!(loader.sum_with_coeff_and_constant(&[], Fr::zero()).is_zero());
}

#[test]
fn sum_products_with_coeff_and_constant_is_the_sum_of_products() {
    let loader = NativeLoader;
    let (a, b, c, d) = (fr(3), fr(4), fr(5), fr(6));
    let r = loader
        .sum_products_with_coeff_and_constant(&[(fr(2), &a, &b), (fr(1), &c, &d)], fr(1));
    assert!(r.equals(&fr(2 * 3 * 4 + 5 * 6 + 1)));
    let r = loader.sum_products_with_coeff_and_constant(&[(fr(1), &a, &b)], Fr::zero());
    assert!(r.equals(&fr(12)));
    assert!(loader.sum_products_with_coeff_and_constant(&[], fr(9)).equals(&fr(9)));
}

#[test]
fn the_shorter_sums_agree_with_the_general_ones() {
    let loader = NativeLoader;
    let (a, b, c) = (fr(3), fr(5), minus_one());
    assert!(loader.sum_with_coeff(&[(fr(2), &a), (fr(3), &b)]).equals(&fr(21)));
    assert!(loader.sum_with_coeff(&[]).is_zero());
    assert!(loader.sum_products_with_coeff(&[(fr(2), &a, &b)]).equals(&fr(30)));
    assert!(loader.sum_products(&[(&a, &b), (&b, &b)]).equals(&fr(40)));
    assert!(loader.sum_products(&[]).is_zero());
    assert!(loader.sum_with_const(&[&a, &b], fr(2)).equals(&fr(10)));
    assert!(loader.sum_with_const(&[], fr(2)).equals(&fr(2)));
    assert!(loader.sum(&[&a, &b, &c]).equals(&fr(7)));
    assert!(loader.sum(&[]).is_zero());
}

#[test]
fn product_multiplies_all_and_is_one_for_nothing() {
    let loader = NativeLoader;
    let (a, b, c) = (fr(3), fr(5), fr(7));
    assert!(loader.product(&[&a, &b, &c]).equals(&fr(105)));
    assert!(loader.product(&[&a]).equals(&fr(3)));
    assert!(loader.product(&[]).is_one());
    assert!(loader.product(&[&a, &Fr::zero()]).is_zero());
}

#[test]
fn a_scalar_knows_the_context_that_loads_its_constants() {
    let x = fr(4);
    let loader = LoadedScalar::loader(&x);
    assert_eq!(*loader, NativeLoader);
    assert!(loader.load_const(&fr(9)).equals(&fr(9)));
    let r = loader.sum_with_coeff_and_constant(&[(fr(3), &x)], fr(1));
    assert!(r.equals(&fr(13)));
}
