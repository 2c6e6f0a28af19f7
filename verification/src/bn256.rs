//! The BN254 curve with the arithmetic of `halo2curves`: its scalar field,
//! its two groups and its pairing.
//!
//! A field element is kept as the 32 little-endian bytes of its canonical
//! representative, a point as the bytes of its affine coordinates. The
//! arithmetic itself is not proved here: each operation is a call into
//! `halo2curves`, taken to compute what its documentation says.

use crate::bytes::{le_value, lemma_le_value_injective, lemma_le_value_single, lemma_le_value_zero};
use crate::curve::{CurveAffine, PointValue};
use crate::field::PrimeField;
use halo2curves::bn256 as curves;
use halo2curves::bn256::{Bn256, Fq, Fq2};
use halo2curves::pairing::Engine;
use vstd::arithmetic::div_mod::{lemma_mod_bound, lemma_small_mod};
use vstd::prelude::*;

verus! {

/// The order of the BN254 group, the modulus of its scalar field.
pub open spec fn fr_modulus() -> nat {
    0x30644e72e131a029b85045b68181585d2833e84879b9709143e1f593f0000001nat
}

/// An element of the scalar field.
#[derive(Clone, Copy, Debug, PartialEq, Eq)]
pub struct Fr {
    bytes: [u8; 32],
}

impl Fr {
    /// The bytes write a number below the modulus.
    #[verifier::type_invariant]
    pub closed spec fn canonical(&self) -> bool {
        le_value(self.bytes@) < fr_modulus()
    }

    /// The bytes that this element is kept as.
    pub closed spec fn repr(&self) -> Seq<u8> {
        self.bytes@
    }

    /// Reads an element from the little-endian bytes of its canonical
    /// representative. A number that is not below the modulus is refused.
    pub fn from_bytes(bytes: [u8; 32]) -> (r: Option<Fr>)
        ensures
            r is Some <==> le_value(bytes@) < fr_modulus(),
            r matches Some(x) ==> x.value() == le_value(bytes@) && x.repr() == bytes@,
    {
        if fr_is_canonical(&bytes) {
            proof {
                lemma_small_mod(le_value(bytes@), fr_modulus());
            }
            Some(Fr { bytes })
        } else {
            None
        }
    }

    /// The little-endian bytes of the canonical representative.
    pub fn to_bytes(&self) -> (r: [u8; 32])
        ensures
            le_value(r@) == self.value(),
            r@ == self.repr(),
    {
        proof {
            use_type_invariant(self);
            lemma_small_mod(le_value(self.bytes@), fr_modulus());
        }
        self.bytes
    }

    /// The scalar that a ChaCha20 generator started from `seed` draws first.
    pub fn from_seed(seed: &[u8; 32]) -> (r: Fr)
        ensures
            r.value() == chacha20_scalar(seed@),
    {
        fr_from_seed(seed)
    }

    /// Whether two elements are the same.
    pub fn equals(&self, other: &Fr) -> (b: bool)
        ensures
            b == (self.value() == other.value()),
    {
        proof {
            use_type_invariant(self);
            use_type_invariant(other);
            lemma_small_mod(le_value(self.bytes@), fr_modulus());
            lemma_small_mod(le_value(other.bytes@), fr_modulus());
        }
        let mut i: usize = 0;
        while i < 32
            invariant
                i <= 32,
                forall|j: int| 0 <= j < i ==> self.bytes@[j] == other.bytes@[j],
            decreases 32 - i,
        {
            if self.bytes[i] != other.bytes[i] {
                proof {
                    use_type_invariant(self);
                    use_type_invariant(other);
                    lemma_small_mod(le_value(self.bytes@), fr_modulus());
                    lemma_small_mod(le_value(other.bytes@), fr_modulus());
                    if le_value(self.bytes@) == le_value(other.bytes@) {
                        lemma_le_value_injective(self.bytes@, other.bytes@);
                    }
                }
                return false;
            }
            i += 1;
        }
        proof {
            assert(self.bytes@ =~= other.bytes@);
        }
        true
    }
}

impl PrimeField for Fr {
    open spec fn modulus() -> nat {
        fr_modulus()
    }

    closed spec fn value(&self) -> nat {
        le_value(self.bytes@) % fr_modulus()
    }

    proof fn lemma_modulus() {
    }

    proof fn lemma_canonical(&self) {
        lemma_mod_bound(le_value(self.bytes@) as int, fr_modulus() as int);
    }

    fn zero() -> (r: Self) {
        let bytes = [0u8; 32];
        proof {
            assert(bytes == vstd::array::spec_array_fill_for_copy_type::<u8, 32>(0u8));
            assert(forall|i: int| 0 <= i < 32 ==> bytes@[i] == 0);
            lemma_le_value_zero(bytes@);
            lemma_small_mod(0, fr_modulus());
        }
        Fr { bytes }
    }

    fn one() -> (r: Self) {
        let mut bytes = [0u8; 32];
        let ghost filled = bytes;
        bytes[0] = 1;
        proof {
            let zeros = filled@;
            assert(filled == vstd::array::spec_array_fill_for_copy_type::<u8, 32>(0u8));
            assert(forall|i: int| 0 <= i < 32 ==> zeros[i] == 0);
            assert(bytes@ == zeros.update(0, 1u8));
            assert(forall|i: int| 1 <= i < 32 ==> bytes@[i] == 0);
            lemma_le_value_single(bytes@);
            lemma_small_mod(1, fr_modulus());
        }
        Fr { bytes }
    }

    fn is_zero(&self) -> (b: bool) {
        proof {
            use_type_invariant(self);
            lemma_small_mod(le_value(self.bytes@), fr_modulus());
            lemma_le_value_zero(self.bytes@);
        }
        let mut i: usize = 0;
        while i < 32
            invariant
                i <= 32,
                forall|j: int| 0 <= j < i ==> self.bytes@[j] == 0,
            decreases 32 - i,
        {
            if self.bytes[i] != 0 {
                proof {
                    use_type_invariant(self);
                    lemma_small_mod(le_value(self.bytes@), fr_modulus());
                    lemma_le_value_zero(self.bytes@);
                }
                return false;
            }
            i += 1;
        }
        true
    }

    fn is_one(&self) -> (b: bool) {
        let one = Fr::one();
        self.equals(&one)
    }
}

/// `curves::Fr::from_bytes`: whether the bytes are the canonical
/// little-endian form of a scalar, that is, write a number below the modulus.
#[verifier::external_body]
fn fr_is_canonical(bytes: &[u8; 32]) -> (b: bool)
    ensures
        b == (le_value(bytes@) < fr_modulus()),
{
    bool::from(curves::Fr::from_bytes(bytes).is_some())
}

/// `halo2curves::bn256::Fr`, addition: the sum of two scalars, reduced.
#[verifier::external_body]
pub(crate) fn fr_add(a: &Fr, b: &Fr) -> (r: Fr)
    requires
        a.canonical(),
        b.canonical(),
    ensures
        r.canonical(),
        r.value() == (a.value() + b.value()) % fr_modulus(),
{
    let x = curves::Fr::from_bytes(&a.bytes).unwrap();
    let y = curves::Fr::from_bytes(&b.bytes).unwrap();
    Fr { bytes: (x + y).to_bytes() }
}

/// `halo2curves::bn256::Fr`, subtraction: the difference of two scalars,
/// reduced to the canonical range.
#[verifier::external_body]
pub(crate) fn fr_sub(a: &Fr, b: &Fr) -> (r: Fr)
    requires
        a.canonical(),
        b.canonical(),
    ensures
        r.canonical(),
        r.value() == (a.value() - b.value()) % (fr_modulus() as int),
{
    let x = curves::Fr::from_bytes(&a.bytes).unwrap();
    let y = curves::Fr::from_bytes(&b.bytes).unwrap();
    Fr { bytes: (x - y).to_bytes() }
}

/// `halo2curves::bn256::Fr`, multiplication: the product of two scalars,
/// reduced.
#[verifier::external_body]
pub(crate) fn fr_mul(a: &Fr, b: &Fr) -> (r: Fr)
    requires
        a.canonical(),
        b.canonical(),
    ensures
        r.canonical(),
        r.value() == (a.value() * b.value()) % fr_modulus(),
{
    let x = curves::Fr::from_bytes(&a.bytes).unwrap();
    let y = curves::Fr::from_bytes(&b.bytes).unwrap();
    Fr { bytes: (x * y).to_bytes() }
}

/// `halo2curves::bn256::Fr`, negation: the additive inverse of a scalar.
#[verifier::external_body]
pub(crate) fn fr_neg(a: &Fr) -> (r: Fr)
    requires
        a.canonical(),
    ensures
        r.canonical(),
        r.value() == (-(a.value() as int)) % (fr_modulus() as int),
{
    let x = curves::Fr::from_bytes(&a.bytes).unwrap();
    Fr { bytes: (-x).to_bytes() }
}

/// `ff::Field::invert` on `halo2curves::bn256::Fr`: the multiplicative inverse
/// of a scalar, which exists for every scalar but zero.
#[verifier::external_body]
pub(crate) fn fr_invert(a: &Fr) -> (r: Option<Fr>)
    requires
        a.canonical(),
    ensures
        r is None <==> a.value() == 0,
        r matches Some(inv) ==> inv.canonical() && (inv.value() * a.value()) % fr_modulus() == 1,
{
    let x = curves::Fr::from_bytes(&a.bytes).unwrap();
    match Option::<curves::Fr>::from(halo2curves::ff::Field::invert(&x)) {
        Some(inv) => Some(Fr { bytes: inv.to_bytes() }),
        None => None,
    }
}

/// `ff::FromUniformBytes::<64>::from_uniform_bytes` on
/// `halo2curves::bn256::Fr`: the scalar congruent to the number that the 64
/// bytes write, least significant byte first.
#[verifier::external_body]
pub(crate) fn fr_from_uniform_bytes(bytes: &[u8; 64]) -> (r: Fr)
    ensures
        r.canonical(),
        r.value() == le_value(bytes@) % fr_modulus(),
{
    let x = <curves::Fr as halo2curves::ff::FromUniformBytes<64>>::from_uniform_bytes(
        bytes,
    );
    Fr { bytes: x.to_bytes() }
}

/// The scalar that `ff::Field::random` draws from a ChaCha20 generator
/// started from the seed `seed`.
pub uninterp spec fn chacha20_scalar(seed: Seq<u8>) -> nat;

/// `ff::Field::random` on `halo2curves::bn256::Fr`, fed by
/// `rand_chacha::ChaCha20Rng::from_seed`: a scalar that the seed alone
/// decides.
#[verifier::external_body]
fn fr_from_seed(seed: &[u8; 32]) -> (r: Fr)
    ensures
        r.canonical(),
        r.value() == chacha20_scalar(seed@),
{
    let rng = <rand_chacha::ChaCha20Rng as rand_chacha::rand_core::SeedableRng>::from_seed(*seed);
    let x = <curves::Fr as halo2curves::ff::Field>::random(rng);
    Fr { bytes: x.to_bytes() }
}

/// The modulus of the base field, over which the curve is defined.
pub open spec fn fq_modulus() -> nat {
    0x30644e72e131a029b85045b68181585d97816a916871ca8d3c208c16d87cfd47nat
}

/// Whether `p` is the neutral element, written `(0, 0)`, or satisfies the
/// curve equation `y² = x³ + 3`.
pub open spec fn on_curve(p: PointValue) -> bool {
    (p.0 == 0 && p.1 == 0) || (p.1 * p.1) % fq_modulus() == (p.0 * p.0 * p.0 + 3) % fq_modulus()
}

/// The sum of two points of the curve, as `halo2curves` computes it.
pub uninterp spec fn g1_sum(a: (nat, nat), b: (nat, nat)) -> (nat, nat);

/// The point `a` taken `k` times, as `halo2curves` computes it.
pub uninterp spec fn g1_product(k: nat, a: (nat, nat)) -> (nat, nat);

/// A point of the curve in affine coordinates, each kept as the 32
/// little-endian bytes of its canonical representative.
#[derive(Clone, Copy, Debug, PartialEq, Eq)]
pub struct G1Affine {
    x: [u8; 32],
    y: [u8; 32],
}

impl G1Affine {
    /// Both coordinates are written as numbers below the base modulus, and
    /// they are a point of the curve or the neutral element.
    #[verifier::type_invariant]
    pub closed spec fn valid(&self) -> bool {
        &&& le_value(self.x@) < fq_modulus()
        &&& le_value(self.y@) < fq_modulus()
        &&& on_curve((le_value(self.x@), le_value(self.y@)))
    }

    /// Every point satisfies what `from_xy` asks of its coordinates.
    pub fn validity(&self)
        ensures
            self.coordinates().0 < fq_modulus(),
            self.coordinates().1 < fq_modulus(),
            on_curve(self.coordinates()),
    {
        proof {
            use_type_invariant(self);
        }
    }

    /// The coordinates as numbers.
    pub closed spec fn coordinates(&self) -> PointValue {
        (le_value(self.x@), le_value(self.y@))
    }

    /// Reads a point from the little-endian bytes of its coordinates. Refused
    /// are coordinates that are not canonical and pairs that are neither on
    /// the curve nor the neutral element.
    pub fn from_xy(x: [u8; 32], y: [u8; 32]) -> (r: Option<G1Affine>)
        ensures
            r is Some <==> le_value(x@) < fq_modulus() && le_value(y@) < fq_modulus() && on_curve(
                (le_value(x@), le_value(y@)),
            ),
            r matches Some(p) ==> p.coordinates() == (le_value(x@), le_value(y@)),
    {
        if fq_is_canonical(&x) && fq_is_canonical(&y) && g1_is_on_curve(&x, &y) {
            Some(G1Affine { x, y })
        } else {
            None
        }
    }

    /// The little-endian bytes of the first coordinate.
    pub fn x(&self) -> (r: [u8; 32])
        ensures
            le_value(r@) == self.coordinates().0,
    {
        self.x
    }

    /// The little-endian bytes of the second coordinate.
    pub fn y(&self) -> (r: [u8; 32])
        ensures
            le_value(r@) == self.coordinates().1,
    {
        self.y
    }

    /// Whether two points are the same.
    pub fn equals(&self, other: &G1Affine) -> (b: bool)
        ensures
            b == (self.coordinates() == other.coordinates()),
    {
        let same_x = same_bytes(&self.x, &other.x);
        let same_y = same_bytes(&self.y, &other.y);
        proof {
            if le_value(self.x@) == le_value(other.x@) {
                lemma_le_value_injective(self.x@, other.x@);
            }
            if le_value(self.y@) == le_value(other.y@) {
                lemma_le_value_injective(self.y@, other.y@);
            }
        }
        same_x && same_y
    }
}

/// Whether two byte strings are the same.
fn same_bytes(a: &[u8; 32], b: &[u8; 32]) -> (r: bool)
    ensures
        r == (a@ == b@),
{
    let mut i: usize = 0;
    while i < 32
        invariant
            i <= 32,
            forall|j: int| 0 <= j < i ==> a@[j] == b@[j],
        decreases 32 - i,
    {
        if a[i] != b[i] {
            return false;
        }
        i += 1;
    }
    proof {
        assert(a@ =~= b@);
    }
    true
}

impl CurveAffine for G1Affine {
    type Scalar = Fr;

    open spec fn value(&self) -> PointValue {
        self.coordinates()
    }

    open spec fn identity_value() -> PointValue {
        (0, 0)
    }

    open spec fn generator_value() -> PointValue {
        (1, 2)
    }

    open spec fn add_value(a: PointValue, b: PointValue) -> PointValue {
        g1_sum(a, b)
    }

    open spec fn mul_value(k: nat, a: PointValue) -> PointValue {
        g1_product(k, a)
    }

    fn identity() -> (r: Self) {
        let zero = [0u8; 32];
        proof {
            assert(zero == vstd::array::spec_array_fill_for_copy_type::<u8, 32>(0u8));
            assert(forall|i: int| 0 <= i < 32 ==> zero@[i] == 0);
            lemma_le_value_zero(zero@);
        }
        G1Affine { x: zero, y: zero }
    }

    fn generator() -> (r: Self) {
        let zero = [0u8; 32];
        let mut x = zero;
        let mut y = zero;
        x[0] = 1;
        y[0] = 2;
        proof {
            assert(zero == vstd::array::spec_array_fill_for_copy_type::<u8, 32>(0u8));
            assert(forall|i: int| 0 <= i < 32 ==> zero@[i] == 0);
            assert(x@ == zero@.update(0, 1u8));
            assert(y@ == zero@.update(0, 2u8));
            assert(forall|i: int| 1 <= i < 32 ==> x@[i] == 0);
            assert(forall|i: int| 1 <= i < 32 ==> y@[i] == 0);
            lemma_le_value_single(x@);
            lemma_le_value_single(y@);
            assert(2 * 2 == 4 && 1 * 1 * 1 + 3 == 4) by (nonlinear_arith);
            assert(on_curve((1nat, 2nat)));
        }
        G1Affine { x, y }
    }
}

/// `Fq::from_bytes`: whether the bytes are the canonical
/// little-endian form of a base-field element, that is, write a number below
/// the base modulus.
#[verifier::external_body]
fn fq_is_canonical(bytes: &[u8; 32]) -> (b: bool)
    ensures
        b == (le_value(bytes@) < fq_modulus()),
{
    bool::from(Fq::from_bytes(bytes).is_some())
}

/// `halo2curves::CurveAffine::from_xy` on `bn256::G1Affine`: whether the
/// coordinates are the pair `(0, 0)` or satisfy `y² - x³ = 3`.
#[verifier::external_body]
fn g1_is_on_curve(x: &[u8; 32], y: &[u8; 32]) -> (b: bool)
    requires
        le_value(x@) < fq_modulus(),
        le_value(y@) < fq_modulus(),
    ensures
        b == on_curve((le_value(x@), le_value(y@))),
{
    let x = Fq::from_bytes(x).unwrap();
    let y = Fq::from_bytes(y).unwrap();
    bool::from(<curves::G1Affine as halo2curves::CurveAffine>::from_xy(x, y).is_some())
}

/// Addition of two `halo2curves::bn256::G1Affine` points, brought back to
/// affine form with `group::Curve::to_affine`: again a point of the curve,
/// with canonical coordinates.
#[verifier::external_body]
pub(crate) fn g1_add(a: &G1Affine, b: &G1Affine) -> (r: G1Affine)
    requires
        a.valid(),
        b.valid(),
    ensures
        r.valid(),
        r.coordinates() == g1_sum(a.coordinates(), b.coordinates()),
{
    let x = Fq::from_bytes(&a.x).unwrap();
    let y = Fq::from_bytes(&a.y).unwrap();
    let p = curves::G1Affine { x, y };
    let x = Fq::from_bytes(&b.x).unwrap();
    let y = Fq::from_bytes(&b.y).unwrap();
    let q = curves::G1Affine { x, y };
    let sum = halo2curves::group::Curve::to_affine(&(p + q));
    G1Affine { x: sum.x.to_bytes(), y: sum.y.to_bytes() }
}

/// Multiplication of a `halo2curves::bn256::G1Affine` point by a scalar,
/// brought back to affine form with `group::Curve::to_affine`: again a point
/// of the curve, with canonical coordinates.
#[verifier::external_body]
pub(crate) fn g1_mul(k: &Fr, a: &G1Affine) -> (r: G1Affine)
    requires
        k.canonical(),
        a.valid(),
    ensures
        r.valid(),
        r.coordinates() == g1_product(k.value(), a.coordinates()),
{
    let x = Fq::from_bytes(&a.x).unwrap();
    let y = Fq::from_bytes(&a.y).unwrap();
    let p = curves::G1Affine { x, y };
    let k = curves::Fr::from_bytes(&k.bytes).unwrap();
    let product = halo2curves::group::Curve::to_affine(&(p * k));
    G1Affine { x: product.x.to_bytes(), y: product.y.to_bytes() }
}

/// The coordinates `((x.c0, x.c1), (y.c0, y.c1))` of a point of the second
/// group, each coordinate a pair of base-field elements.
pub type G2Value = ((nat, nat), (nat, nat));

/// Whether `q` satisfies the equation of the curve of the second group, or is
/// its neutral element, as `halo2curves` decides it.
pub uninterp spec fn g2_on_curve(q: ((nat, nat), (nat, nat))) -> bool;

/// Whether the point `q` of the curve of the second group has the order of
/// the group, as `halo2curves` decides it.
pub uninterp spec fn g2_torsion_free(q: ((nat, nat), (nat, nat))) -> bool;

/// The pairing `e(p, q)` of a point of the first group with one of the
/// second, as `halo2curves` computes it: the twelve base-field coefficients
/// of the result.
pub uninterp spec fn bn256_pairing(p: (nat, nat), q: ((nat, nat), (nat, nat))) -> Seq<nat>;

/// A point of the second group in affine coordinates. Each coordinate is
/// kept as 64 bytes: the 32 little-endian bytes of its first coefficient,
/// then those of its second.
#[derive(Clone, Copy, Debug, PartialEq, Eq)]
pub struct G2Affine {
    x: [u8; 64],
    y: [u8; 64],
}

impl G2Affine {
    /// All four coefficients are written as numbers below the base modulus,
    /// and they are a point of the group.
    #[verifier::type_invariant]
    pub closed spec fn valid(&self) -> bool {
        &&& canonical_pair(self.x@)
        &&& canonical_pair(self.y@)
        &&& g2_on_curve(self.coordinates())
        &&& g2_torsion_free(self.coordinates())
    }

    /// The coordinates as numbers.
    pub closed spec fn coordinates(&self) -> G2Value {
        pair_values(self.x@, self.y@)
    }

    /// Reads a point from the bytes of its coordinates. Refused are
    /// coefficients that are not canonical, and coordinates that are no point
    /// of the group: not on the curve, or not of the order of the group.
    pub fn from_xy(x: [u8; 64], y: [u8; 64]) -> (r: Option<G2Affine>)
        ensures
            r is Some <==> canonical_pair(x@) && canonical_pair(y@) && g2_on_curve(
                pair_values(x@, y@),
            ) && g2_torsion_free(pair_values(x@, y@)),
            r matches Some(p) ==> p.coordinates() == pair_values(x@, y@),
    {
        let x0 = half(&x, 0);
        let x1 = half(&x, 32);
        let y0 = half(&y, 0);
        let y1 = half(&y, 32);
        if fq_is_canonical(&x0) && fq_is_canonical(&x1) && fq_is_canonical(&y0) && fq_is_canonical(
            &y1,
        ) {
            if g2_is_on_curve(&x, &y) && g2_is_torsion_free(&x, &y) {
                Some(G2Affine { x, y })
            } else {
                None
            }
        } else {
            None
        }
    }
}

/// Whether both halves of 64 bytes write numbers below the base modulus.
pub open spec fn canonical_pair(bytes: Seq<u8>) -> bool {
    le_value(bytes.subrange(0, 32)) < fq_modulus() && le_value(bytes.subrange(32, 64))
        < fq_modulus()
}

/// The coordinates that the 64 bytes `x` and the 64 bytes `y` write.
pub open spec fn pair_values(x: Seq<u8>, y: Seq<u8>) -> G2Value {
    (
        (le_value(x.subrange(0, 32)), le_value(x.subrange(32, 64))),
        (le_value(y.subrange(0, 32)), le_value(y.subrange(32, 64))),
    )
}

/// The 32 bytes of `bytes` that start at `at`.
fn half(bytes: &[u8; 64], at: usize) -> (r: [u8; 32])
    requires
        at == 0 || at == 32,
    ensures
        r@ == bytes@.subrange(at as int, at + 32),
{
    let mut out = [0u8; 32];
    let mut i: usize = 0;
    while i < 32
        invariant
            i <= 32,
            at == 0 || at == 32,
            forall|j: int| 0 <= j < i ==> out@[j] == bytes@[at + j],
        decreases 32 - i,
    {
        out[i] = bytes[at + i];
        i += 1;
    }
    proof {
        assert(out@ =~= bytes@.subrange(at as int, at + 32));
    }
    out
}

/// `halo2curves::CurveAffine::from_xy` on `bn256::G2Affine`: whether the
/// coordinates are a point of the curve of the second group.
#[verifier::external_body]
fn g2_is_on_curve(x: &[u8; 64], y: &[u8; 64]) -> (b: bool)
    requires
        canonical_pair(x@),
        canonical_pair(y@),
    ensures
        b == g2_on_curve(pair_values(x@, y@)),
{
    let x = Fq2::from_bytes(x).unwrap();
    let y = Fq2::from_bytes(y).unwrap();
    bool::from(<curves::G2Affine as halo2curves::CurveAffine>::from_xy(x, y).is_some())
}

/// `group::cofactor::CofactorGroup::is_torsion_free` on `bn256::G2`: whether
/// a point of the curve of the second group has the order of the group.
#[verifier::external_body]
fn g2_is_torsion_free(x: &[u8; 64], y: &[u8; 64]) -> (b: bool)
    requires
        canonical_pair(x@),
        canonical_pair(y@),
        g2_on_curve(pair_values(x@, y@)),
    ensures
        b == g2_torsion_free(pair_values(x@, y@)),
{
    let x = Fq2::from_bytes(x).unwrap();
    let y = Fq2::from_bytes(y).unwrap();
    let q = halo2curves::group::prime::PrimeCurveAffine::to_curve(&curves::G2Affine { x, y });
    bool::from(halo2curves::group::cofactor::CofactorGroup::is_torsion_free(&q))
}

/// `pairing::Engine::pairing` on `halo2curves::bn256::Bn256`, taken twice:
/// whether `e(p, g)` and `e(q, h)` are the same element of the target group.
/// The pairing is defined for points of the two groups.
#[verifier::external_body]
pub(crate) fn pairing_equal(p: &G1Affine, g: &G2Affine, q: &G1Affine, h: &G2Affine) -> (b: bool)
    requires
        p.valid(),
        g.valid(),
        q.valid(),
        h.valid(),
    ensures
        b == (bn256_pairing(p.coordinates(), g.coordinates()) == bn256_pairing(
            q.coordinates(),
            h.coordinates(),
        )),
{
    let p = curves::G1Affine { x: Fq::from_bytes(&p.x).unwrap(), y: Fq::from_bytes(&p.y).unwrap() };
    let q = curves::G1Affine { x: Fq::from_bytes(&q.x).unwrap(), y: Fq::from_bytes(&q.y).unwrap() };
    let g =
        curves::G2Affine { x: Fq2::from_bytes(&g.x).unwrap(), y: Fq2::from_bytes(&g.y).unwrap() };
    let h =
        curves::G2Affine { x: Fq2::from_bytes(&h.x).unwrap(), y: Fq2::from_bytes(&h.y).unwrap() };
    Bn256::pairing(&p, &g) == Bn256::pairing(&q, &h)
}

} // verus!
