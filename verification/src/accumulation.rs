//! Folding of deferred pairing checks.
//!
//! An accumulator `(lhs, rhs)` stands for the equation
//! `e(lhs, [1]) = e(rhs, [τ])`. Several accumulators fold into one by a
//! linear combination whose coefficients are the powers of a challenge.

use crate::curve::{msm, CurveAffine, PointValue};
use crate::error::Error;
use crate::field::PrimeField;
use crate::loader::{Context, LoadedEcPoint, LoadedScalar, Loader, ScalarLoader};
use crate::transcript::{Absorbed, Transcript, TranscriptRead, TranscriptWrite};
use vstd::arithmetic::power::pow;
use vstd::prelude::*;

verus! {

/// A deferred pairing check: the pair of points `(lhs, rhs)`.
#[derive(Debug)]
pub struct KzgAccumulator<P> {
    pub lhs: P,
    pub rhs: P,
}

impl<P> KzgAccumulator<P> {
    pub fn new(lhs: P, rhs: P) -> (r: Self)
        ensures
            r.lhs == lhs,
            r.rhs == rhs,
    {
        KzgAccumulator { lhs, rhs }
    }
}

/// What a verifier of a folding needs to know of the scheme: whether
/// foldings are blinded.
#[derive(Clone, Copy, Debug, PartialEq, Eq, Structural)]
pub struct KzgAsVerifyingKey {
    zk: bool,
}

impl KzgAsVerifyingKey {
    pub fn new(zk: bool) -> (r: Self)
        ensures
            r.zk() == zk,
    {
        KzgAsVerifyingKey { zk }
    }

    /// Whether a folding carries a blinding accumulator.
    pub closed spec fn zk(&self) -> bool {
        self.zk
    }

    /// Whether a folding carries a blinding accumulator.
    pub fn is_zk(&self) -> (b: bool)
        ensures
            b == self.zk(),
    {
        self.zk
    }
}

/// The proof of a folding: the blinding accumulator, where the scheme
/// blinds, and the challenge that weighs the accumulators.
#[derive(Debug)]
pub struct KzgAsProof<P, S> {
    pub blind: Option<(P, P)>,
    pub r: S,
}

/// Whether both points of every accumulator in `instances` belong to the
/// context `context`.
pub open spec fn accumulators_in<C: CurveAffine, P: LoadedEcPoint<C>>(
    instances: Seq<KzgAccumulator<P>>,
    context: int,
) -> bool {
    forall|j: int|
        0 <= j < instances.len() ==> (#[trigger] instances[j]).lhs.context() == context
            && instances[j].rhs.context() == context
}

/// Whether the challenge of a proof and both points of its blinding
/// accumulator belong to the context `context`.
pub open spec fn proof_in<C: CurveAffine, P: LoadedEcPoint<C>>(
    proof: KzgAsProof<P, P::LoadedScalar>,
    context: int,
) -> bool {
    &&& proof.r.context() == context
    &&& proof.blind matches Some(b) ==> b.0.context() == context && b.1.context() == context
}

/// The terms `(r^j mod p, base_j)` of a folding with challenge `r`.
pub open spec fn fold_terms(r: nat, p: nat, bases: Seq<PointValue>) -> Seq<(nat, PointValue)> {
    Seq::new(bases.len(), |j: int| ((pow(r as int, j as nat) % (p as int)) as nat, bases[j]))
}

/// The pairs of points that `instances` stand for.
pub open spec fn accumulator_values<C: CurveAffine, P: LoadedEcPoint<C>>(
    instances: Seq<KzgAccumulator<P>>,
) -> Seq<(PointValue, PointValue)> {
    Seq::new(instances.len(), |j: int| (instances[j].lhs.value(), instances[j].rhs.value()))
}

/// The points of a blinding accumulator, where there is one.
pub open spec fn blind_values<C: CurveAffine, P: LoadedEcPoint<C>>(blind: Option<(P, P)>) -> Option<
    (PointValue, PointValue),
> {
    match blind {
        Some(b) => Some((b.0.value(), b.1.value())),
        None => None,
    }
}

/// The points of one side that a folding combines: those of the
/// accumulators, then that of the blinding accumulator where there is one.
pub open spec fn folded_points(
    instances: Seq<(PointValue, PointValue)>,
    blind: Option<(PointValue, PointValue)>,
    left: bool,
) -> Seq<PointValue> {
    let own = Seq::new(
        instances.len(),
        |j: int|
            if left {
                instances[j].0
            } else {
                instances[j].1
            },
    );
    match blind {
        Some(b) => own.push(
            if left {
                b.0
            } else {
                b.1
            },
        ),
        None => own,
    }
}

/// One side of the accumulator that folds `instances` and `blind` with the
/// challenge `r`: the combination `Σ r^j · P_j` of that side's points.
pub open spec fn folded_side<C: CurveAffine>(
    r: nat,
    instances: Seq<(PointValue, PointValue)>,
    blind: Option<(PointValue, PointValue)>,
    left: bool,
) -> PointValue {
    msm::<C>(fold_terms(r, C::Scalar::modulus(), folded_points(instances, blind, left)))
}

/// Folds `instances`, and the blinding accumulator of `proof` where there is
/// one, into a single accumulator: each side is the combination of the
/// sides of all accumulators, weighted by the powers of the challenge.
pub fn verify<C: CurveAffine, P: LoadedEcPoint<C>>(
    instances: &Vec<KzgAccumulator<P>>,
    proof: &KzgAsProof<P, P::LoadedScalar>,
) -> (r: Result<KzgAccumulator<P>, Error>)
    requires
        0 < instances.len() < usize::MAX,
        accumulators_in::<C, P>(instances@, proof.r.context()),
        proof_in::<C, P>(*proof, proof.r.context()),
    ensures
        r matches Ok(acc) && acc.lhs.context() == proof.r.context() && acc.rhs.context()
            == proof.r.context() && acc.lhs.value() == folded_side::<C>(
            proof.r.value(),
            accumulator_values::<C, P>(instances@),
            blind_values::<C, P>(proof.blind),
            true,
        ) && acc.rhs.value() == folded_side::<C>(
            proof.r.value(),
            accumulator_values::<C, P>(instances@),
            blind_values::<C, P>(proof.blind),
            false,
        ),
{
    let ghost p = C::Scalar::modulus();
    let ghost rv = proof.r.value();
    let n = instances.len();
    let total = match &proof.blind {
        Some(_) => n + 1,
        None => n,
    };
    let powers_of_r = proof.r.powers(total);
    let mut lhs: Vec<(P::LoadedScalar, P)> = Vec::new();
    let mut rhs: Vec<(P::LoadedScalar, P)> = Vec::new();
    let mut j: usize = 0;
    while j < n
        invariant
            j <= n,
            n == instances.len(),
            n <= total,
            powers_of_r.len() == total,
            lhs.len() == j,
            rhs.len() == j,
            forall|i: int|
                0 <= i < total ==> (#[trigger] powers_of_r[i]).value() == pow(rv as int, i as nat)
                    % (p as int),
            forall|i: int|
                0 <= i < j ==> (#[trigger] lhs[i]).0.value() == powers_of_r[i].value()
                    && lhs[i].1.value() == instances[i].lhs.value(),
            forall|i: int|
                0 <= i < j ==> (#[trigger] rhs[i]).0.value() == powers_of_r[i].value()
                    && rhs[i].1.value() == instances[i].rhs.value(),
            accumulators_in::<C, P>(instances@, proof.r.context()),
            forall|i: int|
                0 <= i < total ==> (#[trigger] powers_of_r[i]).context() == proof.r.context(),
            forall|i: int|
                0 <= i < j ==> (#[trigger] lhs[i]).0.context() == proof.r.context()
                    && lhs[i].1.context() == proof.r.context(),
            forall|i: int|
                0 <= i < j ==> (#[trigger] rhs[i]).0.context() == proof.r.context()
                    && rhs[i].1.context() == proof.r.context(),
        decreases n - j,
    {
        lhs.push((powers_of_r[j].duplicate(), instances[j].lhs.duplicate()));
        rhs.push((powers_of_r[j].duplicate(), instances[j].rhs.duplicate()));
        j += 1;
    }
    match &proof.blind {
        Some(blind) => {
            lhs.push((powers_of_r[n].duplicate(), blind.0.duplicate()));
            rhs.push((powers_of_r[n].duplicate(), blind.1.duplicate()));
        },
        None => {},
    }
    proof {
        let lhs_terms = Seq::new(lhs@.len(), |i: int| (lhs@[i].0.value(), lhs@[i].1.value()));
        let rhs_terms = Seq::new(rhs@.len(), |i: int| (rhs@[i].0.value(), rhs@[i].1.value()));
        let values = accumulator_values::<C, P>(instances@);
        let blind = blind_values::<C, P>(proof.blind);
        assert(lhs_terms =~= fold_terms(rv, p, folded_points(values, blind, true)));
        assert(rhs_terms =~= fold_terms(rv, p, folded_points(values, blind, false)));
    }
    let lhs = P::multi_scalar_multiplication(lhs);
    let rhs = P::multi_scalar_multiplication(rhs);
    Ok(KzgAccumulator { lhs, rhs })
}

/// The history of a transcript after it absorbed both points of every
/// accumulator in `instances`, in order.
pub open spec fn absorb_accumulators(
    history: Seq<Absorbed>,
    instances: Seq<(PointValue, PointValue)>,
) -> Seq<Absorbed>
    decreases instances.len(),
{
    if instances.len() == 0 {
        history
    } else {
        let last = instances.last();
        absorb_accumulators(history, instances.drop_last()).push(
            Absorbed::Point(last.0.0, last.0.1),
        ).push(Absorbed::Point(last.1.0, last.1.1))
    }
}

/// The history from which the challenge of a folding is derived: all
/// accumulators absorbed, then the blinding accumulator where there is one.
pub open spec fn folding_history(
    history: Seq<Absorbed>,
    instances: Seq<(PointValue, PointValue)>,
    blind: Option<(PointValue, PointValue)>,
) -> Seq<Absorbed> {
    let absorbed = absorb_accumulators(history, instances);
    match blind {
        Some(b) => absorbed.push(Absorbed::Point(b.0.0, b.0.1)).push(
            Absorbed::Point(b.1.0, b.1.1),
        ),
        None => absorbed,
    }
}

/// Whether a transcript of kind `T` accepts both points of every accumulator
/// in `instances`, and of the blinding accumulator where there is one.
pub open spec fn all_accepted<C, L, T>(
    instances: Seq<(PointValue, PointValue)>,
    blind: Option<(PointValue, PointValue)>,
) -> bool where C: CurveAffine, L: Loader<C>, T: Transcript<C, L> {
    &&& forall|j: int|
        0 <= j < instances.len() ==> T::accepts(
            Absorbed::Point((#[trigger] instances[j]).0.0, instances[j].0.1),
        ) && T::accepts(Absorbed::Point(instances[j].1.0, instances[j].1.1))
    &&& blind matches Some(b) ==> T::accepts(Absorbed::Point(b.0.0, b.0.1)) && T::accepts(
        Absorbed::Point(b.1.0, b.1.1),
    )
}

/// What reading the blinding accumulator from the bytes `unread` gives: the
/// accumulator, where the scheme blinds, and the number of bytes read.
/// `None` where the scheme blinds and the bytes do not start with two points
/// that the transcript accepts.
pub open spec fn read_blind<C, L, T>(zk: bool, unread: Seq<u8>) -> Option<
    (Option<(PointValue, PointValue)>, nat),
> where C: CurveAffine, L: Loader<C>, T: TranscriptRead<C, L> {
    if !zk {
        Some((None, 0nat))
    } else {
        match T::decode_ec_point(unread) {
            Some(lhs) => if T::accepts(Absorbed::Point(lhs.0.0, lhs.0.1)) {
                match T::decode_ec_point(unread.skip(lhs.1 as int)) {
                    Some(rhs) => if T::accepts(Absorbed::Point(rhs.0.0, rhs.0.1)) {
                        Some((Some((lhs.0, rhs.0)), lhs.1 + rhs.1))
                    } else {
                        None
                    },
                    None => None,
                }
            } else {
                None
            },
            None => None,
        }
    }
}

/// Reads the proof of a folding of `instances`: absorbs every accumulator,
/// reads the blinding accumulator where the scheme blinds, and derives the
/// challenge. It succeeds exactly where the transcript accepts every
/// accumulator and the blinding accumulator can be read.
pub fn read_proof<C, L, T>(
    vk: &KzgAsVerifyingKey,
    instances: &Vec<KzgAccumulator<L::LoadedEcPoint>>,
    transcript: &mut T,
) -> (r: Result<
    KzgAsProof<L::LoadedEcPoint, <L as ScalarLoader<C::Scalar>>::LoadedScalar>,
    Error,
>) where C: CurveAffine, L: Loader<C>, T: TranscriptRead<C, L>
    requires
        instances.len() > 1,
        old(transcript).wf(),
        accumulators_in::<C, L::LoadedEcPoint>(instances@, old(transcript).context()),
    ensures
        final(transcript).wf(),
        final(transcript).context() == old(transcript).context(),
        r is Ok <==> all_accepted::<C, L, T>(
            accumulator_values::<C, L::LoadedEcPoint>(instances@),
            None,
        ) && read_blind::<C, L, T>(vk.zk(), old(transcript).unread()) is Some,
        r matches Ok(proof) ==> proof.r.context() == old(transcript).context() && (
        proof.blind matches Some(b) ==> b.0.context() == old(transcript).context()
            && b.1.context() == old(transcript).context()),
        r matches Ok(proof) ==> {
            let read = read_blind::<C, L, T>(vk.zk(), old(transcript).unread())->0;
            let before = folding_history(
                old(transcript).history(),
                accumulator_values::<C, L::LoadedEcPoint>(instances@),
                read.0,
            );
            &&& blind_values::<C, L::LoadedEcPoint>(proof.blind) == read.0
            &&& proof.r.value() == T::challenge_of(before)
            &&& final(transcript).history() == before.push(Absorbed::Challenge)
            &&& final(transcript).unread() == old(transcript).unread().skip(read.1 as int)
        },
{
    let ghost start = transcript.history();
    let ghost values = accumulator_values::<C, L::LoadedEcPoint>(instances@);
    let n = instances.len();
    let mut j: usize = 0;
    while j < n
        invariant
            j <= n,
            n == instances.len(),
            values == accumulator_values::<C, L::LoadedEcPoint>(instances@),
            transcript.wf(),
            transcript.context() == old(transcript).context(),
            accumulators_in::<C, L::LoadedEcPoint>(instances@, old(transcript).context()),
            transcript.unread() == old(transcript).unread(),
            transcript.history() == absorb_accumulators(start, values.take(j as int)),
            forall|i: int|
                0 <= i < j ==> T::accepts(
                    Absorbed::Point((#[trigger] values[i]).0.0, values[i].0.1),
                ) && T::accepts(Absorbed::Point(values[i].1.0, values[i].1.1)),
        decreases n - j,
    {
        proof {
            let instance = instances[j as int];
            assert(values[j as int] == (instance.lhs.value(), instance.rhs.value()));
        }
        match transcript.common_ec_point(&instances[j].lhs) {
            Ok(_) => {},
            Err(e) => {
                return Err(e);
            },
        }
        match transcript.common_ec_point(&instances[j].rhs) {
            Ok(_) => {},
            Err(e) => {
                return Err(e);
            },
        }
        proof {
            assert(values.take(j + 1).drop_last() =~= values.take(j as int));
            assert(values.take(j + 1).last() == values[j as int]);
        }
        j += 1;
    }
    proof {
        assert(values.take(n as int) =~= values);
    }
    let blind = if vk.is_zk() {
        let lhs = match transcript.read_ec_point() {
            Ok(point) => point,
            Err(e) => {
                return Err(e);
            },
        };
        let rhs = match transcript.read_ec_point() {
            Ok(point) => point,
            Err(e) => {
                return Err(e);
            },
        };
        proof {
            let first = T::decode_ec_point(old(transcript).unread())->0;
            let second = T::decode_ec_point(old(transcript).unread().skip(first.1 as int))->0;
            T::lemma_decoded_within(old(transcript).unread());
            T::lemma_decoded_within(old(transcript).unread().skip(first.1 as int));
            assert(old(transcript).unread().skip(first.1 as int).skip(second.1 as int)
                =~= old(transcript).unread().skip((first.1 + second.1) as int));
        }
        Some((lhs, rhs))
    } else {
        proof {
            assert(old(transcript).unread().skip(0) =~= old(transcript).unread());
        }
        None
    };
    let r = transcript.squeeze_challenge();
    Ok(KzgAsProof { blind, r })
}

/// The accumulator that folding `instances` and `blind` gives on a transcript
/// of kind `T` that stood at `start`: both sides combined by the powers of
/// the challenge that the transcript gives after absorbing them all.
pub open spec fn folded_accumulator<C, L, T>(
    start: Seq<Absorbed>,
    instances: Seq<(PointValue, PointValue)>,
    blind: Option<(PointValue, PointValue)>,
) -> (PointValue, PointValue) where C: CurveAffine, L: Loader<C>, T: Transcript<C, L> {
    let challenge = T::challenge_of(folding_history(start, instances, blind));
    (
        folded_side::<C>(challenge, instances, blind, true),
        folded_side::<C>(challenge, instances, blind, false),
    )
}

/// Whether `folded` is what folding `instances` gives on a transcript that
/// stood at `start` and stands at `end` afterwards: the transcript absorbed
/// every accumulator and the blinding accumulator, gave one challenge, and
/// both sides of `folded` are the combinations weighed by its powers.
pub open spec fn is_folding<C, L, T>(
    zk: bool,
    start: Seq<Absorbed>,
    instances: Seq<(PointValue, PointValue)>,
    blind: Option<(PointValue, PointValue)>,
    end: Seq<Absorbed>,
    folded: (PointValue, PointValue),
) -> bool where C: CurveAffine, L: Loader<C>, T: Transcript<C, L> {
    &&& blind is Some <==> zk
    &&& end == folding_history(start, instances, blind).push(Absorbed::Challenge)
    &&& folded == folded_accumulator::<C, L, T>(start, instances, blind)
}

/// Brings a non-empty list of accumulators down to one. A single
/// accumulator is returned as it is and the transcript is left untouched.
/// Several are folded with the proof that the transcript holds, which
/// succeeds exactly where that proof can be read.
pub fn accumulate<C, L, T>(
    vk: &KzgAsVerifyingKey,
    accumulators: Vec<KzgAccumulator<L::LoadedEcPoint>>,
    transcript: &mut T,
) -> (r: Result<KzgAccumulator<L::LoadedEcPoint>, Error>) where
    C: CurveAffine,
    L: Loader<C>,
    T: TranscriptRead<C, L>,
    L::LoadedEcPoint: LoadedEcPoint<
        C,
        LoadedScalar = <L as ScalarLoader<C::Scalar>>::LoadedScalar,
    >,

    requires
        0 < accumulators.len() < usize::MAX,
        old(transcript).wf(),
        accumulators_in::<C, L::LoadedEcPoint>(accumulators@, old(transcript).context()),
    ensures
        final(transcript).wf(),
        final(transcript).context() == old(transcript).context(),
        r matches Ok(acc) ==> acc.lhs.context() == old(transcript).context() && acc.rhs.context()
            == old(transcript).context(),
        accumulators.len() == 1 ==> r == Ok::<KzgAccumulator<L::LoadedEcPoint>, Error>(
            accumulators[0],
        ) && final(transcript).history() == old(transcript).history()
            && final(transcript).unread() == old(transcript).unread(),
        accumulators.len() > 1 ==> (r is Ok <==> all_accepted::<C, L, T>(
            accumulator_values::<C, L::LoadedEcPoint>(accumulators@),
            None,
        ) && read_blind::<C, L, T>(vk.zk(), old(transcript).unread()) is Some),
        accumulators.len() > 1 ==> (r matches Ok(acc) ==> {
            let read = read_blind::<C, L, T>(vk.zk(), old(transcript).unread())->0;
            &&& is_folding::<C, L, T>(
                vk.zk(),
                old(transcript).history(),
                accumulator_values::<C, L::LoadedEcPoint>(accumulators@),
                read.0,
                final(transcript).history(),
                (acc.lhs.value(), acc.rhs.value()),
            )
            &&& final(transcript).unread() == old(transcript).unread().skip(read.1 as int)
        }),
{
    let mut accumulators = accumulators;
    if accumulators.len() > 1 {
        let proof = match read_proof::<C, L, T>(vk, &accumulators, transcript) {
            Ok(proof) => proof,
            Err(e) => {
                return Err(e);
            },
        };
        let folded = verify::<C, L::LoadedEcPoint>(&accumulators, &proof);
        proof {
            let blind = blind_values::<C, L::LoadedEcPoint>(proof.blind);
            assert(is_folding::<C, L, T>(
                vk.zk(),
                old(transcript).history(),
                accumulator_values::<C, L::LoadedEcPoint>(accumulators@),
                blind,
                transcript.history(),
                (folded->Ok_0.lhs.value(), folded->Ok_0.rhs.value()),
            ));
        }
        folded
    } else {
        Ok(accumulators.pop().unwrap())
    }
}

/// What a prover of a folding needs to know of the scheme: where foldings
/// are blinded, the first two powers `([1], [τ])` of the setup.
#[derive(Debug)]
pub struct KzgAsProvingKey<C> {
    pub powers: Option<(C, C)>,
}

impl<C> KzgAsProvingKey<C> {
    pub fn new(powers: Option<(C, C)>) -> (r: Self)
        ensures
            r.powers == powers,
    {
        KzgAsProvingKey { powers }
    }

    /// Whether a folding carries a blinding accumulator.
    pub fn zk(&self) -> (b: bool)
        ensures
            b == (self.powers is Some),
    {
        self.powers.is_some()
    }

    /// The key for verifying what this key proves.
    pub fn vk(&self) -> (r: KzgAsVerifyingKey)
        ensures
            r.zk() == (self.powers is Some),
    {
        KzgAsVerifyingKey::new(self.powers.is_some())
    }
}

/// The blinding accumulator that the scalar `s` gives under `powers`: the
/// pair `(s · [τ], s · [1])`, which satisfies the pairing equation.
pub open spec fn blinding<C: CurveAffine>(powers: Option<(C, C)>, s: nat) -> Option<
    (PointValue, PointValue),
> {
    match powers {
        Some(p) => Some((C::mul_value(s, p.1.value()), C::mul_value(s, p.0.value()))),
        None => None,
    }
}

/// The bytes that writing a blinding accumulator adds to a proof: those of
/// its left point, then those of its right point; none without blinding.
pub open spec fn written_blind<C, L, T>(blind: Option<(PointValue, PointValue)>) -> Seq<u8> where
    C: CurveAffine,
    L: Loader<C>,
    T: TranscriptWrite<C, L>,
 {
    match blind {
        Some(b) => T::encode_ec_point(b.0).add(T::encode_ec_point(b.1)),
        None => Seq::empty(),
    }
}

/// Folds `instances` and writes the proof of the folding to the transcript:
/// absorbs every accumulator, writes the blinding accumulator that `blind`
/// gives where the scheme blinds, derives the challenge and combines. It
/// succeeds exactly where the transcript accepts every point.
pub fn create_proof<C, L, T>(
    pk: &KzgAsProvingKey<C>,
    instances: &Vec<KzgAccumulator<L::LoadedEcPoint>>,
    transcript: &mut T,
    blind: &C::Scalar,
) -> (r: Result<KzgAccumulator<L::LoadedEcPoint>, Error>) where
    C: CurveAffine,
    L: Loader<C>,
    T: TranscriptWrite<C, L>,
    L::LoadedEcPoint: LoadedEcPoint<
        C,
        LoadedScalar = <L as ScalarLoader<C::Scalar>>::LoadedScalar,
    >,

    requires
        1 < instances.len() < usize::MAX,
        old(transcript).wf(),
        accumulators_in::<C, L::LoadedEcPoint>(instances@, old(transcript).context()),
    ensures
        final(transcript).wf(),
        final(transcript).context() == old(transcript).context(),
        r matches Ok(acc) ==> acc.lhs.context() == old(transcript).context() && acc.rhs.context()
            == old(transcript).context(),
        r is Ok <==> all_accepted::<C, L, T>(
            accumulator_values::<C, L::LoadedEcPoint>(instances@),
            blinding::<C>(pk.powers, blind.value()),
        ),
        r matches Ok(acc) ==> is_folding::<C, L, T>(
            pk.powers is Some,
            old(transcript).history(),
            accumulator_values::<C, L::LoadedEcPoint>(instances@),
            blinding::<C>(pk.powers, blind.value()),
            final(transcript).history(),
            (acc.lhs.value(), acc.rhs.value()),
        ) && final(transcript).unread() == old(transcript).unread().add(
            written_blind::<C, L, T>(blinding::<C>(pk.powers, blind.value())),
        ),
{
    let ghost start = transcript.history();
    let ghost values = accumulator_values::<C, L::LoadedEcPoint>(instances@);
    let n = instances.len();
    let mut j: usize = 0;
    while j < n
        invariant
            j <= n,
            n == instances.len(),
            values == accumulator_values::<C, L::LoadedEcPoint>(instances@),
            transcript.wf(),
            transcript.context() == old(transcript).context(),
            accumulators_in::<C, L::LoadedEcPoint>(instances@, old(transcript).context()),
            transcript.unread() == old(transcript).unread(),
            transcript.history() == absorb_accumulators(start, values.take(j as int)),
            forall|i: int|
                0 <= i < j ==> T::accepts(
                    Absorbed::Point((#[trigger] values[i]).0.0, values[i].0.1),
                ) && T::accepts(Absorbed::Point(values[i].1.0, values[i].1.1)),
        decreases n - j,
    {
        proof {
            let instance = instances[j as int];
            assert(values[j as int] == (instance.lhs.value(), instance.rhs.value()));
        }
        match transcript.common_ec_point(&instances[j].lhs) {
            Ok(_) => {},
            Err(e) => {
                return Err(e);
            },
        }
        match transcript.common_ec_point(&instances[j].rhs) {
            Ok(_) => {},
            Err(e) => {
                return Err(e);
            },
        }
        proof {
            assert(values.take(j + 1).drop_last() =~= values.take(j as int));
            assert(values.take(j + 1).last() == values[j as int]);
        }
        j += 1;
    }
    proof {
        assert(values.take(n as int) =~= values);
    }
    let blinded = match &pk.powers {
        Some(powers) => {
            let (lhs, rhs) = {
                let loader = transcript.loader();
                let s = loader.load_const(blind);
                let lhs_pairs = vec![(s.duplicate(), loader.ec_point_load_const(&powers.1))];
                let rhs_pairs = vec![(s, loader.ec_point_load_const(&powers.0))];
                proof {
                    let lhs_terms = Seq::new(
                        lhs_pairs@.len(),
                        |i: int| (lhs_pairs@[i].0.value(), lhs_pairs@[i].1.value()),
                    );
                    let rhs_terms = Seq::new(
                        rhs_pairs@.len(),
                        |i: int| (rhs_pairs@[i].0.value(), rhs_pairs@[i].1.value()),
                    );
                    assert(lhs_terms.len() == 1 && rhs_terms.len() == 1);
                    assert(lhs_terms[0] == (blind.value(), powers.1.value()));
                    assert(rhs_terms[0] == (blind.value(), powers.0.value()));
                }
                (
                    L::LoadedEcPoint::multi_scalar_multiplication(lhs_pairs),
                    L::LoadedEcPoint::multi_scalar_multiplication(rhs_pairs),
                )
            };
            match transcript.write_ec_point(&lhs) {
                Ok(_) => {},
                Err(e) => {
                    return Err(e);
                },
            }
            match transcript.write_ec_point(&rhs) {
                Ok(_) => {},
                Err(e) => {
                    return Err(e);
                },
            }
            Some((lhs, rhs))
        },
        None => None,
    };
    proof {
        let written = written_blind::<C, L, T>(blinding::<C>(pk.powers, blind.value()));
        assert(transcript.unread() =~= old(transcript).unread().add(written));
    }
    let r = transcript.squeeze_challenge();
    let proof = KzgAsProof { blind: blinded, r };
    verify::<C, L::LoadedEcPoint>(instances, &proof)
}

} // verus!
