//! Succinct verification of a KZG opening.
//!
//! A proof claims that a committed polynomial takes the value `eval` at the
//! point `point`, and brings a commitment to the quotient as witness. The
//! claim is not checked here: it is turned into an accumulator whose pairing
//! check holds exactly where the claim is true.

use crate::accumulation::{
    accumulate, accumulator_values, all_accepted, is_folding, read_blind, KzgAccumulator,
    KzgAsVerifyingKey,
};
use crate::curve::{msm, CurveAffine, PointValue};
use crate::error::Error;
use crate::field::PrimeField;
use crate::loader::{
    Context, EcPointLoader, LoadedEcPoint, LoadedScalar, Loader, ScalarLoader,
};
use crate::transcript::{Absorbed, Transcript, TranscriptRead};
use vstd::prelude::*;

verus! {

/// The key of succinct verification: the first power `[1]` of the setup.
#[derive(Debug)]
pub struct KzgSuccinctVerifyingKey<C> {
    pub g: C,
}

impl<C> KzgSuccinctVerifyingKey<C> {
    pub fn new(g: C) -> (r: Self)
        ensures
            r.g == g,
    {
        KzgSuccinctVerifyingKey { g }
    }
}

/// The claim that the polynomial committed to by `commitment` takes the
/// value `eval` at `point`, with the commitment `witness` to the quotient.
#[derive(Debug)]
pub struct KzgOpening<P, S> {
    pub commitment: P,
    pub point: S,
    pub eval: S,
    pub witness: P,
}

/// The values `(commitment, point, eval, witness)` of an opening.
pub type OpeningValue = (PointValue, nat, nat, PointValue);

/// The values that an opening stands for.
pub open spec fn opening_value<C: CurveAffine, P: LoadedEcPoint<C>>(
    opening: KzgOpening<P, P::LoadedScalar>,
) -> OpeningValue {
    (
        opening.commitment.value(),
        opening.point.value(),
        opening.eval.value(),
        opening.witness.value(),
    )
}

/// Whether all four values of an opening belong to the context `context`.
pub open spec fn opening_in<C: CurveAffine, P: LoadedEcPoint<C>>(
    opening: KzgOpening<P, P::LoadedScalar>,
    context: int,
) -> bool {
    &&& opening.commitment.context() == context
    &&& opening.point.context() == context
    &&& opening.eval.context() == context
    &&& opening.witness.context() == context
}

/// The accumulator of an opening under the setup power `g = [1]`:
/// `lhs = commitment - eval · g + point · witness` and `rhs = witness`, so
/// that `e(lhs, [1]) = e(rhs, [τ])` says that the witness commits to
/// `(f - eval) / (X - point)`.
pub open spec fn opening_accumulator<C: CurveAffine>(g: PointValue, opening: OpeningValue) -> (
    PointValue,
    PointValue,
) {
    let p = C::Scalar::modulus() as int;
    (
        msm::<C>(
            seq![
                (1nat, opening.0),
                (((-(opening.2 as int)) % p) as nat, g),
                (opening.1, opening.3),
            ],
        ),
        opening.3,
    )
}

/// What reading an opening from the bytes `unread` gives on a transcript of
/// kind `T` with the history `history`: the opening and the number of bytes
/// read. The commitment is read first, the point is the challenge that
/// follows from it, then the value and the witness are read. `None` where
/// the bytes do not hold these three values, or the transcript does not
/// accept one of them.
pub open spec fn decode_opening<C, L, T>(history: Seq<Absorbed>, unread: Seq<u8>) -> Option<
    (OpeningValue, nat),
> where C: CurveAffine, L: Loader<C>, T: TranscriptRead<C, L> {
    match T::decode_ec_point(unread) {
        Some(c) => if T::accepts(Absorbed::Point(c.0.0, c.0.1)) {
            let z = T::challenge_of(history.push(Absorbed::Point(c.0.0, c.0.1)));
            match T::decode_scalar(unread.skip(c.1 as int)) {
                Some(v) => if T::accepts(Absorbed::Scalar(v.0)) {
                    match T::decode_ec_point(unread.skip(c.1 as int).skip(v.1 as int)) {
                        Some(w) => if T::accepts(Absorbed::Point(w.0.0, w.0.1)) {
                            Some(((c.0, z, v.0, w.0), c.1 + v.1 + w.1))
                        } else {
                            None
                        },
                        None => None,
                    }
                } else {
                    None
                },
                None => None,
            }
        } else {
            None
        },
        None => None,
    }
}

/// The history of a transcript after an opening was read from it.
pub open spec fn opening_history(history: Seq<Absorbed>, opening: OpeningValue) -> Seq<Absorbed> {
    history.push(Absorbed::Point(opening.0.0, opening.0.1)).push(Absorbed::Challenge).push(
        Absorbed::Scalar(opening.2),
    ).push(Absorbed::Point(opening.3.0, opening.3.1))
}

/// Reads an opening from a proof: the commitment, then the point as the
/// challenge that follows from it, then the value and the witness. It
/// succeeds exactly where the proof holds these values.
pub fn read_opening<C, L, T>(transcript: &mut T) -> (r: Result<
    KzgOpening<L::LoadedEcPoint, <L as ScalarLoader<C::Scalar>>::LoadedScalar>,
    Error,
>) where
    C: CurveAffine,
    L: Loader<C>,
    T: TranscriptRead<C, L>,
    L::LoadedEcPoint: LoadedEcPoint<
        C,
        LoadedScalar = <L as ScalarLoader<C::Scalar>>::LoadedScalar,
    >,

    requires
        old(transcript).wf(),
    ensures
        final(transcript).wf(),
        final(transcript).context() == old(transcript).context(),
        r matches Ok(opening) ==> opening_in::<C, L::LoadedEcPoint>(
            opening,
            old(transcript).context(),
        ),
        r is Ok <==> decode_opening::<C, L, T>(
            old(transcript).history(),
            old(transcript).unread(),
        ) is Some,
        r matches Ok(opening) ==> {
            let read = decode_opening::<C, L, T>(
                old(transcript).history(),
                old(transcript).unread(),
            ).unwrap();
            &&& opening_value::<C, L::LoadedEcPoint>(opening) == read.0
            &&& final(transcript).history() == opening_history(old(transcript).history(), read.0)
            &&& final(transcript).unread() == old(transcript).unread().skip(read.1 as int)
        },
        r matches Err(e) ==> e is MalformedInput,
{
    let ghost unread = transcript.unread();
    let commitment = match transcript.read_ec_point() {
        Ok(point) => point,
        Err(e) => {
            return Err(e);
        },
    };
    let point = transcript.squeeze_challenge();
    let eval = match transcript.read_scalar() {
        Ok(scalar) => scalar,
        Err(e) => {
            return Err(e);
        },
    };
    let witness = match transcript.read_ec_point() {
        Ok(point) => point,
        Err(e) => {
            return Err(e);
        },
    };
    proof {
        let c = T::decode_ec_point(unread).unwrap();
        let v = T::decode_scalar(unread.skip(c.1 as int)).unwrap();
        let w = T::decode_ec_point(unread.skip(c.1 as int).skip(v.1 as int)).unwrap();
        T::lemma_decoded_within(unread);
        T::lemma_decoded_within(unread.skip(c.1 as int));
        T::lemma_decoded_within(unread.skip(c.1 as int).skip(v.1 as int));
        assert(unread.skip(c.1 as int).skip(v.1 as int).skip(w.1 as int) =~= unread.skip(
            (c.1 + v.1 + w.1) as int,
        ));
    }
    Ok(KzgOpening { commitment, point, eval, witness })
}

/// What a verifier knows of the proofs of one kind before it sees one: how
/// many public instances each instance column holds.
#[derive(Debug)]
pub struct KzgProtocol {
    pub num_instance: Vec<usize>,
}

impl KzgProtocol {
    pub fn new(num_instance: Vec<usize>) -> (r: Self)
        ensures
            r.num_instance == num_instance,
    {
        KzgProtocol { num_instance }
    }

    /// Whether `shape` gives, column by column, the numbers of instances that
    /// this protocol asks for.
    pub open spec fn admits(&self, shape: Seq<nat>) -> bool {
        &&& shape.len() == self.num_instance.len()
        &&& forall|i: int| 0 <= i < shape.len() ==> #[trigger] shape[i] == self.num_instance[i]
    }
}

/// The field elements of the public instances, column by column.
pub open spec fn instance_values<F: PrimeField, S: LoadedScalar<F>>(instances: Seq<Vec<S>>) -> Seq<
    Seq<nat>,
> {
    Seq::new(
        instances.len(),
        |i: int| Seq::new(instances[i]@.len(), |j: int| instances[i]@[j].value()),
    )
}

/// The number of instances in each column.
pub open spec fn shape_of(columns: Seq<Seq<nat>>) -> Seq<nat> {
    Seq::new(columns.len(), |i: int| columns[i].len())
}

/// The history of a transcript after it absorbed the scalars `values`.
pub open spec fn absorb_scalars(history: Seq<Absorbed>, values: Seq<nat>) -> Seq<Absorbed>
    decreases values.len(),
{
    if values.len() == 0 {
        history
    } else {
        absorb_scalars(history, values.drop_last()).push(Absorbed::Scalar(values.last()))
    }
}

/// The history of a transcript after it absorbed all `columns`, one after
/// the other.
pub open spec fn absorb_columns(history: Seq<Absorbed>, columns: Seq<Seq<nat>>) -> Seq<Absorbed>
    decreases columns.len(),
{
    if columns.len() == 0 {
        history
    } else {
        absorb_scalars(absorb_columns(history, columns.drop_last()), columns.last())
    }
}

/// Whether a transcript of kind `T` accepts every scalar of `columns`.
pub open spec fn columns_accepted<C, L, T>(columns: Seq<Seq<nat>>) -> bool where
    C: CurveAffine,
    L: Loader<C>,
    T: Transcript<C, L>,
 {
    forall|i: int, j: int|
        0 <= i < columns.len() && 0 <= j < columns[i].len() ==> T::accepts(
            Absorbed::Scalar(#[trigger] columns[i][j]),
        )
}

/// Reads the proof of an opening that belongs to `instances`: holds the
/// instances to the protocol, absorbs them, and reads the opening. Instances
/// that do not match the protocol are refused at once, with nothing
/// absorbed. Else it succeeds exactly where the transcript accepts the
/// instances and the proof holds an opening.
pub fn read_proof<C, L, T>(
    protocol: &KzgProtocol,
    instances: &Vec<Vec<<L as ScalarLoader<C::Scalar>>::LoadedScalar>>,
    transcript: &mut T,
) -> (r: Result<
    KzgOpening<L::LoadedEcPoint, <L as ScalarLoader<C::Scalar>>::LoadedScalar>,
    Error,
>) where
    C: CurveAffine,
    L: Loader<C>,
    T: TranscriptRead<C, L>,
    L::LoadedEcPoint: LoadedEcPoint<
        C,
        LoadedScalar = <L as ScalarLoader<C::Scalar>>::LoadedScalar,
    >,

    requires
        old(transcript).wf(),
        forall|i: int, j: int|
            0 <= i < instances.len() && 0 <= j < instances[i].len() ==> (
            #[trigger] instances[i][j]).context() == old(transcript).context(),
    ensures
        final(transcript).wf(),
        final(transcript).context() == old(transcript).context(),
        r matches Ok(opening) ==> opening_in::<C, L::LoadedEcPoint>(
            opening,
            old(transcript).context(),
        ),
        ({
            let columns = instance_values::<
                C::Scalar,
                <L as ScalarLoader<C::Scalar>>::LoadedScalar,
            >(instances@);
            let absorbed = absorb_columns(old(transcript).history(), columns);
            let read = decode_opening::<C, L, T>(absorbed, old(transcript).unread());
            &&& !protocol.admits(shape_of(columns)) ==> (r matches Err(e) && e is MalformedInput)
                && final(transcript).history() == old(transcript).history()
                && final(transcript).unread() == old(transcript).unread()
            &&& r is Ok <==> protocol.admits(shape_of(columns)) && columns_accepted::<C, L, T>(
                columns,
            ) && read is Some
            &&& r matches Ok(opening) ==> opening_value::<C, L::LoadedEcPoint>(opening)
                == read.unwrap().0 && final(transcript).history() == opening_history(
                absorbed,
                read.unwrap().0,
            ) && final(transcript).unread() == old(transcript).unread().skip(
                read.unwrap().1 as int,
            )
        }),
{
    let ghost columns = instance_values::<C::Scalar, <L as ScalarLoader<C::Scalar>>::LoadedScalar>(
        instances@,
    );
    let ghost start = transcript.history();
    let n = instances.len();
    if n != protocol.num_instance.len() {
        return Err(Error::MalformedInput("instances do not match the protocol".to_owned()));
    }
    let mut i: usize = 0;
    while i < n
        invariant
            i <= n,
            n == instances.len(),
            n == protocol.num_instance.len(),
            columns == instance_values::<C::Scalar, <L as ScalarLoader<C::Scalar>>::LoadedScalar>(
                instances@,
            ),
            transcript.wf(),
            transcript.context() == old(transcript).context(),
            transcript.history() == old(transcript).history(),
            transcript.unread() == old(transcript).unread(),
            forall|k: int| 0 <= k < i ==> (#[trigger] columns[k]).len() == protocol.num_instance[k],
            forall|k: int| 0 <= k < n ==> (#[trigger] columns[k]).len() == instances[k].len(),
        decreases n - i,
    {
        if instances[i].len() != protocol.num_instance[i] {
            proof {
                assert(shape_of(columns)[i as int] == columns[i as int].len());
            }
            return Err(Error::MalformedInput("instances do not match the protocol".to_owned()));
        }
        i += 1;
    }
    proof {
        assert(protocol.admits(shape_of(columns)));
    }
    let mut i: usize = 0;
    while i < n
        invariant
            i <= n,
            n == instances.len(),
            columns == instance_values::<C::Scalar, <L as ScalarLoader<C::Scalar>>::LoadedScalar>(
                instances@,
            ),
            protocol.admits(shape_of(columns)),
            transcript.wf(),
            transcript.context() == old(transcript).context(),
            transcript.unread() == old(transcript).unread(),
            forall|a: int, b: int|
                0 <= a < instances.len() && 0 <= b < instances[a].len() ==> (
                #[trigger] instances[a][b]).context() == old(transcript).context(),
            transcript.history() == absorb_columns(start, columns.take(i as int)),
            forall|a: int, b: int|
                0 <= a < i && 0 <= b < columns[a].len() ==> T::accepts(
                    Absorbed::Scalar(#[trigger] columns[a][b]),
                ),
        decreases n - i,
    {
        let ghost before = transcript.history();
        let ghost column = columns[i as int];
        let m = instances[i].len();
        let mut j: usize = 0;
        while j < m
            invariant
                j <= m,
                i < n,
                n == instances.len(),
                m == instances[i as int].len(),
                column == Seq::new(
                    instances[i as int]@.len(),
                    |b: int| instances[i as int]@[b].value(),
                ),
                columns == instance_values::<
                    C::Scalar,
                    <L as ScalarLoader<C::Scalar>>::LoadedScalar,
                >(instances@),
                column == columns[i as int],
                protocol.admits(shape_of(columns)),
                transcript.wf(),
                transcript.context() == old(transcript).context(),
                transcript.unread() == old(transcript).unread(),
                forall|a: int, b: int|
                    0 <= a < instances.len() && 0 <= b < instances[a].len() ==> (
                    #[trigger] instances[a][b]).context() == old(transcript).context(),
                transcript.history() == absorb_scalars(before, column.take(j as int)),
                forall|b: int| 0 <= b < j ==> T::accepts(Absorbed::Scalar(#[trigger] column[b])),
            decreases m - j,
        {
            proof {
                assert(column[j as int] == instances[i as int][j as int].value());
            }
            match transcript.common_scalar(&instances[i][j]) {
                Ok(_) => {},
                Err(e) => {
                    proof {
                        assert(!T::accepts(Absorbed::Scalar(columns[i as int][j as int])));
                    }
                    return Err(e);
                },
            }
            proof {
                assert(column.take(j + 1).drop_last() =~= column.take(j as int));
            }
            j += 1;
        }
        proof {
            assert(column.take(m as int) =~= column);
            assert(columns.take(i + 1).drop_last() =~= columns.take(i as int));
            assert(columns.take(i + 1).last() == column);
        }
        i += 1;
    }
    proof {
        assert(columns.take(n as int) =~= columns);
    }
    read_opening::<C, L, T>(transcript)
}

/// Turns an opening into its accumulator. No pairing is computed.
pub fn succinct_verify<C, L>(
    svk: &KzgSuccinctVerifyingKey<C>,
    loader: &L,
    opening: &KzgOpening<L::LoadedEcPoint, <L as ScalarLoader<C::Scalar>>::LoadedScalar>,
) -> (r: KzgAccumulator<L::LoadedEcPoint>) where
    C: CurveAffine,
    L: Loader<C>,
    L::LoadedEcPoint: LoadedEcPoint<
        C,
        LoadedScalar = <L as ScalarLoader<C::Scalar>>::LoadedScalar,
    >,

    requires
        opening_in::<C, L::LoadedEcPoint>(*opening, loader.context()),
    ensures
        (r.lhs.value(), r.rhs.value()) == opening_accumulator::<C>(
            svk.g.value(),
            opening_value::<C, L::LoadedEcPoint>(*opening),
        ),
        r.lhs.context() == loader.context(),
        r.rhs.context() == loader.context(),
{
    let one = <L as ScalarLoader<C::Scalar>>::load_one(loader);
    let pairs = vec![
        (one, opening.commitment.duplicate()),
        (opening.eval.neg(), loader.ec_point_load_const(&svk.g)),
        (opening.point.duplicate(), opening.witness.duplicate()),
    ];
    proof {
        let terms = Seq::new(pairs@.len(), |i: int| (pairs@[i].0.value(), pairs@[i].1.value()));
        let p = C::Scalar::modulus() as int;
        assert(terms =~= seq![
            (1nat, opening.commitment.value()),
            (((-(opening.eval.value() as int)) % p) as nat, svk.g.value()),
            (opening.point.value(), opening.witness.value()),
        ]);
    }
    let lhs = L::LoadedEcPoint::multi_scalar_multiplication(pairs);
    KzgAccumulator { lhs, rhs: opening.witness.duplicate() }
}

/// Verifies one proof succinctly: reads the proof of an opening that
/// belongs to `instances` and turns the opening into its accumulator. It
/// fails exactly where reading the proof does.
pub fn succinct_verify_proof<C, L, T>(
    svk: &KzgSuccinctVerifyingKey<C>,
    protocol: &KzgProtocol,
    instances: &Vec<Vec<<L as ScalarLoader<C::Scalar>>::LoadedScalar>>,
    transcript: &mut T,
) -> (r: Result<KzgAccumulator<L::LoadedEcPoint>, Error>) where
    C: CurveAffine,
    L: Loader<C>,
    T: TranscriptRead<C, L>,
    L::LoadedEcPoint: LoadedEcPoint<
        C,
        LoadedScalar = <L as ScalarLoader<C::Scalar>>::LoadedScalar,
    >,

    requires
        old(transcript).wf(),
        forall|i: int, j: int|
            0 <= i < instances.len() && 0 <= j < instances[i].len() ==> (
            #[trigger] instances[i][j]).context() == old(transcript).context(),
    ensures
        final(transcript).wf(),
        final(transcript).context() == old(transcript).context(),
        r matches Ok(acc) ==> acc.lhs.context() == old(transcript).context() && acc.rhs.context()
            == old(transcript).context(),
        ({
            let columns = instance_values::<
                C::Scalar,
                <L as ScalarLoader<C::Scalar>>::LoadedScalar,
            >(instances@);
            let absorbed = absorb_columns(old(transcript).history(), columns);
            let read = decode_opening::<C, L, T>(absorbed, old(transcript).unread());
            &&& !protocol.admits(shape_of(columns)) ==> (r matches Err(e) && e is MalformedInput)
                && final(transcript).history() == old(transcript).history()
                && final(transcript).unread() == old(transcript).unread()
            &&& r is Ok <==> protocol.admits(shape_of(columns)) && columns_accepted::<C, L, T>(
                columns,
            ) && read is Some
            &&& r matches Ok(acc) ==> (acc.lhs.value(), acc.rhs.value()) == opening_accumulator::<
                C,
            >(svk.g.value(), read.unwrap().0) && final(transcript).history() == opening_history(
                absorbed,
                read.unwrap().0,
            ) && final(transcript).unread() == old(transcript).unread().skip(
                read.unwrap().1 as int,
            )
        }),
{
    let opening = match read_proof::<C, L, T>(protocol, instances, transcript) {
        Ok(opening) => opening,
        Err(e) => {
            return Err(e);
        },
    };
    let loader = transcript.loader();
    Ok(succinct_verify::<C, L>(svk, loader, &opening))
}

/// The accumulators of a batch of openings under the setup power `g`.
pub open spec fn opening_accumulators<C: CurveAffine, P: LoadedEcPoint<C>>(
    g: PointValue,
    openings: Seq<KzgOpening<P, P::LoadedScalar>>,
) -> Seq<(PointValue, PointValue)> {
    Seq::new(
        openings.len(),
        |i: int| opening_accumulator::<C>(g, opening_value::<C, P>(openings[i])),
    )
}

/// Verifies a batch of openings succinctly: turns each opening into its
/// accumulator and brings the accumulators down to one. For one opening the
/// result is the accumulator of that opening and the transcript is left
/// untouched; for several it is their folding with the proof that the
/// transcript holds.
pub fn succinct_verify_batch<C, L, T>(
    svk: &KzgSuccinctVerifyingKey<C>,
    as_vk: &KzgAsVerifyingKey,
    loader: &L,
    openings: &Vec<KzgOpening<L::LoadedEcPoint, <L as ScalarLoader<C::Scalar>>::LoadedScalar>>,
    transcript: &mut T,
) -> (r: Result<KzgAccumulator<L::LoadedEcPoint>, Error>) where
    C: CurveAffine,
    L: Loader<C>,
    T: TranscriptRead<C, L>,
    L::LoadedEcPoint: LoadedEcPoint<
        C,
        LoadedScalar = <L as ScalarLoader<C::Scalar>>::LoadedScalar,
    >,

    requires
        0 < openings.len() < usize::MAX,
        old(transcript).wf(),
        loader.context() == old(transcript).context(),
        forall|i: int|
            0 <= i < openings.len() ==> opening_in::<C, L::LoadedEcPoint>(
                #[trigger] openings[i],
                loader.context(),
            ),
    ensures
        final(transcript).wf(),
        final(transcript).context() == old(transcript).context(),
        r matches Ok(acc) ==> acc.lhs.context() == loader.context() && acc.rhs.context()
            == loader.context(),
        openings.len() == 1 ==> (r matches Ok(acc) && (acc.lhs.value(), acc.rhs.value())
            == opening_accumulator::<C>(
            svk.g.value(),
            opening_value::<C, L::LoadedEcPoint>(openings[0]),
        )) && final(transcript).history() == old(transcript).history()
            && final(transcript).unread() == old(transcript).unread(),
        openings.len() > 1 ==> (r is Ok <==> all_accepted::<C, L, T>(
            opening_accumulators::<C, L::LoadedEcPoint>(svk.g.value(), openings@),
            None,
        ) && read_blind::<C, L, T>(as_vk.zk(), old(transcript).unread()) is Some),
        openings.len() > 1 ==> (r matches Ok(acc) ==> {
            let read = read_blind::<C, L, T>(as_vk.zk(), old(transcript).unread()).unwrap();
            &&& is_folding::<C, L, T>(
                as_vk.zk(),
                old(transcript).history(),
                opening_accumulators::<C, L::LoadedEcPoint>(svk.g.value(), openings@),
                read.0,
                final(transcript).history(),
                (acc.lhs.value(), acc.rhs.value()),
            )
            &&& final(transcript).unread() == old(transcript).unread().skip(read.1 as int)
        }),
{
    let ghost expected = opening_accumulators::<C, L::LoadedEcPoint>(svk.g.value(), openings@);
    let n = openings.len();
    let mut accumulators: Vec<KzgAccumulator<L::LoadedEcPoint>> = Vec::new();
    let mut i: usize = 0;
    while i < n
        invariant
            i <= n,
            n == openings.len(),
            accumulators.len() == i,
            expected == opening_accumulators::<C, L::LoadedEcPoint>(svk.g.value(), openings@),
            forall|k: int|
                0 <= k < openings.len() ==> opening_in::<C, L::LoadedEcPoint>(
                    #[trigger] openings[k],
                    loader.context(),
                ),
            forall|k: int|
                0 <= k < i ==> (
                    (#[trigger] accumulators[k]).lhs.value(),
                    accumulators[k].rhs.value(),
                ) == expected[k] && accumulators[k].lhs.context() == loader.context()
                    && accumulators[k].rhs.context() == loader.context(),
        decreases n - i,
    {
        let accumulator = succinct_verify::<C, L>(svk, loader, &openings[i]);
        accumulators.push(accumulator);
        i += 1;
    }
    proof {
        assert(accumulator_values::<C, L::LoadedEcPoint>(accumulators@) =~= expected);
    }
    accumulate::<C, L, T>(as_vk, accumulators, transcript)
}

} // verus!
