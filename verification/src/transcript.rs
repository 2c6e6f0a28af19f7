//! Fiat–Shamir transcripts: what is absorbed decides every challenge.
//!
//! A transcript is described by its history, the sequence of everything it
//! has absorbed and of the challenges it has given. Two transcripts of one
//! kind with the same history give the same next challenge, in whatever
//! execution context they run.

use crate::curve::{CurveAffine, PointValue};
use crate::error::Error;
use crate::loader::{Context, LoadedEcPoint, LoadedScalar, Loader, ScalarLoader};
use vstd::prelude::*;

verus! {

/// One entry of a transcript's history.
pub enum Absorbed {
    /// A field element that was absorbed.
    Scalar(nat),
    /// A curve point that was absorbed, by its coordinates.
    Point(nat, nat),
    /// A challenge that was squeezed.
    Challenge,
}

/// Where a transcript stands between absorbing and squeezing.
#[derive(Clone, Copy, Debug, PartialEq, Eq, Structural)]
pub enum TranscriptState {
    /// Nothing has been absorbed or squeezed yet.
    Fresh,
    /// The last operation absorbed a value.
    Absorbing,
    /// The last operation squeezed a challenge.
    Squeezed,
}

/// The state of a transcript with the given history.
pub open spec fn state_of(history: Seq<Absorbed>) -> TranscriptState {
    if history.len() == 0 {
        TranscriptState::Fresh
    } else if history.last() is Challenge {
        TranscriptState::Squeezed
    } else {
        TranscriptState::Absorbing
    }
}

/// A source of challenges that absorbs scalars and points of one execution
/// context.
pub trait Transcript<C: CurveAffine, L: Loader<C>>: Context {
    /// The consistency of the transcript's own state, which every operation
    /// keeps.
    spec fn wf(&self) -> bool;

    /// Everything absorbed and squeezed so far, oldest first.
    spec fn history(&self) -> Seq<Absorbed>;

    /// The challenge that a transcript of this kind gives after `history`.
    spec fn challenge_of(history: Seq<Absorbed>) -> nat;

    /// Whether a transcript of this kind can absorb `entry`.
    spec fn accepts(entry: Absorbed) -> bool;

    /// The bytes of the proof that were not read yet; what is written to the
    /// proof goes behind them.
    spec fn unread(&self) -> Seq<u8>;

    /// The context whose values this transcript absorbs.
    fn loader(&self) -> (r: &L)
        ensures
            r.context() == self.context(),
    ;

    /// Derives the next challenge from all that came before.
    fn squeeze_challenge(&mut self) -> (r: <L as ScalarLoader<C::Scalar>>::LoadedScalar)
        requires
            old(self).wf(),
        ensures
            final(self).wf(),
            final(self).context() == old(self).context(),
            r.context() == old(self).context(),
            r.value() == Self::challenge_of(old(self).history()),
            final(self).history() == old(self).history().push(Absorbed::Challenge),
            final(self).unread() == old(self).unread(),
    ;

    /// Absorbs a point, where the transcript accepts it. On failure nothing
    /// is absorbed.
    fn common_ec_point(&mut self, ec_point: &L::LoadedEcPoint) -> (r: Result<(), Error>)
        requires
            old(self).wf(),
            ec_point.context() == old(self).context(),
        ensures
            final(self).wf(),
            final(self).context() == old(self).context(),
            r is Ok <==> Self::accepts(Absorbed::Point(ec_point.value().0, ec_point.value().1)),
            r is Ok ==> final(self).history() == old(self).history().push(
                Absorbed::Point(ec_point.value().0, ec_point.value().1),
            ),
            r is Err ==> final(self).history() == old(self).history(),
            final(self).unread() == old(self).unread(),
    ;

    /// Absorbs a scalar, where the transcript accepts it. On failure nothing
    /// is absorbed.
    fn common_scalar(&mut self, scalar: &<L as ScalarLoader<C::Scalar>>::LoadedScalar) -> (r:
        Result<(), Error>)
        requires
            old(self).wf(),
            scalar.context() == old(self).context(),
        ensures
            final(self).wf(),
            final(self).context() == old(self).context(),
            r is Ok <==> Self::accepts(Absorbed::Scalar(scalar.value())),
            r is Ok ==> final(self).history() == old(self).history().push(
                Absorbed::Scalar(scalar.value()),
            ),
            r is Err ==> final(self).history() == old(self).history(),
            final(self).unread() == old(self).unread(),
    ;
}

/// A transcript that also reads the values of a proof, absorbing each as it
/// is read.
pub trait TranscriptRead<C: CurveAffine, L: Loader<C>>: Transcript<C, L> {
    /// The scalar that `bytes` start with and the number of bytes that write
    /// it; `None` where they start with no scalar.
    spec fn decode_scalar(bytes: Seq<u8>) -> Option<(nat, nat)>;

    /// The point that `bytes` start with and the number of bytes that write
    /// it; `None` where they start with no point.
    spec fn decode_ec_point(bytes: Seq<u8>) -> Option<(PointValue, nat)>;

    /// What is decoded was there: no value is written by more bytes than
    /// the bytes it is decoded from.
    proof fn lemma_decoded_within(bytes: Seq<u8>)
        ensures
            Self::decode_scalar(bytes) matches Some(read) ==> read.1 <= bytes.len(),
            Self::decode_ec_point(bytes) matches Some(read) ==> read.1 <= bytes.len(),
    ;

    /// Reads the next scalar of the proof and absorbs it. It succeeds
    /// exactly where the unread bytes start with a scalar that the
    /// transcript accepts; a proof that ends early or holds no such scalar
    /// there is malformed, and nothing is read or absorbed.
    fn read_scalar(&mut self) -> (r: Result<<L as ScalarLoader<C::Scalar>>::LoadedScalar, Error>)
        requires
            old(self).wf(),
        ensures
            final(self).wf(),
            final(self).context() == old(self).context(),
            r is Ok <==> (Self::decode_scalar(old(self).unread()) matches Some(read)
                && Self::accepts(Absorbed::Scalar(read.0))),
            r matches Ok(scalar) ==> {
                let read = Self::decode_scalar(old(self).unread())->0;
                &&& scalar.context() == old(self).context()
                &&& scalar.value() == read.0
                &&& final(self).unread() == old(self).unread().skip(read.1 as int)
                &&& final(self).history() == old(self).history().push(Absorbed::Scalar(read.0))
            },
            r matches Err(e) ==> e is MalformedInput && final(self).history() == old(self).history()
                && final(self).unread() == old(self).unread(),
    ;

    /// Reads the next point of the proof and absorbs it. It succeeds exactly
    /// where the unread bytes start with a point that the transcript
    /// accepts; a proof that ends early or holds no such point there is
    /// malformed, and nothing is read or absorbed.
    fn read_ec_point(&mut self) -> (r: Result<L::LoadedEcPoint, Error>)
        requires
            old(self).wf(),
        ensures
            final(self).wf(),
            final(self).context() == old(self).context(),
            r is Ok <==> (Self::decode_ec_point(old(self).unread()) matches Some(read)
                && Self::accepts(Absorbed::Point(read.0.0, read.0.1))),
            r matches Ok(point) ==> {
                let read = Self::decode_ec_point(old(self).unread())->0;
                &&& point.context() == old(self).context()
                &&& point.value() == read.0
                &&& final(self).unread() == old(self).unread().skip(read.1 as int)
                &&& final(self).history() == old(self).history().push(
                    Absorbed::Point(read.0.0, read.0.1),
                )
            },
            r matches Err(e) ==> e is MalformedInput && final(self).history() == old(self).history()
                && final(self).unread() == old(self).unread(),
    ;
}

/// A transcript that also writes the values of a proof, absorbing each as it
/// is written.
pub trait TranscriptWrite<C: CurveAffine, L: Loader<C>>: Transcript<C, L> {
    /// The bytes that write the scalar `v` to a proof.
    spec fn encode_scalar(v: nat) -> Seq<u8>;

    /// The bytes that write the point `p` to a proof.
    spec fn encode_ec_point(p: PointValue) -> Seq<u8>;

    /// Writes a scalar to the proof and absorbs it, where the transcript
    /// accepts it. On failure nothing is absorbed.
    fn write_scalar(&mut self, scalar: &<L as ScalarLoader<C::Scalar>>::LoadedScalar) -> (r: Result<
        (),
        Error,
    >)
        requires
            old(self).wf(),
            scalar.context() == old(self).context(),
        ensures
            final(self).wf(),
            final(self).context() == old(self).context(),
            r is Ok <==> Self::accepts(Absorbed::Scalar(scalar.value())),
            r is Ok ==> final(self).history() == old(self).history().push(
                Absorbed::Scalar(scalar.value()),
            ) && final(self).unread() == old(self).unread().add(
                Self::encode_scalar(scalar.value()),
            ),
            r is Err ==> final(self).history() == old(self).history() && final(self).unread()
                == old(self).unread(),
    ;

    /// Writes a point to the proof and absorbs it, where the transcript
    /// accepts it. On failure nothing is absorbed.
    fn write_ec_point(&mut self, ec_point: &L::LoadedEcPoint) -> (r: Result<(), Error>)
        requires
            old(self).wf(),
            ec_point.context() == old(self).context(),
        ensures
            final(self).wf(),
            final(self).context() == old(self).context(),
            r is Ok <==> Self::accepts(Absorbed::Point(ec_point.value().0, ec_point.value().1)),
            r is Ok ==> final(self).history() == old(self).history().push(
                Absorbed::Point(ec_point.value().0, ec_point.value().1),
            ) && final(self).unread() == old(self).unread().add(
                Self::encode_ec_point(ec_point.value()),
            ),
            r is Err ==> final(self).history() == old(self).history() && final(self).unread()
                == old(self).unread(),
    ;
}

/// Absorbing leaves a transcript absorbing and squeezing leaves it squeezed,
/// whatever its state was.
pub proof fn lemma_transitions(history: Seq<Absorbed>, entry: Absorbed)
    ensures
        state_of(history.push(entry)) == if entry is Challenge {
            TranscriptState::Squeezed
        } else {
            TranscriptState::Absorbing
        },
        state_of(Seq::<Absorbed>::empty()) == TranscriptState::Fresh,
{
}

} // verus!
