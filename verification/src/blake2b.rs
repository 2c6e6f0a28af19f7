//! A transcript over BLAKE2b for the plain-arithmetic context.
//!
//! Every absorbed value is fed to the hash behind a one-byte tag. A challenge
//! is the digest of all that was fed so far, read as a little-endian number
//! and reduced to a scalar. Proofs carry scalars as 32 bytes and points as
//! the 64 bytes of their two coordinates.

use crate::bn256::{fr_from_uniform_bytes, fr_modulus, fq_modulus, on_curve, Fr, G1Affine};
use crate::accumulation::{folded_accumulator, read_blind, written_blind};
use crate::bytes::{
    le_bytes, le_value, lemma_le_bytes_len, lemma_le_bytes_of_value, lemma_le_value_of_bytes,
    lemma_pow_256_32,
};
use crate::curve::PointValue;
use crate::error::Error;
use crate::field::PrimeField;
use crate::loader::{Context, LoadedEcPoint, LoadedScalar};
use crate::native::NativeLoader;
use crate::transcript::{
    state_of, Absorbed, Transcript, TranscriptRead, TranscriptState, TranscriptWrite,
};
use vstd::prelude::*;

verus! {

/// The BLAKE2b digest of `input` under the personalization `personal`, 64
/// bytes long.
pub uninterp spec fn blake2b_digest(personal: Seq<u8>, input: Seq<u8>) -> Seq<u8>;

/// The personalization of the hash: the bytes of `Halo2-Transcript`.
pub open spec fn personalization() -> Seq<u8> {
    seq![72u8, 97, 108, 111, 50, 45, 84, 114, 97, 110, 115, 99, 114, 105, 112, 116]
}

/// What one entry of a history feeds to the hash: a tag, then the
/// little-endian bytes of the value.
pub open spec fn encode_entry(entry: Absorbed) -> Seq<u8> {
    match entry {
        Absorbed::Challenge => seq![0u8],
        Absorbed::Point(x, y) => seq![1u8].add(le_bytes(x, 32)).add(le_bytes(y, 32)),
        Absorbed::Scalar(v) => seq![2u8].add(le_bytes(v, 32)),
    }
}

/// All that a history feeds to the hash.
pub open spec fn encode(history: Seq<Absorbed>) -> Seq<u8>
    decreases history.len(),
{
    if history.len() == 0 {
        Seq::empty()
    } else {
        encode(history.drop_last()).add(encode_entry(history.last()))
    }
}

/// The challenge after `history`: the digest of the history with the tag of
/// a challenge behind it, reduced to a scalar.
pub open spec fn blake2b_challenge(history: Seq<Absorbed>) -> nat {
    le_value(blake2b_digest(personalization(), encode(history.push(Absorbed::Challenge))))
        % fr_modulus()
}

/// A transcript over BLAKE2b that reads from, or writes to, a proof.
pub struct Blake2bTranscript {
    fed: Vec<u8>,
    stream: Vec<u8>,
    cursor: usize,
    state: TranscriptState,
    history: Ghost<Seq<Absorbed>>,
}

impl Blake2bTranscript {
    /// A fresh transcript over the bytes of a proof. For writing a proof,
    /// start from no bytes.
    pub fn new(proof: Vec<u8>) -> (r: Self)
        ensures
            r.wf(),
            r.history() == Seq::<Absorbed>::empty(),
            r.unread() == proof@,
    {
        Blake2bTranscript {
            fed: Vec::new(),
            stream: proof,
            cursor: 0,
            state: TranscriptState::Fresh,
            history: Ghost(Seq::empty()),
        }
    }

    /// Where the transcript stands between absorbing and squeezing.
    pub fn state(&self) -> (r: TranscriptState)
        requires
            self.wf(),
        ensures
            r == state_of(self.history()),
    {
        self.state
    }

    /// Ends the transcript and hands out the bytes of its proof that were
    /// not read: for a transcript that only wrote, all that it wrote.
    pub fn finalize(self) -> (r: Vec<u8>)
        requires
            self.wf(),
        ensures
            r@ == self.unread(),
    {
        if self.cursor == 0 {
            proof {
                assert(self.stream@.skip(0) =~= self.stream@);
            }
            self.stream
        } else {
            let mut out: Vec<u8> = Vec::new();
            let mut i: usize = self.cursor;
            while i < self.stream.len()
                invariant
                    self.cursor <= i <= self.stream.len(),
                    out@ == self.stream@.subrange(self.cursor as int, i as int),
                decreases self.stream.len() - i,
            {
                out.push(self.stream[i]);
                proof {
                    assert(self.stream@.subrange(self.cursor as int, i + 1)
                        =~= self.stream@.subrange(self.cursor as int, i as int).push(
                        self.stream@[i as int],
                    ));
                }
                i += 1;
            }
            proof {
                assert(out@ =~= self.stream@.skip(self.cursor as int));
            }
            out
        }
    }

    /// Feeds a tag and one 32-byte value to the hash.
    fn feed(&mut self, tag: u8, bytes: &[u8; 32])
        ensures
            final(self).fed@ == old(self).fed@.push(tag).add(bytes@),
            final(self).stream == old(self).stream,
            final(self).cursor == old(self).cursor,
            final(self).state == old(self).state,
            final(self).history == old(self).history,
    {
        self.fed.push(tag);
        append(&mut self.fed, bytes);
    }
}

/// Appends 32 bytes to a buffer.
fn append(buffer: &mut Vec<u8>, bytes: &[u8; 32])
    ensures
        final(buffer)@ == old(buffer)@.add(bytes@),
{
    let mut i: usize = 0;
    while i < 32
        invariant
            i <= 32,
            buffer@ == old(buffer)@.add(bytes@.take(i as int)),
        decreases 32 - i,
    {
        buffer.push(bytes[i]);
        proof {
            assert(bytes@.take(i + 1) =~= bytes@.take(i as int).push(bytes@[i as int]));
        }
        i += 1;
    }
    proof {
        assert(bytes@.take(32) =~= bytes@);
    }
}

/// The 32 bytes of `stream` that start at `at`.
fn take_32(stream: &Vec<u8>, at: usize) -> (r: [u8; 32])
    requires
        at + 32 <= stream.len(),
    ensures
        r@ == stream@.subrange(at as int, at + 32),
{
    let mut out = [0u8; 32];
    let mut i: usize = 0;
    while i < 32
        invariant
            i <= 32,
            at + 32 <= stream.len(),
            forall|j: int| 0 <= j < i ==> out@[j] == stream@[at + j],
        decreases 32 - i,
    {
        out[i] = stream[at + i];
        i += 1;
    }
    proof {
        assert(out@ =~= stream@.subrange(at as int, at + 32));
    }
    out
}

/// The personalization as bytes.
fn personal_bytes() -> (r: [u8; 16])
    ensures
        r@ == personalization(),
{
    let r: [u8; 16] = [72, 97, 108, 111, 50, 45, 84, 114, 97, 110, 115, 99, 114, 105, 112, 116];
    proof {
        assert(r@ =~= personalization());
    }
    r
}

/// `blake2b_simd::Params::hash` with the given personalization and the
/// default output length of 64 bytes.
#[verifier::external_body]
fn blake2b_512(personal: &[u8; 16], input: &Vec<u8>) -> (digest: [u8; 64])
    ensures
        digest@ == blake2b_digest(personal@, input@),
{
    *blake2b_simd::Params::new().personal(personal).hash(input).as_array()
}

impl Context for Blake2bTranscript {
    open spec fn context(&self) -> int {
        0
    }
}

impl Transcript<G1Affine, NativeLoader> for Blake2bTranscript {
    closed spec fn wf(&self) -> bool {
        &&& self.fed@ == encode(self.history@)
        &&& self.cursor <= self.stream.len()
        &&& self.state == state_of(self.history@)
    }

    closed spec fn history(&self) -> Seq<Absorbed> {
        self.history@
    }

    open spec fn challenge_of(history: Seq<Absorbed>) -> nat {
        blake2b_challenge(history)
    }

    open spec fn accepts(entry: Absorbed) -> bool {
        true
    }

    closed spec fn unread(&self) -> Seq<u8> {
        self.stream@.skip(self.cursor as int)
    }

    fn loader(&self) -> (r: &NativeLoader) {
        &NativeLoader
    }

    fn squeeze_challenge(&mut self) -> (r: Fr) {
        self.fed.push(0);
        self.state = TranscriptState::Squeezed;
        self.history = Ghost(self.history@.push(Absorbed::Challenge));
        proof {
            assert(self.history@.drop_last() =~= old(self).history@);
            assert(self.fed@ =~= old(self).fed@.add(encode_entry(Absorbed::Challenge)));
        }
        let personal = personal_bytes();
        let digest = blake2b_512(&personal, &self.fed);
        let challenge = fr_from_uniform_bytes(&digest);
        proof {
            assert(LoadedScalar::value(&challenge) == PrimeField::value(&challenge));
        }
        challenge
    }

    fn common_ec_point(&mut self, ec_point: &G1Affine) -> (r: Result<(), Error>) {
        let x = ec_point.x();
        let y = ec_point.y();
        self.fed.push(1);
        append(&mut self.fed, &x);
        append(&mut self.fed, &y);
        let ghost entry = Absorbed::Point(
            LoadedEcPoint::value(ec_point).0,
            LoadedEcPoint::value(ec_point).1,
        );
        self.state = TranscriptState::Absorbing;
        self.history = Ghost(self.history@.push(entry));
        proof {
            lemma_le_bytes_of_value(x@);
            lemma_le_bytes_of_value(y@);
            assert(self.history@.drop_last() =~= old(self).history@);
            assert(self.fed@ =~= old(self).fed@.add(encode_entry(entry)));
        }
        Ok(())
    }

    fn common_scalar(&mut self, scalar: &Fr) -> (r: Result<(), Error>) {
        let bytes = scalar.to_bytes();
        self.fed.push(2);
        append(&mut self.fed, &bytes);
        let ghost entry = Absorbed::Scalar(LoadedScalar::value(scalar));
        self.state = TranscriptState::Absorbing;
        self.history = Ghost(self.history@.push(entry));
        proof {
            lemma_le_bytes_of_value(bytes@);
            assert(self.history@.drop_last() =~= old(self).history@);
            assert(self.fed@ =~= old(self).fed@.add(encode_entry(entry)));
        }
        Ok(())
    }
}

impl TranscriptRead<G1Affine, NativeLoader> for Blake2bTranscript {
    /// A scalar is the 32 little-endian bytes of a number below the modulus.
    open spec fn decode_scalar(bytes: Seq<u8>) -> Option<(nat, nat)> {
        if bytes.len() >= 32 && le_value(bytes.take(32)) < fr_modulus() {
            Some((le_value(bytes.take(32)), 32nat))
        } else {
            None
        }
    }

    /// A point is the 64 bytes of its two coordinates, both canonical, which
    /// are a point of the curve or the neutral element.
    open spec fn decode_ec_point(bytes: Seq<u8>) -> Option<(PointValue, nat)> {
        if bytes.len() >= 64 {
            let x = le_value(bytes.subrange(0, 32));
            let y = le_value(bytes.subrange(32, 64));
            if x < fq_modulus() && y < fq_modulus() && on_curve((x, y)) {
                Some(((x, y), 64nat))
            } else {
                None
            }
        } else {
            None
        }
    }

    proof fn lemma_decoded_within(bytes: Seq<u8>) {
    }

    fn read_scalar(&mut self) -> (r: Result<Fr, Error>) {
        if self.stream.len() - self.cursor < 32 {
            return Err(Error::MalformedInput("proof ends within a scalar".to_owned()));
        }
        let bytes = take_32(&self.stream, self.cursor);
        proof {
            assert(bytes@ =~= self.unread().take(32));
        }
        match Fr::from_bytes(bytes) {
            Some(scalar) => {
                let ghost entry = Absorbed::Scalar(LoadedScalar::value(&scalar));
                self.feed(2, &bytes);
                self.state = TranscriptState::Absorbing;
        self.history = Ghost(self.history@.push(entry));
                self.cursor = self.cursor + 32;
                proof {
                    lemma_le_bytes_of_value(bytes@);
                    assert(self.history@.drop_last() =~= old(self).history@);
                    assert(self.fed@ =~= old(self).fed@.add(encode_entry(entry)));
                    assert(self.unread() =~= old(self).unread().skip(32));
                }
                Ok(scalar)
            },
            None => Err(Error::MalformedInput("scalar is not canonical".to_owned())),
        }
    }

    fn read_ec_point(&mut self) -> (r: Result<G1Affine, Error>) {
        if self.stream.len() - self.cursor < 64 {
            return Err(Error::MalformedInput("proof ends within a point".to_owned()));
        }
        let x = take_32(&self.stream, self.cursor);
        let y = take_32(&self.stream, self.cursor + 32);
        proof {
            assert(x@ =~= self.unread().subrange(0, 32));
            assert(y@ =~= self.unread().subrange(32, 64));
        }
        match G1Affine::from_xy(x, y) {
            Some(point) => {
                let ghost entry = Absorbed::Point(
                    LoadedEcPoint::value(&point).0,
                    LoadedEcPoint::value(&point).1,
                );
                self.fed.push(1);
                append(&mut self.fed, &x);
                append(&mut self.fed, &y);
                self.state = TranscriptState::Absorbing;
        self.history = Ghost(self.history@.push(entry));
                self.cursor = self.cursor + 64;
                proof {
                    lemma_le_bytes_of_value(x@);
                    lemma_le_bytes_of_value(y@);
                    assert(self.history@.drop_last() =~= old(self).history@);
                    assert(self.fed@ =~= old(self).fed@.add(encode_entry(entry)));
                    assert(self.unread() =~= old(self).unread().skip(64));
                }
                Ok(point)
            },
            None => Err(Error::MalformedInput("bytes are no point of the curve".to_owned())),
        }
    }
}

impl TranscriptWrite<G1Affine, NativeLoader> for Blake2bTranscript {
    open spec fn encode_scalar(v: nat) -> Seq<u8> {
        le_bytes(v, 32)
    }

    open spec fn encode_ec_point(p: PointValue) -> Seq<u8> {
        le_bytes(p.0, 32).add(le_bytes(p.1, 32))
    }

    /// Appends the 32 bytes of the scalar to the proof.
    fn write_scalar(&mut self, scalar: &Fr) -> (r: Result<(), Error>) {
        proof {
            assert(self.cursor <= self.stream.len());
        }
        let bytes = scalar.to_bytes();
        let ghost entry = Absorbed::Scalar(LoadedScalar::value(scalar));
        append(&mut self.stream, &bytes);
        self.feed(2, &bytes);
        self.state = TranscriptState::Absorbing;
        self.history = Ghost(self.history@.push(entry));
        proof {
            lemma_le_bytes_of_value(bytes@);
            assert(self.history@.drop_last() =~= old(self).history@);
            assert(self.fed@ =~= old(self).fed@.add(encode_entry(entry)));
            assert(self.unread() =~= old(self).unread().add(bytes@));
        }
        Ok(())
    }

    /// Appends the 64 bytes of the point's coordinates to the proof.
    fn write_ec_point(&mut self, ec_point: &G1Affine) -> (r: Result<(), Error>) {
        let x = ec_point.x();
        let y = ec_point.y();
        let ghost entry = Absorbed::Point(
            LoadedEcPoint::value(ec_point).0,
            LoadedEcPoint::value(ec_point).1,
        );
        append(&mut self.stream, &x);
        append(&mut self.stream, &y);
        self.fed.push(1);
        append(&mut self.fed, &x);
        append(&mut self.fed, &y);
        self.state = TranscriptState::Absorbing;
        self.history = Ghost(self.history@.push(entry));
        proof {
            lemma_le_bytes_of_value(x@);
            lemma_le_bytes_of_value(y@);
            assert(self.history@.drop_last() =~= old(self).history@);
            assert(self.fed@ =~= old(self).fed@.add(encode_entry(entry)));
            assert(self.unread() =~= old(self).unread().add(x@.add(y@)));
        }
        Ok(())
    }
}

/// A point that is written is read back: the bytes that write a point of
/// the curve with canonical coordinates decode to that point, whatever
/// follows them.
pub proof fn lemma_point_reads_back(p: PointValue, rest: Seq<u8>)
    requires
        p.0 < fq_modulus(),
        p.1 < fq_modulus(),
        on_curve(p),
    ensures
        <Blake2bTranscript as TranscriptRead<G1Affine, NativeLoader>>::decode_ec_point(
            <Blake2bTranscript as TranscriptWrite<G1Affine, NativeLoader>>::encode_ec_point(p).add(
                rest,
            ),
        ) == Some((p, 64nat)),
{
    let x = le_bytes(p.0, 32);
    let y = le_bytes(p.1, 32);
    let bytes = x.add(y).add(rest);
    lemma_pow_256_32();
    lemma_le_bytes_len(p.0, 32);
    lemma_le_bytes_len(p.1, 32);
    lemma_le_value_of_bytes(p.0, 32);
    lemma_le_value_of_bytes(p.1, 32);
    assert(bytes.subrange(0, 32) =~= x);
    assert(bytes.subrange(32, 64) =~= y);
}

/// A scalar that is written is read back: the bytes that write a canonical
/// scalar decode to that scalar, whatever follows them.
pub proof fn lemma_scalar_reads_back(v: nat, rest: Seq<u8>)
    requires
        v < fr_modulus(),
    ensures
        <Blake2bTranscript as TranscriptRead<G1Affine, NativeLoader>>::decode_scalar(
            <Blake2bTranscript as TranscriptWrite<G1Affine, NativeLoader>>::encode_scalar(v).add(
                rest,
            ),
        ) == Some((v, 32nat)),
{
    let bytes = le_bytes(v, 32).add(rest);
    lemma_pow_256_32();
    lemma_le_bytes_len(v, 32);
    lemma_le_value_of_bytes(v, 32);
    assert(bytes.take(32) =~= le_bytes(v, 32));
}

/// The blinding accumulator that a prover wrote is the one that a verifier
/// reads from the proof, so that both fold to the same accumulator.
pub proof fn lemma_blind_reads_back(
    start: Seq<Absorbed>,
    instances: Seq<(PointValue, PointValue)>,
    blind: (PointValue, PointValue),
    rest: Seq<u8>,
)
    requires
        blind.0.0 < fq_modulus() && blind.0.1 < fq_modulus() && on_curve(blind.0),
        blind.1.0 < fq_modulus() && blind.1.1 < fq_modulus() && on_curve(blind.1),
    ensures
        ({
            let written = written_blind::<G1Affine, NativeLoader, Blake2bTranscript>(Some(blind));
            let read = read_blind::<G1Affine, NativeLoader, Blake2bTranscript>(
                true,
                written.add(rest),
            );
            &&& read == Some((Some(blind), 128nat))
            &&& written.len() == 128
            &&& folded_accumulator::<G1Affine, NativeLoader, Blake2bTranscript>(
                start,
                instances,
                read.unwrap().0,
            ) == folded_accumulator::<G1Affine, NativeLoader, Blake2bTranscript>(
                start,
                instances,
                Some(blind),
            )
        }),
{
    let lhs = <Blake2bTranscript as TranscriptWrite<G1Affine, NativeLoader>>::encode_ec_point(
        blind.0,
    );
    let rhs = <Blake2bTranscript as TranscriptWrite<G1Affine, NativeLoader>>::encode_ec_point(
        blind.1,
    );
    let bytes = lhs.add(rhs).add(rest);
    lemma_le_bytes_len(blind.0.0, 32);
    lemma_le_bytes_len(blind.0.1, 32);
    lemma_le_bytes_len(blind.1.0, 32);
    lemma_le_bytes_len(blind.1.1, 32);
    assert(bytes =~= lhs.add(rhs.add(rest)));
    lemma_point_reads_back(blind.0, rhs.add(rest));
    assert(bytes.skip(64) =~= rhs.add(rest));
    lemma_point_reads_back(blind.1, rest);
}

} // verus!
