//! Natural numbers written as little-endian byte strings.

use crate::field::lemma_pow_unfold;
use vstd::arithmetic::div_mod::lemma_fundamental_div_mod_converse;
use vstd::arithmetic::power::{lemma_pow0, lemma_pow_adds, lemma_pow_positive, pow};
use vstd::prelude::*;

verus! {

/// The number that `bytes` writes, least significant byte first.
pub open spec fn le_value(bytes: Seq<u8>) -> nat
    decreases bytes.len(),
{
    if bytes.len() == 0 {
        0
    } else {
        bytes[0] as nat + 256 * le_value(bytes.drop_first())
    }
}

/// A string of `n` bytes writes a number below `256^n`.
pub proof fn lemma_le_value_bound(bytes: Seq<u8>)
    ensures
        le_value(bytes) < pow(256, bytes.len()),
    decreases bytes.len(),
{
    if bytes.len() == 0 {
        lemma_pow0(256);
    } else {
        lemma_le_value_bound(bytes.drop_first());
        lemma_pow_unfold(256, bytes.len());
    }
}

/// Zero is written by zero bytes only.
pub proof fn lemma_le_value_zero(bytes: Seq<u8>)
    ensures
        le_value(bytes) == 0 <==> (forall|i: int| 0 <= i < bytes.len() ==> bytes[i] == 0),
    decreases bytes.len(),
{
    if bytes.len() > 0 {
        let rest = bytes.drop_first();
        lemma_le_value_zero(rest);
        if le_value(bytes) == 0 {
            assert forall|i: int| 0 <= i < bytes.len() implies bytes[i] == 0 by {
                if i > 0 {
                    assert(rest[i - 1] == bytes[i]);
                }
            }
        } else {
            if forall|i: int| 0 <= i < bytes.len() ==> bytes[i] == 0 {
                assert forall|i: int| 0 <= i < rest.len() implies rest[i] == 0 by {
                    assert(rest[i] == bytes[i + 1]);
                }
            }
        }
    }
}

/// Two strings of one length that write the same number are the same string.
pub proof fn lemma_le_value_injective(a: Seq<u8>, b: Seq<u8>)
    requires
        a.len() == b.len(),
        le_value(a) == le_value(b),
    ensures
        a == b,
    decreases a.len(),
{
    if a.len() > 0 {
        let ra = a.drop_first();
        let rb = b.drop_first();
        assert(a[0] as nat + 256 * le_value(ra) == b[0] as nat + 256 * le_value(rb));
        assert(le_value(ra) == le_value(rb) && a[0] == b[0]);
        lemma_le_value_injective(ra, rb);
        assert forall|i: int| 0 <= i < a.len() implies a[i] == b[i] by {
            if i > 0 {
                assert(ra[i - 1] == a[i]);
                assert(rb[i - 1] == b[i]);
            }
        }
    }
    assert(a =~= b);
}

/// A string splits at any place into a low part and a high part, the high
/// part shifted by the length of the low one.
pub proof fn lemma_le_value_split(bytes: Seq<u8>, k: int)
    requires
        0 <= k <= bytes.len(),
    ensures
        le_value(bytes) == le_value(bytes.take(k)) + pow(256, k as nat) * le_value(bytes.skip(k)),
    decreases k,
{
    if k == 0 {
        lemma_pow0(256);
        assert(bytes.skip(0) =~= bytes);
        assert(bytes.take(0).len() == 0);
    } else {
        let rest = bytes.drop_first();
        lemma_le_value_split(rest, k - 1);
        assert(rest.take(k - 1) =~= bytes.take(k).drop_first());
        assert(rest.skip(k - 1) =~= bytes.skip(k));
        assert(bytes.take(k)[0] == bytes[0]);
        lemma_pow_unfold(256, k as nat);
        let hi = le_value(bytes.skip(k)) as int;
        let pk = pow(256, (k - 1) as nat);
        assert(256 * (pk * hi) == (256 * pk) * hi) by (nonlinear_arith);
    }
}

/// A string of zero bytes with one low byte set writes that byte.
pub proof fn lemma_le_value_single(bytes: Seq<u8>)
    requires
        bytes.len() > 0,
        forall|i: int| 1 <= i < bytes.len() ==> bytes[i] == 0,
    ensures
        le_value(bytes) == bytes[0],
{
    let rest = bytes.drop_first();
    assert forall|i: int| 0 <= i < rest.len() implies rest[i] == 0 by {
        assert(rest[i] == bytes[i + 1]);
    }
    lemma_le_value_zero(rest);
}

/// The `len` little-endian bytes of `v`, the high part of `v` left out where
/// it does not fit.
pub open spec fn le_bytes(v: nat, len: nat) -> Seq<u8>
    decreases len,
{
    if len == 0 {
        Seq::empty()
    } else {
        seq![(v % 256) as u8].add(le_bytes(v / 256, (len - 1) as nat))
    }
}

/// `le_bytes` gives as many bytes as asked for.
pub proof fn lemma_le_bytes_len(v: nat, len: nat)
    ensures
        le_bytes(v, len).len() == len,
    decreases len,
{
    if len > 0 {
        lemma_le_bytes_len(v / 256, (len - 1) as nat);
    }
}

/// A byte string is the writing of the number that it writes.
pub proof fn lemma_le_bytes_of_value(bytes: Seq<u8>)
    ensures
        le_bytes(le_value(bytes), bytes.len()) == bytes,
    decreases bytes.len(),
{
    if bytes.len() > 0 {
        let rest = bytes.drop_first();
        lemma_le_bytes_of_value(rest);
        let v = le_value(bytes);
        assert(v % 256 == bytes[0] && v / 256 == le_value(rest));
        lemma_le_bytes_len(v / 256, rest.len());
        assert(seq![bytes[0]].add(rest) =~= bytes);
    }
    assert(le_bytes(le_value(bytes), bytes.len()) =~= bytes);
}

/// Zero bytes behind a string do not change the number that it writes.
pub proof fn lemma_le_value_padded(bytes: Seq<u8>, k: int)
    requires
        0 <= k <= bytes.len(),
        forall|i: int| k <= i < bytes.len() ==> bytes[i] == 0,
    ensures
        le_value(bytes) == le_value(bytes.take(k)),
{
    lemma_le_value_split(bytes, k);
    let high = bytes.skip(k);
    assert forall|i: int| 0 <= i < high.len() implies high[i] == 0 by {
        assert(high[i] == bytes[k + i]);
    }
    lemma_le_value_zero(high);
    assert(pow(256, k as nat) * 0 == 0);
}

/// The `w` bytes from place `k` on write the number that is left of the
/// whole after dropping its `k` lowest bytes and all above the next `w`.
pub proof fn lemma_le_value_window(bytes: Seq<u8>, k: int, w: int)
    requires
        0 <= k,
        0 <= w,
        k + w <= bytes.len(),
    ensures
        le_value(bytes.subrange(k, k + w)) == (le_value(bytes) as int / pow(256, k as nat)) % pow(
            256,
            w as nat,
        ),
{
    let low = le_value(bytes.take(k)) as int;
    let high_bytes = bytes.skip(k);
    let high = le_value(high_bytes) as int;
    let pk = pow(256, k as nat);
    let pw = pow(256, w as nat);
    lemma_pow_positive(256, k as nat);
    lemma_pow_positive(256, w as nat);
    lemma_le_value_split(bytes, k);
    lemma_le_value_bound(bytes.take(k));
    assert(high * pk == pk * high) by (nonlinear_arith);
    lemma_fundamental_div_mod_converse(le_value(bytes) as int, pk, high, low);
    let window = high_bytes.take(w);
    let rest = le_value(high_bytes.skip(w)) as int;
    lemma_le_value_split(high_bytes, w);
    lemma_le_value_bound(window);
    assert(rest * pw == pw * rest) by (nonlinear_arith);
    lemma_fundamental_div_mod_converse(high, pw, rest, le_value(window) as int);
    assert(window =~= bytes.subrange(k, k + w));
}

/// Writing a number that fits and reading it back gives the number.
pub proof fn lemma_le_value_of_bytes(v: nat, len: nat)
    requires
        v < pow(256, len),
    ensures
        le_value(le_bytes(v, len)) == v,
    decreases len,
{
    if len == 0 {
        lemma_pow0(256);
    } else {
        lemma_pow_unfold(256, len);
        let rest = le_bytes(v / 256, (len - 1) as nat);
        assert(v / 256 < pow(256, (len - 1) as nat)) by {
            let p = pow(256, (len - 1) as nat);
            assert(v < 256 * p);
            if v / 256 >= p {
                assert(256 * (v / 256) >= 256 * p) by (nonlinear_arith)
                    requires
                        v / 256 >= p,
                ;
            }
        }
        lemma_le_value_of_bytes(v / 256, (len - 1) as nat);
        let bytes = le_bytes(v, len);
        assert(bytes.drop_first() =~= rest);
        assert(bytes[0] == (v % 256) as u8);
    }
}

/// Thirty-two bytes write the numbers below `2^256`.
pub proof fn lemma_pow_256_32()
    ensures
        pow(256, 32) == 0x10000000000000000000000000000000000000000000000000000000000000000,
{
    lemma_pow0(256);
    lemma_pow_unfold(256, 1);
    let one = pow(256, 1);
    let two = pow(256, 2);
    let four = pow(256, 4);
    let eight = pow(256, 8);
    let sixteen = pow(256, 16);
    assert(one == 256);
    lemma_pow_adds(256, 1, 1);
    assert(two == one * one);
    assert(two == 0x10000);
    lemma_pow_adds(256, 2, 2);
    assert(four == two * two);
    assert(four == 0x100000000);
    lemma_pow_adds(256, 4, 4);
    assert(eight == four * four);
    assert(eight == 0x10000000000000000);
    lemma_pow_adds(256, 8, 8);
    assert(sixteen == eight * eight);
    assert(sixteen == 0x100000000000000000000000000000000);
    lemma_pow_adds(256, 16, 16);
    assert(pow(256, 32) == sixteen * sixteen);
}

} // verus!
