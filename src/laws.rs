//! Properties of the encoding that hold over all values.
use vstd::prelude::*;

use crate::layout::{
    decode, encode, extra_count, le_bytes, le_value, lemma_extra_count_bound, lemma_le_bytes_len,
    lemma_le_bytes_value, lemma_prefix_fields, lemma_size_from_fits, lemma_varint_size_fits,
    payload_bits, payload_of, pow2, prefix_byte, size_from, varint_size, MAX_EXTRA,
};

verus! {

/// The encoding of `v` is `varint_size(v)` bytes long.
pub proof fn lemma_encode_len(v: u64)
    ensures
        encode(v).len() == varint_size(v),
{
    lemma_varint_size_fits(v);
    let e = (varint_size(v) - 1) as nat;
    lemma_le_bytes_len(v as nat / pow2(payload_bits(e)), e);
}

/// Decoding the encoding of `v`, whatever bytes follow it, gives back `v` and
/// consumes exactly `varint_size(v)` bytes.
pub proof fn lemma_round_trip(v: u64, tail: Seq<u8>)
    ensures
        decode(encode(v) + tail) == Some((v as nat, varint_size(v))),
{
    let t = varint_size(v);
    lemma_varint_size_fits(v);
    lemma_encode_len(v);
    vstd::arithmetic::power2::lemma2_to64();
    let e = (t - 1) as nat;
    let pb = payload_bits(e);
    let unit = pow2(pb);
    let q = v as nat / unit;
    let m = v as nat % unit;
    let s = encode(v) + tail;
    let p = prefix_byte(v);
    vstd::arithmetic::power2::lemma_pow2_pos(pb);
    if t <= 8 {
        lemma_prefix_fields(m, t);
        vstd::arithmetic::power2::lemma_pow2_adds(pb, 8 * e);
        vstd::arithmetic::div_mod::lemma_multiply_divide_lt(v as int, unit as int, pow2(8 * e) as int);
    } else {
        lemma_extra_count_bound(p);
    }
    assert(extra_count(p) == e && payload_of(p) == m);
    assert(q < pow2(8 * e));
    assert(s[0] == p);
    assert(s.subrange(1, 1 + e as int) =~= le_bytes(q, e));
    lemma_le_bytes_value(q, e);
    vstd::arithmetic::div_mod::lemma_small_mod(q, pow2(8 * e));
    assert(le_value(le_bytes(q, e)) == q);
    vstd::arithmetic::div_mod::lemma_fundamental_div_mod(v as int, unit as int);
    assert(m + q * unit == v) by (nonlinear_arith)
        requires
            v == unit * q + m,
    ;
}

/// No two values share an encoding.
pub proof fn lemma_encode_injective(a: u64, b: u64)
    requires
        encode(a) == encode(b),
    ensures
        a == b,
{
    lemma_round_trip(a, Seq::empty());
    lemma_round_trip(b, Seq::empty());
}

proof fn lemma_size_from_minimal(v: nat, t: nat, s: nat)
    requires
        1 <= t <= s < size_from(v, t),
    ensures
        v >= pow2(7 * s),
    decreases s - t,
{
    if t < s {
        lemma_size_from_minimal(v, t + 1, s);
    }
}

/// The canonical size is the shortest: no length from 1 up to `varint_size(v) - 1`
/// holds `v` in its `7 * length` value bits.
pub proof fn lemma_size_minimal(v: u64, t: nat)
    requires
        1 <= t < varint_size(v),
    ensures
        v >= pow2(7 * t),
{
    lemma_size_from_minimal(v as nat, 1, t);
}

/// Every proper prefix of an encoding is too short to decode.
pub proof fn lemma_truncated(v: u64, k: nat)
    requires
        k < varint_size(v),
    ensures
        decode(encode(v).take(k as int)) is None,
{
    lemma_round_trip(v, Seq::empty());
    lemma_encode_len(v);
    assert(encode(v) + Seq::<u8>::empty() =~= encode(v));
    if k > 0 {
        assert(encode(v).take(k as int)[0] == encode(v)[0]);
    }
}

proof fn lemma_size_from_monotonic(a: nat, b: nat, t: nat)
    requires
        a <= b,
        1 <= t <= 9,
    ensures
        size_from(a, t) <= size_from(b, t),
    decreases 9 - t,
{
    lemma_size_from_fits(a, t);
    lemma_size_from_fits(b, t);
    if t < 9 && b >= pow2(7 * t) {
        lemma_size_from_fits(b, t + 1);
        if a >= pow2(7 * t) {
            lemma_size_from_monotonic(a, b, t + 1);
        }
    }
}

/// A larger value never has a shorter encoding.
pub proof fn lemma_size_monotonic(a: u64, b: u64)
    requires
        a <= b,
    ensures
        varint_size(a) <= varint_size(b),
{
    lemma_size_from_monotonic(a as nat, b as nat, 1);
}

/// No byte declares more than eight extra bytes, so no prefix byte overflows.
pub proof fn lemma_no_prefix_overflows(prefix: u8)
    ensures
        extra_count(prefix) <= MAX_EXTRA,
{
    lemma_extra_count_bound(prefix);
}

} // verus!
