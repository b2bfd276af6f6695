//! Prefix varints: a `u64` stored in one to nine bytes, where the count of
//! trailing zero bits of the first byte gives the number of bytes that follow.
use vstd::prelude::*;

pub mod laws;
pub mod layout;
mod overflow;
mod rest_buf;

use crate::layout::{
    decode, encode, extra_count, le_bytes, le_value, lemma_extra_count_bound,
    lemma_le_value_push, lemma_payload_bound, lemma_prefix_fields, lemma_varint_size_fits,
    payload_bits, payload_of, pow2, prefix_byte, size_from, varint_size, MAX_EXTRA,
};

pub use crate::overflow::OverflowError;
pub use crate::rest_buf::{RestBuf, MAX_SIZE};

verus! {

/// Number of bytes that follow a prefix byte, or an error if it declares more than eight.
pub fn read_size_from_prefix(byte: u8) -> (r: Result<usize, OverflowError>)
    ensures
        r matches Ok(n) ==> n as nat == extra_count(byte),
        r matches Err(e) ==> e.size as nat == extra_count(byte) && extra_count(byte) > MAX_EXTRA,
        r is Ok <==> extra_count(byte) <= MAX_EXTRA,
{
    let size = byte.trailing_zeros() as usize;
    if size > MAX_EXTRA {
        Err(OverflowError::new(size))
    } else {
        Ok(size)
    }
}

/// Splits a prefix byte into its value bits and the number of bytes that follow.
pub fn read_prefix(byte: u8) -> (r: Result<(u64, usize), OverflowError>)
    ensures
        r matches Ok((payload, extra)) ==> payload as nat == payload_of(byte) && extra as nat
            == extra_count(byte) && payload < pow2(payload_bits(extra as nat)),
        r matches Err(e) ==> e.size as nat == extra_count(byte) && extra_count(byte) > MAX_EXTRA,
        r is Ok <==> extra_count(byte) <= MAX_EXTRA,
{
    let size = read_size_from_prefix(byte)?;
    proof {
        lemma_extra_count_bound(byte);
    }
    if size == MAX_EXTRA {
        proof {
            vstd::arithmetic::power2::lemma2_to64();
        }
        return Ok((0, size));
    }
    let payload = (byte as u64) >> (size as u64 + 1);
    proof {
        vstd::bits::lemma_u64_shr_is_div(byte as u64, (size + 1) as u64);
        assert(payload < pow2(payload_bits(size as nat))) by {
            lemma_payload_bound(byte, size as u8);
        }
    }
    Ok((payload, size))
}

/// Total number of bytes in the canonical encoding of `value`.
pub fn calc_varint_size(value: u64) -> (r: usize)
    ensures
        r as nat == varint_size(value),
        1 <= r <= 9,
{
    let mut t: usize = 1;
    while t <= 8
        invariant
            1 <= t <= 9,
            size_from(value as nat, 1) == size_from(value as nat, t as nat),
        decreases 9 - t,
    {
        let limit: u64 = 1u64 << (7 * t) as u64;
        proof {
            vstd::bits::lemma_u64_pow2_no_overflow((7 * t) as nat);
            vstd::bits::lemma_u64_shl_is_mul(1, (7 * t) as u64);
        }
        if value < limit {
            return t;
        }
        t = t + 1;
    }
    9
}

/// Why a varint could not be read from a byte sequence.
#[derive(Clone, Copy, Debug, PartialEq, Eq, Structural)]
pub enum ReadError {
    /// The input ended before the bytes that the prefix declares.
    UnexpectedEof,
    /// The prefix declared more extra bytes than a `u64` can use.
    Overflow(OverflowError),
}

/// Adds the bytes of `rest`, least-significant first, above the `payload_bits`
/// value bits that the prefix byte carried in `payload`.
pub fn assemble(payload: u64, rest: &RestBuf) -> (r: u64)
    requires
        rest@.len() <= MAX_EXTRA,
        payload < pow2(payload_bits(rest@.len())),
    ensures
        r as nat == payload + le_value(rest@) * pow2(payload_bits(rest@.len())),
{
    let n = rest.len();
    let pb: u64 = if n == MAX_EXTRA { 0 } else { 7 - n as u64 };
    let mut acc = payload;
    let mut i: usize = 0;
    assert(rest@.take(0) =~= Seq::<u8>::empty());
    assert(le_value(rest@.take(0)) == 0);
    assert(0 * pow2(pb as nat) == 0);
    while i < n
        invariant
            i <= n,
            n == rest@.len() <= MAX_EXTRA,
            pb == payload_bits(n as nat),
            acc as nat == payload + le_value(rest@.take(i as int)) * pow2(pb as nat),
            acc < pow2((pb + 8 * i) as nat),
        decreases n - i,
    {
        let shift: u64 = pb + 8 * i as u64;
        let b = rest.get(i);
        proof {
            let p = pow2(shift as nat);
            let lv = le_value(rest@.take(i as int));
            assert(rest@.take(i as int + 1) =~= rest@.take(i as int).push(b));
            lemma_le_value_push(rest@.take(i as int), b);
            vstd::arithmetic::power2::lemma_pow2_adds(shift as nat, 8);
            vstd::arithmetic::power2::lemma_pow2_adds(pb as nat, 8 * i as nat);
            vstd::arithmetic::power2::lemma2_to64();
            assert(shift + 8 <= 64);
            if shift + 8 < 64 {
                vstd::arithmetic::power2::lemma_pow2_strictly_increases((shift + 8) as nat, 64);
            }
            assert(b as nat * p < p * 256) by (nonlinear_arith)
                requires
                    b < 256,
                    p > 0,
            ;
            assert(acc + b as nat * p < p * 256) by (nonlinear_arith)
                requires
                    acc < p,
                    b < 256,
            ;
            assert(payload + lv * pow2(pb as nat) + b as nat * (pow2(8 * i as nat) * pow2(pb as nat))
                == payload + (lv + b as nat * pow2(8 * i as nat)) * pow2(pb as nat)) by (nonlinear_arith);
            vstd::bits::lemma_u64_shl_is_mul(b as u64, shift);
            assert(p == pow2(8 * i as nat) * pow2(pb as nat)) by (nonlinear_arith)
                requires
                    p == pow2(pb as nat) * pow2(8 * i as nat),
            ;
            assert(le_value(rest@.take(i as int + 1)) == lv + b as nat * pow2(8 * i as nat));
        }
        acc = acc + ((b as u64) << shift);
        i = i + 1;
    }
    assert(rest@.take(n as int) =~= rest@);
    acc
}

/// Reads the varint at the front of `bytes`: its value and the number of bytes it spans.
pub fn read_varint(bytes: &[u8]) -> (r: Result<(u64, usize), ReadError>)
    ensures
        r is Ok <==> decode(bytes@) is Some,
        r matches Ok((v, n)) ==> decode(bytes@) == Some((v as nat, n as nat)),
        decode(bytes@) is None ==> r == Err::<(u64, usize), ReadError>(ReadError::UnexpectedEof),
{
    if bytes.len() == 0 {
        return Err(ReadError::UnexpectedEof);
    }
    let (payload, size) = match read_prefix(bytes[0]) {
        Ok(p) => p,
        Err(e) => return Err(ReadError::Overflow(e)),
    };
    proof {
        lemma_extra_count_bound(bytes[0]);
    }
    if bytes.len() - 1 < size {
        return Err(ReadError::UnexpectedEof);
    }
    let mut rest = RestBuf::new(size);
    let mut i: usize = 0;
    while i < size
        invariant
            i <= size <= MAX_EXTRA,
            size < bytes@.len(),
            rest@.len() == size,
            forall|j: int| 0 <= j < i ==> rest@[j] == bytes@[1 + j],
        decreases size - i,
    {
        rest.set(i, bytes[1 + i]);
        i = i + 1;
    }
    assert(rest@ =~= bytes@.subrange(1, 1 + size as int));
    let value = assemble(payload, &rest);
    Ok((value, size + 1))
}

/// Appends the canonical encoding of `value` to `out`; returns the number of bytes written.
pub fn write_varint(value: u64, out: &mut Vec<u8>) -> (r: usize)
    ensures
        final(out)@ == old(out)@ + encode(value),
        r as nat == varint_size(value),
{
    let size = calc_varint_size(value);
    let extra = size - 1;
    let pb: u64 = if size == 9 { 0 } else { 8 - size as u64 };
    proof {
        lemma_varint_size_fits(value);
        vstd::arithmetic::power2::lemma2_to64();
        vstd::bits::lemma_u64_shl_is_mul(1, pb);
        assert(pb as nat == payload_bits(extra as nat));
    }
    let unit: u64 = 1u64 << pb;
    let prefix: u8 = if size == 9 {
        0
    } else {
        let m = value % unit;
        proof {
            lemma_prefix_fields(m as nat, size as nat);
            vstd::bits::lemma_u64_shl_is_mul(1, size as u64);
            vstd::bits::lemma_u64_shl_is_mul(1, extra as u64);
            vstd::arithmetic::power2::lemma_pow2_pos(size as nat);
            assert(m * pow2(size as nat) <= 255) by (nonlinear_arith)
                requires
                    m * pow2(size as nat) + pow2((size - 1) as nat) < 256,
                    pow2((size - 1) as nat) > 0,
            ;
        }
        (m * (1u64 << size as u64) + (1u64 << extra as u64)) as u8
    };
    assert(prefix == prefix_byte(value));
    out.push(prefix);
    let ghost q: nat = value as nat / pow2(pb as nat);
    let mut rem: u64 = value / unit;
    let mut i: usize = 0;
    assert(le_bytes(q, 0) =~= Seq::<u8>::empty());
    assert(out@ =~= old(out)@ + seq![prefix] + le_bytes(q, 0));
    assert(rem as nat == q / pow2(0));
    while i < extra
        invariant
            i <= extra <= MAX_EXTRA,
            out@ == old(out)@ + seq![prefix] + le_bytes(q, i as nat),
            rem as nat == q / pow2(8 * i as nat),
        decreases extra - i,
    {
        proof {
            vstd::arithmetic::power2::lemma_pow2_pos(8 * i as nat);
            vstd::arithmetic::power2::lemma_pow2_adds(8 * i as nat, 8);
            vstd::arithmetic::div_mod::lemma_div_denominator(q as int, pow2(8 * i as nat) as int, 256);
            vstd::arithmetic::power2::lemma2_to64();
            assert(8 * (i + 1) as nat == 8 * i as nat + 8);
        }
        out.push((rem % 256) as u8);
        rem = rem / 256;
        i = i + 1;
        proof {
            assert(out@ =~= old(out)@ + seq![prefix] + le_bytes(q, i as nat));
        }
    }
    assert(out@ =~= old(out)@ + encode(value));
    size
}

} // verus!
