//! The byte layout of a prefix varint, stated over mathematical values.
use vstd::prelude::*;

verus! {

pub use vstd::arithmetic::power2::pow2;

/// Smallest total length `t`, searching upward from `t`, at which `v` fits:
/// a length `t <= 8` holds `7 * t` value bits, and nine bytes hold every `u64`.
pub open spec fn size_from(v: nat, t: nat) -> nat
    decreases 9 - t,
{
    if t >= 9 {
        9
    } else if v < pow2(7 * t) {
        t
    } else {
        size_from(v, t + 1)
    }
}

/// Number of bytes in the canonical (shortest) encoding of `v`.
pub open spec fn varint_size(v: u64) -> nat {
    size_from(v as nat, 1)
}


/// Largest number of bytes that may follow the prefix byte.
pub const MAX_EXTRA: usize = 8;

/// Number of bytes that follow a prefix byte: its count of trailing zero bits.
pub open spec fn extra_count(prefix: u8) -> nat {
    prefix.trailing_zeros() as nat
}

/// Number of value bits held by a prefix byte that declares `extra` more bytes.
pub open spec fn payload_bits(extra: nat) -> nat {
    if extra >= 8 {
        0
    } else {
        (7 - extra) as nat
    }
}

/// The value bits of a prefix byte: those above its terminator bit.
pub open spec fn payload_of(prefix: u8) -> nat {
    if extra_count(prefix) >= 8 {
        0
    } else {
        prefix as nat / pow2(extra_count(prefix) + 1)
    }
}

/// A byte has at most eight trailing zero bits, and exactly eight only when it is zero.
pub proof fn lemma_extra_count_bound(prefix: u8)
    ensures
        extra_count(prefix) <= MAX_EXTRA,
        extra_count(prefix) == 8 <==> prefix == 0,
{
    vstd::std_specs::bits::axiom_u8_trailing_zeros(prefix);
}

/// The value bits of a prefix byte that declares `extra < 8` more bytes fit in
/// `payload_bits(extra)` bits.
pub proof fn lemma_payload_bound(prefix: u8, extra: u8)
    requires
        extra < 8,
    ensures
        prefix as nat / pow2(extra as nat + 1) < pow2(payload_bits(extra as nat)),
{
    vstd::arithmetic::power2::lemma_pow2_adds(extra as nat + 1, payload_bits(extra as nat));
    vstd::arithmetic::power2::lemma_pow2_pos(extra as nat + 1);
    vstd::arithmetic::power2::lemma2_to64();
    vstd::arithmetic::div_mod::lemma_multiply_divide_lt(
        prefix as int,
        pow2(extra as nat + 1) as int,
        pow2(payload_bits(extra as nat)) as int,
    );
}

/// Value of bytes read as an unsigned number, least-significant byte first.
pub open spec fn le_value(s: Seq<u8>) -> nat
    decreases s.len(),
{
    if s.len() == 0 {
        0
    } else {
        le_value(s.drop_last()) + s.last() as nat * pow2(8 * (s.len() - 1) as nat)
    }
}

/// Value carried by a prefix byte and the bytes that follow it.
pub open spec fn decoded_value(prefix: u8, rest: Seq<u8>) -> nat {
    payload_of(prefix) + le_value(rest) * pow2(payload_bits(extra_count(prefix)))
}

/// Decodes the varint at the front of `s`: its value and the number of bytes it
/// spans, or `None` when `s` is shorter than its prefix byte declares.
pub open spec fn decode(s: Seq<u8>) -> Option<(nat, nat)> {
    if s.len() == 0 {
        None
    } else if s.len() < 1 + extra_count(s[0]) {
        None
    } else {
        Some((decoded_value(s[0], s.subrange(1, 1 + extra_count(s[0]) as int)), 1 + extra_count(s[0])))
    }
}

/// Appending a byte adds it at the next place value.
pub proof fn lemma_le_value_push(s: Seq<u8>, b: u8)
    ensures
        le_value(s.push(b)) == le_value(s) + b as nat * pow2(8 * s.len()),
{
    assert(s.push(b).drop_last() =~= s);
}

/// The low `n` bytes of `x`, least-significant first.
pub open spec fn le_bytes(x: nat, n: nat) -> Seq<u8>
    decreases n,
{
    if n == 0 {
        Seq::empty()
    } else {
        le_bytes(x, (n - 1) as nat).push(((x / pow2(8 * (n - 1) as nat)) % 256) as u8)
    }
}

/// The prefix byte of the canonical encoding of `v`: its low value bits above a
/// terminator bit at position `varint_size(v) - 1`, or zero for the nine-byte form.
pub open spec fn prefix_byte(v: u64) -> u8 {
    let t = varint_size(v);
    if t >= 9 {
        0
    } else {
        ((v as nat % pow2((8 - t) as nat)) * pow2(t) + pow2((t - 1) as nat)) as u8
    }
}

/// The canonical encoding of `v`: its prefix byte, then the value bits that the
/// prefix does not hold, least-significant byte first.
pub open spec fn encode(v: u64) -> Seq<u8> {
    let extra = (varint_size(v) - 1) as nat;
    seq![prefix_byte(v)] + le_bytes(v as nat / pow2(payload_bits(extra)), extra)
}

/// `le_bytes` yields `n` bytes.
pub proof fn lemma_le_bytes_len(x: nat, n: nat)
    ensures
        le_bytes(x, n).len() == n,
    decreases n,
{
    if n > 0 {
        lemma_le_bytes_len(x, (n - 1) as nat);
    }
}

/// Reading back the low `n` bytes of `x` gives `x` modulo `2^(8 n)`.
pub proof fn lemma_le_bytes_value(x: nat, n: nat)
    ensures
        le_value(le_bytes(x, n)) == x % pow2(8 * n),
    decreases n,
{
    vstd::arithmetic::power2::lemma2_to64();
    if n == 0 {
        assert(le_bytes(x, 0) =~= Seq::<u8>::empty());
    } else {
        let k = (n - 1) as nat;
        let y = pow2(8 * k);
        lemma_le_bytes_value(x, k);
        lemma_le_bytes_len(x, k);
        lemma_le_value_push(le_bytes(x, k), ((x / y) % 256) as u8);
        vstd::arithmetic::power2::lemma_pow2_pos(8 * k);
        vstd::arithmetic::power2::lemma_pow2_adds(8 * k, 8);
        vstd::arithmetic::div_mod::lemma_mod_breakdown(x as int, y as int, 256);
        vstd::arithmetic::mul::lemma_mul_is_commutative(y as int, ((x / y) % 256) as int);
    }
}

/// The byte `m * 2^t + 2^(t - 1)` with `m < 2^(8 - t)` declares `t - 1` extra
/// bytes and carries the value bits `m`.
pub proof fn lemma_prefix_fields(m: nat, t: nat)
    requires
        1 <= t <= 8,
        m < pow2((8 - t) as nat),
    ensures
        m * pow2(t) + pow2((t - 1) as nat) < 256,
        extra_count((m * pow2(t) + pow2((t - 1) as nat)) as u8) == t - 1,
        payload_of((m * pow2(t) + pow2((t - 1) as nat)) as u8) == m,
{
    vstd::arithmetic::power2::lemma2_to64();
    vstd::arithmetic::power2::lemma_pow2_adds(t, (8 - t) as nat);
    vstd::arithmetic::power2::lemma_pow2_adds((t - 1) as nat, 1);
    let pt = pow2(t);
    let ph = pow2((t - 1) as nat);
    let pm = pow2((8 - t) as nat);
    assert(m * pt + ph < 256) by (nonlinear_arith)
        requires
            m < pm,
            pm * pt == 256,
            ph < pt,
    ;
    let p = (m * pt + ph) as u8;
    vstd::arithmetic::div_mod::lemma_fundamental_div_mod_converse_div(
        p as int,
        pt as int,
        m as int,
        ph as int,
    );
    let tu = t as u8;
    vstd::bits::lemma_u8_shl_is_mul(1, (tu - 1) as u8);
    vstd::std_specs::bits::axiom_u8_trailing_zeros(p);
    let z = extra_count(p) as u8;
    if t == 8 {
        assert(p == 128);
        assert(z == 7) by (bit_vector)
            requires
                p == 128,
                z <= 8,
                p == 0 <==> z == 8,
                z < 8 ==> (p >> z) & 1u8 == 1u8,
                z > 7 ==> (p >> 7u8) & 1u8 == 0u8,
        ;
    } else {
        let mu = m as u8;
        vstd::bits::lemma_u8_shl_is_mul(mu, tu);
        let tm = (tu - 1) as u8;
        let wm = (8 - tu) as u8;
        vstd::bits::lemma_u8_shl_is_mul(1, wm);
        assert(p == (mu << tu) + (1u8 << tm));
        if z > tm {
            assert((p >> tm) & 1u8 == 0u8);
        }
        assert(z == tm) by (bit_vector)
            requires
                p == (mu << tu) + (1u8 << tm),
                1 <= tu < 8,
                tm == tu - 1,
                wm == 8 - tu,
                mu < (1u8 << wm),
                z <= 8,
                p == 0 <==> z == 8,
                z < 8 ==> (p >> z) & 1u8 == 1u8,
                z > tm ==> (p >> tm) & 1u8 == 0u8,
        ;
    }
}

/// Searching upward from `t` ends between `t` and nine, at a length that holds `v`.
pub proof fn lemma_size_from_fits(v: nat, t: nat)
    requires
        1 <= t <= 9,
    ensures
        t <= size_from(v, t) <= 9,
        size_from(v, t) <= 8 ==> v < pow2(7 * size_from(v, t)),
    decreases 9 - t,
{
    if t < 9 && v >= pow2(7 * t) {
        lemma_size_from_fits(v, t + 1);
    }
}

/// The canonical size lies in `1..=9`, and a size below nine holds `v` in `7 * size` bits.
pub proof fn lemma_varint_size_fits(v: u64)
    ensures
        1 <= varint_size(v) <= 9,
        varint_size(v) <= 8 ==> v < pow2(7 * varint_size(v)),
{
    lemma_size_from_fits(v as nat, 1);
}

} // verus!
