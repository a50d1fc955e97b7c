use vstd::prelude::*;
use vstd::arithmetic::div_mod::{
    lemma_div_is_ordered, lemma_div_multiples_vanish, lemma_div_nonincreasing,
    lemma_div_pos_is_pos, lemma_fundamental_div_mod, lemma_fundamental_div_mod_converse_div,
    lemma_fundamental_div_mod_converse_mod,
};
use vstd::arithmetic::mul::{lemma_mul_is_commutative, lemma_mul_unary_negation};
use crate::config::MAX_FRAMES;

verus! {

/// Quotient of `a` by `d` rounded toward zero: the rounding used by the
/// engine's fixed-point fade ramps, matching machine signed division.
pub open spec fn trunc_div(a: int, d: int) -> int
    recommends
        d > 0,
{
    if a >= 0 {
        a / d
    } else {
        -((-a) / d)
    }
}

/// Value of a linear cross-fade at ramp position `f` of `n`: the incoming
/// sample `b` weighted `f/n` plus the outgoing sample `a` weighted
/// `(n-f)/n`, evaluated in s16 fixed point. With `a == 0` this is the
/// plain fade-in; with `b == 0` the plain fade-out.
pub open spec fn xfade_at(a: int, b: int, f: int, n: int) -> int
    recommends
        0 < n,
        0 <= f <= n,
{
    trunc_div(b * f + a * (n - f), n)
}

/// Truncating division stays between any bounds whose multiples
/// enclose the dividend.
pub proof fn lemma_trunc_div_range(a: int, d: int, lo: int, hi: int)
    requires
        d > 0,
        lo <= 0 <= hi,
        lo * d <= a <= hi * d,
    ensures
        lo <= trunc_div(a, d) <= hi,
{
    if a >= 0 {
        lemma_div_pos_is_pos(a, d);
        lemma_mul_is_commutative(hi, d);
        lemma_div_is_ordered(a, hi * d, d);
        lemma_div_multiples_vanish(hi, d);
    } else {
        lemma_div_pos_is_pos(-a, d);
        lemma_mul_unary_negation(lo, d);
        lemma_mul_is_commutative(-lo, d);
        lemma_div_is_ordered(-a, (-lo) * d, d);
        lemma_div_multiples_vanish(-lo, d);
    }
}

/// Convexity of the cross-fade: the mixed sample never leaves the range
/// spanned by s16, so every fade output is again a valid s16 sample.
pub proof fn lemma_xfade_in_s16_range(a: int, b: int, f: int, n: int)
    requires
        0 < n,
        0 <= f <= n,
        -0x8000 <= a <= 0x7fff,
        -0x8000 <= b <= 0x7fff,
    ensures
        -0x8000 <= xfade_at(a, b, f, n) <= 0x7fff,
{
    assert((-0x8000) * n <= b * f + a * (n - f) <= 0x7fff * n) by (nonlinear_arith)
        requires
            0 < n,
            0 <= f <= n,
            -0x8000 <= a <= 0x7fff,
            -0x8000 <= b <= 0x7fff,
    ;
    lemma_trunc_div_range(b * f + a * (n - f), n, -0x8000, 0x7fff);
}

pub(crate) fn trunc_div_i64(a: i64, d: i64) -> (r: i64)
    requires
        0 < d,
        i64::MIN < a,
    ensures
        r == trunc_div(a as int, d as int),
{
    if a >= 0 {
        let q: u64 = (a as u64) / (d as u64);
        proof {
            lemma_div_nonincreasing(a as int, d as int);
            lemma_div_pos_is_pos(a as int, d as int);
        }
        q as i64
    } else {
        let m: u64 = (-a) as u64;
        let q: u64 = m / (d as u64);
        proof {
            lemma_div_nonincreasing(m as int, d as int);
            lemma_div_pos_is_pos(m as int, d as int);
        }
        -(q as i64)
    }
}

/// One sample of the linear cross-fade between an outgoing sample `a`
/// and an incoming sample `b`, at ramp position `f` of `n`.
pub fn xfade_sample(a: i16, b: i16, f: usize, n: usize) -> (r: i16)
    requires
        0 < n <= MAX_FRAMES,
        f <= n,
    ensures
        r as int == xfade_at(a as int, b as int, f as int, n as int),
{
    proof {
        assert((-0x8000) * 0x0800_0000 <= (b as int) * (f as int) <= 0x7fff * 0x0800_0000
            && (-0x8000) * 0x0800_0000 <= (a as int) * ((n - f) as int) <= 0x7fff * 0x0800_0000
            && (-0x8000) * (n as int) <= (b as int) * (f as int) + (a as int) * ((n - f) as int)
            <= 0x7fff * (n as int)) by (nonlinear_arith)
            requires
                0 < n <= MAX_FRAMES,
                0 <= f <= n,
                -0x8000 <= a as int <= 0x7fff,
                -0x8000 <= b as int <= 0x7fff,
        ;
    }
    let num: i64 = (b as i64) * (f as i64) + (a as i64) * ((n - f) as i64);
    proof {
        lemma_trunc_div_range(num as int, n as int, -0x8000, 0x7fff);
    }
    let q: i64 = trunc_div_i64(num, n as i64);
    q as i16
}

/// The signed 16-bit value stored little-endian as bytes `lo`, `hi`
/// (two's complement).
pub open spec fn s16_from_le(lo: u8, hi: u8) -> int {
    let u = lo + 256 * hi;
    if u < 0x8000 {
        u as int
    } else {
        u - 0x10000
    }
}

/// The unsigned 16-bit image of a signed sample, the value its two's
/// complement encoding represents when read unsigned.
pub open spec fn s16_unsigned(s: i16) -> int {
    if s >= 0 {
        s as int
    } else {
        s + 0x10000
    }
}

/// Low-order encoded byte of a sample.
pub open spec fn s16_le_lo(s: i16) -> u8 {
    (s16_unsigned(s) % 256) as u8
}

/// High-order encoded byte of a sample.
pub open spec fn s16_le_hi(s: i16) -> u8 {
    (s16_unsigned(s) / 256) as u8
}

/// Encoding inverts decoding: the sample read from two little-endian
/// bytes writes back as exactly those bytes.
pub proof fn lemma_s16_le_image(lo: u8, hi: u8)
    ensures
        s16_le_lo(s16_from_le(lo, hi) as i16) == lo,
        s16_le_hi(s16_from_le(lo, hi) as i16) == hi,
{
    let u = lo + 256 * hi;
    let s = s16_from_le(lo, hi) as i16;
    assert(s16_unsigned(s) == u);
    lemma_fundamental_div_mod_converse_mod(u as int, 256, hi as int, lo as int);
    lemma_fundamental_div_mod_converse_div(u as int, 256, hi as int, lo as int);
}

/// Decoding inverts encoding: reading back the two little-endian bytes
/// of any sample yields that sample.
pub proof fn lemma_s16_round_trip(s: i16)
    ensures
        s16_from_le(s16_le_lo(s), s16_le_hi(s)) == s as int,
{
    let u = s16_unsigned(s);
    lemma_fundamental_div_mod(u, 256);
    lemma_div_pos_is_pos(u, 256);
    lemma_div_is_ordered(u, 0xffff, 256);
    assert(s16_le_lo(s) + 256 * s16_le_hi(s) == u);
}

/// Reads one canonical wire sample from its two little-endian bytes.
pub fn s16_from_le_bytes(lo: u8, hi: u8) -> (s: i16)
    ensures
        s as int == s16_from_le(lo, hi),
{
    let u: u32 = lo as u32 + 256 * (hi as u32);
    if u < 0x8000 {
        u as i16
    } else {
        let v: i32 = u as i32 - 0x10000;
        v as i16
    }
}

/// Writes one canonical wire sample as its two little-endian bytes.
pub fn s16_to_le_bytes(s: i16) -> (r: (u8, u8))
    ensures
        r.0 == s16_le_lo(s),
        r.1 == s16_le_hi(s),
{
    let u: u32 = if s >= 0 {
        s as u32
    } else {
        (s as i32 + 0x10000) as u32
    };
    ((u % 256) as u8, (u / 256) as u8)
}

/// The sample sequence held by an interleaved s16 little-endian byte
/// sequence; a trailing odd byte carries no sample.
pub open spec fn decoded_samples(bytes: Seq<u8>) -> Seq<i16> {
    Seq::new((bytes.len() / 2) as nat, |i: int| s16_from_le(bytes[2 * i], bytes[2 * i + 1]) as i16)
}

/// The little-endian byte image of a sample sequence.
pub open spec fn encoded_bytes(samples: Seq<i16>) -> Seq<u8> {
    Seq::new(
        (samples.len() * 2) as nat,
        |i: int|
            if i % 2 == 0 {
                s16_le_lo(samples[i / 2])
            } else {
                s16_le_hi(samples[i / 2])
            },
    )
}

/// The wire codec is lossless: decoding the byte image of any sample
/// sequence restores that sequence, so what the capture side emits is
/// exactly what the playback side reads.
pub proof fn lemma_decode_encode_id(samples: Seq<i16>)
    ensures
        decoded_samples(encoded_bytes(samples)) == samples,
{
    let enc = encoded_bytes(samples);
    assert(enc.len() == 2 * samples.len());
    assert forall|i: int| 0 <= i < samples.len() implies decoded_samples(enc)[i] == samples[i] by {
        assert(enc[2 * i] == s16_le_lo(samples[i]));
        assert(enc[2 * i + 1] == s16_le_hi(samples[i]));
        lemma_s16_round_trip(samples[i]);
    }
    assert(decoded_samples(encoded_bytes(samples)) =~= samples);
}

/// Decodes an s16 little-endian payload into samples, as the playback
/// pipeline does for every received packet.
pub fn decode_samples_vec(bytes: &Vec<u8>) -> (r: Vec<i16>)
    ensures
        r@ == decoded_samples(bytes@),
{
    let n: usize = bytes.len() / 2;
    let mut r: Vec<i16> = Vec::new();
    let mut i: usize = 0;
    while i < n
        invariant
            i <= n,
            n == bytes@.len() / 2,
            2 * n <= bytes@.len(),
            2 * n <= usize::MAX,
            r@.len() == i,
            forall|j: int|
                0 <= j < i ==> r@[j] == s16_from_le(bytes@[2 * j], bytes@[2 * j + 1]) as i16,
        decreases n - i,
    {
        let s = s16_from_le_bytes(bytes[2 * i], bytes[2 * i + 1]);
        r.push(s);
        i += 1;
    }
    proof {
        assert(r@ =~= decoded_samples(bytes@));
    }
    r
}

/// Encodes samples into their s16 little-endian wire image, as the
/// capture pipeline does before handing a packet to the transport.
pub fn encode_samples_vec(samples: &Vec<i16>) -> (r: Vec<u8>)
    requires
        samples@.len() * 2 <= usize::MAX,
    ensures
        r@ == encoded_bytes(samples@),
{
    let mut r: Vec<u8> = Vec::new();
    let mut i: usize = 0;
    while i < samples.len()
        invariant
            i <= samples@.len(),
            samples@.len() * 2 <= usize::MAX,
            r@.len() == 2 * i,
            forall|j: int|
                0 <= j < 2 * i ==> r@[j] == (if j % 2 == 0 {
                    s16_le_lo(samples@[j / 2])
                } else {
                    s16_le_hi(samples@[j / 2])
                }),
        decreases samples@.len() - i,
    {
        let (lo, hi) = s16_to_le_bytes(samples[i]);
        r.push(lo);
        r.push(hi);
        i += 1;
    }
    proof {
        assert(r@ =~= encoded_bytes(samples@));
    }
    r
}

} // verus!
