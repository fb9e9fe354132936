use vstd::prelude::*;
use vstd::arithmetic::div_mod::{
    lemma_div_is_ordered,
    lemma_div_pos_is_pos,
    lemma_div_denominator,
    lemma_div_multiples_vanish,
    lemma_fundamental_div_mod,
    lemma_multiply_divide_lt,
    lemma_remainder,
    lemma_remainder_lower,
};
use vstd::arithmetic::mul::{
    lemma_mul_inequality,
    lemma_mul_is_associative,
    lemma_mul_is_commutative,
    lemma_mul_is_distributive_add_other_way,
    lemma_mul_nonnegative,
    lemma_mul_strict_inequality,
};
use vstd::arithmetic::power2::{
    pow2,
    lemma_pow2_adds,
    lemma_pow2_pos,
    lemma_pow2_strictly_increases,
    lemma_pow2_unfold,
    lemma2_to64,
};
use crate::format::{SampleEncoding, bytes_per_sample, spec_bytes_per_sample};
use crate::wave::ONE_Q30;

verus! {

/// Largest sample magnitude the codec accepts: twice full scale in Q30,
/// comfortably above the mixer's 1.125 peak.
pub const CODEC_PEAK: i64 = 0x8000_0000;

/// Round to nearest with ties away from zero: the crate's one quantization
/// policy, applied wherever a scaled value is reduced to fewer bits.
pub open spec fn rnd_div(a: int, b: int) -> int {
    if a >= 0 {
        (a + b / 2) / b
    } else {
        -((-a + b / 2) / b)
    }
}

/// A Q30 sample scaled to an integer full-scale level `m`.
pub open spec fn level_of(s: int, m: int) -> int {
    rnd_div(s * m, ONE_Q30 as int)
}

pub open spec fn clamp(v: int, lo: int, hi: int) -> int {
    if v < lo {
        lo
    } else if v > hi {
        hi
    } else {
        v
    }
}

/// 8-bit offset binary: scale by 127, recenter on 128, clamp to one byte.
pub open spec fn spec_quant_u8(s: int) -> int {
    clamp(level_of(s, 127) + 128, 0, 255)
}

/// 16-bit signed PCM: scale by 32767, clamp to the signed 16-bit range.
pub open spec fn spec_quant_i16(s: int) -> int {
    clamp(level_of(s, 32767), -32768, 32767)
}

/// 32-bit signed PCM.
pub open spec fn spec_quant_i32(s: int) -> int {
    clamp(level_of(s, 0x7fff_ffff), -0x8000_0000, 0x7fff_ffff)
}

/// 64-bit signed PCM.
pub open spec fn spec_quant_i64(s: int) -> int {
    clamp(level_of(s, 0x7fff_ffff_ffff_ffff), -0x8000_0000_0000_0000, 0x7fff_ffff_ffff_ffff)
}

/// Quantize a Q30 sample to 8-bit offset binary.
pub fn quant_u8(s: i64) -> (r: u8)
    requires
        -CODEC_PEAK <= s <= CODEC_PEAK,
    ensures
        r == spec_quant_u8(s as int),
{
    let a: i64 = s * 127;
    let lv: i64 = if a >= 0 {
        (a + 0x2000_0000) / 0x4000_0000
    } else {
        -((-a + 0x2000_0000) / 0x4000_0000)
    };
    let v: i64 = lv + 128;
    if v < 0 {
        0
    } else if v > 255 {
        255
    } else {
        v as u8
    }
}

/// Quantize a Q30 sample to 16-bit signed PCM.
pub fn quant_i16(s: i64) -> (r: i16)
    requires
        -CODEC_PEAK <= s <= CODEC_PEAK,
    ensures
        r == spec_quant_i16(s as int),
{
    let a: i64 = s * 32767;
    let lv: i64 = if a >= 0 {
        (a + 0x2000_0000) / 0x4000_0000
    } else {
        -((-a + 0x2000_0000) / 0x4000_0000)
    };
    if lv < -32768 {
        -32768
    } else if lv > 32767 {
        32767
    } else {
        lv as i16
    }
}

/// Quantize a Q30 sample to 32-bit signed PCM.
pub fn quant_i32(s: i64) -> (r: i32)
    requires
        -CODEC_PEAK <= s <= CODEC_PEAK,
    ensures
        r == spec_quant_i32(s as int),
{
    let a: i128 = (s as i128) * 0x7fff_ffff;
    let lv: i128 = if a >= 0 {
        (a + 0x2000_0000) / 0x4000_0000
    } else {
        -((-a + 0x2000_0000) / 0x4000_0000)
    };
    if lv < -0x8000_0000 {
        -0x8000_0000
    } else if lv > 0x7fff_ffff {
        0x7fff_ffff
    } else {
        lv as i32
    }
}

/// Quantize a Q30 sample to 64-bit signed PCM.
pub fn quant_i64(s: i64) -> (r: i64)
    requires
        -CODEC_PEAK <= s <= CODEC_PEAK,
    ensures
        r == spec_quant_i64(s as int),
{
    let a: i128 = (s as i128) * 0x7fff_ffff_ffff_ffff;
    let lv: i128 = if a >= 0 {
        (a + 0x2000_0000) / 0x4000_0000
    } else {
        -((-a + 0x2000_0000) / 0x4000_0000)
    };
    if lv < -0x8000_0000_0000_0000 {
        -0x8000_0000_0000_0000
    } else if lv > 0x7fff_ffff_ffff_ffff {
        0x7fff_ffff_ffff_ffff
    } else {
        lv as i64
    }
}

/// Position of the highest set bit.
pub open spec fn log2_floor(m: nat) -> nat
    decreases m,
{
    if m < 2 {
        0
    } else {
        1 + log2_floor(m / 2)
    }
}

proof fn lemma_log2_floor_unique(m: nat, p: nat)
    requires
        pow2(p) <= m < 2 * pow2(p),
    ensures
        log2_floor(m) == p,
    decreases p,
{
    if p == 0 {
        lemma2_to64();
    } else {
        lemma_pow2_unfold(p);
        lemma_pow2_pos((p - 1) as nat);
        assert(m >= 2);
        assert(m / 2 >= pow2((p - 1) as nat));
        assert(m / 2 < 2 * pow2((p - 1) as nat));
        lemma_log2_floor_unique(m / 2, (p - 1) as nat);
    }
}

/// The IEEE-754 single-precision bit pattern of the value s / 2^30, for a
/// magnitude up to twice full scale. The significand keeps 24 bits, rounded
/// to nearest with ties away from zero (the crate's one rounding policy);
/// every representable input is normal, so no subnormal or infinity arises.
pub open spec fn f32_bits_of_q30(s: int) -> int {
    if s == 0 {
        0
    } else {
        let sign: int = if s < 0 {
            0x8000_0000
        } else {
            0
        };
        let m: int = if s < 0 {
            -s
        } else {
            s
        };
        let p = log2_floor(m as nat) as int;
        if p <= 23 {
            sign + (p + 97) * 0x80_0000 + (m * pow2((23 - p) as nat) - 0x80_0000)
        } else {
            let d = pow2((p - 23) as nat) as int;
            let keep = m / d;
            let rem = m % d;
            let keep2: int = if 2 * rem >= d {
                keep + 1
            } else {
                keep
            };
            if keep2 == 0x100_0000 {
                sign + (p + 98) * 0x80_0000
            } else {
                sign + (p + 97) * 0x80_0000 + (keep2 - 0x80_0000)
            }
        }
    }
}

/// 2^k as a machine word.
fn pow2_u64(k: u32) -> (r: u64)
    requires
        k <= 31,
    ensures
        r == pow2(k as nat),
        1 <= r <= 0x8000_0000,
{
    let mut r: u64 = 1;
    let mut j: u32 = 0;
    proof {
        lemma2_to64();
    }
    while j < k
        invariant
            j <= k <= 31,
            r == pow2(j as nat),
        decreases k - j,
    {
        proof {
            if (j as nat) < 31 {
                lemma_pow2_strictly_increases(j as nat, 31);
            }
            lemma2_to64();
        }
        r = r * 2;
        j = j + 1;
        proof {
            lemma_pow2_unfold(j as nat);
        }
    }
    proof {
        if (j as nat) < 31 {
            lemma_pow2_strictly_increases(j as nat, 31);
        }
        lemma2_to64();
    }
    r
}

/// Position of the highest set bit of a positive word.
fn find_log2(m: u64) -> (p: u32)
    requires
        1 <= m <= 0x8000_0000,
    ensures
        p == log2_floor(m as nat),
        p <= 31,
        pow2(p as nat) <= m < 2 * pow2(p as nat),
{
    let mut p: u32 = 0;
    let mut t: u64 = m;
    proof {
        lemma2_to64();
        assert(m as nat / pow2(0) == m as nat);
    }
    while t >= 2
        invariant
            1 <= m <= 0x8000_0000,
            t >= 1,
            p <= 31,
            t as nat == (m as nat) / pow2(p as nat),
            pow2(p as nat) <= m as nat,
        decreases t,
    {
        proof {
            lemma_pow2_pos(p as nat);
            lemma_pow2_adds(p as nat, 1);
            lemma2_to64();
            lemma_div_denominator(m as int, pow2(p as nat) as int, 2);
            assert((m as int) / (pow2((p + 1) as nat) as int) == t as int / 2);
            lemma_pow2_pos((p + 1) as nat);
            lemma_remainder_lower(m as int, pow2((p + 1) as nat) as int);
            lemma_mul_inequality(
                1,
                (m as int) / (pow2((p + 1) as nat) as int),
                pow2((p + 1) as nat) as int,
            );
            assert(pow2((p + 1) as nat) <= m);
            if p + 1 > 31 {
                lemma_pow2_strictly_increases(31, (p + 1) as nat);
                assert(false);
            }
        }
        t = t / 2;
        p = p + 1;
    }
    proof {
        lemma_pow2_pos(p as nat);
        lemma_fundamental_div_mod(m as int, pow2(p as nat) as int);
        lemma_log2_floor_unique(m as nat, p as nat);
    }
    p
}

/// The IEEE-754 single-precision bit pattern of the value s / 2^30.
pub fn f32_bits(s: i64) -> (r: u32)
    requires
        -CODEC_PEAK <= s <= CODEC_PEAK,
    ensures
        r == f32_bits_of_q30(s as int),
{
    if s == 0 {
        return 0;
    }
    let sign_bit: u32 = if s < 0 {
        0x8000_0000
    } else {
        0
    };
    let m: u64 = if s < 0 {
        (-s) as u64
    } else {
        s as u64
    };
    let p = find_log2(m);
    if p <= 23 {
        let shift = pow2_u64(23 - p);
        proof {
            lemma_pow2_adds(p as nat, (23 - p) as nat);
            lemma2_to64();
            lemma_mul_strict_inequality(m as int, 2 * (pow2(p as nat) as int), pow2((23 - p) as nat) as int);
            lemma_mul_is_associative(2, pow2(p as nat) as int, pow2((23 - p) as nat) as int);
            lemma_mul_inequality(
                pow2(p as nat) as int,
                m as int,
                pow2((23 - p) as nat) as int,
            );
        }
        let scaled = m * shift;
        sign_bit + (p + 97) * 0x80_0000 + ((scaled - 0x80_0000) as u32)
    } else {
        let d = pow2_u64(p - 23);
        proof {
            lemma_pow2_pos((p - 23) as nat);
            lemma_pow2_adds((p - 23) as nat, 23);
            lemma_pow2_adds((p - 23) as nat, 24);
            lemma2_to64();
            // keep = m / d lands in the 24-bit significand range
            lemma_div_is_ordered(pow2(p as nat) as int, m as int, d as int);
            lemma_div_multiples_vanish(0x80_0000, d as int);
            lemma_mul_strict_inequality(m as int, 2 * (pow2(p as nat) as int), 1);
            lemma_multiply_divide_lt(m as int, d as int, 0x100_0000);
            lemma_div_pos_is_pos(m as int, d as int);
        }
        let keep = m / d;
        let rem = m % d;
        let keep2 = if 2 * rem >= d {
            keep + 1
        } else {
            keep
        };
        if keep2 == 0x100_0000 {
            sign_bit + (p + 98) * 0x80_0000
        } else {
            sign_bit + (p + 97) * 0x80_0000 + ((keep2 - 0x80_0000) as u32)
        }
    }
}

/// Two's-complement image of a signed value in a slot of the given modulus.
pub open spec fn to_unsigned(v: int, modulus: int) -> int {
    if v >= 0 {
        v
    } else {
        v + modulus
    }
}

/// Little-endian bytes of a 16-bit value.
pub open spec fn le2(v: int) -> Seq<u8> {
    seq![(v % 256) as u8, ((v / 256) % 256) as u8]
}

/// Little-endian bytes of a 32-bit value.
pub open spec fn le4(v: int) -> Seq<u8> {
    seq![
        (v % 256) as u8,
        ((v / 256) % 256) as u8,
        ((v / 65536) % 256) as u8,
        ((v / 16777216) % 256) as u8,
    ]
}

/// Little-endian bytes of a 64-bit value.
pub open spec fn le8(v: int) -> Seq<u8> {
    seq![
        (v % 256) as u8,
        ((v / 256) % 256) as u8,
        ((v / 65536) % 256) as u8,
        ((v / 16777216) % 256) as u8,
        ((v / 4294967296) % 256) as u8,
        ((v / 1099511627776) % 256) as u8,
        ((v / 281474976710656) % 256) as u8,
        ((v / 72057594037927936) % 256) as u8,
    ]
}

/// The little-endian byte image of one encoded sample. The legacy unsigned
/// 16-bit slot keeps the two's-complement bit pattern of the signed scale,
/// so its bytes agree with the signed path; only their interpretation as an
/// unsigned number differs.
pub open spec fn encode_bytes(e: SampleEncoding, s: int) -> Seq<u8> {
    match e {
        SampleEncoding::Unsigned8 => seq![spec_quant_u8(s) as u8],
        SampleEncoding::Unsigned16 => le2(to_unsigned(spec_quant_i16(s), 0x1_0000)),
        SampleEncoding::Signed16 => le2(to_unsigned(spec_quant_i16(s), 0x1_0000)),
        SampleEncoding::Signed32 => le4(to_unsigned(spec_quant_i32(s), 0x1_0000_0000)),
        SampleEncoding::Signed64 => le8(to_unsigned(spec_quant_i64(s), 0x1_0000_0000_0000_0000)),
        SampleEncoding::Float32 => le4(f32_bits_of_q30(s)),
    }
}

/// Encode one sample and write its bytes at `off`. The write touches exactly
/// the byte range [off, off + size) of the region and nothing outside it.
pub fn write_sample(e: SampleEncoding, s: i64, buf: &mut Vec<u8>, off: usize)
    requires
        -CODEC_PEAK <= s <= CODEC_PEAK,
        off + spec_bytes_per_sample(e) <= old(buf).len(),
    ensures
        final(buf).len() == old(buf).len(),
        final(buf)@.subrange(off as int, off + spec_bytes_per_sample(e)) == encode_bytes(
            e,
            s as int,
        ),
        forall|j: int|
            0 <= j < old(buf).len() && !(off <= j < off + spec_bytes_per_sample(e))
                ==> final(buf)@[j] == old(buf)@[j],
{
    match e {
        SampleEncoding::Unsigned8 => {
            let q = quant_u8(s);
            buf.set(off, q);
        },
        SampleEncoding::Unsigned16 | SampleEncoding::Signed16 => {
            let q = quant_i16(s);
            let u: u32 = if q >= 0 {
                q as u32
            } else {
                ((q as i32) + 0x1_0000) as u32
            };
            buf.set(off, (u % 256) as u8);
            buf.set(off + 1, ((u / 256) % 256) as u8);
        },
        SampleEncoding::Signed32 => {
            let q = quant_i32(s);
            let u: u32 = if q >= 0 {
                q as u32
            } else {
                (((q as i64) + 0x1_0000_0000) as u32)
            };
            buf.set(off, (u % 256) as u8);
            buf.set(off + 1, ((u / 256) % 256) as u8);
            buf.set(off + 2, ((u / 65536) % 256) as u8);
            buf.set(off + 3, ((u / 16777216) % 256) as u8);
        },
        SampleEncoding::Signed64 => {
            let q = quant_i64(s);
            let u: u64 = if q >= 0 {
                q as u64
            } else {
                0xffff_ffff_ffff_ffff - ((-(q + 1)) as u64)
            };
            proof {
                assert(u == to_unsigned(spec_quant_i64(s as int), 0x1_0000_0000_0000_0000));
            }
            buf.set(off, (u % 256) as u8);
            buf.set(off + 1, ((u / 256) % 256) as u8);
            buf.set(off + 2, ((u / 65536) % 256) as u8);
            buf.set(off + 3, ((u / 16777216) % 256) as u8);
            buf.set(off + 4, ((u / 4294967296) % 256) as u8);
            buf.set(off + 5, ((u / 1099511627776) % 256) as u8);
            buf.set(off + 6, ((u / 281474976710656) % 256) as u8);
            buf.set(off + 7, ((u / 72057594037927936) % 256) as u8);
        },
        SampleEncoding::Float32 => {
            let u = f32_bits(s);
            buf.set(off, (u % 256) as u8);
            buf.set(off + 1, ((u / 256) % 256) as u8);
            buf.set(off + 2, ((u / 65536) % 256) as u8);
            buf.set(off + 3, ((u / 16777216) % 256) as u8);
        },
    }
    proof {
        assert(final(buf)@.subrange(off as int, off + spec_bytes_per_sample(e)) =~= encode_bytes(
            e,
            s as int,
        ));
    }
}

/// Holds when the byte range of slot `t` (counting sample slots from the
/// start of the region) carries exactly the encoded image of `v`.
pub open spec fn slot_bytes_ok(bytes: Seq<u8>, e: SampleEncoding, t: int, v: int) -> bool {
    bytes.subrange(
        t * spec_bytes_per_sample(e),
        t * spec_bytes_per_sample(e) + spec_bytes_per_sample(e),
    ) == encode_bytes(e, v)
}

/// Write one frame: the same encoded sample duplicated across every channel
/// slot of the frame. Touches exactly the frame's byte range.
pub fn write_frame(
    e: SampleEncoding,
    scaled: i64,
    buf: &mut Vec<u8>,
    frame: usize,
    channels: usize,
)
    requires
        -CODEC_PEAK <= scaled <= CODEC_PEAK,
        channels >= 1,
        (frame + 1) * channels * spec_bytes_per_sample(e) <= old(buf).len(),
    ensures
        final(buf).len() == old(buf).len(),
        forall|t: int|
            frame * channels <= t < (frame + 1) * channels ==> #[trigger] slot_bytes_ok(
                final(buf)@,
                e,
                t,
                scaled as int,
            ),
        forall|j: int|
            0 <= j < old(buf).len() && !((frame * channels) * spec_bytes_per_sample(e) <= j < ((
            frame + 1) * channels) * spec_bytes_per_sample(e)) ==> final(buf)@[j] == old(buf)@[j],
{
    let bps = bytes_per_sample(e);
    let ghost gbps: int = spec_bytes_per_sample(e);
    let ghost len0: int = old(buf).len() as int;
    proof {
        lemma_mul_is_associative((frame + 1) as int, channels as int, gbps);
    }
    let mut c: usize = 0;
    while c < channels
        invariant
            c <= channels,
            1 <= channels,
            bps == gbps,
            gbps == spec_bytes_per_sample(e),
            1 <= gbps <= 8,
            ((frame + 1) * channels) * gbps <= len0,
            buf.len() == len0,
            -CODEC_PEAK <= scaled <= CODEC_PEAK,
            forall|t: int|
                frame * channels <= t < frame * channels + c ==> #[trigger] slot_bytes_ok(
                    buf@,
                    e,
                    t,
                    scaled as int,
                ),
            forall|j: int|
                0 <= j < len0 && !((frame * channels) * gbps <= j < (frame * channels + c) * gbps)
                    ==> buf@[j] == old(buf)@[j],
        decreases channels - c,
    {
        proof {
            assert(frame * channels + c + 1 <= (frame + 1) * channels) by (nonlinear_arith)
                requires
                    0 <= frame,
                    0 <= c < channels,
            ;
            lemma_mul_inequality(
                (frame * channels + c + 1) as int,
                ((frame + 1) * channels) as int,
                gbps,
            );
            lemma_mul_is_distributive_add_other_way(gbps, (frame * channels + c) as int, 1);
            assert((frame * channels + c) * gbps + gbps <= len0);
            lemma_mul_inequality(
                (frame * channels) as int,
                (frame * channels + c) as int,
                gbps,
            );
            lemma_mul_inequality(1, gbps, (frame * channels + c + 1) as int);
            lemma_mul_is_commutative(gbps, (frame * channels + c + 1) as int);
            lemma_mul_nonnegative((frame * channels) as int, gbps);
        }
        let off = (frame * channels + c) * bps;
        let ghost pre = buf@;
        write_sample(e, scaled, buf, off);
        proof {
            lemma_mul_is_distributive_add_other_way(gbps, (frame * channels + c) as int, 1);
            assert forall|t: int|
                frame * channels <= t < frame * channels + c + 1 implies #[trigger] slot_bytes_ok(
                buf@,
                e,
                t,
                scaled as int,
            ) by {
                if t < frame * channels + c {
                    assert(slot_bytes_ok(pre, e, t, scaled as int));
                    lemma_mul_inequality((t + 1) as int, (frame * channels + c) as int, gbps);
                    lemma_mul_is_distributive_add_other_way(gbps, t, 1);
                    lemma_mul_inequality((frame * channels) as int, t, gbps);
                    lemma_mul_nonnegative(t, gbps);
                    assert(buf@.subrange(t * gbps, t * gbps + gbps) =~= pre.subrange(
                        t * gbps,
                        t * gbps + gbps,
                    ));
                    assert(slot_bytes_ok(buf@, e, t, scaled as int));
                } else {
                    assert(t == frame * channels + c);
                    assert(buf@.subrange(t * gbps, t * gbps + gbps) == encode_bytes(
                        e,
                        scaled as int,
                    ));
                    assert(slot_bytes_ok(buf@, e, t, scaled as int));
                }
            }
            assert forall|j: int|
                0 <= j < len0 && !((frame * channels) * gbps <= j < (frame * channels + c + 1)
                    * gbps) implies buf@[j] == old(buf)@[j] by {
                lemma_mul_inequality(
                    (frame * channels) as int,
                    (frame * channels + c) as int,
                    gbps,
                );
                lemma_mul_is_distributive_add_other_way(gbps, (frame * channels + c) as int, 1);
                assert(pre[j] == old(buf)@[j]);
                assert(buf@[j] == pre[j]);
            }
        }
        c = c + 1;
    }
    proof {
        lemma_mul_is_distributive_add_other_way(channels as int, frame as int, 1);
    }
}

/// Round-trip law, 8-bit offset binary: for a full-range sample, the stored
/// byte scales back to the sample within half a quantization step of the
/// 127-per-unit scale (so the recovered value errs by at most 1/254 of full
/// scale), and the byte itself stays inside the never-wrapping range 1..=255.
pub proof fn lemma_round_trip_u8(s: int)
    requires
        -ONE_Q30 <= s <= ONE_Q30,
    ensures
        1 <= spec_quant_u8(s) <= 255,
        -0x2000_0000 <= (spec_quant_u8(s) - 128) * 0x4000_0000 - s * 127 <= 0x2000_0000,
{
    lemma_level_round_trip(s, 127);
}

/// Round-trip law, 16-bit signed PCM: the stored level scales back to the
/// sample within half a quantization step of the 32767-per-unit scale, an
/// error within the depth's 1/32767 bound.
pub proof fn lemma_round_trip_i16(s: int)
    requires
        -ONE_Q30 <= s <= ONE_Q30,
    ensures
        -32767 <= spec_quant_i16(s) <= 32767,
        -0x2000_0000 <= spec_quant_i16(s) * 0x4000_0000 - s * 32767 <= 0x2000_0000,
{
    lemma_level_round_trip(s, 32767);
}

/// Round-trip law, 32-bit signed PCM.
pub proof fn lemma_round_trip_i32(s: int)
    requires
        -ONE_Q30 <= s <= ONE_Q30,
    ensures
        -0x7fff_ffff <= spec_quant_i32(s) <= 0x7fff_ffff,
        -0x2000_0000 <= spec_quant_i32(s) * 0x4000_0000 - s * 0x7fff_ffff <= 0x2000_0000,
{
    lemma_level_round_trip(s, 0x7fff_ffff);
}

/// Round-trip law, 64-bit signed PCM.
pub proof fn lemma_round_trip_i64(s: int)
    requires
        -ONE_Q30 <= s <= ONE_Q30,
    ensures
        -0x7fff_ffff_ffff_ffff <= spec_quant_i64(s) <= 0x7fff_ffff_ffff_ffff,
        -0x2000_0000 <= spec_quant_i64(s) * 0x4000_0000 - s * 0x7fff_ffff_ffff_ffff
            <= 0x2000_0000,
{
    lemma_level_round_trip(s, 0x7fff_ffff_ffff_ffff);
}

/// For a full-range sample, scaling to level `m` and back differs from the
/// exact scale by at most half a step, and the level never reaches the
/// clamp.
proof fn lemma_level_round_trip(s: int, m: int)
    requires
        -ONE_Q30 <= s <= ONE_Q30,
        1 <= m,
    ensures
        -m <= level_of(s, m) <= m,
        -0x2000_0000 <= level_of(s, m) * 0x4000_0000 - s * m <= 0x2000_0000,
{
    let a = s * m;
    assert(-(0x4000_0000 * m) <= s * m <= 0x4000_0000 * m) by (nonlinear_arith)
        requires
            -0x4000_0000 <= s <= 0x4000_0000,
            1 <= m,
    ;
    if a >= 0 {
        lemma_fundamental_div_mod(a + 0x2000_0000, 0x4000_0000);
        lemma_div_pos_is_pos(a + 0x2000_0000, 0x4000_0000);
        lemma_div_is_ordered(a + 0x2000_0000, 0x4000_0000 * m + 0x2000_0000, 0x4000_0000);
        assert((0x4000_0000 * m + 0x2000_0000) / 0x4000_0000 == m) by (nonlinear_arith)
            requires
                1 <= m,
        ;
        assert(level_of(s, m) * 0x4000_0000 == rnd_div(a, 0x4000_0000) * 0x4000_0000);
    } else {
        lemma_fundamental_div_mod(-a + 0x2000_0000, 0x4000_0000);
        lemma_div_pos_is_pos(-a + 0x2000_0000, 0x4000_0000);
        lemma_div_is_ordered(-a + 0x2000_0000, 0x4000_0000 * m + 0x2000_0000, 0x4000_0000);
        assert((0x4000_0000 * m + 0x2000_0000) / 0x4000_0000 == m) by (nonlinear_arith)
            requires
                1 <= m,
        ;
    }
}

/// The Q30 value that the stored f32 bit pattern denotes: exact below 24
/// significand bits, the rounded significand scaled back up above them.
pub open spec fn f32_value_q30(s: int) -> int {
    if s == 0 {
        0
    } else {
        let m: int = if s < 0 {
            -s
        } else {
            s
        };
        let p = log2_floor(m as nat) as int;
        if p <= 23 {
            s
        } else {
            let d = pow2((p - 23) as nat) as int;
            let keep = m / d;
            let rem = m % d;
            let keep2: int = if 2 * rem >= d {
                keep + 1
            } else {
                keep
            };
            if s < 0 {
                -(keep2 * d)
            } else {
                keep2 * d
            }
        }
    }
}

proof fn lemma_log2_floor_bounds(m: nat)
    requires
        1 <= m,
    ensures
        pow2(log2_floor(m)) <= m < 2 * pow2(log2_floor(m)),
    decreases m,
{
    if m < 2 {
        lemma2_to64();
    } else {
        lemma_log2_floor_bounds(m / 2);
        lemma_pow2_unfold((log2_floor(m / 2) + 1) as nat);
    }
}

/// Round-trip law, 32-bit float: the value the stored bit pattern denotes
/// differs from the sample by at most half a significand step; for samples
/// within twice full scale that is at most 128 Q30 units (2^-23 of full
/// scale), and samples below 2^23 in magnitude are stored exactly.
pub proof fn lemma_round_trip_f32(s: int)
    requires
        -CODEC_PEAK <= s <= CODEC_PEAK,
    ensures
        -128 <= f32_value_q30(s) - s <= 128,
{
    if s != 0 {
        let m: int = if s < 0 {
            -s
        } else {
            s
        };
        lemma_log2_floor_bounds(m as nat);
        let p = log2_floor(m as nat) as int;
        if p > 23 {
            let d = pow2((p - 23) as nat) as int;
            lemma_pow2_pos((p - 23) as nat);
            if p > 31 {
                lemma_pow2_strictly_increases(31, p as nat);
                lemma2_to64();
                assert(false);
            }
            lemma_pow2_strictly_increases((p - 23) as nat, 9);
            lemma2_to64();
            assert(d <= 256);
            lemma_fundamental_div_mod(m, d);
            lemma_remainder(m, d);
            let keep = m / d;
            let rem = m % d;
            if 2 * rem >= d {
                assert((keep + 1) * d == keep * d + d) by (nonlinear_arith);
                assert(-128 <= (keep + 1) * d - m <= 128);
            } else {
                assert(-128 <= keep * d - m <= 128);
            }
        }
    }
}

} // verus!
