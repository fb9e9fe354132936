use vstd::prelude::*;
use vstd::arithmetic::div_mod::{
    lemma_div_is_ordered,
    lemma_div_pos_is_pos,
    lemma_fundamental_div_mod,
    lemma_multiply_divide_lt,
};
use vstd::arithmetic::mul::{
    lemma_mul_inequality,
    lemma_mul_is_associative,
    lemma_mul_is_distributive_add_other_way,
    lemma_mul_nonnegative,
};
use vstd::arithmetic::div_mod::lemma_div_multiples_vanish_fancy;
use crate::codec::{CODEC_PEAK, rnd_div, slot_bytes_ok, write_frame};
use crate::errors::AudioError;
use crate::format::{SampleEncoding, WaveFormat, spec_bytes_per_sample, spec_resolve, resolve_encoding};
use crate::wave::{ONE_Q30, TURN, WAVE_PEAK, voice_wave, voice_wave_at};

verus! {

/// Largest magnitude a mixed sample can reach: 0.6 * 1.875 = 1.125 in Q30.
pub const MIX_PEAK: i64 = 0x4800_0000;

/// One oscillator: a per-sample phase increment and the current phase, both
/// in TURN units.
#[derive(Clone, Copy, Debug)]
pub struct Voice {
    pub step: u64,
    pub phase: u64,
}

impl Voice {
    /// The phase is normalized into [0, TURN) and the increment stays below
    /// one full cycle, so a single wrap per advance keeps it there.
    pub open spec fn wf(self) -> bool {
        self.step < TURN && self.phase < TURN
    }
}

/// Phase after one advance: add the increment, then wrap back below TURN.
pub open spec fn wrapped_phase(phase: int, step: int) -> int {
    if phase + step < TURN {
        phase + step
    } else {
        phase + step - TURN
    }
}

pub open spec fn advance_voice(v: Voice) -> Voice {
    Voice { step: v.step, phase: wrapped_phase(v.phase as int, v.step as int) as u64 }
}

pub open spec fn advance_all(vs: Seq<Voice>) -> Seq<Voice> {
    vs.map_values(|v: Voice| advance_voice(v))
}

/// Truncating division (round toward zero): the rounding signed division
/// performs, used throughout the mixer.
pub open spec fn tdiv(a: int, b: int) -> int {
    if a >= 0 {
        a / b
    } else {
        -((-a) / b)
    }
}

/// Additive mix: each voice's wave divided by the voice count `n`, summed
/// over the bank.
pub open spec fn mix_sum(vs: Seq<Voice>, n: int) -> int
    decreases vs.len(),
{
    if vs.len() == 0 {
        0
    } else {
        mix_sum(vs.drop_last(), n) + tdiv(voice_wave_at(vs.last().phase as int), n)
    }
}

/// The mixed sample of the whole bank: voice waves averaged over the voice
/// count, then scaled by the fixed mix level 3/5 (0.6) that keeps the summed
/// harmonics within nominal range. An empty bank mixes to exact silence.
pub open spec fn mixed_sample(vs: Seq<Voice>) -> int {
    if vs.len() == 0 {
        0
    } else {
        tdiv(3 * mix_sum(vs, vs.len() as int), 5)
    }
}

/// `tdiv(a, b)` stays within `m / b` of zero whenever `a` stays within `m`.
pub proof fn lemma_tdiv_bound(a: int, b: int, m: int)
    requires
        b >= 1,
        0 <= m,
        -m <= a <= m,
    ensures
        -(m / b) <= tdiv(a, b) <= m / b,
{
    if a >= 0 {
        lemma_div_pos_is_pos(a, b);
        lemma_div_is_ordered(a, m, b);
    } else {
        lemma_div_pos_is_pos(-a, b);
        lemma_div_is_ordered(-a, m, b);
    }
}

proof fn lemma_mix_sum_push(vs: Seq<Voice>, n: int, i: int)
    requires
        0 <= i < vs.len(),
    ensures
        mix_sum(vs.take(i + 1), n) == mix_sum(vs.take(i), n) + tdiv(
            voice_wave_at(vs[i].phase as int),
            n,
        ),
{
    assert(vs.take(i + 1).drop_last() =~= vs.take(i));
    assert(vs.take(i + 1).last() == vs[i]);
}

/// The per-sample phase increment for a frequency given in millihertz at a
/// sample rate in hertz: frequency / rate cycles, in TURN units, rounded to
/// nearest with ties up.
pub open spec fn step_of(freq_mhz: int, rate: int) -> int {
    (freq_mhz * TURN + 500 * rate) / (1000 * rate)
}

/// Owns the voice bank, the master amplitude (Q30, in [0, ONE_Q30]) and the
/// resolved mix format of one stream session.
#[derive(Debug)]
pub struct ToneGenerator {
    pub format: WaveFormat,
    /// The concrete encoding `format` resolves to, fixed at session start.
    pub encoding: SampleEncoding,
    /// Master amplitude in Q30, between silence and full scale.
    pub amplitude: i32,
    pub voices: Vec<Voice>,
}

impl ToneGenerator {
    pub open spec fn wf(self) -> bool {
        &&& spec_resolve(self.format) == Some(self.encoding)
        &&& 0 <= self.amplitude <= ONE_Q30
        &&& forall|i: int| 0 <= i < self.voices@.len() ==> (#[trigger] self.voices@[i]).wf()
        &&& self.voices@.len() < 0x8000_0000
        &&& self.format.samples_per_sec >= 1
        &&& self.format.channels >= 1
    }

    /// Build a generator for one session: resolve the descriptor to its
    /// concrete encoding once, and start a single voice at the given
    /// frequency (millihertz) with phase zero. Fails exactly when the
    /// descriptor is unsupported. The frequency must not exceed the Nyquist
    /// limit of half the sample rate, so one phase advance stays under a
    /// full cycle.
    pub fn new(format: WaveFormat, frequency_mhz: u64, amplitude: i32) -> (r: Result<
        ToneGenerator,
        AudioError,
    >)
        requires
            format.samples_per_sec >= 1,
            format.channels >= 1,
            0 <= amplitude <= ONE_Q30,
            frequency_mhz <= 500 * format.samples_per_sec,
        ensures
            r is Ok <==> spec_resolve(format) is Some,
            r is Err ==> r->Err_0 == AudioError::UnsupportedFormat,
            r is Ok ==> {
                let g = r->Ok_0;
                &&& g.wf()
                &&& g.format == format
                &&& g.amplitude == amplitude
                &&& Some(g.encoding) == spec_resolve(format)
                &&& g.voices@.len() == 1
                &&& g.voices@[0].phase == 0
                &&& g.voices@[0].step == step_of(frequency_mhz as int, format.samples_per_sec as int)
            },
    {
        let encoding = match resolve_encoding(&format) {
            Ok(e) => e,
            Err(e) => {
                return Err(e);
            },
        };
        let rate = format.samples_per_sec;
        let num: u128 = (frequency_mhz as u128) * 0x1_0000_0000 + 500 * (rate as u128);
        let den: u128 = 1000 * (rate as u128);
        assert(num < den * 0x1_0000_0000) by (nonlinear_arith)
            requires
                num == frequency_mhz * 0x1_0000_0000 + 500 * rate,
                den == 1000 * rate,
                frequency_mhz <= 500 * rate,
                rate >= 1,
        ;
        proof {
            lemma_multiply_divide_lt(num as int, den as int, 0x1_0000_0000);
            lemma_div_pos_is_pos(num as int, den as int);
        }
        let step = (num / den) as u64;
        let voice = Voice { step, phase: 0 };
        let mut voices: Vec<Voice> = Vec::new();
        voices.push(voice);
        Ok(ToneGenerator { format, encoding, amplitude, voices })
    }

    /// Produce one mixed sample and advance every voice's phase by its
    /// increment, wrapping each back into [0, TURN). With an empty bank the
    /// result is exact silence (0), never a division by zero.
    #[verifier::rlimit(50)]
    pub fn next_sample(&mut self) -> (r: i64)
        requires
            old(self).wf(),
        ensures
            final(self).wf(),
            final(self).format == old(self).format,
            final(self).encoding == old(self).encoding,
            final(self).amplitude == old(self).amplitude,
            final(self).voices@.len() == old(self).voices@.len(),
            final(self).voices@ == advance_all(old(self).voices@),
            r == mixed_sample(old(self).voices@),
            -MIX_PEAK <= r <= MIX_PEAK,
            old(self).voices@.len() == 0 ==> r == 0,
    {
        let ghost vs0 = self.voices@;
        let n = self.voices.len();
        if n == 0 {
            proof {
                assert(advance_all(vs0) =~= vs0);
            }
            return 0;
        }
        let pb: i64 = WAVE_PEAK / (n as i64);
        proof {
            lemma_div_pos_is_pos(WAVE_PEAK as int, n as int);
        }
        let mut acc: i64 = 0;
        let mut i: usize = 0;
        while i < n
            invariant
                i <= n,
                1 <= n,
                n == vs0.len(),
                self.voices@.len() == n,
                self.format == old(self).format,
                self.encoding == old(self).encoding,
                self.amplitude == old(self).amplitude,
                old(self).wf(),
                vs0 == old(self).voices@,
                pb == (WAVE_PEAK as int) / (n as int),
                pb >= 0,
                forall|j: int| 0 <= j < i ==> self.voices@[j] == advance_voice(vs0[j]),
                forall|j: int| i <= j < n ==> self.voices@[j] == vs0[j],
                acc == mix_sum(vs0.take(i as int), n as int),
                -((i as int) * pb) <= acc <= (i as int) * pb,
            decreases n - i,
        {
            assert(vs0[i as int].wf());
            let v = self.voices[i];
            let w = voice_wave(v.phase);
            let share = w / (n as i64);
            proof {
                assert(share == tdiv(w as int, n as int));
                lemma_tdiv_bound(w as int, n as int, WAVE_PEAK as int);
                lemma_mix_sum_push(vs0, n as int, i as int);
                lemma_mul_is_distributive_add_other_way(pb as int, i as int, 1);
                lemma_mul_inequality(i as int + 1, n as int, pb as int);
                lemma_fundamental_div_mod(WAVE_PEAK as int, n as int);
            }
            acc = acc + share;
            let sum = v.phase + v.step;
            let wrapped = if sum >= TURN {
                sum - TURN
            } else {
                sum
            };
            self.voices.set(i, Voice { step: v.step, phase: wrapped });
            i = i + 1;
        }
        proof {
            assert(vs0.take(n as int) =~= vs0);
            lemma_mul_inequality(n as int, n as int, pb as int);
            lemma_fundamental_div_mod(WAVE_PEAK as int, n as int);
            lemma_mul_inequality(i as int, n as int, pb as int);
            assert(-WAVE_PEAK <= acc <= WAVE_PEAK);
            assert(self.voices@ =~= advance_all(vs0));
        }
        let r = (3 * acc) / 5;
        proof {
            assert(r == tdiv(3 * (acc as int), 5));
            lemma_tdiv_bound(3 * (acc as int), 5, 3 * (WAVE_PEAK as int));
        }
        r
    }
}

/// The bank as it stands after `k` samples have been pulled.
pub open spec fn bank_after(vs: Seq<Voice>, k: nat) -> Seq<Voice>
    decreases k,
{
    if k == 0 {
        vs
    } else {
        advance_all(bank_after(vs, (k - 1) as nat))
    }
}

/// The k-th mixed sample a bank will produce.
pub open spec fn sample_at(vs: Seq<Voice>, k: nat) -> int {
    mixed_sample(bank_after(vs, k))
}

/// The k-th mixed sample scaled by a Q30 master amplitude, rounded to
/// nearest with ties away from zero.
pub open spec fn scaled_sample_at(vs: Seq<Voice>, k: nat, amp: int) -> int {
    rnd_div(sample_at(vs, k) * amp, ONE_Q30 as int)
}

/// Phase wrap law: however many samples are pulled, every voice's stored
/// phase remains in [0, TURN) after every call, and no voice is gained or
/// lost. The bank after `k` calls is `bank_after(vs, k)`, so this covers
/// every sequence of `next_sample` calls on a well-formed bank.
pub proof fn lemma_phases_stay_wrapped(vs: Seq<Voice>, k: nat)
    requires
        forall|i: int| 0 <= i < vs.len() ==> (#[trigger] vs[i]).wf(),
    ensures
        bank_after(vs, k).len() == vs.len(),
        forall|i: int| 0 <= i < vs.len() ==> (#[trigger] bank_after(vs, k)[i]).wf(),
    decreases k,
{
    if k > 0 {
        lemma_phases_stay_wrapped(vs, (k - 1) as nat);
        let prev = bank_after(vs, (k - 1) as nat);
        assert forall|i: int| 0 <= i < vs.len() implies (#[trigger] bank_after(vs, k)[i]).wf() by {
            assert(bank_after(vs, k)[i] == advance_voice(prev[i]));
        }
    }
}

/// Silence law: an empty bank mixes to exactly zero on every call of any
/// sequence, never dividing by the voice count.
pub proof fn lemma_empty_bank_stays_silent(k: nat)
    ensures
        sample_at(Seq::<Voice>::empty(), k) == 0,
{
    lemma_phases_stay_wrapped(Seq::<Voice>::empty(), k);
}

/// Scale one mixed sample by the master amplitude. An amplitude of at most
/// full scale never grows the sample's magnitude.
pub fn scale_sample(s: i64, amp: i32) -> (r: i64)
    requires
        -MIX_PEAK <= s <= MIX_PEAK,
        0 <= amp <= ONE_Q30,
    ensures
        r == rnd_div(s * amp, ONE_Q30 as int),
        -MIX_PEAK <= r <= MIX_PEAK,
{
    proof {
        assert(-0x1200_0000_0000_0000 <= s * amp <= 0x1200_0000_0000_0000) by (nonlinear_arith)
            requires
                -0x4800_0000 <= s <= 0x4800_0000,
                0 <= amp <= 0x4000_0000,
        ;
    }
    let a: i64 = s * (amp as i64);
    if a >= 0 {
        (a + 0x2000_0000) / 0x4000_0000
    } else {
        -((-a + 0x2000_0000) / 0x4000_0000)
    }
}

impl ToneGenerator {
    /// Fill one acquired region: pull one sample per frame, scale it by the
    /// master amplitude, and write it into every channel slot of the frame
    /// in strictly increasing frame order. The region must be exactly
    /// `num_frames` frames of the resolved encoding.
    pub fn fill_buffer(&mut self, buffer: &mut Vec<u8>, num_frames: usize)
        requires
            old(self).wf(),
            old(buffer).len() == num_frames * (old(self).format.channels as int)
                * spec_bytes_per_sample(old(self).encoding),
        ensures
            final(self).wf(),
            final(self).format == old(self).format,
            final(self).encoding == old(self).encoding,
            final(self).amplitude == old(self).amplitude,
            final(self).voices@ == bank_after(old(self).voices@, num_frames as nat),
            final(buffer).len() == old(buffer).len(),
            forall|t: int|
                0 <= t < num_frames * (old(self).format.channels as int) ==> #[trigger]
                    slot_bytes_ok(
                    final(buffer)@,
                    old(self).encoding,
                    t,
                    scaled_sample_at(
                        old(self).voices@,
                        (t / (old(self).format.channels as int)) as nat,
                        old(self).amplitude as int,
                    ),
                ),
    {
        let ghost vs0 = self.voices@;
        let ghost amp: int = self.amplitude as int;
        let ghost gch: int = self.format.channels as int;
        let ghost gbps: int = spec_bytes_per_sample(self.encoding);
        let ghost len0: int = old(buffer).len() as int;
        let e = self.encoding;
        let channels: usize = self.format.channels as usize;
        let mut f: usize = 0;
        while f < num_frames
            invariant
                f <= num_frames,
                1 <= channels,
                channels == gch,
                e == old(self).encoding,
                gbps == spec_bytes_per_sample(e),
                amp == old(self).amplitude as int,
                vs0 == old(self).voices@,
                len0 == num_frames * gch * gbps,
                old(self).wf(),
                self.wf(),
                self.format == old(self).format,
                self.encoding == old(self).encoding,
                self.amplitude == old(self).amplitude,
                self.voices@ == bank_after(vs0, f as nat),
                buffer.len() == len0,
                forall|t: int|
                    0 <= t < f * gch ==> #[trigger] slot_bytes_ok(
                        buffer@,
                        e,
                        t,
                        scaled_sample_at(vs0, (t / gch) as nat, amp),
                    ),
            decreases num_frames - f,
        {
            let s = self.next_sample();
            proof {
                assert(bank_after(vs0, (f + 1) as nat) == advance_all(bank_after(vs0, f as nat)));
                assert(s == sample_at(vs0, f as nat));
            }
            let scaled = scale_sample(s, self.amplitude);
            proof {
                lemma_mul_inequality(f as int + 1, num_frames as int, gch);
                lemma_mul_inequality((f + 1) * gch, (num_frames as int) * gch, gbps);
                lemma_mul_is_associative(f as int + 1, gch, gbps);
                lemma_mul_is_associative(num_frames as int, gch, gbps);
            }
            let ghost pre = buffer@;
            write_frame(e, scaled, buffer, f, channels);
            proof {
                lemma_mul_is_distributive_add_other_way(gch, f as int, 1);
                assert forall|t: int| 0 <= t < (f + 1) * gch implies #[trigger] slot_bytes_ok(
                    buffer@,
                    e,
                    t,
                    scaled_sample_at(vs0, (t / gch) as nat, amp),
                ) by {
                    if t < f * gch {
                        assert(slot_bytes_ok(pre, e, t, scaled_sample_at(vs0, (t / gch) as nat, amp)));
                        lemma_mul_inequality(t + 1, f * gch, gbps);
                        lemma_mul_is_distributive_add_other_way(gbps, t, 1);
                        lemma_mul_nonnegative(t, gbps);
                        assert(buffer@.subrange(t * gbps, t * gbps + gbps) =~= pre.subrange(
                            t * gbps,
                            t * gbps + gbps,
                        ));
                        assert(slot_bytes_ok(buffer@, e, t, scaled_sample_at(vs0, (t / gch) as nat, amp)));
                    } else {
                        lemma_div_multiples_vanish_fancy(f as int, t - f * gch, gch);
                        assert(t / gch == f as int);
                        assert(slot_bytes_ok(buffer@, e, t, scaled as int));
                        assert(scaled == scaled_sample_at(vs0, (t / gch) as nat, amp));
                    }
                }
            }
            f = f + 1;
        }
    }
}

} // verus!
