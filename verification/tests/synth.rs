use tonegen::codec::{f32_bits, quant_i16, quant_i32, quant_i64, quant_u8, write_sample};
use tonegen::errors::AudioError;
use tonegen::format::{
    resolve_encoding, subtype_ieee_float, subtype_pcm, FormatTag, SampleEncoding, WaveFormat,
    TAG_EXTENSIBLE, TAG_IEEE_FLOAT, TAG_PCM,
};
use tonegen::pump::{PumpAction, PumpState, StreamPump, frames_available, plan_fill};
use tonegen::tone::{ToneGenerator, Voice};
use tonegen::wave::{ONE_Q30, TURN};

const ONE: i64 = ONE_Q30 as i64;

fn fmt(tag: u16, bits: u16, sub: Option<FormatTag>) -> WaveFormat {
    WaveFormat {
        format_tag: tag,
        channels: 2,
        samples_per_sec: 48000,
        bits_per_sample: bits,
        sub_format: sub,
    }
}

#[test]
fn resolve_plain_pcm_and_float() {
    assert_eq!(
        resolve_encoding(&fmt(TAG_PCM, 8, None)),
        Ok(SampleEncoding::Unsigned8)
    );
    assert_eq!(
        resolve_encoding(&fmt(TAG_PCM, 16, None)),
        Ok(SampleEncoding::Unsigned16)
    );
    assert_eq!(
        resolve_encoding(&fmt(TAG_IEEE_FLOAT, 32, None)),
        Ok(SampleEncoding::Float32)
    );
}

#[test]
fn resolve_extensible() {
    let pcm = Some(subtype_pcm());
    let flt = Some(subtype_ieee_float());
    assert_eq!(
        resolve_encoding(&fmt(TAG_EXTENSIBLE, 8, pcm)),
        Ok(SampleEncoding::Unsigned8)
    );
    assert_eq!(
        resolve_encoding(&fmt(TAG_EXTENSIBLE, 16, pcm)),
        Ok(SampleEncoding::Signed16)
    );
    assert_eq!(
        resolve_encoding(&fmt(TAG_EXTENSIBLE, 32, pcm)),
        Ok(SampleEncoding::Signed32)
    );
    assert_eq!(
        resolve_encoding(&fmt(TAG_EXTENSIBLE, 64, pcm)),
        Ok(SampleEncoding::Signed64)
    );
    assert_eq!(
        resolve_encoding(&fmt(TAG_EXTENSIBLE, 32, flt)),
        Ok(SampleEncoding::Float32)
    );
}

#[test]
fn resolve_unsupported() {
    assert_eq!(
        resolve_encoding(&fmt(TAG_PCM, 24, None)),
        Err(AudioError::UnsupportedFormat)
    );
    assert_eq!(
        resolve_encoding(&fmt(TAG_IEEE_FLOAT, 64, None)),
        Err(AudioError::UnsupportedFormat)
    );
    assert_eq!(
        resolve_encoding(&fmt(TAG_EXTENSIBLE, 24, Some(subtype_pcm()))),
        Err(AudioError::UnsupportedFormat)
    );
    assert_eq!(
        resolve_encoding(&fmt(TAG_EXTENSIBLE, 64, Some(subtype_ieee_float()))),
        Err(AudioError::UnsupportedFormat)
    );
    assert_eq!(
        resolve_encoding(&fmt(TAG_EXTENSIBLE, 32, None)),
        Err(AudioError::UnsupportedFormat)
    );
    let odd = Some(FormatTag {
        data1: 0xdead_beef,
        data2: 0,
        data3: 0x0010,
        data4: 0x800000AA00389B71,
    });
    assert_eq!(
        resolve_encoding(&fmt(TAG_EXTENSIBLE, 32, odd)),
        Err(AudioError::UnsupportedFormat)
    );
}

#[test]
fn boundary_scaling_u8() {
    // full positive scale clamps nowhere: 127 + 128 = 255
    assert_eq!(quant_u8(ONE), 255);
    // full negative scale: 128 - 127 = 1
    assert_eq!(quant_u8(-ONE), 1);
    assert_eq!(quant_u8(0), 128);
    // beyond full scale the byte saturates instead of wrapping
    assert_eq!(quant_u8(2 * ONE), 255);
    assert_eq!(quant_u8(-2 * ONE), 0);
}

#[test]
fn boundary_scaling_i16() {
    assert_eq!(quant_i16(ONE), 32767);
    // rounding to nearest, ties away from zero: -1.0 scales to -32767
    assert_eq!(quant_i16(-ONE), -32767);
    assert_eq!(quant_i16(0), 0);
    assert_eq!(quant_i16(2 * ONE), 32767);
    assert_eq!(quant_i16(-2 * ONE), -32768);
}

#[test]
fn boundary_scaling_wide() {
    assert_eq!(quant_i32(ONE), 0x7fff_ffff);
    assert_eq!(quant_i32(-ONE), -0x7fff_ffff);
    assert_eq!(quant_i64(ONE), 0x7fff_ffff_ffff_ffff);
    assert_eq!(quant_i64(-ONE), -0x7fff_ffff_ffff_ffff);
}

#[test]
fn legacy_u16_bytes_keep_two_complement_pattern() {
    let mut buf = vec![0u8; 2];
    write_sample(SampleEncoding::Unsigned16, -ONE, &mut buf, 0);
    // -32767 kept as its two's-complement pattern 0x8001, little endian
    assert_eq!(buf, vec![0x01, 0x80]);
    write_sample(SampleEncoding::Unsigned16, ONE, &mut buf, 0);
    assert_eq!(buf, vec![0xff, 0x7f]);
}

#[test]
fn round_trip_within_quantization_error() {
    // s = 0.3 in Q30
    let s: i64 = 322122547;
    let q8 = quant_u8(s) as i64;
    assert!(((q8 - 128) * ONE - s * 127).abs() <= ONE / 2 + 127);
    let q16 = quant_i16(s) as i64;
    assert!((q16 * ONE - s * 32767).abs() <= ONE / 2);
    let q32 = quant_i32(s) as i64;
    assert!((q32 as i128 * ONE as i128 - s as i128 * 0x7fff_ffff).abs() <= (ONE / 2) as i128);
    let q64 = quant_i64(s) as i128;
    assert!((q64 * ONE as i128 - s as i128 * 0x7fff_ffff_ffff_ffff).abs() <= (ONE / 2) as i128);
}

#[test]
fn f32_bits_known_values() {
    assert_eq!(f32_bits(0), 0);
    assert_eq!(f32_bits(ONE), 1.0f32.to_bits());
    assert_eq!(f32_bits(-ONE), (-1.0f32).to_bits());
    assert_eq!(f32_bits(ONE / 2), 0.5f32.to_bits());
    assert_eq!(f32_bits(-(ONE / 4)), (-0.25f32).to_bits());
    assert_eq!(f32_bits(3 * (ONE / 4)), 0.75f32.to_bits());
    assert_eq!(f32_bits(1), f32::from_bits(f32_bits(1)).to_bits());
}

#[test]
fn f32_bits_match_native_conversion() {
    // on exactly representable values (multiples of 2^7 have at most 24
    // significant bits) the stored float equals the native conversion
    for k in 0..2000i64 {
        let s = k * 128 * 4099 % (2 * ONE);
        let native = (s as f64 / ONE as f64) as f32;
        assert_eq!(f32_bits(s), native.to_bits(), "s = {}", s);
        if s != 0 {
            assert_eq!(f32_bits(-s), (-native).to_bits(), "s = {}", -s);
        }
    }
}

#[test]
fn f32_round_trip_error_bound() {
    for k in 0..2000i64 {
        let s = (k * 786433 + 7) % ONE;
        let decoded = f32::from_bits(f32_bits(s)) as f64 * ONE as f64;
        assert!((decoded - s as f64).abs() <= 64.0, "s = {}", s);
    }
}

#[test]
fn silence_on_empty_bank() {
    let format = fmt(TAG_IEEE_FLOAT, 32, None);
    let mut gen = ToneGenerator {
        format,
        encoding: SampleEncoding::Float32,
        amplitude: ONE_Q30,
        voices: vec![],
    };
    for _ in 0..100 {
        assert_eq!(gen.next_sample(), 0);
        assert_eq!(gen.voices.len(), 0);
    }
}

#[test]
fn phase_stays_wrapped() {
    let format = fmt(TAG_IEEE_FLOAT, 32, None);
    let mut gen = ToneGenerator {
        format,
        encoding: SampleEncoding::Float32,
        amplitude: ONE_Q30,
        voices: vec![
            Voice { step: TURN / 2 + 3, phase: 0 },
            Voice { step: 12345678, phase: TURN - 1 },
        ],
    };
    for _ in 0..1000 {
        gen.next_sample();
        for v in gen.voices.iter() {
            assert!(v.phase < TURN);
        }
    }
}

#[test]
fn generator_new_resolves_once() {
    let g = ToneGenerator::new(fmt(TAG_IEEE_FLOAT, 32, None), 440_000, ONE_Q30 / 2).unwrap();
    assert_eq!(g.encoding, SampleEncoding::Float32);
    assert_eq!(g.amplitude, ONE_Q30 / 2);
    assert_eq!(g.voices.len(), 1);
    assert_eq!(g.voices[0].phase, 0);
    let expected_step = ((440_000u128 << 32) + 500 * 48000) / (1000 * 48000);
    assert_eq!(g.voices[0].step as u128, expected_step);

    let bad = ToneGenerator::new(fmt(TAG_PCM, 24, None), 440_000, ONE_Q30);
    assert_eq!(bad.unwrap_err(), AudioError::UnsupportedFormat);
}

#[test]
fn pump_zero_capacity_is_fatal() {
    assert_eq!(
        StreamPump::new(0, 3000).unwrap_err(),
        AudioError::DeviceSetupFailure
    );
}

#[test]
fn pump_state_machine() {
    let mut pump = StreamPump::new(960, 3000).unwrap();
    assert_eq!(pump.state, PumpState::Idle);
    // rendering before streaming is an error
    assert_eq!(pump.next_cycle(0, 0).unwrap_err(), AudioError::InvalidState);
    pump.start().unwrap();
    assert_eq!(pump.state, PumpState::Streaming);
    // a second start is an error
    assert_eq!(pump.start().unwrap_err(), AudioError::InvalidState);
    // room for 960 - 400 frames
    assert_eq!(pump.next_cycle(400, 500).unwrap(), PumpAction::Fill(560));
    // full buffer: skip, not an error
    assert_eq!(pump.next_cycle(960, 1000).unwrap(), PumpAction::Skip);
    // a padding reading beyond capacity is a failed padding query
    assert_eq!(
        pump.next_cycle(961, 1500).unwrap_err(),
        AudioError::DeviceIoFailure
    );
    assert_eq!(pump.state, PumpState::Streaming);
    // duration elapsed: stop, and the pump leaves streaming for good
    assert_eq!(pump.next_cycle(0, 3000).unwrap(), PumpAction::Stop);
    assert_eq!(pump.state, PumpState::Stopped);
    assert_eq!(pump.next_cycle(0, 3500).unwrap_err(), AudioError::InvalidState);
}

#[test]
fn pump_cancel() {
    let mut pump = StreamPump::new(960, 3000).unwrap();
    assert_eq!(pump.cancel().unwrap_err(), AudioError::InvalidState);
    pump.start().unwrap();
    pump.cancel().unwrap();
    assert_eq!(pump.state, PumpState::Stopped);
}

#[test]
fn frames_available_arithmetic() {
    assert_eq!(frames_available(960, 0), 960);
    assert_eq!(frames_available(960, 960), 0);
    assert_eq!(frames_available(960, 400), 560);
    assert_eq!(plan_fill(960, 960), None);
    assert_eq!(plan_fill(960, 959), Some(1));
}

#[test]
fn fill_buffer_silence_at_zero_amplitude() {
    let format = WaveFormat {
        format_tag: TAG_PCM,
        channels: 1,
        samples_per_sec: 48000,
        bits_per_sample: 8,
        sub_format: None,
    };
    let mut gen = ToneGenerator::new(format, 440_000, 0).unwrap();
    let mut buf = vec![0u8; 64];
    gen.fill_buffer(&mut buf, 64);
    // zero amplitude scales every sample to 0, which encodes to 128
    assert!(buf.iter().all(|&b| b == 128));
}

#[test]
fn fill_buffer_zero_frames_is_a_no_op() {
    let format = fmt(TAG_IEEE_FLOAT, 32, None);
    let mut gen = ToneGenerator::new(format, 440_000, ONE_Q30).unwrap();
    let phase_before = gen.voices[0].phase;
    let mut buf: Vec<u8> = vec![];
    gen.fill_buffer(&mut buf, 0);
    assert!(buf.is_empty());
    assert_eq!(gen.voices[0].phase, phase_before);
}

#[test]
fn end_to_end_float_cycle() {
    // a 48 kHz stereo IEEE-float mix format, one 440 Hz voice at half
    // amplitude, one cycle of 480 frames
    let format = fmt(TAG_IEEE_FLOAT, 32, None);
    let mut gen = ToneGenerator::new(format, 440_000, ONE_Q30 / 2).unwrap();
    let step = gen.voices[0].step;
    let mut buf = vec![0u8; 480 * 2 * 4];
    gen.fill_buffer(&mut buf, 480);

    // the voice advanced 480 steps, phase always reduced modulo one turn
    assert_eq!(gen.voices[0].phase, (480 * step) % TURN);
    assert!(gen.voices[0].phase < TURN);

    let bound = 0.6 * 1.875;
    for f in 0..480usize {
        let left = f32::from_le_bytes(buf[f * 8..f * 8 + 4].try_into().unwrap());
        let right = f32::from_le_bytes(buf[f * 8 + 4..f * 8 + 8].try_into().unwrap());
        // the same scalar sample is duplicated across both channels
        assert_eq!(left.to_bits(), right.to_bits());
        // worst-case harmonic sum bound, halved by the amplitude
        assert!(left.abs() <= bound, "frame {}: {}", f, left);
    }
    // the waveform is not silence
    let first = f32::from_le_bytes(buf[8..12].try_into().unwrap());
    assert!(first != 0.0);
}
