use vstd::prelude::*;
use crate::errors::AudioError;

verus! {

/// Primary format tag for plain integer PCM.
pub const TAG_PCM: u16 = 1;
/// Primary format tag for IEEE floating-point samples.
pub const TAG_IEEE_FLOAT: u16 = 3;
/// Primary format tag of an extensible descriptor, whose concrete encoding
/// is given by a 128-bit sub-format identifier instead.
pub const TAG_EXTENSIBLE: u16 = 0xFFFE;

/// A 128-bit sub-format identifier, stored as plain integers: three leading
/// fields and the trailing eight bytes packed big-endian into one word.
#[derive(Clone, Copy, Debug, PartialEq, Eq, Structural)]
pub struct FormatTag {
    pub data1: u32,
    pub data2: u16,
    pub data3: u16,
    pub data4: u64,
}

/// The well-known sub-format identifier for integer PCM.
pub fn subtype_pcm() -> (r: FormatTag)
    ensures
        r == spec_subtype_pcm(),
{
    FormatTag { data1: 1, data2: 0, data3: 0x0010, data4: 0x800000AA00389B71 }
}

/// The well-known sub-format identifier for IEEE-float samples.
pub fn subtype_ieee_float() -> (r: FormatTag)
    ensures
        r == spec_subtype_ieee_float(),
{
    FormatTag { data1: 3, data2: 0, data3: 0x0010, data4: 0x800000AA00389B71 }
}

pub open spec fn spec_subtype_pcm() -> FormatTag {
    FormatTag { data1: 1, data2: 0, data3: 0x0010, data4: 0x800000AA00389B71 }
}

pub open spec fn spec_subtype_ieee_float() -> FormatTag {
    FormatTag { data1: 3, data2: 0, data3: 0x0010, data4: 0x800000AA00389B71 }
}

/// The externally supplied mix-format descriptor, reduced to the plain values
/// the library reads: primary tag, channel count, sample rate, bit depth, and
/// the sub-format identifier when the descriptor is extensible.
#[derive(Clone, Copy, Debug)]
pub struct WaveFormat {
    pub format_tag: u16,
    pub channels: u16,
    pub samples_per_sec: u32,
    pub bits_per_sample: u16,
    /// Present exactly when `format_tag == TAG_EXTENSIBLE`.
    pub sub_format: Option<FormatTag>,
}

/// The closed set of concrete sample encodings a descriptor can resolve to.
#[derive(Clone, Copy, Debug, PartialEq, Eq, Structural)]
pub enum SampleEncoding {
    /// 8-bit offset-binary PCM: zero amplitude maps to 128.
    Unsigned8,
    /// The non-extensible 16-bit PCM path: scaled by 32767 like the signed
    /// path, then the two's-complement bit pattern is kept in an unsigned
    /// 16-bit slot.
    Unsigned16,
    /// 16-bit signed PCM.
    Signed16,
    /// 32-bit signed PCM.
    Signed32,
    /// 64-bit signed PCM.
    Signed64,
    /// 32-bit IEEE float, stored directly without further scaling.
    Float32,
}

/// Bytes one encoded sample occupies.
pub open spec fn spec_bytes_per_sample(e: SampleEncoding) -> int {
    match e {
        SampleEncoding::Unsigned8 => 1,
        SampleEncoding::Unsigned16 => 2,
        SampleEncoding::Signed16 => 2,
        SampleEncoding::Signed32 => 4,
        SampleEncoding::Signed64 => 8,
        SampleEncoding::Float32 => 4,
    }
}

pub fn bytes_per_sample(e: SampleEncoding) -> (r: usize)
    ensures
        r == spec_bytes_per_sample(e),
{
    match e {
        SampleEncoding::Unsigned8 => 1,
        SampleEncoding::Unsigned16 => 2,
        SampleEncoding::Signed16 => 2,
        SampleEncoding::Signed32 => 4,
        SampleEncoding::Signed64 => 8,
        SampleEncoding::Float32 => 4,
    }
}

/// The resolution table: which concrete encoding, if any, a descriptor names.
///
/// A plain PCM tag supports 8-bit offset binary and the legacy unsigned
/// 16-bit slot; a plain IEEE-float tag supports 32-bit floats. An extensible
/// descriptor is resolved through its sub-format identifier: integer PCM at
/// 8, 16, 32 or 64 bits, or IEEE float at 32 bits. Every other combination is
/// unsupported.
pub open spec fn spec_resolve(f: WaveFormat) -> Option<SampleEncoding> {
    if f.bits_per_sample == 8 && f.format_tag == TAG_PCM {
        Some(SampleEncoding::Unsigned8)
    } else if f.bits_per_sample == 16 && f.format_tag == TAG_PCM {
        Some(SampleEncoding::Unsigned16)
    } else if f.bits_per_sample == 32 && f.format_tag == TAG_IEEE_FLOAT {
        Some(SampleEncoding::Float32)
    } else if f.format_tag == TAG_EXTENSIBLE {
        match f.sub_format {
            Some(sub) => {
                if sub == spec_subtype_pcm() {
                    if f.bits_per_sample == 8 {
                        Some(SampleEncoding::Unsigned8)
                    } else if f.bits_per_sample == 16 {
                        Some(SampleEncoding::Signed16)
                    } else if f.bits_per_sample == 32 {
                        Some(SampleEncoding::Signed32)
                    } else if f.bits_per_sample == 64 {
                        Some(SampleEncoding::Signed64)
                    } else {
                        None
                    }
                } else if sub == spec_subtype_ieee_float() && f.bits_per_sample == 32 {
                    Some(SampleEncoding::Float32)
                } else {
                    None
                }
            },
            None => None,
        }
    } else {
        None
    }
}

/// Resolve a descriptor to its concrete encoding, or report that the
/// combination of bit depth and tag is unsupported. Resolution happens once
/// at session start; the encoder then switches on the returned variant.
pub fn resolve_encoding(f: &WaveFormat) -> (r: Result<SampleEncoding, AudioError>)
    ensures
        r is Ok <==> spec_resolve(*f) is Some,
        r is Ok ==> r->Ok_0 == spec_resolve(*f)->Some_0,
        r is Err ==> r->Err_0 == AudioError::UnsupportedFormat,
{
    if f.bits_per_sample == 8 && f.format_tag == TAG_PCM {
        Ok(SampleEncoding::Unsigned8)
    } else if f.bits_per_sample == 16 && f.format_tag == TAG_PCM {
        Ok(SampleEncoding::Unsigned16)
    } else if f.bits_per_sample == 32 && f.format_tag == TAG_IEEE_FLOAT {
        Ok(SampleEncoding::Float32)
    } else if f.format_tag == TAG_EXTENSIBLE {
        match f.sub_format {
            Some(sub) => {
                if sub == subtype_pcm() {
                    if f.bits_per_sample == 8 {
                        Ok(SampleEncoding::Unsigned8)
                    } else if f.bits_per_sample == 16 {
                        Ok(SampleEncoding::Signed16)
                    } else if f.bits_per_sample == 32 {
                        Ok(SampleEncoding::Signed32)
                    } else if f.bits_per_sample == 64 {
                        Ok(SampleEncoding::Signed64)
                    } else {
                        Err(AudioError::UnsupportedFormat)
                    }
                } else if sub == subtype_ieee_float() && f.bits_per_sample == 32 {
                    Ok(SampleEncoding::Float32)
                } else {
                    Err(AudioError::UnsupportedFormat)
                }
            },
            None => Err(AudioError::UnsupportedFormat),
        }
    } else {
        Err(AudioError::UnsupportedFormat)
    }
}

} // verus!
