//! Which pixel format the encoder is fed: planar YUV 4:2:0 by default, or
//! packed BGRA where the encoder accepts it natively.

use vstd::prelude::*;
use crate::text::{lower_ascii, lower_eq, str_eq, trim, trim_spec};

verus! {

#[derive(Clone, Copy, Debug, PartialEq, Eq, Structural)]
pub enum EncoderInput {
    Auto,
    Bgra,
    // AMD BGRA is unsupported in the pinned SDK.
    Yuv420,
}

impl Default for EncoderInput {
    fn default() -> (m: Self)
        ensures
            m == EncoderInput::Yuv420,
    {
        EncoderInput::Yuv420
    }
}

/// The mode a setting names, in any case and with surrounding white space.
pub open spec fn input_named(value: Seq<char>) -> Option<EncoderInput> {
    let v = lower_ascii(trim_spec(value));
    if v == "auto"@ {
        Some(EncoderInput::Auto)
    } else if v == "bgra"@ {
        Some(EncoderInput::Bgra)
    } else if v == "yuv420"@ || v == "yuv420p"@ {
        Some(EncoderInput::Yuv420)
    } else {
        None
    }
}

impl EncoderInput {
    pub fn from_env(value: &str) -> (m: Option<Self>)
        ensures
            m == input_named(value@),
    {
        let v = trim(value);
        if lower_eq(v, "auto") {
            Some(EncoderInput::Auto)
        } else if lower_eq(v, "bgra") {
            Some(EncoderInput::Bgra)
        } else if lower_eq(v, "yuv420") || lower_eq(v, "yuv420p") {
            Some(EncoderInput::Yuv420)
        } else {
            None
        }
    }
}

/// The pixel formats an encoder may advertise.
#[derive(Clone, Copy, Debug, PartialEq, Eq, Structural)]
pub enum PixelFormat {
    Yuv420p,
    Nv12,
    Bgra,
    Bgrz,
    Other,
}

/// The input format for an encoder: YUV when asked for or for the software
/// encoder; else BGRA or BGR0 when advertised, in that order; else YUV,
/// unless BGRA was demanded.
pub open spec fn select_input_spec(mode: EncoderInput, codec_name: Seq<char>, supported: Seq<PixelFormat>) -> Result<PixelFormat, &'static str> {
    if mode == EncoderInput::Yuv420 || codec_name == "libx264"@ {
        Ok(PixelFormat::Yuv420p)
    } else if supported.contains(PixelFormat::Bgra) {
        Ok(PixelFormat::Bgra)
    } else if supported.contains(PixelFormat::Bgrz) {
        Ok(PixelFormat::Bgrz)
    } else if mode == EncoderInput::Bgra {
        Err("The selected encoder does not accept BGRA/BGR0 input")
    } else {
        Ok(PixelFormat::Yuv420p)
    }
}

fn advertises(supported: &[PixelFormat], format: PixelFormat) -> (r: bool)
    ensures
        r == supported@.contains(format),
{
    let mut i: usize = 0;
    while i < supported.len()
        invariant
            0 <= i <= supported@.len(),
            forall|j: int| 0 <= j < i ==> supported@[j] != format,
        decreases supported@.len() - i,
    {
        if supported[i] == format {
            assert(supported@[i as int] == format);
            return true;
        }
        i = i + 1;
    }
    false
}

pub fn select_input(mode: EncoderInput, codec_name: &str, supported: &[PixelFormat]) -> (r: Result<PixelFormat, &'static str>)
    ensures
        r == select_input_spec(mode, codec_name@, supported@),
{
    if mode == EncoderInput::Yuv420 || str_eq(codec_name, "libx264") {
        return Ok(PixelFormat::Yuv420p);
    }
    if advertises(supported, PixelFormat::Bgra) {
        return Ok(PixelFormat::Bgra);
    }
    if advertises(supported, PixelFormat::Bgrz) {
        return Ok(PixelFormat::Bgrz);
    }
    if mode == EncoderInput::Bgra {
        Err("The selected encoder does not accept BGRA/BGR0 input")
    } else {
        Ok(PixelFormat::Yuv420p)
    }
}

} // verus!
