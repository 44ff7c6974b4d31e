//! The correction that the object runs: which bands of its configuration are active,
//! and which samples of a buffer they filter.

use vstd::prelude::*;

use crate::double::{double, Double};
use crate::parametric_eq::{eq_bands, parse_eq_bands};
use crate::profile::{within, FilterBand, GAIN_MAX, GAIN_MIN, MAX_BANDS};
use crate::text::lines;

verus! {

/// The most channels that are filtered.
pub const MAX_CHANNELS: usize = 8;

/// 0.0001 dB: a band with no more gain than that is left out.
pub const INAUDIBLE: u64 = 0x3f1a_36e2_eb1c_432d;

/// The bands that do anything.
pub open spec fn active(bands: Seq<FilterBand>) -> Seq<FilterBand>
    decreases bands.len(),
{
    if bands.len() == 0 {
        seq![]
    } else {
        let before = active(bands.drop_last());
        if double(INAUDIBLE).less(bands.last().gain.absolute()) {
            before.push(bands.last())
        } else {
            before
        }
    }
}

/// The preamp in dB and the active bands of a configuration. Whatever the
/// configuration holds, the numbers are finite and in range and the bands are no more
/// than the filter has room for.
pub fn config_bands(text: &str) -> (r: (Double, Vec<FilterBand>))
    ensures
        (r.0, r.1@) == (eq_bands(lines(text@)).0, active(eq_bands(lines(text@)).1)),
        within(r.0, GAIN_MIN, GAIN_MAX),
        r.1@.len() <= MAX_BANDS,
        forall|i: int| 0 <= i < r.1@.len() ==> (#[trigger] r.1@[i]).valid(),
{
    let (preamp, bands) = parse_eq_bands(text);
    let mut kept: Vec<FilterBand> = Vec::new();
    assert(kept@ =~= active(bands@.take(0)));
    for i in 0..bands.len()
        invariant
            bands@.len() <= MAX_BANDS,
            forall|i: int| 0 <= i < bands@.len() ==> (#[trigger] bands@[i]).valid(),
            kept@ == active(bands@.take(i as int)),
            kept@.len() <= i,
            forall|i: int| 0 <= i < kept@.len() ==> (#[trigger] kept@[i]).valid(),
    {
        let band: FilterBand = bands[i];
        assert(band.valid());
        assert(bands@.take(i + 1).drop_last() =~= bands@.take(i as int));
        if (Double { bits: INAUDIBLE }).lt(&band.gain.abs()) {
            kept.push(band);
        }
    }
    assert(bands@.take(bands@.len() as int) =~= bands@);
    (preamp, kept)
}

/// The number of channels that delay lines are kept for: at least one, at most
/// [`MAX_CHANNELS`].
pub fn channels_for(channels: usize) -> (r: usize)
    ensures
        r == if channels < 1 {
            1
        } else if channels > MAX_CHANNELS {
            MAX_CHANNELS
        } else {
            channels
        },
        1 <= r <= MAX_CHANNELS,
{
    if channels < 1 {
        1
    } else if channels > MAX_CHANNELS {
        MAX_CHANNELS
    } else {
        channels
    }
}

/// The frames of an interleaved buffer of `len` samples, and how many channels of each
/// are filtered: no more than there are delay lines for. Every sample that is filtered
/// lies in the buffer.
pub fn layout(len: usize, channels: usize, kept: usize) -> (r: (usize, usize))
    ensures
        channels == 0 ==> r == (0usize, 0usize),
        channels > 0 ==> r.0 == len / channels && r.1 == if channels < kept {
            channels
        } else {
            kept
        },
        forall|f: int, c: int|
            0 <= f < r.0 && 0 <= c < r.1 ==> 0 <= #[trigger] sample_index(f, c, channels) < len,
{
    if channels == 0 {
        return (0, 0);
    }
    let frames: usize = len / channels;
    let wide: usize = if channels < kept { channels } else { kept };
    proof {
        assert forall|f: int, c: int| 0 <= f < frames && 0 <= c < wide implies 0
            <= #[trigger] sample_index(f, c, channels) < len by {
            vstd::arithmetic::div_mod::lemma_fundamental_div_mod(len as int, channels as int);
            assert(f * channels + c < len) by (nonlinear_arith)
                requires
                    0 <= f,
                    f + 1 <= frames,
                    c < channels,
                    channels * frames <= len,
                    channels > 0,
            ;
            assert(f * channels >= 0) by (nonlinear_arith)
                requires
                    f >= 0,
                    channels > 0,
            ;
        }
    }
    (frames, wide)
}

/// The place of a sample in an interleaved buffer.
pub open spec fn sample_index(frame: int, channel: int, channels: usize) -> int {
    frame * channels + channel
}

} // verus!
