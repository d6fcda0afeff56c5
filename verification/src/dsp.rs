//! Buffer sizes of the spectrum analysis and the checks on its parameters.

use vstd::prelude::*;

verus! {

/// Why the analysis cannot be set up.
#[derive(Debug, Clone, Copy, PartialEq, Eq, Structural)]
pub enum PlanError {
    /// Only one or two channels are supported.
    IllegalChannels(usize),
    /// The sample rate must be in 1..=384000.
    IllegalSampleRate(u32),
    /// At least one bar is needed.
    NoBars,
}

/// Buffer sizes of the analysis.
#[derive(Debug, Clone, Copy, PartialEq, Eq, Structural)]
pub struct PlanSizes {
    /// Samples per channel in the main (treble) transform.
    pub fft_buffer_size: usize,
    /// Samples per channel in the bass transform: twice the main one.
    pub fft_bass_size: usize,
    /// Interleaved samples kept for all channels.
    pub input_buffer_size: usize,
    /// Bars over all channels.
    pub total_bars: usize,
}

/// The main transform size for a sample rate: 512 samples up to 8125 Hz,
/// doubling for each of the rate bands up to 16250, 32500, 75000, 150000
/// and 300000 Hz, and 32768 above.
pub open spec fn fft_size_for(rate: int) -> int {
    if rate > 8125 && rate <= 16250 {
        1024
    } else if rate > 16250 && rate <= 32500 {
        2048
    } else if rate > 32500 && rate <= 75000 {
        4096
    } else if rate > 75000 && rate <= 150000 {
        8192
    } else if rate > 150000 && rate <= 300000 {
        16384
    } else if rate > 300000 {
        32768
    } else {
        512
    }
}

/// The error the parameters are refused with, checked in this order:
/// channels, sample rate, bar count.
pub open spec fn plan_error(number_of_bars: int, rate: int, channels: int) -> Option<PlanError> {
    if !(1 <= channels <= 2) {
        Some(PlanError::IllegalChannels(channels as usize))
    } else if rate == 0 || rate > 384000 {
        Some(PlanError::IllegalSampleRate(rate as u32))
    } else if number_of_bars == 0 {
        Some(PlanError::NoBars)
    } else {
        None
    }
}

/// Checks the analysis parameters and works out its buffer sizes.
pub fn plan_sizes(number_of_bars: usize, rate: u32, channels: usize) -> (r: Result<PlanSizes, PlanError>)
    requires
        number_of_bars * 2 <= usize::MAX,
    ensures
        r is Ok <==> plan_error(number_of_bars as int, rate as int, channels as int) is None,
        r matches Err(e) ==> plan_error(number_of_bars as int, rate as int, channels as int) == Some(e),
        r matches Ok(p) ==> p.fft_buffer_size == fft_size_for(rate as int) && p.fft_bass_size == 2
            * fft_size_for(rate as int) && p.input_buffer_size == 2 * fft_size_for(rate as int)
            * channels && p.total_bars == number_of_bars * channels,
{
    if !(1 <= channels && channels <= 2) {
        return Err(PlanError::IllegalChannels(channels));
    }
    if rate == 0 || rate > 384000 {
        return Err(PlanError::IllegalSampleRate(rate));
    }
    if number_of_bars == 0 {
        return Err(PlanError::NoBars);
    }
    let mut fft_buffer_size: usize = 512;
    if rate > 8125 && rate <= 16250 {
        fft_buffer_size = fft_buffer_size * 2;
    } else if rate > 16250 && rate <= 32500 {
        fft_buffer_size = fft_buffer_size * 4;
    } else if rate > 32500 && rate <= 75000 {
        fft_buffer_size = fft_buffer_size * 8;
    } else if rate > 75000 && rate <= 150000 {
        fft_buffer_size = fft_buffer_size * 16;
    } else if rate > 150000 && rate <= 300000 {
        fft_buffer_size = fft_buffer_size * 32;
    } else if rate > 300000 {
        fft_buffer_size = fft_buffer_size * 64;
    }
    let fft_bass_size = fft_buffer_size * 2;
    let input_buffer_size = if channels == 1 { fft_bass_size } else { fft_bass_size * 2 };
    let total_bars = if channels == 1 { number_of_bars } else { number_of_bars * 2 };
    Ok(PlanSizes { fft_buffer_size, fft_bass_size, input_buffer_size, total_bars })
}

/// The transforms grow with the sample rate, so each covers roughly the
/// same stretch of time whatever the rate: a faster rate never gets a
/// smaller transform.
pub proof fn lemma_fft_size_grows_with_rate(r1: int, r2: int)
    requires
        0 < r1 <= r2,
    ensures
        fft_size_for(r1) <= fft_size_for(r2),
        512 <= fft_size_for(r1) <= 32768,
{
}

} // verus!
