//! The audio snapshot shared between the capture pipeline and the render
//! engine, and the band-power reductions the effects read from it.
//!
//! Band energies are fixed point: 0 is silence, `BAND_FULL` (one thousand)
//! is full scale.

use vstd::prelude::*;

verus! {

use crate::dsp::DspSettings;

/// Full scale of one normalised band energy.
pub const BAND_FULL: u16 = 1000;

/// A capture source, by name.
#[derive(Clone, Debug, PartialEq)]
pub struct AudioDevice {
    pub name: String,
}

/// The capture sources on offer and the platform default among them.
#[derive(Clone, Debug, PartialEq)]
pub struct AudioDevicesInfo {
    pub devices: Vec<AudioDevice>,
    pub default_device_name: Option<String>,
}

/// A point-in-time copy of the normalised band energies, one per band.
#[derive(Clone, Debug, PartialEq)]
pub struct AudioAnalysisData {
    pub melbanks: Vec<u16>,
}

impl AudioAnalysisData {
    /// Every band energy is within full scale.
    pub open spec fn wf(self) -> bool {
        forall|i: int| 0 <= i < self.melbanks@.len() ==> (#[trigger] self.melbanks@[i]) <= BAND_FULL
    }

    /// A silent snapshot of `num_bands` bands.
    pub fn new(num_bands: usize) -> (out: AudioAnalysisData)
        ensures
            out.melbanks@.len() == num_bands,
            forall|i: int| 0 <= i < num_bands ==> (#[trigger] out.melbanks@[i]) == 0,
            out.wf(),
    {
        let mut v: Vec<u16> = Vec::new();
        let mut i: usize = 0;
        while i < num_bands
            invariant
                i <= num_bands,
                v@.len() == i,
                forall|k: int| 0 <= k < i ==> (#[trigger] v@[k]) == 0,
            decreases num_bands - i,
        {
            v.push(0);
            i += 1;
        }
        AudioAnalysisData { melbanks: v }
    }
}

/// What the render engine may ask of the audio capture thread.
pub enum AudioCommand {
    ChangeDevice(String),
    UpdateSettings(DspSettings),
    RestartStream,
}

/// The sum of a band slice.
pub open spec fn spec_band_sum(s: Seq<u16>) -> int
    decreases s.len(),
{
    if s.len() == 0 {
        0
    } else {
        spec_band_sum(s.drop_last()) + s.last()
    }
}

/// The mean energy over bands `lo..=hi`, both clamped into the snapshot:
/// zero only when the snapshot is empty; a clamped range of one band means
/// that band's energy.
pub open spec fn spec_band_mean(s: Seq<u16>, lo: int, hi: int) -> int {
    if s.len() == 0 {
        0
    } else {
        let high = if hi < s.len() - 1 {
            hi
        } else {
            s.len() - 1
        };
        let low = if lo < high {
            lo
        } else {
            high
        };
        spec_band_sum(s.subrange(low, high + 1)) / (high + 1 - low)
    }
}

proof fn lemma_band_sum_bound(s: Seq<u16>)
    ensures
        0 <= spec_band_sum(s) <= s.len() * 65535,
    decreases s.len(),
{
    if s.len() > 0 {
        lemma_band_sum_bound(s.drop_last());
        assert((s.len() - 1) * 65535 + 65535 == s.len() * 65535) by (nonlinear_arith);
    }
}

/// The mean energy over the clamped band range `lo..=hi`.
fn band_mean(melbanks: &Vec<u16>, lo: usize, hi: usize) -> (r: u16)
    requires
        lo <= hi,
    ensures
        r as int == spec_band_mean(melbanks@, lo as int, hi as int),
{
    let n = melbanks.len();
    if n == 0 {
        return 0;
    }
    let high = if hi < melbanks.len() - 1 {
        hi
    } else {
        melbanks.len() - 1
    };
    let low = if lo < high {
        lo
    } else {
        high
    };
    let mut sum: u128 = 0;
    let mut i: usize = low;
    while i < high + 1
        invariant
            low <= i <= high + 1,
            high < n,
            n == melbanks@.len(),
            sum == spec_band_sum(melbanks@.subrange(low as int, i as int)),
            sum <= (i - low) * 65535,
        decreases high + 1 - i,
    {
        proof {
            let pre = melbanks@.subrange(low as int, i as int);
            let post = melbanks@.subrange(low as int, i + 1);
            assert(post.drop_last() =~= pre);
            assert(post.last() == melbanks@[i as int]);
            assert((i - low) * 65535 + 65535 == (i + 1 - low) * 65535) by (nonlinear_arith);
        }
        sum = sum + melbanks[i] as u128;
        i += 1;
    }
    let count = (high + 1 - low) as u128;
    proof {
        crate::fixp::lemma_div_le_const(sum as int, 65535, count as int);
    }
    (sum / count) as u16
}

/// The mean energy of the low bands (beat and bass).
pub fn lows_power(melbanks: &Vec<u16>) -> (r: u16)
    ensures
        r as int == spec_band_mean(melbanks@, 0, 15),
{
    band_mean(melbanks, 0, 15)
}

/// The mean energy of the mid bands.
pub fn mids_power(melbanks: &Vec<u16>) -> (r: u16)
    ensures
        r as int == spec_band_mean(melbanks@, 16, 63),
{
    band_mean(melbanks, 16, 63)
}

/// The mean energy of the high bands.
pub fn highs_power(melbanks: &Vec<u16>) -> (r: u16)
    ensures
        r as int == spec_band_mean(melbanks@, 64, 127),
{
    band_mean(melbanks, 64, 127)
}

} // verus!
