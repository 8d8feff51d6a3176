//! Integer model of the DSP pipeline's layout: settings, the assignment of
//! filterbank centre frequencies to FFT bins, the triangular filter weights,
//! the delay-line length, and the box-filter blur the renderer applies.
//!
//! Frequencies are carried in milli-hertz and ratios in thousandths, so the
//! layout arithmetic is exact.

use vstd::prelude::*;

verus! {

use vstd::math::min;

/// The parametric warping of the `BladePlus` filterbank, in thousandths:
/// `multiplier * log_base(1 + hz / divisor)`.
#[derive(Clone, Copy, Debug, PartialEq, Eq, Structural)]
pub struct BladePlusParams {
    pub log_base_milli: u32,
    pub multiplier_milli: u32,
    pub divisor_milli: u32,
}

/// The warped frequency scale a filterbank spreads its bands over.
#[derive(Clone, Copy, Debug, PartialEq, Eq, Structural)]
pub enum FilterbankType {
    Balanced,
    Precision,
    Vocal,
    Blade,
    BladePlus(BladePlusParams),
}

/// The DSP configuration.  The critical fields (FFT size, band count,
/// frequency range, filterbank, sample rate) force an audio-stream rebuild
/// when changed; the rest apply live.
#[derive(Clone, Copy, Debug, PartialEq)]
pub struct DspSettings {
    pub fft_size: u32,
    pub num_bands: u32,
    pub min_freq_mhz: u32,
    pub max_freq_mhz: u32,
    pub filterbank_type: FilterbankType,
    pub sample_rate: Option<u32>,
    pub blade_plus_params: Option<BladePlusParams>,
    pub smoothing_milli: u16,
    pub agc_attack_milli: u16,
    pub agc_decay_milli: u16,
    pub audio_delay_ms: u32,
}

/// The DSP settings of a fresh installation: 4096-point FFT over 24 bands
/// of 20 Hz .. 15 kHz on the Blade scale, resampled to 30 kHz, smoothing
/// 0.4, attack 0.01, decay 0.1, no delay.
pub open spec fn spec_default_dsp() -> DspSettings {
    DspSettings {
        fft_size: 4096,
        num_bands: 24,
        min_freq_mhz: 20000,
        max_freq_mhz: 15000000,
        filterbank_type: FilterbankType::Blade,
        sample_rate: Some(30000u32),
        blade_plus_params: Some(
            BladePlusParams { log_base_milli: 12000, multiplier_milli: 3700000, divisor_milli: 230000 },
        ),
        smoothing_milli: 400,
        agc_attack_milli: 10,
        agc_decay_milli: 100,
        audio_delay_ms: 0,
    }
}

impl Default for DspSettings {
    /// The settings of a fresh installation.
    fn default() -> (out: DspSettings)
        ensures
            out == spec_default_dsp(),
    {
        DspSettings {
            fft_size: 4096,
            num_bands: 24,
            min_freq_mhz: 20000,
            max_freq_mhz: 15000000,
            filterbank_type: FilterbankType::Blade,
            sample_rate: Some(30000),
            blade_plus_params: Some(
                BladePlusParams {
                    log_base_milli: 12000,
                    multiplier_milli: 3700000,
                    divisor_milli: 230000,
                },
            ),
            smoothing_milli: 400,
            agc_attack_milli: 10,
            agc_decay_milli: 100,
            audio_delay_ms: 0,
        }
    }
}

/// Whether moving from `a` to `b` changes a critical field, so that the
/// audio stream must be torn down and rebuilt.
pub open spec fn spec_critical_change(a: DspSettings, b: DspSettings) -> bool {
    ||| a.fft_size != b.fft_size
    ||| a.num_bands != b.num_bands
    ||| a.min_freq_mhz != b.min_freq_mhz
    ||| a.max_freq_mhz != b.max_freq_mhz
    ||| a.filterbank_type != b.filterbank_type
    ||| a.sample_rate != b.sample_rate
    ||| a.blade_plus_params != b.blade_plus_params
}

/// Decides whether applying `b` over `a` requires an audio-stream rebuild.
pub fn critical_change(a: &DspSettings, b: &DspSettings) -> (r: bool)
    ensures
        r == spec_critical_change(*a, *b),
{
    let same_rate = match (a.sample_rate, b.sample_rate) {
        (Some(x), Some(y)) => x == y,
        (None, None) => true,
        _ => false,
    };
    let same_blade = match (a.blade_plus_params, b.blade_plus_params) {
        (Some(x), Some(y)) => x == y,
        (None, None) => true,
        _ => false,
    };
    !(a.fft_size == b.fft_size && a.num_bands == b.num_bands && a.min_freq_mhz == b.min_freq_mhz
        && a.max_freq_mhz == b.max_freq_mhz && a.filterbank_type == b.filterbank_type && same_rate
        && same_blade)
}

/// The length of the audio-delay ring: `audio_delay_ms` of samples at the
/// effective sample rate.
pub fn delay_samples(audio_delay_ms: u32, sample_rate: u32) -> (r: u64)
    ensures
        r as int == audio_delay_ms as int * sample_rate as int / 1000,
{
    proof {
        vstd::arithmetic::mul::lemma_mul_upper_bound(
            audio_delay_ms as int,
            u32::MAX as int,
            sample_rate as int,
            u32::MAX as int,
        );
    }
    (audio_delay_ms as u64) * (sample_rate as u64) / 1000
}

/// Ceiling on a centre frequency handed to the bin assignment, in mHz.
pub const FREQ_CAP_MHZ: u64 = 1000000000000;

/// Most centre points a filterbank may have.
pub const MAX_BANDS: usize = 1000000;

/// The raw FFT bin of a centre frequency: `hz * fft_half / sample_rate`,
/// computed in milli-hertz and capped.
pub open spec fn spec_raw_bin(hz_mhz: int, fft_half: int, sample_rate: int) -> int {
    min(hz_mhz * fft_half / (1000 * sample_rate), FREQ_CAP_MHZ as int)
}

/// What `assign_fft_bins` guarantees: bin `0` is the raw bin of point `0`,
/// and every later bin is the larger of its raw bin and one past its
/// predecessor, so the sequence climbs by at least one per step.
pub open spec fn spec_bins_assigned(
    hz_mhz: Seq<u64>,
    fft_half: int,
    sample_rate: int,
    r: Seq<u64>,
) -> bool {
    &&& r.len() == hz_mhz.len()
    &&& (r.len() > 0 ==> r[0] == spec_raw_bin(hz_mhz[0] as int, fft_half, sample_rate))
    &&& forall|i: int|
        1 <= i < r.len() ==> (#[trigger] r[i]) as int == vstd::math::max(
            spec_raw_bin(hz_mhz[i] as int, fft_half, sample_rate),
            r[i - 1] as int + 1,
        )
}

/// Maps warped centre frequencies (milli-hertz) onto FFT bins of a spectrum
/// of `fft_half` bins at `sample_rate`, forcing each bin at least one past
/// the bin before it.
pub fn assign_fft_bins(hz_points_mhz: &Vec<u64>, fft_half: u32, sample_rate: u32) -> (r: Vec<u64>)
    requires
        sample_rate >= 1,
        hz_points_mhz@.len() <= MAX_BANDS,
    ensures
        spec_bins_assigned(hz_points_mhz@, fft_half as int, sample_rate as int, r@),
        forall|i: int| 1 <= i < r@.len() ==> (#[trigger] r@[i]) >= r@[i - 1] + 1,
        forall|i: int| 0 <= i < r@.len() ==> (#[trigger] r@[i]) <= FREQ_CAP_MHZ + MAX_BANDS as u64,
{
    let mut r: Vec<u64> = Vec::new();
    let mut i: usize = 0;
    while i < hz_points_mhz.len()
        invariant
            sample_rate >= 1,
            hz_points_mhz@.len() <= MAX_BANDS,
            i <= hz_points_mhz@.len(),
            r@.len() == i,
            i > 0 ==> r@[0] == spec_raw_bin(
                hz_points_mhz@[0] as int,
                fft_half as int,
                sample_rate as int,
            ),
            forall|k: int|
                1 <= k < i ==> (#[trigger] r@[k]) as int == vstd::math::max(
                    spec_raw_bin(hz_points_mhz@[k] as int, fft_half as int, sample_rate as int),
                    r@[k - 1] as int + 1,
                ),
            forall|k: int| 0 <= k < i ==> (#[trigger] r@[k]) as int <= FREQ_CAP_MHZ + k,
        decreases hz_points_mhz@.len() - i,
    {
        proof {
            vstd::arithmetic::mul::lemma_mul_upper_bound(
                hz_points_mhz@[i as int] as int,
                u64::MAX as int,
                fft_half as int,
                u32::MAX as int,
            );
        }
        let raw128 = (hz_points_mhz[i] as u128) * (fft_half as u128) / (1000u128 * sample_rate
            as u128);
        let raw: u64 = if raw128 > FREQ_CAP_MHZ as u128 {
            FREQ_CAP_MHZ
        } else {
            raw128 as u64
        };
        let bin: u64 = if i == 0 {
            raw
        } else {
            let prev = r[i - 1];
            if raw > prev {
                raw
            } else {
                prev + 1
            }
        };
        r.push(bin);
        i += 1;
    }
    r
}

/// One tap of a triangular filter: an FFT bin and its weight in thousandths.
#[derive(Clone, Copy, Debug, PartialEq, Eq, Structural)]
pub struct FilterTap {
    pub bin: u64,
    pub weight_milli: u32,
}

/// The taps of triangular filter `b`: weights climb from the filter's start
/// bin to its centre bin and fall from the centre to its end bin.
pub open spec fn spec_filter_taps(start: int, center: int, end: int) -> Seq<FilterTap> {
    Seq::new((center - start) as nat, |k: int| FilterTap {
        bin: (start + k) as u64,
        weight_milli: (k * 1000 / (center - start)) as u32,
    }) + Seq::new((end - center) as nat, |k: int| FilterTap {
        bin: (center + k) as u64,
        weight_milli: ((end - center - k) * 1000 / (end - center)) as u32,
    })
}

/// Builds the triangular filterbank over assigned bins: filter `b` rises
/// over `bins[b]..bins[b+1]` and falls over `bins[b+1]..bins[b+2]`.
pub fn build_filterbank(bins: &Vec<u64>, num_bands: usize) -> (out: Vec<Vec<FilterTap>>)
    requires
        bins.len() == num_bands + 2,
        forall|i: int| 1 <= i < bins@.len() ==> (#[trigger] bins@[i]) >= bins@[i - 1] + 1,
        forall|i: int| 0 <= i < bins@.len() ==> (#[trigger] bins@[i]) <= u32::MAX as u64,
    ensures
        out@.len() == num_bands,
        forall|b: int|
            0 <= b < num_bands ==> (#[trigger] out@[b])@ == spec_filter_taps(
                bins@[b] as int,
                bins@[b + 1] as int,
                bins@[b + 2] as int,
            ),
{
    let mut out: Vec<Vec<FilterTap>> = Vec::new();
    let mut b: usize = 0;
    while b < num_bands
        invariant
            bins.len() == num_bands + 2,
            forall|i: int| 1 <= i < bins@.len() ==> (#[trigger] bins@[i]) >= bins@[i - 1] + 1,
            forall|i: int| 0 <= i < bins@.len() ==> (#[trigger] bins@[i]) <= u32::MAX as u64,
            b <= num_bands,
            out@.len() == b,
            forall|k: int|
                0 <= k < b ==> (#[trigger] out@[k])@ == spec_filter_taps(
                    bins@[k] as int,
                    bins@[k + 1] as int,
                    bins@[k + 2] as int,
                ),
        decreases num_bands - b,
    {
        let start = bins[b];
        let center = bins[b + 1];
        let end = bins[b + 2];
        let rise_len = (center - start) as usize;
        let fall_len = (end - center) as usize;
        let mut filter: Vec<FilterTap> = Vec::new();
        let mut k: usize = 0;
        while k < rise_len
            invariant
                start + rise_len <= u32::MAX as u64 + 1,
                rise_len >= 1,
                k <= rise_len,
                filter@.len() == k,
                forall|t: int|
                    0 <= t < k ==> (#[trigger] filter@[t]) == (FilterTap {
                        bin: (start + t) as u64,
                        weight_milli: (t * 1000 / (rise_len as int)) as u32,
                    }),
            decreases rise_len - k,
        {
            proof {
                crate::fixp::lemma_mul_div_le(1000, k as int, rise_len as int);
                assert(k as int * 1000 == 1000 * (k as int)) by (nonlinear_arith);
            }
            let w = ((k as u64) * 1000 / (rise_len as u64)) as u32;
            filter.push(FilterTap { bin: start + k as u64, weight_milli: w });
            k += 1;
        }
        let mut k2: usize = 0;
        while k2 < fall_len
            invariant
                center + fall_len <= u32::MAX as u64 + 1,
                fall_len >= 1,
                rise_len >= 1,
                k2 <= fall_len,
                filter@.len() == rise_len + k2,
                forall|t: int|
                    0 <= t < rise_len ==> (#[trigger] filter@[t]) == (FilterTap {
                        bin: (start + t) as u64,
                        weight_milli: (t * 1000 / (rise_len as int)) as u32,
                    }),
                forall|t: int|
                    0 <= t < k2 ==> (#[trigger] filter@[rise_len + t]) == (FilterTap {
                        bin: (center + t) as u64,
                        weight_milli: ((fall_len - t) * 1000 / (fall_len as int)) as u32,
                    }),
        decreases fall_len - k2,
        {
            proof {
                crate::fixp::lemma_mul_div_le(1000, (fall_len - k2) as int, fall_len as int);
                assert((fall_len - k2) as int * 1000 == 1000 * ((fall_len - k2) as int))
                    by (nonlinear_arith);
            }
            let w = (((fall_len - k2) as u64) * 1000 / (fall_len as u64)) as u32;
            filter.push(FilterTap { bin: center + k2 as u64, weight_milli: w });
            k2 += 1;
        }
        proof {
            let expect = spec_filter_taps(start as int, center as int, end as int);
            assert(filter@.len() == expect.len());
            assert forall|t: int| 0 <= t < filter@.len() implies filter@[t] == expect[t] by {
                if t < rise_len {
                    assert(filter@[t] == (FilterTap {
                        bin: (start as int + t) as u64,
                        weight_milli: (t * 1000 / (rise_len as int)) as u32,
                    }));
                } else {
                    let t2 = t - rise_len;
                    assert(filter@[rise_len + t2] == (FilterTap {
                        bin: (center as int + t2) as u64,
                        weight_milli: ((fall_len - t2) * 1000 / (fall_len as int)) as u32,
                    }));
                }
            }
            assert(filter@ =~= expect);
        }
        out.push(filter);
        b += 1;
    }
    out
}

} // verus!
