//! The audio-reactive bar effect: a gradient bar whose height follows the
//! power of a chosen frequency band, with a per-pixel brightness channel
//! that decays between beats.

use vstd::prelude::*;

verus! {

use crate::audio::{spec_band_mean, AudioAnalysisData};
use crate::colors::{parse_gradient, spec_parse_gradient, Rgb};
use crate::effects::{rgb_channel, BaseEffectConfig, EffectConfig};

/// Configuration of the bar: decay and multiplier in thousandths, the band
/// the bar follows, and the gradient it is coloured by.
#[derive(Clone, Debug, PartialEq)]
pub struct BladePowerConfig {
    pub decay_milli: u32,
    pub multiplier_milli: u32,
    pub frequency_range: String,
    pub gradient: String,
    pub base: BaseEffectConfig,
}

/// The live bar effect.
pub struct BladePower {
    pub config: BladePowerConfig,
    pub gradient_palette: Vec<Rgb>,
    pub v_channel: Vec<u16>,
}

/// The band power the configured frequency range selects, in thousandths.
pub open spec fn spec_power_for(range: Seq<char>, melbanks: Seq<u16>) -> int {
    if range == "Mids"@ {
        spec_band_mean(melbanks, 16, 63)
    } else if range == "High"@ {
        spec_band_mean(melbanks, 64, 127)
    } else {
        spec_band_mean(melbanks, 0, 15)
    }
}

/// The bar level in thousandths: twice the power scaled by the multiplier,
/// clamped at full.
pub open spec fn spec_bar_level(power: int, multiplier_milli: int) -> int {
    let raw = power * multiplier_milli * 2 / 1000;
    if raw > 1000 {
        1000
    } else {
        raw
    }
}

/// The pixels the bar covers.
pub open spec fn spec_bar_idx(level: int, pixel_count: int) -> int {
    level * pixel_count / 1000
}

/// The per-frame brightness retention factor, in thousandths.
pub open spec fn spec_decay_factor(decay_milli: int) -> int {
    let f = decay_milli / 2 + 450;
    if f > 1000 {
        1000
    } else {
        f
    }
}

/// The brightness channel carried into this frame: the old one when its
/// length matches, else a fresh zero channel.
pub open spec fn spec_base_v(old_v: Seq<u16>, pc: int) -> Seq<u16> {
    if old_v.len() == pc {
        old_v
    } else {
        Seq::new(pc as nat, |i: int| 0u16)
    }
}

/// The brightness channel after one frame: full over the bar, decayed
/// elsewhere.
pub open spec fn spec_new_v(base: Seq<u16>, bar_idx: int, factor: int) -> Seq<u16> {
    Seq::new(base.len(), |i: int| if i < bar_idx {
        1000u16
    } else {
        (base[i] * factor / 1000) as u16
    })
}

/// One frame byte: the palette colour scaled by the brightness channel,
/// clamped to a byte.
pub open spec fn spec_scaled_byte(c: Rgb, j: int, v: int) -> u8 {
    let val = rgb_channel(c, j) * v / 1000;
    if val > 255 {
        255u8
    } else {
        val as u8
    }
}

/// The frame written over `old_frame`: bytes within the pixel span are the
/// palette scaled by brightness, bytes past it stay.
pub open spec fn spec_blade_frame(palette: Seq<Rgb>, v: Seq<u16>, old_frame: Seq<u8>) -> Seq<u8> {
    Seq::new(old_frame.len(), |k: int| if k < 3 * v.len() && k < 3 * palette.len() {
        spec_scaled_byte(palette[k / 3], k % 3, v[k / 3] as int)
    } else {
        old_frame[k]
    })
}

/// How one frame of the bar effect relates its state and frame before and
/// after: the full functional law of `BladePower::render`.
pub open spec fn spec_blade_render(
    pre: BladePower,
    post: BladePower,
    melbanks: Seq<u16>,
    pre_frame: Seq<u8>,
    post_frame: Seq<u8>,
) -> bool {
    &&& (post.config == pre.config)
    &&& (post_frame.len() == pre_frame.len())
    &&& ({
                let pc = pre_frame.len() as int / 3;
                &&& (pc == 0 ==> post.gradient_palette@ == pre.gradient_palette@
                    && post.v_channel@ == pre.v_channel@ && post_frame == pre_frame)
                &&& (pc > 0 ==> {
                    let palette = if pre.gradient_palette@.len() == pc {
                        pre.gradient_palette@
                    } else {
                        spec_parse_gradient(pre.config.gradient@, pc)
                    };
                    let power = spec_power_for(
                        pre.config.frequency_range@,
                        melbanks,
                    );
                    let bar = spec_bar_idx(
                        spec_bar_level(power, pre.config.multiplier_milli as int),
                        pc,
                    );
                    let v = spec_new_v(
                        spec_base_v(pre.v_channel@, pc),
                        bar,
                        spec_decay_factor(pre.config.decay_milli as int),
                    );
                    &&& post.gradient_palette@ == palette
                    &&& post.v_channel@ == v
                    &&& post_frame == spec_blade_frame(palette, v, pre_frame)
                })
            })
}

impl BladePower {
    /// A fresh bar effect with empty caches.
    pub fn new(config: BladePowerConfig) -> (out: BladePower)
        ensures
            out.config == config,
            out.gradient_palette@.len() == 0,
            out.v_channel@.len() == 0,
    {
        BladePower { config, gradient_palette: Vec::new(), v_channel: Vec::new() }
    }

    /// Renders one frame: rebuilds the palette when the pixel count changed,
    /// decays the brightness channel, raises it to full over the bar that
    /// the selected band power commands, and writes the scaled palette.
    pub fn render(&mut self, audio: &AudioAnalysisData, frame: &mut Vec<u8>)
        ensures
            spec_blade_render(
                *old(self),
                *final(self),
                audio.melbanks@,
                old(frame)@,
                final(frame)@,
            ),
    {
        let pc = frame.len() / 3;
        if pc == 0 {
            return ;
        }
        proof {
            vstd::arithmetic::div_mod::lemma_fundamental_div_mod(frame@.len() as int, 3);
        }
        if self.gradient_palette.len() != pc {
            self.gradient_palette = parse_gradient(self.config.gradient.as_str(), pc);
        }
        if self.v_channel.len() != pc {
            let mut v: Vec<u16> = Vec::new();
            let mut i: usize = 0;
            while i < pc
                invariant
                    i <= pc,
                    v@.len() == i,
                    forall|k: int| 0 <= k < i ==> (#[trigger] v@[k]) == 0,
                decreases pc - i,
            {
                v.push(0);
                i += 1;
            }
            proof {
                assert(v@ =~= spec_base_v(old(self).v_channel@, pc as int));
            }
            self.v_channel = v;
        }
        let power: u32 = if crate::types::str_eq(
            self.config.frequency_range.as_str(),
            "Mids",
        ) {
            crate::audio::mids_power(&audio.melbanks) as u32
        } else if crate::types::str_eq(self.config.frequency_range.as_str(), "High") {
            crate::audio::highs_power(&audio.melbanks) as u32
        } else {
            crate::audio::lows_power(&audio.melbanks) as u32
        };
        proof {
            vstd::arithmetic::mul::lemma_mul_upper_bound(
                power as int,
                65535,
                self.config.multiplier_milli as int,
                u32::MAX as int,
            );
        }
        let raw = (power as u64) * (self.config.multiplier_milli as u64) * 2 / 1000;
        let bar_level: u64 = if raw > 1000 {
            1000
        } else {
            raw
        };
        proof {
            crate::fixp::lemma_mul_div_le(pc as int, bar_level as int, 1000);
            assert(bar_level as int * pc as int == pc as int * bar_level as int)
                by (nonlinear_arith);
        }
        let bar_idx = ((bar_level as u128) * (pc as u128) / 1000) as usize;
        let df = self.config.decay_milli / 2 + 450;
        let factor: u32 = if df > 1000 {
            1000
        } else {
            df
        };
        let ghost paletteg = self.gradient_palette@;
        let ghost base = self.v_channel@;
        let ghost barg = spec_bar_idx(
            spec_bar_level(
                spec_power_for(old(self).config.frequency_range@, audio.melbanks@),
                old(self).config.multiplier_milli as int,
            ),
            pc as int,
        );
        let mut i: usize = 0;
        while i < pc
            invariant
                i <= pc,
                pc == self.v_channel@.len(),
                factor <= 1000,
                bar_idx as int == barg,
                self.config == old(self).config,
                self.gradient_palette@ == paletteg,
                forall|k: int|
                    0 <= k < i ==> (#[trigger] self.v_channel@[k]) == (if k < barg {
                        1000u16
                    } else {
                        (base[k] * (factor as int) / 1000) as u16
                    }),
                forall|k: int| i <= k < pc ==> (#[trigger] self.v_channel@[k]) == base[k],
            decreases pc - i,
        {
            if i < bar_idx {
                self.v_channel.set(i, 1000);
            } else {
                proof {
                    crate::fixp::lemma_mul_div_le(self.v_channel@[i as int] as int, factor as int, 1000);
                }
                let nv = ((self.v_channel[i] as u64) * (factor as u64) / 1000) as u16;
                self.v_channel.set(i, nv);
            }
            i += 1;
        }
        proof {
            assert(self.v_channel@ =~= spec_new_v(
                spec_base_v(old(self).v_channel@, pc as int),
                barg,
                spec_decay_factor(old(self).config.decay_milli as int),
            ));
        }
        let ghost vg = self.v_channel@;
        let mut j: usize = 0;
        while j < pc
            invariant
                j <= pc,
                pc >= 1,
                pc == self.v_channel@.len(),
                pc == self.gradient_palette@.len(),
                pc * 3 <= frame.len(),
                frame.len() == old(frame)@.len(),
                self.config == old(self).config,
                self.gradient_palette@ == paletteg,
                self.v_channel@ == vg,
                forall|k: int|
                    0 <= k < 3 * j ==> (#[trigger] frame@[k]) == spec_scaled_byte(
                        self.gradient_palette@[k / 3],
                        k % 3,
                        self.v_channel@[k / 3] as int,
                    ),
                forall|k: int| 3 * j <= k < frame@.len() ==> (#[trigger] frame@[k]) == old(
                    frame,
                )@[k],
            decreases pc - j,
        {
            let c = self.gradient_palette[j];
            let v = self.v_channel[j] as u64;
            proof {
                lemma_scaled_byte_bound(c.r as int, v as int);
                lemma_scaled_byte_bound(c.g as int, v as int);
                lemma_scaled_byte_bound(c.b as int, v as int);
            }
            let rr = scale_channel(c.r, v);
            let gg = scale_channel(c.g, v);
            let bb = scale_channel(c.b, v);
            frame.set(3 * j, rr);
            frame.set(3 * j + 1, gg);
            frame.set(3 * j + 2, bb);
            proof {
                assert forall|k: int| 0 <= k < 3 * (j + 1) implies (#[trigger] frame@[k])
                    == spec_scaled_byte(
                    self.gradient_palette@[k / 3],
                    k % 3,
                    self.v_channel@[k / 3] as int,
                ) by {
                    if k >= 3 * j {
                        assert(k / 3 == j as int && (k == 3 * j || k == 3 * j + 1 || k == 3 * j
                            + 2));
                    }
                }
            }
            j += 1;
        }
        proof {
            assert(frame@ =~= spec_blade_frame(
                self.gradient_palette@,
                self.v_channel@,
                old(frame)@,
            ));
        }
    }
}

proof fn lemma_scaled_byte_bound(c: int, v: int)
    requires
        0 <= c <= 255,
        0 <= v <= 65535,
    ensures
        0 <= c * v / 1000 <= 16712,
{
    vstd::arithmetic::mul::lemma_mul_upper_bound(c, 255, v, 65535);
    crate::fixp::lemma_div_le_const(c * v, 16712, 1000);
}

/// One channel byte of the bar: palette channel times brightness, clamped.
fn scale_channel(c: u8, v: u64) -> (r: u8)
    requires
        v <= 65535,
    ensures
        r as int == (if c as int * v as int / 1000 > 255 {
            255int
        } else {
            c as int * v as int / 1000
        }),
{
    proof {
        lemma_scaled_byte_bound(c as int, v as int);
    }
    let val = (c as u64) * v / 1000;
    if val > 255 {
        255u8
    } else {
        val as u8
    }
}

/// One compiled-in bar preset, by content.
pub open spec fn spec_blade_preset(
    entry: (String, EffectConfig),
    name: Seq<char>,
    decay: u32,
    multiplier: u32,
    range: Seq<char>,
    gradient: Seq<char>,
    mirror: bool,
    flip: bool,
    blur: u32,
    bg: Seq<char>,
) -> bool {
    &&& entry.0@ == name
    &&& entry.1 matches EffectConfig::BladePower(c)
    &&& (entry.1 matches EffectConfig::BladePower(c) ==> c.decay_milli == decay
        && c.multiplier_milli == multiplier && c.frequency_range@ == range && c.gradient@
        == gradient && c.base.mirror == mirror && c.base.flip == flip && c.base.blur_milli == blur
        && c.base.background_color@ == bg)
}

/// What the compiled-in preset list of this effect holds.
pub open spec fn spec_built_in_presets(out: Seq<(String, EffectConfig)>) -> bool {
    &&& out.len() == 3
    &&& spec_blade_preset(
        out[0],
        "Ocean Breeze"@,
        800,
        600,
        "Lows (beat+bass)"@,
        "linear-gradient(90deg, #00c6ff 0%, #0072ff 100%)"@,
        false,
        false,
        1000,
        "#000000"@,
    )
    &&& spec_blade_preset(
        out[1],
        "Sunset"@,
        750,
        500,
        "Mids"@,
        "linear-gradient(90deg, #ff4e50 0%, #f9d423 100%)"@,
        true,
        false,
        0,
        "#000000"@,
    )
    &&& spec_blade_preset(
        out[2],
        "Forrest Gump"@,
        600,
        700,
        "Lows (beat+bass)"@,
        "linear-gradient(90deg, #1d976c 0%, #93f9b9 100%)"@,
        false,
        true,
        2000,
        "#050505"@,
    )
}

/// The compiled-in presets of the bar effect.
pub fn get_built_in_presets() -> (out: Vec<(String, EffectConfig)>)
    ensures
        spec_built_in_presets(out@),
{
    let mut out: Vec<(String, EffectConfig)> = Vec::new();
    out.push(
        (
            "Ocean Breeze".to_owned(),
            EffectConfig::BladePower(
                BladePowerConfig {
                    decay_milli: 800,
                    multiplier_milli: 600,
                    frequency_range: "Lows (beat+bass)".to_owned(),
                    gradient: "linear-gradient(90deg, #00c6ff 0%, #0072ff 100%)".to_owned(),
                    base: BaseEffectConfig {
                        mirror: false,
                        flip: false,
                        blur_milli: 1000,
                        background_color: "#000000".to_owned(),
                    },
                },
            ),
        ),
    );
    out.push(
        (
            "Sunset".to_owned(),
            EffectConfig::BladePower(
                BladePowerConfig {
                    decay_milli: 750,
                    multiplier_milli: 500,
                    frequency_range: "Mids".to_owned(),
                    gradient: "linear-gradient(90deg, #ff4e50 0%, #f9d423 100%)".to_owned(),
                    base: BaseEffectConfig {
                        mirror: true,
                        flip: false,
                        blur_milli: 0,
                        background_color: "#000000".to_owned(),
                    },
                },
            ),
        ),
    );
    out.push(
        (
            "Forrest Gump".to_owned(),
            EffectConfig::BladePower(
                BladePowerConfig {
                    decay_milli: 600,
                    multiplier_milli: 700,
                    frequency_range: "Lows (beat+bass)".to_owned(),
                    gradient: "linear-gradient(90deg, #1d976c 0%, #93f9b9 100%)".to_owned(),
                    base: BaseEffectConfig {
                        mirror: false,
                        flip: true,
                        blur_milli: 2000,
                        background_color: "#050505".to_owned(),
                    },
                },
            ),
        ),
    );
    out
}

} // verus!
