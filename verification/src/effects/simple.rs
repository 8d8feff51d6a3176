//! The simple, non-audio effects kept for testing and defaults: a static
//! rainbow, a scrolling rainbow, and a single-pixel solid scanner.

use vstd::prelude::*;

verus! {

use crate::audio::AudioAnalysisData;
use crate::colors::{spec_hsv_to_rgb, Rgb};
use crate::effects::{rgb_channel, BaseEffectConfig};

/// A static rainbow across the strip.
pub struct RainbowEffect {
    pub config: BaseEffectConfig,
}

/// The hue of rainbow pixel `i` of `pc`, in thousandths of a degree.
pub open spec fn spec_rainbow_hue(i: int, pc: int) -> int {
    i * 360000 / pc
}

/// The full functional law of `RainbowEffect::render`.
pub open spec fn spec_rainbow_render(
    pre: RainbowEffect,
    post: RainbowEffect,
    pre_frame: Seq<u8>,
    post_frame: Seq<u8>,
) -> bool {
    &&& post == pre
    &&& post_frame.len() == pre_frame.len()
    &&& ({
        let pc = pre_frame.len() as int / 3;
        forall|k: int|
            0 <= k < pre_frame.len() ==> (#[trigger] post_frame[k]) == (if k < 3 * pc {
                rgb_channel(spec_hsv_to_rgb(spec_rainbow_hue(k / 3, pc), 1000, 1000), k % 3)
            } else {
                pre_frame[k]
            })
    })
}

impl RainbowEffect {
    /// A fresh rainbow with the plain post-processing block.
    pub fn new() -> (out: RainbowEffect)
        ensures
            out.config.is_plain(),
    {
        RainbowEffect { config: BaseEffectConfig::plain() }
    }

    /// Renders the hue circle spread over the strip.
    pub fn render(&mut self, _audio: &AudioAnalysisData, frame: &mut Vec<u8>)
        ensures
            spec_rainbow_render(*old(self), *final(self), old(frame)@, final(frame)@),
    {
        let pc = frame.len() / 3;
        if pc == 0 {
            return ;
        }
        proof {
            vstd::arithmetic::div_mod::lemma_fundamental_div_mod(frame@.len() as int, 3);
        }
        let mut i: usize = 0;
        while i < pc
            invariant
                i <= pc,
                pc >= 1,
                pc * 3 <= frame.len(),
                frame.len() == old(frame)@.len(),
                *self == *old(self),
                forall|t: int|
                    0 <= t < 3 * i ==> (#[trigger] frame@[t]) == rgb_channel(
                        spec_hsv_to_rgb(spec_rainbow_hue(t / 3, pc as int), 1000, 1000),
                        t % 3,
                    ),
                forall|t: int| 3 * i <= t < frame@.len() ==> (#[trigger] frame@[t]) == old(
                    frame,
                )@[t],
            decreases pc - i,
        {
            proof {
                crate::fixp::lemma_mul_div_le(360000, i as int, pc as int);
                assert(i as int * 360000 == 360000 * (i as int)) by (nonlinear_arith);
            }
            let hue = ((i as u128) * 360000 / (pc as u128)) as u32;
            let c = crate::colors::hsv_to_rgb(hue, 1000, 1000);
            frame.set(3 * i, c.r);
            frame.set(3 * i + 1, c.g);
            frame.set(3 * i + 2, c.b);
            proof {
                assert forall|t: int| 0 <= t < 3 * (i + 1) implies (#[trigger] frame@[t])
                    == rgb_channel(
                    spec_hsv_to_rgb(spec_rainbow_hue(t / 3, pc as int), 1000, 1000),
                    t % 3,
                ) by {
                    if t >= 3 * i {
                        assert(t / 3 == i as int && (t == 3 * i || t == 3 * i + 1 || t == 3 * i
                            + 2));
                    }
                }
            }
            i += 1;
        }
    }
}

/// A rainbow that scrolls along the strip: the fade effect.
pub struct FadeEffect {
    pub hue_milli: u32,
    pub config: BaseEffectConfig,
}

/// The hue of fade pixel `i` when the base hue is `hue`, in thousandths of
/// a degree.
pub open spec fn spec_fade_hue(hue: int, i: int) -> int {
    (hue + i * 10000) % 360000
}

/// The full functional law of `FadeEffect::render`.
pub open spec fn spec_fade_render(
    pre: FadeEffect,
    post: FadeEffect,
    pre_frame: Seq<u8>,
    post_frame: Seq<u8>,
) -> bool {
    &&& post.config == pre.config
    &&& post.hue_milli as int == (pre.hue_milli + 500) % 360000
    &&& post_frame.len() == pre_frame.len()
    &&& ({
        let pc = pre_frame.len() as int / 3;
        forall|k: int|
            0 <= k < pre_frame.len() ==> (#[trigger] post_frame[k]) == (if k < 3 * pc {
                rgb_channel(
                    spec_hsv_to_rgb(spec_fade_hue(post.hue_milli as int, k / 3), 1000, 1000),
                    k % 3,
                )
            } else {
                pre_frame[k]
            })
    })
}

impl FadeEffect {
    /// A fresh fade at hue zero with the plain post-processing block.
    pub fn new() -> (out: FadeEffect)
        ensures
            out.hue_milli == 0,
            out.config.is_plain(),
    {
        FadeEffect { hue_milli: 0, config: BaseEffectConfig::plain() }
    }

    /// Advances the base hue by half a degree and renders the scrolled
    /// rainbow.
    pub fn render(&mut self, _audio: &AudioAnalysisData, frame: &mut Vec<u8>)
        ensures
            spec_fade_render(*old(self), *final(self), old(frame)@, final(frame)@),
    {
        self.hue_milli = ((self.hue_milli as u64 + 500) % 360000) as u32;
        let hue = self.hue_milli;
        let pc = frame.len() / 3;
        if pc == 0 {
            return ;
        }
        proof {
            vstd::arithmetic::div_mod::lemma_fundamental_div_mod(frame@.len() as int, 3);
        }
        let mut i: usize = 0;
        while i < pc
            invariant
                i <= pc,
                pc >= 1,
                pc * 3 <= frame.len(),
                frame.len() == old(frame)@.len(),
                self.config == old(self).config,
                self.hue_milli == hue,
                hue as int == (old(self).hue_milli + 500) % 360000,
                forall|t: int|
                    0 <= t < 3 * i ==> (#[trigger] frame@[t]) == rgb_channel(
                        spec_hsv_to_rgb(spec_fade_hue(hue as int, t / 3), 1000, 1000),
                        t % 3,
                    ),
                forall|t: int| 3 * i <= t < frame@.len() ==> (#[trigger] frame@[t]) == old(
                    frame,
                )@[t],
            decreases pc - i,
        {
            proof {
                vstd::arithmetic::mul::lemma_mul_upper_bound(
                    i as int,
                    u64::MAX as int,
                    10000,
                    10000,
                );
                vstd::arithmetic::div_mod::lemma_mod_bound(
                    hue as int + (i as int) * 10000,
                    360000,
                );
            }
            let ph = ((hue as u128 + (i as u128) * 10000) % 360000) as u32;
            let c = crate::colors::hsv_to_rgb(ph, 1000, 1000);
            frame.set(3 * i, c.r);
            frame.set(3 * i + 1, c.g);
            frame.set(3 * i + 2, c.b);
            proof {
                assert(spec_hsv_to_rgb(ph as int, 1000, 1000) == spec_hsv_to_rgb(
                    spec_fade_hue(hue as int, i as int),
                    1000,
                    1000,
                )) by {
                    assert(ph as int == spec_fade_hue(hue as int, i as int));
                }
                assert forall|t: int| 0 <= t < 3 * (i + 1) implies (#[trigger] frame@[t])
                    == rgb_channel(
                    spec_hsv_to_rgb(spec_fade_hue(hue as int, t / 3), 1000, 1000),
                    t % 3,
                ) by {
                    if t >= 3 * i {
                        assert(t / 3 == i as int && (t == 3 * i || t == 3 * i + 1 || t == 3 * i
                            + 2));
                    }
                }
            }
            i += 1;
        }
    }
}

/// Configuration of the solid scanner: the colour of its single pixel.
#[derive(Clone, Debug, PartialEq)]
pub struct SolidScanConfig {
    pub color: Rgb,
    pub base: BaseEffectConfig,
}

/// A single pixel of solid colour walking the strip.
pub struct SolidScanEffect {
    pub config: SolidScanConfig,
    pub position: u64,
}

/// The full functional law of `SolidScanEffect::render`.
pub open spec fn spec_solid_scan_render(
    pre: SolidScanEffect,
    post: SolidScanEffect,
    pre_frame: Seq<u8>,
    post_frame: Seq<u8>,
) -> bool {
    &&& post.config == pre.config
    &&& post_frame.len() == pre_frame.len()
    &&& ({
        let pc = pre_frame.len() as int / 3;
        &&& (pc == 0 ==> post == pre && post_frame == pre_frame)
        &&& (pc > 0 ==> {
            let p = pre.position as int % pc;
            &&& post.position as int == (p + 1) % pc
            &&& forall|k: int|
                0 <= k < pre_frame.len() ==> (#[trigger] post_frame[k]) == (if 3 * p <= k < 3 * p
                    + 3 {
                    rgb_channel(pre.config.color, k % 3)
                } else if k < 3 * pc {
                    0u8
                } else {
                    pre_frame[k]
                })
        })
    })
}

impl SolidScanEffect {
    /// A fresh solid scanner at position zero.
    pub fn new(config: SolidScanConfig) -> (out: SolidScanEffect)
        ensures
            out.config == config,
            out.position == 0,
    {
        SolidScanEffect { config, position: 0 }
    }

    /// Clears the frame, draws the colour on the pixel at the current
    /// position, then advances one pixel, wrapping at the strip's end.
    pub fn render(&mut self, _audio: &AudioAnalysisData, frame: &mut Vec<u8>)
        ensures
            spec_solid_scan_render(*old(self), *final(self), old(frame)@, final(frame)@),
    {
        let pc = frame.len() / 3;
        if pc == 0 {
            return ;
        }
        proof {
            vstd::arithmetic::div_mod::lemma_fundamental_div_mod(frame@.len() as int, 3);
            vstd::arithmetic::div_mod::lemma_mod_bound(old(self).position as int, pc as int);
        }
        let p = (self.position % pc as u64) as usize;
        self.position = (p as u64 + 1) % pc as u64;
        let mut k: usize = 0;
        while k < pc
            invariant
                k <= pc,
                pc >= 1,
                p < pc,
                pc * 3 <= frame.len(),
                frame.len() == old(frame)@.len(),
                self.config == old(self).config,
                self.position == (p + 1) as u64 % pc as u64,
                forall|t: int|
                    0 <= t < 3 * k ==> (#[trigger] frame@[t]) == (if 3 * p <= t < 3 * p + 3 {
                        rgb_channel(old(self).config.color, t % 3)
                    } else {
                        0u8
                    }),
                forall|t: int| 3 * k <= t < frame@.len() ==> (#[trigger] frame@[t]) == old(
                    frame,
                )@[t],
            decreases pc - k,
        {
            let c = if k == p {
                self.config.color
            } else {
                Rgb { r: 0, g: 0, b: 0 }
            };
            frame.set(3 * k, c.r);
            frame.set(3 * k + 1, c.g);
            frame.set(3 * k + 2, c.b);
            proof {
                assert forall|t: int| 0 <= t < 3 * (k + 1) implies (#[trigger] frame@[t]) == (if 3
                    * p <= t < 3 * p + 3 {
                    rgb_channel(old(self).config.color, t % 3)
                } else {
                    0u8
                }) by {
                    if t >= 3 * k {
                        assert(t / 3 == k as int && (t == 3 * k || t == 3 * k + 1 || t == 3 * k
                            + 2));
                    }
                }
            }
            k += 1;
        }
    }
}

} // verus!
