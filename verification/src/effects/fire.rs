//! The fire effect: a cellular-automaton heat buffer cooled by random
//! draughts, propagated upwards, sparked at its base, and mapped through a
//! 256-colour gradient palette.

use rand::Rng;
use vstd::prelude::*;

verus! {

use crate::audio::AudioAnalysisData;
use crate::colors::{parse_gradient, spec_parse_gradient, Rgb};
use crate::effects::{rgb_channel, BaseEffectConfig, EffectConfig};

/// Configuration of the fire: cooling and sparking in thousandths, and the
/// gradient heat is mapped through.
#[derive(Clone, Debug, PartialEq)]
pub struct FireConfig {
    pub cooling_milli: u32,
    pub sparking_milli: u32,
    pub gradient: String,
    pub base: BaseEffectConfig,
}

/// The live fire.
pub struct Fire {
    pub config: FireConfig,
    pub gradient_palette: Vec<Rgb>,
    pub heat: Vec<u8>,
}

/// Relies on `rand::Rng::gen_range` over `0..=n`: the draw lies in the
/// closed range, so the result is at most `n`.
#[verifier::external_body]
fn rand_upto(n: u32) -> (r: u32)
    ensures
        r <= n,
{
    rand::thread_rng().gen_range(0..=n)
}

/// A byte cooled by a draw: saturating subtraction.
pub open spec fn spec_sat_sub(a: u8, b: u8) -> u8 {
    if a >= b {
        (a - b) as u8
    } else {
        0u8
    }
}

/// The heat carried into a frame: the old heat when its length matches the
/// pixel count, else a cold buffer.
pub open spec fn spec_fire_base(old_heat: Seq<u8>, pc: int) -> Seq<u8> {
    if old_heat.len() == pc {
        old_heat
    } else {
        Seq::new(pc as nat, |i: int| 0u8)
    }
}

/// One step of the heat automaton under given draws: every cell cools by
/// its draw, cells from index three up take the three-tap mix of the two
/// cells below them, and the base cell takes the spark when it burns
/// hotter.  The spark is the draw scaled by the sparking setting.
pub open spec fn spec_fire_step(
    base: Seq<u8>,
    cools: Seq<u8>,
    sparkdraw: int,
    sparking: int,
) -> Seq<u8> {
    let cooled = Seq::new(base.len(), |i: int| spec_sat_sub(base[i], cools[i]));
    let prop = Seq::new(
        base.len(),
        |i: int|
            if i >= 3 {
                ((cooled[i - 1] as int + 2 * (cooled[i - 2] as int)) / 3) as u8
            } else {
                cooled[i]
            },
    );
    let spark = ((sparkdraw * sparking / 255000) % 256) as u8;
    Seq::new(base.len(), |i: int| if i == 0 && spark > prop[0] {
        spark
    } else {
        prop[i]
    })
}

/// How one frame of the fire relates its state and frame before and after:
/// the palette is the 256-colour gradient, the new heat arises from the old
/// by the automaton under some random draws, and the frame is the palette
/// of the new heat.
pub open spec fn spec_fire_render(
    pre: Fire,
    post: Fire,
    pre_frame: Seq<u8>,
    post_frame: Seq<u8>,
) -> bool {
    &&& post.config == pre.config
    &&& post_frame.len() == pre_frame.len()
    &&& ({
        let pc = pre_frame.len() as int / 3;
        &&& (pc == 0 ==> post == pre && post_frame == pre_frame)
        &&& (pc > 0 ==> {
            let palette = if pre.gradient_palette@.len() == 256 {
                pre.gradient_palette@
            } else {
                spec_parse_gradient(pre.config.gradient@, 256)
            };
            &&& post.gradient_palette@ == palette
            &&& post.heat@.len() == pc
            &&& palette.len() == 256
            &&& (exists|cools: Seq<u8>, sparkdraw: int|
                0 <= sparkdraw <= 255 && cools.len() == pc && post.heat@ == #[trigger] spec_fire_step(
                    spec_fire_base(pre.heat@, pc),
                    cools,
                    sparkdraw,
                    pre.config.sparking_milli as int,
                ))
            &&& forall|k: int|
                0 <= k < pre_frame.len() ==> (#[trigger] post_frame[k]) == (if k < 3 * pc {
                    rgb_channel(palette[post.heat@[k / 3] as int], k % 3)
                } else {
                    pre_frame[k]
                })
        })
    })
}

impl Fire {
    /// A fresh fire with a cold heat buffer and an empty palette cache.
    pub fn new(config: FireConfig) -> (out: Fire)
        ensures
            out.config == config,
            out.gradient_palette@.len() == 0,
            out.heat@.len() == 0,
    {
        Fire { config, gradient_palette: Vec::new(), heat: Vec::new() }
    }

    /// Renders one frame.  The cool-downs and the spark are random draws,
    /// so the heat is promised up to them: some draws under the stated
    /// bounds produced the new heat through the cooling, propagation and
    /// spark steps, and the frame is exactly the palette colour of each
    /// pixel's heat.
    pub fn render(&mut self, _audio: &AudioAnalysisData, frame: &mut Vec<u8>)
        ensures
            spec_fire_render(*old(self), *final(self), old(frame)@, final(frame)@),
    {
        let pc = frame.len() / 3;
        if pc == 0 {
            return ;
        }
        proof {
            vstd::arithmetic::div_mod::lemma_fundamental_div_mod(frame@.len() as int, 3);
        }
        if self.heat.len() != pc {
            let mut h: Vec<u8> = Vec::new();
            let mut i: usize = 0;
            while i < pc
                invariant
                    i <= pc,
                    h@.len() == i,
                    forall|t: int| 0 <= t < i ==> (#[trigger] h@[t]) == 0,
                decreases pc - i,
            {
                h.push(0);
                i += 1;
            }
            self.heat = h;
        }
        let ghost base = self.heat@;
        proof {
            assert(base =~= spec_fire_base(old(self).heat@, pc as int));
        }
        if self.gradient_palette.len() != 256 {
            self.gradient_palette = parse_gradient(self.config.gradient.as_str(), 256);
        }
        let ghost paletteg = self.gradient_palette@;
        proof {
            assert(self.config.cooling_milli as int * 10 <= 4294967293 * ((pc as int) * 1000))
                by (nonlinear_arith)
                requires pc >= 1 && self.config.cooling_milli <= u32::MAX,
            ;
            crate::fixp::lemma_div_le_const(
                self.config.cooling_milli as int * 10,
                4294967293,
                pc as int * 1000,
            );
        }
        let cool_cap: u32 = ((self.config.cooling_milli as u128 * 10 / (pc as u128 * 1000))
            as u32) + 2;
        let ghost mut cools: Seq<u8> = Seq::empty();
        let mut i: usize = 0;
        while i < pc
            invariant
                i <= pc,
                pc == self.heat@.len(),
                pc == base.len(),
                cools.len() == i,
                forall|t: int| 0 <= t < i ==> (#[trigger] self.heat@[t]) == spec_sat_sub(
                    base[t],
                    cools[t],
                ),
                forall|t: int| i <= t < pc ==> (#[trigger] self.heat@[t]) == base[t],
                self.config == old(self).config,
                self.gradient_palette@ == paletteg,
                frame@ == old(frame)@,
            decreases pc - i,
        {
            let cooldown = rand_upto(cool_cap);
            let cd = (cooldown % 256) as u8;
            let h = self.heat[i];
            let nh = if h >= cd {
                h - cd
            } else {
                0
            };
            self.heat.set(i, nh);
            proof {
                cools = cools.push(cd);
            }
            i += 1;
        }
        let ghost cooled = Seq::new(pc as nat, |t: int| spec_sat_sub(base[t], cools[t]));
        proof {
            assert(self.heat@ =~= cooled);
        }
        let mut j: usize = if pc > 3 {
            pc
        } else {
            3
        };
        while j > 3
            invariant
                3 <= j,
                j <= pc || j == 3,
                pc == self.heat@.len(),
                pc == cooled.len(),
                forall|t: int| 0 <= t < j && t < pc ==> (#[trigger] self.heat@[t]) == cooled[t],
                forall|t: int|
                    j <= t < pc ==> (#[trigger] self.heat@[t]) == ((cooled[t - 1] as int + 2 * (
                    cooled[t - 2] as int)) / 3) as u8,
                self.config == old(self).config,
                self.gradient_palette@ == paletteg,
                frame@ == old(frame)@,
            decreases j,
        {
            let t = j - 1;
            let mixed = ((self.heat[t - 1] as u16 + self.heat[t - 2] as u16 + self.heat[t - 2]
                as u16) / 3) as u8;
            self.heat.set(t, mixed);
            j -= 1;
        }
        let ghost prop = Seq::new(
            pc as nat,
            |t: int|
                if t >= 3 {
                    ((cooled[t - 1] as int + 2 * (cooled[t - 2] as int)) / 3) as u8
                } else {
                    cooled[t]
                },
        );
        proof {
            assert(self.heat@ =~= prop);
        }
        let draw = rand_upto(255);
        proof {
            vstd::arithmetic::mul::lemma_mul_upper_bound(
                draw as int,
                255,
                self.config.sparking_milli as int,
                u32::MAX as int,
            );
        }
        let spark128 = (draw as u128) * (self.config.sparking_milli as u128) / 255000;
        let spark = (spark128 % 256) as u8;
        if spark > self.heat[0] {
            self.heat.set(0, spark);
        }
        proof {
            let stepped = spec_fire_step(
                spec_fire_base(old(self).heat@, pc as int),
                cools,
                draw as int,
                old(self).config.sparking_milli as int,
            );
            assert(spark as int == (draw as int * (old(self).config.sparking_milli as int)
                / 255000) % 256);
            assert(self.heat@ =~= stepped);
        }
        let ghost heatg = self.heat@;
        let mut k: usize = 0;
        while k < pc
            invariant
                k <= pc,
                pc >= 1,
                pc == self.heat@.len(),
                pc * 3 <= frame.len(),
                frame.len() == old(frame)@.len(),
                self.config == old(self).config,
                self.heat@ == heatg,
                self.gradient_palette@ == paletteg,
                paletteg.len() == 256,
                forall|t: int|
                    0 <= t < 3 * k ==> (#[trigger] frame@[t]) == rgb_channel(
                        paletteg[self.heat@[t / 3] as int],
                        t % 3,
                    ),
                forall|t: int| 3 * k <= t < frame@.len() ==> (#[trigger] frame@[t]) == old(
                    frame,
                )@[t],
            decreases pc - k,
        {
            let c = self.gradient_palette[self.heat[k] as usize];
            frame.set(3 * k, c.r);
            frame.set(3 * k + 1, c.g);
            frame.set(3 * k + 2, c.b);
            proof {
                assert forall|t: int| 0 <= t < 3 * (k + 1) implies (#[trigger] frame@[t])
                    == rgb_channel(paletteg[self.heat@[t / 3] as int], t % 3) by {
                    if t >= 3 * k {
                        assert(t / 3 == k as int && (t == 3 * k || t == 3 * k + 1 || t == 3 * k
                            + 2));
                    }
                }
            }
            k += 1;
        }
    }
}

/// One compiled-in fire preset, by content.
pub open spec fn spec_fire_preset(
    entry: (String, EffectConfig),
    name: Seq<char>,
    cooling: u32,
    sparking: u32,
    gradient: Seq<char>,
    mirror: bool,
    blur: u32,
) -> bool {
    &&& entry.0@ == name
    &&& entry.1 matches EffectConfig::Fire(c)
    &&& (entry.1 matches EffectConfig::Fire(c) ==> c.cooling_milli == cooling && c.sparking_milli
        == sparking && c.gradient@ == gradient && c.base.mirror == mirror && !c.base.flip
        && c.base.blur_milli == blur && c.base.background_color@ == "#000000"@)
}

/// What the compiled-in preset list of this effect holds.
pub open spec fn spec_built_in_presets(out: Seq<(String, EffectConfig)>) -> bool {
    &&& out.len() == 3
    &&& spec_fire_preset(
        out[0],
        "Classic Campfire"@,
        450,
        600,
        "linear-gradient(90deg, #000000 0%, #D43300 30%, #FF8000 70%, #FFFF00 100%)"@,
        false,
        1500,
    )
    &&& spec_fire_preset(
        out[1],
        "Soul Fire"@,
        600,
        400,
        "linear-gradient(90deg, #000000 0%, #00FFFF 50%, #FFFFFF 100%)"@,
        false,
        2000,
    )
    &&& spec_fire_preset(
        out[2],
        "Nuclear Waste"@,
        300,
        800,
        "linear-gradient(90deg, #000000 0%, #00FF00 40%, #ADFF2F 100%)"@,
        true,
        500,
    )
}

/// The compiled-in presets of the fire.
pub fn get_built_in_presets() -> (out: Vec<(String, EffectConfig)>)
    ensures
        spec_built_in_presets(out@),
{
    let mut out: Vec<(String, EffectConfig)> = Vec::new();
    out.push(
        (
            "Classic Campfire".to_owned(),
            EffectConfig::Fire(
                FireConfig {
                    cooling_milli: 450,
                    sparking_milli: 600,
                    gradient:
                        "linear-gradient(90deg, #000000 0%, #D43300 30%, #FF8000 70%, #FFFF00 100%)".to_owned(),
                    base: BaseEffectConfig {
                        mirror: false,
                        flip: false,
                        blur_milli: 1500,
                        background_color: "#000000".to_owned(),
                    },
                },
            ),
        ),
    );
    out.push(
        (
            "Soul Fire".to_owned(),
            EffectConfig::Fire(
                FireConfig {
                    cooling_milli: 600,
                    sparking_milli: 400,
                    gradient: "linear-gradient(90deg, #000000 0%, #00FFFF 50%, #FFFFFF 100%)".to_owned(),
                    base: BaseEffectConfig {
                        mirror: false,
                        flip: false,
                        blur_milli: 2000,
                        background_color: "#000000".to_owned(),
                    },
                },
            ),
        ),
    );
    out.push(
        (
            "Nuclear Waste".to_owned(),
            EffectConfig::Fire(
                FireConfig {
                    cooling_milli: 300,
                    sparking_milli: 800,
                    gradient: "linear-gradient(90deg, #000000 0%, #00FF00 40%, #ADFF2F 100%)".to_owned(),
                    base: BaseEffectConfig {
                        mirror: true,
                        flip: false,
                        blur_milli: 500,
                        background_color: "#000000".to_owned(),
                    },
                },
            ),
        ),
    );
    out
}

} // verus!
