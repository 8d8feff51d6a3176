//! The scanner effect: a gradient block that advances across the strip each
//! frame and wraps around its end.

use vstd::prelude::*;

verus! {

use crate::audio::AudioAnalysisData;
use crate::colors::{parse_gradient, spec_parse_gradient, Rgb};
use crate::effects::{BaseEffectConfig, EffectConfig};

/// Ceiling on the pixel count used for position arithmetic.
pub const SCAN_PC_CAP: u64 = 1000000000000;

/// Configuration of the scanner: speed and width in thousandths of a pixel,
/// and the gradient the block is coloured by.
#[derive(Clone, Debug, PartialEq)]
pub struct ScanConfig {
    pub speed_milli: u32,
    pub width_milli: u32,
    pub gradient: String,
    pub base: BaseEffectConfig,
}

/// The live scanner.
pub struct Scan {
    pub config: ScanConfig,
    pub gradient_palette: Vec<Rgb>,
    pub position_milli: u64,
}

/// The block width in pixels: the configured width rounded up.
pub open spec fn spec_scan_width(width_milli: int) -> int {
    (width_milli + 999) / 1000
}

/// The scanner position after one frame: advanced by the speed, wrapped at
/// the pixel count (capped for arithmetic).
pub open spec fn spec_scan_advance(pos: int, speed: int, pc: int) -> int {
    let pcc = if pc > SCAN_PC_CAP as int {
        SCAN_PC_CAP as int
    } else {
        pc
    };
    (pos + speed) % (pcc * 1000)
}

/// The frame after the scanner paints block cell `n - 1` and those before
/// it over `frame`: cell `i` puts palette colour `i mod palette.len()` on
/// pixel `(start + i) mod pc`, later cells over earlier ones.
pub open spec fn spec_scan_paint(
    frame: Seq<u8>,
    palette: Seq<Rgb>,
    start: int,
    pc: int,
    n: int,
) -> Seq<u8>
    decreases n,
{
    if n <= 0 || palette.len() == 0 || pc <= 0 {
        frame
    } else {
        let prev = spec_scan_paint(frame, palette, start, pc, n - 1);
        let p = (start + (n - 1)) % pc;
        let c = palette[(n - 1) % (palette.len() as int)];
        prev.update(3 * p, c.r).update(3 * p + 1, c.g).update(3 * p + 2, c.b)
    }
}

/// A frame of `len` zero bytes.
pub open spec fn spec_zero_frame(len: int) -> Seq<u8> {
    Seq::new(len as nat, |k: int| 0u8)
}

/// How one frame of the scanner relates its state and frame before and
/// after: the full functional law of `Scan::render`.
pub open spec fn spec_scan_render(
    pre: Scan,
    post: Scan,
    pre_frame: Seq<u8>,
    post_frame: Seq<u8>,
) -> bool {
    &&& (post.config == pre.config)
    &&& (post_frame.len() == pre_frame.len())
    &&& (({
                let pc = pre_frame.len() as int / 3;
                let width = spec_scan_width(pre.config.width_milli as int);
                &&& (pc == 0 ==> post == pre && post_frame == pre_frame)
                &&& (pc > 0 ==> {
                    let palette = if pre.gradient_palette@.len() == width {
                        pre.gradient_palette@
                    } else {
                        spec_parse_gradient(pre.config.gradient@, width)
                    };
                    &&& post.gradient_palette@ == palette
                    &&& (palette.len() == 0 ==> post.position_milli == pre.position_milli && post_frame == pre_frame)
                    &&& (palette.len() > 0 ==> {
                        let pos = spec_scan_advance(
                            pre.position_milli as int,
                            pre.config.speed_milli as int,
                            pc,
                        );
                        &&& post.position_milli == pos
                        &&& post_frame == spec_scan_paint(
                            spec_zero_frame(pre_frame.len() as int),
                            palette,
                            pos / 1000,
                            pc,
                            width,
                        )
                    })
                })
            }))
}

impl Scan {
    /// A fresh scanner at position zero with an empty palette cache.
    pub fn new(config: ScanConfig) -> (out: Scan)
        ensures
            out.config == config,
            out.gradient_palette@.len() == 0,
            out.position_milli == 0,
    {
        Scan { config, gradient_palette: Vec::new(), position_milli: 0 }
    }

    /// Renders one frame: advances the position by the configured speed,
    /// clears the frame, and paints the gradient block from the new
    /// position, wrapping at the strip's end.
    pub fn render(&mut self, _audio: &AudioAnalysisData, frame: &mut Vec<u8>)
        ensures
            spec_scan_render(
                *old(self),
                *final(self),
                old(frame)@,
                final(frame)@,
            ),
    {
        let pc = frame.len() / 3;
        if pc == 0 {
            return ;
        }
        proof {
            vstd::arithmetic::div_mod::lemma_fundamental_div_mod(frame@.len() as int, 3);
        }
        let width = ((self.config.width_milli as u64 + 999) / 1000) as usize;
        if self.gradient_palette.len() != width {
            self.gradient_palette = parse_gradient(self.config.gradient.as_str(), width);
        }
        if self.gradient_palette.len() == 0 {
            return ;
        }
        let pcc: u64 = if pc as u64 > SCAN_PC_CAP {
            SCAN_PC_CAP
        } else {
            pc as u64
        };
        proof {
            vstd::arithmetic::div_mod::lemma_mod_bound(
                old(self).position_milli as int + old(self).config.speed_milli as int,
                pcc as int * 1000,
            );
        }
        let pos: u64 = ((self.position_milli as u128 + self.config.speed_milli as u128) % (pcc
            as u128 * 1000)) as u64;
        self.position_milli = pos;
        let start = (pos / 1000) as usize;
        proof {
            crate::fixp::lemma_div_lt(pos as int, pcc as int, 1000);
        }
        let ghost palette = self.gradient_palette@;
        let ghost zeros = spec_zero_frame(old(frame)@.len() as int);
        let mut k: usize = 0;
        while k < frame.len()
            invariant
                k <= frame.len(),
                frame.len() == old(frame)@.len(),
                forall|t: int| 0 <= t < k ==> (#[trigger] frame@[t]) == 0,
                forall|t: int| k <= t < frame@.len() ==> (#[trigger] frame@[t]) == old(frame)@[t],
            decreases frame@.len() - k,
        {
            frame.set(k, 0);
            k += 1;
        }
        proof {
            assert(frame@ =~= zeros);
        }
        let mut i: usize = 0;
        while i < width
            invariant
                i <= width,
                pc >= 1,
                start < pc,
                pc * 3 <= frame.len(),
                frame.len() == old(frame)@.len(),
                self.gradient_palette@ == palette,
                palette.len() >= 1,
                self.config == old(self).config,
                self.position_milli == pos,
                frame@ == spec_scan_paint(zeros, palette, start as int, pc as int, i as int),
            decreases width - i,
        {
            let pixel = ((start as u128 + i as u128) % pc as u128) as usize;
            let color_index = i % self.gradient_palette.len();
            let c = self.gradient_palette[color_index];
            frame.set(3 * pixel, c.r);
            frame.set(3 * pixel + 1, c.g);
            frame.set(3 * pixel + 2, c.b);
            proof {
                let prev = spec_scan_paint(zeros, palette, start as int, pc as int, i as int);
                let next = spec_scan_paint(zeros, palette, start as int, pc as int, i + 1);
                assert(next == prev.update(3 * ((start + i) % (pc as int)), c.r).update(
                    3 * ((start + i) % (pc as int)) + 1,
                    c.g,
                ).update(3 * ((start + i) % (pc as int)) + 2, c.b));
                assert(pixel as int == (start + i) % (pc as int));
                assert(frame@ =~= next);
            }
            i += 1;
        }
    }
}

/// One compiled-in scanner preset, by content.
pub open spec fn spec_scan_preset(
    entry: (String, EffectConfig),
    name: Seq<char>,
    speed: u32,
    width: u32,
    gradient: Seq<char>,
    mirror: bool,
    flip: bool,
    blur: u32,
    bg: Seq<char>,
) -> bool {
    &&& entry.0@ == name
    &&& entry.1 matches EffectConfig::Scan(c)
    &&& (entry.1 matches EffectConfig::Scan(c) ==> c.speed_milli == speed && c.width_milli
        == width && c.gradient@ == gradient && c.base.mirror == mirror && c.base.flip == flip
        && c.base.blur_milli == blur && c.base.background_color@ == bg)
}

/// What the compiled-in preset list of this effect holds.
pub open spec fn spec_built_in_presets(out: Seq<(String, EffectConfig)>) -> bool {
    &&& out.len() == 3
    &&& spec_scan_preset(
        out[0],
        "K.I.T.T."@,
        5000,
        150,
        "linear-gradient(90deg, #ff0000 0%, #330000 50%, #000000 100%)"@,
        true,
        false,
        2000,
        "#000000"@,
    )
    &&& spec_scan_preset(
        out[1],
        "Cylon"@,
        2000,
        50,
        "linear-gradient(90deg, #ff0000 0%, #000000 100%)"@,
        true,
        false,
        500,
        "#110000"@,
    )
    &&& spec_scan_preset(
        out[2],
        "Rainbow Chase"@,
        8000,
        500,
        "linear-gradient(90deg, #ff0000, #ffff00, #00ff00, #00ffff, #0000ff, #ff00ff)"@,
        false,
        false,
        0,
        "#000000"@,
    )
}

/// The compiled-in presets of the scanner.
pub fn get_built_in_presets() -> (out: Vec<(String, EffectConfig)>)
    ensures
        spec_built_in_presets(out@),
{
    let mut out: Vec<(String, EffectConfig)> = Vec::new();
    out.push(
        (
            "K.I.T.T.".to_owned(),
            EffectConfig::Scan(
                ScanConfig {
                    speed_milli: 5000,
                    width_milli: 150,
                    gradient: "linear-gradient(90deg, #ff0000 0%, #330000 50%, #000000 100%)".to_owned(),
                    base: BaseEffectConfig {
                        mirror: true,
                        flip: false,
                        blur_milli: 2000,
                        background_color: "#000000".to_owned(),
                    },
                },
            ),
        ),
    );
    out.push(
        (
            "Cylon".to_owned(),
            EffectConfig::Scan(
                ScanConfig {
                    speed_milli: 2000,
                    width_milli: 50,
                    gradient: "linear-gradient(90deg, #ff0000 0%, #000000 100%)".to_owned(),
                    base: BaseEffectConfig {
                        mirror: true,
                        flip: false,
                        blur_milli: 500,
                        background_color: "#110000".to_owned(),
                    },
                },
            ),
        ),
    );
    out.push(
        (
            "Rainbow Chase".to_owned(),
            EffectConfig::Scan(
                ScanConfig {
                    speed_milli: 8000,
                    width_milli: 500,
                    gradient: "linear-gradient(90deg, #ff0000, #ffff00, #00ff00, #00ffff, #0000ff, #ff00ff)".to_owned(),
                    base: BaseEffectConfig {
                        mirror: false,
                        flip: false,
                        blur_milli: 0,
                        background_color: "#000000".to_owned(),
                    },
                },
            ),
        ),
    );
    out
}

} // verus!
