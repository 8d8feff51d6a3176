//! The effect runtime: a closed set of stateful renderers, each mapping an
//! audio snapshot and a pixel count to an RGB frame, plus the configuration
//! sum type the control plane speaks and the factory that binds one.

pub mod blade_power;
pub mod fire;
pub mod scan;
pub mod simple;

use vstd::prelude::*;

verus! {

use crate::audio::AudioAnalysisData;
use crate::colors::Rgb;
use crate::effects::blade_power::{BladePower, BladePowerConfig};
use crate::effects::fire::{Fire, FireConfig};
use crate::effects::scan::{Scan, ScanConfig};
use crate::effects::simple::{FadeEffect, RainbowEffect, SolidScanConfig, SolidScanEffect};
use crate::types::str_eq;

/// The post-processing block every effect carries: applied by the render
/// engine after the effect has drawn its frame.
#[derive(Clone, Debug, PartialEq)]
pub struct BaseEffectConfig {
    pub mirror: bool,
    pub flip: bool,
    pub blur_milli: u32,
    pub background_color: String,
}

impl BaseEffectConfig {
    /// A copy of this block.
    pub fn duplicate(&self) -> (out: BaseEffectConfig)
        ensures
            out == *self,
    {
        BaseEffectConfig {
            mirror: self.mirror,
            flip: self.flip,
            blur_milli: self.blur_milli,
            background_color: self.background_color.clone(),
        }
    }

    /// Whether this block is the plain one a freshly made simple effect
    /// carries: no mirror, no flip, no blur, black background.
    pub open spec fn is_plain(self) -> bool {
        !self.mirror && !self.flip && self.blur_milli == 0 && self.background_color@ == "#000000"@
    }

    /// The plain block.
    pub fn plain() -> (out: BaseEffectConfig)
        ensures
            out.is_plain(),
    {
        BaseEffectConfig {
            mirror: false,
            flip: false,
            blur_milli: 0,
            background_color: "#000000".to_owned(),
        }
    }
}

/// One effect configuration, tagged by effect kind.
#[derive(Clone, Debug, PartialEq)]
pub enum EffectConfig {
    BladePower(BladePowerConfig),
    Scan(ScanConfig),
    Fire(FireConfig),
    Rainbow(BaseEffectConfig),
    Scroll(BaseEffectConfig),
    SolidScan(SolidScanConfig),
}

/// A live effect instance bound to one surface.
pub enum EffectInstance {
    BladePower(BladePower),
    Scan(Scan),
    Fire(Fire),
    Rainbow(RainbowEffect),
    Scroll(FadeEffect),
    SolidScan(SolidScanEffect),
}

/// Channel `j` of a colour: 0 red, 1 green, otherwise blue.
pub open spec fn rgb_channel(c: Rgb, j: int) -> u8 {
    if j == 0 {
        c.r
    } else if j == 1 {
        c.g
    } else {
        c.b
    }
}

/// Whether `e` is a freshly constructed instance of `config`: the matching
/// variant, carrying the configuration, with empty caches and zeroed state.
pub open spec fn spec_fresh_instance(config: EffectConfig, e: EffectInstance) -> bool {
    match (config, e) {
        (EffectConfig::BladePower(c), EffectInstance::BladePower(s)) => s.config == c
            && s.gradient_palette@.len() == 0 && s.v_channel@.len() == 0,
        (EffectConfig::Scan(c), EffectInstance::Scan(s)) => s.config == c
            && s.gradient_palette@.len() == 0 && s.position_milli == 0,
        (EffectConfig::Fire(c), EffectInstance::Fire(s)) => s.config == c
            && s.gradient_palette@.len() == 0 && s.heat@.len() == 0,
        (EffectConfig::Rainbow(b), EffectInstance::Rainbow(s)) => s.config == b,
        (EffectConfig::Scroll(b), EffectInstance::Scroll(s)) => s.config == b && s.hue_milli == 0,
        (EffectConfig::SolidScan(c), EffectInstance::SolidScan(s)) => s.config == c && s.position
            == 0,
        _ => false,
    }
}

/// Builds a fresh effect instance of the configured kind.
pub fn create_effect(config: EffectConfig) -> (e: EffectInstance)
    ensures
        spec_fresh_instance(config, e),
{
    match config {
        EffectConfig::BladePower(c) => EffectInstance::BladePower(BladePower::new(c)),
        EffectConfig::Scan(c) => EffectInstance::Scan(Scan::new(c)),
        EffectConfig::Fire(c) => EffectInstance::Fire(Fire::new(c)),
        EffectConfig::Rainbow(b) => EffectInstance::Rainbow(RainbowEffect { config: b }),
        EffectConfig::Scroll(b) => EffectInstance::Scroll(FadeEffect { hue_milli: 0, config: b }),
        EffectConfig::SolidScan(c) => EffectInstance::SolidScan(SolidScanEffect::new(c)),
    }
}

/// The post-processing block a live instance carries.
pub open spec fn spec_base_of(e: EffectInstance) -> BaseEffectConfig {
    match e {
        EffectInstance::BladePower(s) => s.config.base,
        EffectInstance::Scan(s) => s.config.base,
        EffectInstance::Fire(s) => s.config.base,
        EffectInstance::Rainbow(s) => s.config,
        EffectInstance::Scroll(s) => s.config,
        EffectInstance::SolidScan(s) => s.config.base,
    }
}


/// How `update_config` moves an instance from `pre` to `post` under `config`:
/// a configuration of the instance's kind replaces the stored one and clears
/// any cached palette; any other kind leaves the instance untouched.
pub open spec fn spec_config_updated(
    config: EffectConfig,
    pre: EffectInstance,
    post: EffectInstance,
) -> bool {
    &&& ((config is BladePower && pre is BladePower) ==> post is BladePower
        && post->BladePower_0.config == config->BladePower_0
        && post->BladePower_0.gradient_palette@.len() == 0 && post->BladePower_0.v_channel
        == pre->BladePower_0.v_channel)
    &&& ((config is Scan && pre is Scan) ==> post is Scan && post->Scan_0.config
        == config->Scan_0 && post->Scan_0.gradient_palette@.len() == 0
        && post->Scan_0.position_milli == pre->Scan_0.position_milli)
    &&& ((config is Fire && pre is Fire) ==> post is Fire && post->Fire_0.config
        == config->Fire_0 && post->Fire_0.gradient_palette@.len() == 0 && post->Fire_0.heat
        == pre->Fire_0.heat)
    &&& ((config is Rainbow && pre is Rainbow) ==> post is Rainbow && post->Rainbow_0.config
        == config->Rainbow_0)
    &&& ((config is Scroll && pre is Scroll) ==> post is Scroll && post->Scroll_0.config
        == config->Scroll_0 && post->Scroll_0.hue_milli == pre->Scroll_0.hue_milli)
    &&& ((config is SolidScan && pre is SolidScan) ==> post is SolidScan
        && post->SolidScan_0.config == config->SolidScan_0 && post->SolidScan_0.position
        == pre->SolidScan_0.position)
    &&& (!(match (config, pre) {
        (EffectConfig::BladePower(_), EffectInstance::BladePower(_)) => true,
        (EffectConfig::Scan(_), EffectInstance::Scan(_)) => true,
        (EffectConfig::Fire(_), EffectInstance::Fire(_)) => true,
        (EffectConfig::Rainbow(_), EffectInstance::Rainbow(_)) => true,
        (EffectConfig::Scroll(_), EffectInstance::Scroll(_)) => true,
        (EffectConfig::SolidScan(_), EffectInstance::SolidScan(_)) => true,
        _ => false,
    }) ==> post == pre)
}

/// How one rendered frame steps an instance: the rendering law of the
/// instance's own kind, relating its state and the frame before and after.
pub open spec fn spec_effect_step(
    pre: EffectInstance,
    post: EffectInstance,
    melbanks: Seq<u16>,
    pre_frame: Seq<u8>,
    post_frame: Seq<u8>,
) -> bool {
    match pre {
        EffectInstance::BladePower(b) => post is BladePower && blade_power::spec_blade_render(
            b,
            post->BladePower_0,
            melbanks,
            pre_frame,
            post_frame,
        ),
        EffectInstance::Scan(b) => post is Scan && scan::spec_scan_render(
            b,
            post->Scan_0,
            pre_frame,
            post_frame,
        ),
        EffectInstance::Fire(b) => post is Fire && fire::spec_fire_render(
            b,
            post->Fire_0,
            pre_frame,
            post_frame,
        ),
        EffectInstance::Rainbow(b) => post is Rainbow && simple::spec_rainbow_render(
            b,
            post->Rainbow_0,
            pre_frame,
            post_frame,
        ),
        EffectInstance::Scroll(b) => post is Scroll && simple::spec_fade_render(
            b,
            post->Scroll_0,
            pre_frame,
            post_frame,
        ),
        EffectInstance::SolidScan(b) => post is SolidScan && simple::spec_solid_scan_render(
            b,
            post->SolidScan_0,
            pre_frame,
            post_frame,
        ),
    }
}

impl EffectInstance {
    /// The post-processing block of this instance.
    pub fn get_base_config(&self) -> (out: BaseEffectConfig)
        ensures
            out == spec_base_of(*self),
    {
        match self {
            EffectInstance::BladePower(s) => s.config.base.duplicate(),
            EffectInstance::Scan(s) => s.config.base.duplicate(),
            EffectInstance::Fire(s) => s.config.base.duplicate(),
            EffectInstance::Rainbow(s) => s.config.duplicate(),
            EffectInstance::Scroll(s) => s.config.duplicate(),
            EffectInstance::SolidScan(s) => s.config.base.duplicate(),
        }
    }

    /// Renders one frame into `frame` and steps the instance's state, under
    /// the rendering law of the instance's own kind.
    pub fn render(&mut self, audio: &AudioAnalysisData, frame: &mut Vec<u8>)
        ensures
            final(frame)@.len() == old(frame)@.len(),
            spec_base_of(*final(self)) == spec_base_of(*old(self)),
            spec_effect_step(
                *old(self),
                *final(self),
                audio.melbanks@,
                old(frame)@,
                final(frame)@,
            ),
    {
        match self {
            EffectInstance::BladePower(s) => s.render(audio, frame),
            EffectInstance::Scan(s) => s.render(audio, frame),
            EffectInstance::Fire(s) => s.render(audio, frame),
            EffectInstance::Rainbow(s) => s.render(audio, frame),
            EffectInstance::Scroll(s) => s.render(audio, frame),
            EffectInstance::SolidScan(s) => s.render(audio, frame),
        }
    }

    /// Replaces the live configuration when the new one is of this
    /// instance's kind, invalidating cached palettes; a configuration of
    /// another kind leaves the instance as it was.
    pub fn update_config(&mut self, config: EffectConfig)
        ensures
            spec_config_updated(config, *old(self), *final(self)),
    {
        match (config, &mut *self) {
            (EffectConfig::BladePower(c), EffectInstance::BladePower(s)) => {
                s.config = c;
                s.gradient_palette = Vec::new();
            },
            (EffectConfig::Scan(c), EffectInstance::Scan(s)) => {
                s.config = c;
                s.gradient_palette = Vec::new();
            },
            (EffectConfig::Fire(c), EffectInstance::Fire(s)) => {
                s.config = c;
                s.gradient_palette = Vec::new();
            },
            (EffectConfig::Rainbow(b), EffectInstance::Rainbow(s)) => {
                s.config = b;
            },
            (EffectConfig::Scroll(b), EffectInstance::Scroll(s)) => {
                s.config = b;
            },
            (EffectConfig::SolidScan(c), EffectInstance::SolidScan(s)) => {
                s.config = c;
            },
            _ => {},
        }
    }
}

/// The identifier of the effect kind a configuration belongs to.
pub open spec fn spec_effect_id(c: EffectConfig) -> Seq<char> {
    match c {
        EffectConfig::BladePower(_) => "blade_power"@,
        EffectConfig::Scan(_) => "scan"@,
        EffectConfig::Fire(_) => "fire"@,
        EffectConfig::Rainbow(_) => "rainbow"@,
        EffectConfig::Scroll(_) => "scroll"@,
        EffectConfig::SolidScan(_) => "solid_scan"@,
    }
}

/// The identifier of the effect kind a configuration belongs to.
pub fn get_effect_id_from_config(c: &EffectConfig) -> (out: String)
    ensures
        out@ == spec_effect_id(*c),
{
    match c {
        EffectConfig::BladePower(_) => "blade_power".to_owned(),
        EffectConfig::Scan(_) => "scan".to_owned(),
        EffectConfig::Fire(_) => "fire".to_owned(),
        EffectConfig::Rainbow(_) => "rainbow".to_owned(),
        EffectConfig::Scroll(_) => "scroll".to_owned(),
        EffectConfig::SolidScan(_) => "solid_scan".to_owned(),
    }
}

/// What the compiled-in preset list of the effect kind named `effect_id`
/// holds: the module's presets for the kinds that have them, nothing for
/// the rest.
pub open spec fn spec_is_builtins(effect_id: Seq<char>, out: Seq<(String, EffectConfig)>) -> bool {
    &&& (effect_id == "blade_power"@ ==> blade_power::spec_built_in_presets(out))
    &&& (effect_id == "fire"@ ==> fire::spec_built_in_presets(out))
    &&& (effect_id == "scan"@ ==> scan::spec_built_in_presets(out))
    &&& (effect_id != "blade_power"@ && effect_id != "fire"@ && effect_id != "scan"@ ==> out.len()
        == 0)
}

/// The compiled-in presets of the effect named by `effect_id`: empty for an
/// effect kind without presets or an unknown identifier.
pub fn get_built_in_presets_for_effect(effect_id: &str) -> (out: Vec<(String, EffectConfig)>)
    ensures
        spec_is_builtins(effect_id@, out@),
{
    proof {
        reveal_strlit("blade_power");
        reveal_strlit("fire");
        reveal_strlit("scan");
        assert("blade_power"@.len() == 11 && "fire"@.len() == 4 && "scan"@.len() == 4);
        assert("fire"@[0] == 'f' && "scan"@[0] == 's');
    }
    if str_eq(effect_id, "blade_power") {
        blade_power::get_built_in_presets()
    } else if str_eq(effect_id, "fire") {
        fire::get_built_in_presets()
    } else if str_eq(effect_id, "scan") {
        scan::get_built_in_presets()
    } else {
        Vec::new()
    }
}

} // verus!
