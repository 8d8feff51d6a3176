//! The serialisable engine state: scenes, presets, devices, surfaces, DSP
//! settings and the API port, as one snapshot that the persistence layer
//! stores and returns whole.

use vstd::prelude::*;

verus! {

use crate::dsp::DspSettings;
use crate::effects::blade_power::BladePowerConfig;
use crate::effects::fire::FireConfig;
use crate::effects::scan::ScanConfig;
use crate::effects::simple::SolidScanConfig;
use crate::effects::{BaseEffectConfig, EffectConfig};
use crate::types::{Device, MatrixCell, Virtual};

/// A reference to a stored preset of one effect kind.
#[derive(Clone, Debug, PartialEq)]
pub struct ScenePreset {
    pub effect_id: String,
    pub preset_name: String,
}

/// What a scene binds to one surface: a preset reference or an inline
/// configuration.
#[derive(Clone, Debug, PartialEq)]
pub enum SceneEffect {
    Preset(ScenePreset),
    Custom(EffectConfig),
}

/// A named binding from surface identifiers to effect references.
#[derive(Clone, Debug, PartialEq)]
pub struct Scene {
    pub id: String,
    pub name: String,
    pub virtual_effects: Vec<(String, SceneEffect)>,
}

/// The serialisable union of everything the engine persists.
#[derive(Clone, Debug, PartialEq)]
pub struct EngineState {
    pub devices: Vec<Device>,
    pub virtuals: Vec<Virtual>,
    pub dsp_settings: DspSettings,
    pub effect_presets: Vec<(String, Vec<(String, EffectConfig)>)>,
    pub scenes: Vec<Scene>,
    pub api_port: u16,
}

/// The port the control surface listens on when none is stored.
pub fn default_api_port() -> (r: u16)
    ensures
        r == 3030,
{
    3030
}

impl Default for EngineState {
    /// The state of a fresh installation: nothing configured, default DSP
    /// settings, the default API port.
    fn default() -> (out: EngineState)
        ensures
            out.devices@.len() == 0,
            out.virtuals@.len() == 0,
            out.dsp_settings == crate::dsp::spec_default_dsp(),
            out.effect_presets@.len() == 0,
            out.scenes@.len() == 0,
            out.api_port == 3030,
    {
        EngineState {
            devices: Vec::new(),
            virtuals: Vec::new(),
            dsp_settings: DspSettings::default(),
            effect_presets: Vec::new(),
            scenes: Vec::new(),
            api_port: default_api_port(),
        }
    }
}

/// The default engine state, as the control surface requests it.
pub fn get_default_engine_state() -> (out: Result<EngineState, String>)
    ensures
        out is Ok,
        out->Ok_0.devices@.len() == 0,
        out->Ok_0.virtuals@.len() == 0,
        out->Ok_0.dsp_settings == crate::dsp::spec_default_dsp(),
        out->Ok_0.effect_presets@.len() == 0,
        out->Ok_0.scenes@.len() == 0,
        out->Ok_0.api_port == 3030,
{
    Ok(EngineState::default())
}

impl Device {
    /// A copy of this device.
    pub fn duplicate(&self) -> (out: Device)
        ensures
            out == *self,
    {
        Device {
            ip_address: self.ip_address.clone(),
            name: self.name.clone(),
            led_count: self.led_count,
        }
    }
}

impl MatrixCell {
    /// A copy of this cell.
    pub fn duplicate(&self) -> (out: MatrixCell)
        ensures
            out == *self,
    {
        MatrixCell { device_id: self.device_id.clone(), pixel: self.pixel }
    }
}

impl Virtual {
    /// A copy of this surface.
    pub fn duplicate(&self) -> (out: Virtual)
        ensures
            crate::types::virtual_eq(out, *self),
    {
        let mut grid: Vec<Vec<Option<MatrixCell>>> = Vec::new();
        let mut i: usize = 0;
        while i < self.matrix_data.len()
            invariant
                i <= self.matrix_data@.len(),
                grid@.len() == i,
                forall|k: int| 0 <= k < i ==> (#[trigger] grid@[k])@ == self.matrix_data@[k]@,
            decreases self.matrix_data@.len() - i,
        {
            let row = &self.matrix_data[i];
            let mut new_row: Vec<Option<MatrixCell>> = Vec::new();
            let mut j: usize = 0;
            while j < row.len()
                invariant
                    j <= row@.len(),
                    new_row@.len() == j,
                    forall|k: int| 0 <= k < j ==> (#[trigger] new_row@[k]) == row@[k],
                decreases row@.len() - j,
            {
                let cell: Option<MatrixCell> = match &row[j] {
                    Some(c) => Some(c.duplicate()),
                    None => None,
                };
                new_row.push(cell);
                j += 1;
            }
            proof {
                assert(new_row@ =~= self.matrix_data@[i as int]@);
            }
            grid.push(new_row);
            i += 1;
        }
        proof {
            assert(crate::types::grid_view(grid@) =~= crate::types::grid_view(
                self.matrix_data@,
            ));
        }
        let own: Option<String> = match &self.is_device {
            Some(ip) => Some(ip.clone()),
            None => None,
        };
        Virtual { id: self.id.clone(), name: self.name.clone(), matrix_data: grid, is_device: own }
    }
}

impl EffectConfig {
    /// A copy of this configuration.
    pub fn duplicate(&self) -> (out: EffectConfig)
        ensures
            out == *self,
    {
        match self {
            EffectConfig::BladePower(c) => EffectConfig::BladePower(
                BladePowerConfig {
                    decay_milli: c.decay_milli,
                    multiplier_milli: c.multiplier_milli,
                    frequency_range: c.frequency_range.clone(),
                    gradient: c.gradient.clone(),
                    base: c.base.duplicate(),
                },
            ),
            EffectConfig::Scan(c) => EffectConfig::Scan(
                ScanConfig {
                    speed_milli: c.speed_milli,
                    width_milli: c.width_milli,
                    gradient: c.gradient.clone(),
                    base: c.base.duplicate(),
                },
            ),
            EffectConfig::Fire(c) => EffectConfig::Fire(
                FireConfig {
                    cooling_milli: c.cooling_milli,
                    sparking_milli: c.sparking_milli,
                    gradient: c.gradient.clone(),
                    base: c.base.duplicate(),
                },
            ),
            EffectConfig::Rainbow(b) => EffectConfig::Rainbow(b.duplicate()),
            EffectConfig::Scroll(b) => EffectConfig::Scroll(b.duplicate()),
            EffectConfig::SolidScan(c) => EffectConfig::SolidScan(
                SolidScanConfig { color: c.color, base: c.base.duplicate() },
            ),
        }
    }
}

impl SceneEffect {
    /// A copy of this binding.
    pub fn duplicate(&self) -> (out: SceneEffect)
        ensures
            out == *self,
    {
        match self {
            SceneEffect::Preset(p) => SceneEffect::Preset(
                ScenePreset {
                    effect_id: p.effect_id.clone(),
                    preset_name: p.preset_name.clone(),
                },
            ),
            SceneEffect::Custom(c) => SceneEffect::Custom(c.duplicate()),
        }
    }
}

impl Scene {
    /// A copy of this scene.
    pub fn duplicate(&self) -> (out: Scene)
        ensures
            scene_eq(out, *self),
    {
        let mut ve: Vec<(String, SceneEffect)> = Vec::new();
        let mut i: usize = 0;
        while i < self.virtual_effects.len()
            invariant
                i <= self.virtual_effects@.len(),
                ve@.len() == i,
                forall|k: int| 0 <= k < i ==> (#[trigger] ve@[k]) == self.virtual_effects@[k],
            decreases self.virtual_effects@.len() - i,
        {
            let (vid, se) = &self.virtual_effects[i];
            ve.push((vid.clone(), se.duplicate()));
            i += 1;
        }
        proof {
            assert(ve@ =~= self.virtual_effects@);
        }
        Scene { id: self.id.clone(), name: self.name.clone(), virtual_effects: ve }
    }
}

/// A copy of a preset list.
pub fn duplicate_presets(presets: &Vec<(String, EffectConfig)>) -> (out: Vec<
    (String, EffectConfig),
>)
    ensures
        out@ == presets@,
{
    let mut out: Vec<(String, EffectConfig)> = Vec::new();
    let mut i: usize = 0;
    while i < presets.len()
        invariant
            i <= presets@.len(),
            out@.len() == i,
            forall|k: int| 0 <= k < i ==> (#[trigger] out@[k]) == presets@[k],
        decreases presets@.len() - i,
    {
        let (name, cfg) = &presets[i];
        out.push((name.clone(), cfg.duplicate()));
        i += 1;
    }
    proof {
        assert(out@ =~= presets@);
    }
    out
}

/// A copy of a device list.
pub fn duplicate_devices(devices: &Vec<Device>) -> (out: Vec<Device>)
    ensures
        out@ == devices@,
{
    let mut out: Vec<Device> = Vec::new();
    let mut i: usize = 0;
    while i < devices.len()
        invariant
            i <= devices@.len(),
            out@.len() == i,
            forall|k: int| 0 <= k < i ==> (#[trigger] out@[k]) == devices@[k],
        decreases devices@.len() - i,
    {
        out.push(devices[i].duplicate());
        i += 1;
    }
    proof {
        assert(out@ =~= devices@);
    }
    out
}

/// A copy of a scene list.
pub fn duplicate_scenes(scenes: &Vec<Scene>) -> (out: Vec<Scene>)
    ensures
        scenes_view(out@) == scenes_view(scenes@),
{
    let mut out: Vec<Scene> = Vec::new();
    let mut i: usize = 0;
    while i < scenes.len()
        invariant
            i <= scenes@.len(),
            out@.len() == i,
            forall|k: int| 0 <= k < i ==> scene_view(#[trigger] out@[k]) == scene_view(
                scenes@[k],
            ),
        decreases scenes@.len() - i,
    {
        out.push(scenes[i].duplicate());
        i += 1;
    }
    proof {
        assert(scenes_view(out@) =~= scenes_view(scenes@));
    }
    out
}

/// A copy of a surface list.
pub fn duplicate_virtuals(virtuals: &Vec<Virtual>) -> (out: Vec<Virtual>)
    ensures
        crate::types::virtuals_view(out@) == crate::types::virtuals_view(virtuals@),
{
    let mut out: Vec<Virtual> = Vec::new();
    let mut i: usize = 0;
    while i < virtuals.len()
        invariant
            i <= virtuals@.len(),
            out@.len() == i,
            forall|k: int| 0 <= k < i ==> crate::types::virtual_eq(
                #[trigger] out@[k],
                virtuals@[k],
            ),
        decreases virtuals@.len() - i,
    {
        out.push(virtuals[i].duplicate());
        i += 1;
    }
    proof {
        assert(crate::types::virtuals_view(out@) =~= crate::types::virtuals_view(virtuals@));
    }
    out
}

/// A copy of the preset namespaces.
pub fn duplicate_preset_map(map: &Vec<(String, Vec<(String, EffectConfig)>)>) -> (out: Vec<
    (String, Vec<(String, EffectConfig)>),
>)
    ensures
        preset_map_view(out@) == preset_map_view(map@),
{
    let mut out: Vec<(String, Vec<(String, EffectConfig)>)> = Vec::new();
    let mut i: usize = 0;
    while i < map.len()
        invariant
            i <= map@.len(),
            out@.len() == i,
            forall|k: int|
                0 <= k < i ==> (#[trigger] out@[k]).0 == map@[k].0 && out@[k].1@ == map@[k].1@,
        decreases map@.len() - i,
    {
        let (id, presets) = &map[i];
        out.push((id.clone(), duplicate_presets(presets)));
        i += 1;
    }
    proof {
        assert(preset_map_view(out@) =~= preset_map_view(map@));
    }
    out
}

impl EngineState {
    /// A copy of the whole snapshot.
    pub fn duplicate(&self) -> (out: EngineState)
        ensures
            state_eq(out, *self),
    {
        EngineState {
            devices: duplicate_devices(&self.devices),
            virtuals: duplicate_virtuals(&self.virtuals),
            dsp_settings: self.dsp_settings,
            effect_presets: duplicate_preset_map(&self.effect_presets),
            scenes: duplicate_scenes(&self.scenes),
            api_port: self.api_port,
        }
    }
}


/// Everything a scene holds, as one mathematical value.
pub open spec fn scene_view(s: Scene) -> (String, String, Seq<(String, SceneEffect)>) {
    (s.id, s.name, s.virtual_effects@)
}

/// Whether two scenes hold the same content.
pub open spec fn scene_eq(a: Scene, b: Scene) -> bool {
    scene_view(a) == scene_view(b)
}

/// The scenes of a list, as mathematical values.
pub open spec fn scenes_view(s: Seq<Scene>) -> Seq<(String, String, Seq<(String, SceneEffect)>)> {
    s.map_values(|x: Scene| scene_view(x))
}

/// The preset namespaces, as mathematical values.
pub open spec fn preset_map_view(m: Seq<(String, Vec<(String, EffectConfig)>)>) -> Seq<
    (String, Seq<(String, EffectConfig)>),
> {
    m.map_values(|p: (String, Vec<(String, EffectConfig)>)| (p.0, p.1@))
}

/// Everything an engine-state snapshot holds, as one mathematical value.
pub open spec fn state_view(st: EngineState) -> (
    Seq<Device>,
    Seq<(String, String, Seq<Seq<Option<MatrixCell>>>, Option<String>)>,
    DspSettings,
    Seq<(String, Seq<(String, EffectConfig)>)>,
    Seq<(String, String, Seq<(String, SceneEffect)>)>,
    u16,
) {
    (
        st.devices@,
        crate::types::virtuals_view(st.virtuals@),
        st.dsp_settings,
        preset_map_view(st.effect_presets@),
        scenes_view(st.scenes@),
        st.api_port,
    )
}

/// Whether two snapshots hold the same content.
pub open spec fn state_eq(a: EngineState, b: EngineState) -> bool {
    state_view(a) == state_view(b)
}

} // verus!
