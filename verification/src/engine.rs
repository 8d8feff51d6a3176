//! The render engine's state and its control plane: the commands and
//! requests other subsystems send, the events the engine emits back, and the
//! handler that applies each command to the engine's state.

use vstd::prelude::*;

verus! {

use crate::audio::AudioCommand;
use crate::dsp::DspSettings;
use crate::effects::{create_effect, spec_fresh_instance, EffectConfig, EffectInstance};
use crate::store::{
    duplicate_devices,
    duplicate_presets,
    duplicate_scenes,
    preset_map_view,
    scenes_view,
    state_view,
    EngineState,
    Scene,
    SceneEffect,
};
use crate::types::{str_eq, virtual_eq, virtuals_view, Device, MatrixCell, Virtual};

/// An effect kind, for display.
#[derive(Clone, Debug, PartialEq)]
pub struct EffectInfo {
    pub id: String,
    pub name: String,
}

/// Whether the engine is rendering or paused.
#[derive(Clone, Copy, Debug, PartialEq, Eq, Structural)]
pub struct PlaybackState {
    pub is_paused: bool,
}

/// The presets of one effect kind, user-saved and compiled-in.
#[derive(Clone, Debug, PartialEq)]
pub struct PresetCollection {
    pub user: Vec<(String, EffectConfig)>,
    pub built_in: Vec<(String, EffectConfig)>,
}

/// What a scene activation selected, keyed by surface.
#[derive(Clone, Debug, PartialEq)]
pub struct ActiveEffectsState {
    pub active_scene_id: Option<String>,
    pub selected_effects: Vec<(String, String)>,
    pub effect_settings: Vec<(String, Vec<(String, EffectConfig)>)>,
    pub active_effects: Vec<(String, bool)>,
}

/// A live surface: its configuration, the effect bound to it, and the
/// scratch channels the renderer works in.
pub struct ActiveVirtual {
    pub effect: Option<EffectInstance>,
    pub config: Virtual,
    pub pixel_count: usize,
    pub r_channel: Vec<u8>,
    pub g_channel: Vec<u8>,
    pub b_channel: Vec<u8>,
}

/// A fire-and-forget mutation of engine state.
pub enum EngineCommand {
    StartEffect { virtual_id: String, config: EffectConfig },
    StopEffect { virtual_id: String },
    UpdateSettings { virtual_id: String, settings: EffectConfig },
    AddVirtual { config: Virtual },
    UpdateVirtual { config: Virtual },
    RemoveVirtual { virtual_id: String },
    AddDevice { config: Device },
    RemoveDevice { device_ip: String },
    SetTargetFps { fps: u32 },
    UpdateDspSettings { settings: DspSettings },
    RestartAudioCapture,
    TogglePause,
    ReloadState,
    SavePreset { effect_id: String, preset_name: String, settings: EffectConfig },
    DeletePreset { effect_id: String, preset_name: String },
    SaveScene(Scene),
    DeleteScene(String),
    ActivateScene(String),
    SetApiPort(u16),
}

/// A read of engine state, or a mutation whose caller awaits durability.
pub enum EngineRequest {
    GetVirtuals,
    GetDevices,
    GetDspSettings,
    GetPlaybackState,
    GetPresets(String),
    GetScenes,
    GetFullState,
    SavePreset { effect_id: String, preset_name: String, settings: EffectConfig },
    DeletePreset { effect_id: String, preset_name: String },
}

/// The reply to one request.
pub enum EngineResponse {
    Virtuals(Vec<Virtual>),
    Devices(Vec<Device>),
    Dsp(DspSettings),
    Playback(PlaybackState),
    Presets(PresetCollection),
    Scenes(Vec<Scene>),
    FullState(EngineState),
    Ack,
}

/// A notification published to observers when state changes.
pub enum EngineEvent {
    VirtualsChanged(Vec<Virtual>),
    DevicesChanged(Vec<Device>),
    PlaybackStateChanged(PlaybackState),
    ScenesChanged(Vec<Scene>),
    DspSettingsChanged(DspSettings),
    SceneActivated(ActiveEffectsState),
    EngineTick(Vec<(String, Vec<u8>)>),
}

/// What the control surface host may be asked to do.
pub enum ApiCommand {
    Restart { port: u16 },
}

/// Everything one command hands back to the loop that runs the engine:
/// whether state must be persisted, the events to publish, the commands to
/// forward, and whether a reload from the store was requested.
pub struct CommandOutcome {
    pub dirty: bool,
    pub events: Vec<EngineEvent>,
    pub audio_commands: Vec<AudioCommand>,
    pub api_commands: Vec<ApiCommand>,
    pub wants_reload: bool,
}

/// The authoritative owner of all live engine state except the audio
/// snapshot.
pub struct Engine {
    pub devices: Vec<Device>,
    pub virtuals: Vec<ActiveVirtual>,
    pub dsp_settings: DspSettings,
    pub effect_presets: Vec<(String, Vec<(String, EffectConfig)>)>,
    pub scenes: Vec<Scene>,
    pub api_port: u16,
    pub is_paused: bool,
    pub frame_counter: u8,
    pub target_fps: u32,
}

/// The surface configurations of a live surface list.
pub open spec fn av_configs(s: Seq<ActiveVirtual>) -> Seq<Virtual> {
    s.map_values(|a: ActiveVirtual| a.config)
}

/// The first index whose key is `key` under the projection `f`, or -1.
pub open spec fn spec_find_key<T>(s: Seq<T>, key: Seq<char>, f: spec_fn(T) -> Seq<char>) -> int
    decreases s.len(),
{
    if s.len() == 0 {
        -1
    } else if f(s[0]) == key {
        0
    } else {
        let r = spec_find_key(s.drop_first(), key, f);
        if r < 0 {
            -1
        } else {
            r + 1
        }
    }
}

/// What `spec_find_key` yields: the first match, or -1 when nothing matches.
pub proof fn lemma_find_key_props<T>(s: Seq<T>, key: Seq<char>, f: spec_fn(T) -> Seq<char>)
    ensures
        ({
            let r = spec_find_key(s, key, f);
            &&& (r == -1 || (0 <= r < s.len()))
            &&& (r >= 0 ==> f(s[r]) == key && (forall|k: int| 0 <= k < r ==> f(#[trigger] s[k])
                != key))
            &&& (r == -1 ==> forall|k: int| 0 <= k < s.len() ==> f(#[trigger] s[k]) != key)
        }),
    decreases s.len(),
{
    if s.len() > 0 && f(s[0]) != key {
        let t = s.drop_first();
        lemma_find_key_props(t, key, f);
        let r = spec_find_key(s, key, f);
        let rt = spec_find_key(t, key, f);
        if rt >= 0 {
            assert(s[rt + 1] == t[rt]);
            assert forall|k: int| 0 <= k < r implies f(#[trigger] s[k]) != key by {
                if k > 0 {
                    assert(s[k] == t[k - 1]);
                }
            }
        } else {
            assert forall|k: int| 0 <= k < s.len() implies f(#[trigger] s[k]) != key by {
                if k > 0 {
                    assert(s[k] == t[k - 1]);
                }
            }
        }
    }
}

/// A first match determines `spec_find_key`.
pub proof fn lemma_find_key_is<T>(s: Seq<T>, key: Seq<char>, f: spec_fn(T) -> Seq<char>, i: int)
    requires
        0 <= i < s.len(),
        f(s[i]) == key,
        forall|k: int| 0 <= k < i ==> f(#[trigger] s[k]) != key,
    ensures
        spec_find_key(s, key, f) == i,
    decreases s.len(),
{
    if i > 0 {
        let t = s.drop_first();
        assert(f(t[i - 1]) == key) by {
            assert(t[i - 1] == s[i]);
        }
        assert forall|k: int| 0 <= k < i - 1 implies f(#[trigger] t[k]) != key by {
            assert(t[k] == s[k + 1]);
        }
        lemma_find_key_is(t, key, f, i - 1);
    }
}

/// No match anywhere determines `spec_find_key`.
pub proof fn lemma_find_key_none<T>(s: Seq<T>, key: Seq<char>, f: spec_fn(T) -> Seq<char>)
    requires
        forall|k: int| 0 <= k < s.len() ==> f(#[trigger] s[k]) != key,
    ensures
        spec_find_key(s, key, f) == -1,
    decreases s.len(),
{
    if s.len() > 0 {
        let t = s.drop_first();
        assert forall|k: int| 0 <= k < t.len() implies f(#[trigger] t[k]) != key by {
            assert(t[k] == s[k + 1]);
        }
        lemma_find_key_none(t, key, f);
    }
}

/// The list with `x` stored under its key: replaces the first entry with
/// that key, or appends.
pub open spec fn spec_upsert<T>(s: Seq<T>, x: T, f: spec_fn(T) -> Seq<char>) -> Seq<T> {
    let i = spec_find_key(s, f(x), f);
    if i >= 0 {
        s.update(i, x)
    } else {
        s.push(x)
    }
}

/// The first `upto` entries folded into a keyed list: every key once, the
/// last entry with a key winning, as a map built from the entries would
/// hold them.
pub open spec fn spec_dedup<T>(s: Seq<T>, upto: int, f: spec_fn(T) -> Seq<char>) -> Seq<T>
    decreases upto,
{
    if upto <= 0 {
        Seq::empty()
    } else {
        spec_upsert(spec_dedup(s, upto - 1, f), s[upto - 1], f)
    }
}

/// No two entries share a key.
pub open spec fn spec_keys_unique<T>(s: Seq<T>, f: spec_fn(T) -> Seq<char>) -> bool {
    forall|i: int, j: int| 0 <= i < j < s.len() ==> f(#[trigger] s[i]) != f(#[trigger] s[j])
}

/// An upsert keeps keys unique.
proof fn lemma_upsert_unique<T>(s: Seq<T>, x: T, f: spec_fn(T) -> Seq<char>)
    requires
        spec_keys_unique(s, f),
    ensures
        spec_keys_unique(spec_upsert(s, x, f), f),
{
    lemma_find_key_props(s, f(x), f);
    let out = spec_upsert(s, x, f);
    let at = spec_find_key(s, f(x), f);
    assert forall|i: int, j: int| 0 <= i < j < out.len() implies f(#[trigger] out[i]) != f(
        #[trigger] out[j],
    ) by {
        if at >= 0 {
            assert(forall|t: int| 0 <= t < s.len() && t != at ==> f(#[trigger] s[t]) != f(x));
        } else {
            assert(forall|t: int| 0 <= t < s.len() ==> f(#[trigger] s[t]) != f(x));
        }
    }
}

/// A dedup fold leaves keys unique.
pub proof fn lemma_dedup_unique<T>(s: Seq<T>, upto: int, f: spec_fn(T) -> Seq<char>)
    requires
        upto >= 0,
    ensures
        spec_keys_unique(spec_dedup(s, upto, f), f),
    decreases upto,
{
    if upto > 0 {
        lemma_dedup_unique(s, upto - 1, f);
        lemma_upsert_unique(spec_dedup(s, upto - 1, f), s[upto - 1], f);
    }
}

/// A list whose keys are already unique folds to itself.
pub proof fn lemma_dedup_identity<T>(s: Seq<T>, upto: int, f: spec_fn(T) -> Seq<char>)
    requires
        0 <= upto <= s.len(),
        spec_keys_unique(s, f),
    ensures
        spec_dedup(s, upto, f) == s.take(upto),
    decreases upto,
{
    if upto > 0 {
        lemma_dedup_identity(s, upto - 1, f);
        let prevd = spec_dedup(s, upto - 1, f);
        assert(prevd == s.take(upto - 1));
        assert forall|t: int| 0 <= t < prevd.len() implies f(#[trigger] prevd[t]) != f(
            s[upto - 1],
        ) by {
            assert(prevd[t] == s[t]);
        }
        lemma_find_key_none(prevd, f(s[upto - 1]), f);
        assert(spec_upsert(prevd, s[upto - 1], f) =~= s.take(upto));
    }
}

/// The key of a device: its address.
pub open spec fn device_key() -> spec_fn(Device) -> Seq<char> {
    |d: Device| d.ip_address@
}

/// The key of a live surface: its configuration's identifier.
pub open spec fn av_key() -> spec_fn(ActiveVirtual) -> Seq<char> {
    |a: ActiveVirtual| a.config.id@
}

/// The key of a scene: its identifier.
pub open spec fn scene_key() -> spec_fn(Scene) -> Seq<char> {
    |s: Scene| s.id@
}

/// The key of a preset namespace: the effect identifier.
pub open spec fn ns_key() -> spec_fn((String, Vec<(String, EffectConfig)>)) -> Seq<char> {
    |p: (String, Vec<(String, EffectConfig)>)| p.0@
}

/// The key of a preset: its name.
pub open spec fn preset_key() -> spec_fn((String, EffectConfig)) -> Seq<char> {
    |p: (String, EffectConfig)| p.0@
}

/// The index of the device at `ip`, if one is configured.
pub fn find_device(devices: &Vec<Device>, ip: &str) -> (r: Option<usize>)
    ensures
        match r {
            Some(i) => i < devices@.len() && spec_find_key(devices@, ip@, device_key()) == i,
            None => spec_find_key(devices@, ip@, device_key()) == -1,
        },
{
    let mut i: usize = 0;
    while i < devices.len()
        invariant
            i <= devices@.len(),
            forall|k: int| 0 <= k < i ==> (#[trigger] devices@[k]).ip_address@ != ip@,
        decreases devices@.len() - i,
    {
        if str_eq(devices[i].ip_address.as_str(), ip) {
            proof {
                lemma_find_key_is(devices@, ip@, device_key(), i as int);
            }
            return Some(i);
        }
        i += 1;
    }
    proof {
        lemma_find_key_none(devices@, ip@, device_key());
    }
    None
}

/// The index of the live surface with identifier `id`, if one exists.
pub fn find_virtual(virtuals: &Vec<ActiveVirtual>, id: &str) -> (r: Option<usize>)
    ensures
        match r {
            Some(i) => i < virtuals@.len() && spec_find_key(virtuals@, id@, av_key()) == i,
            None => spec_find_key(virtuals@, id@, av_key()) == -1,
        },
{
    let mut i: usize = 0;
    while i < virtuals.len()
        invariant
            i <= virtuals@.len(),
            forall|k: int| 0 <= k < i ==> (#[trigger] virtuals@[k]).config.id@ != id@,
        decreases virtuals@.len() - i,
    {
        if str_eq(virtuals[i].config.id.as_str(), id) {
            proof {
                lemma_find_key_is(virtuals@, id@, av_key(), i as int);
            }
            return Some(i);
        }
        i += 1;
    }
    proof {
        lemma_find_key_none(virtuals@, id@, av_key());
    }
    None
}

/// The index of the scene with identifier `id`, if one is stored.
pub fn find_scene(scenes: &Vec<Scene>, id: &str) -> (r: Option<usize>)
    ensures
        match r {
            Some(i) => i < scenes@.len() && spec_find_key(scenes@, id@, scene_key()) == i,
            None => spec_find_key(scenes@, id@, scene_key()) == -1,
        },
{
    let mut i: usize = 0;
    while i < scenes.len()
        invariant
            i <= scenes@.len(),
            forall|k: int| 0 <= k < i ==> (#[trigger] scenes@[k]).id@ != id@,
        decreases scenes@.len() - i,
    {
        if str_eq(scenes[i].id.as_str(), id) {
            proof {
                lemma_find_key_is(scenes@, id@, scene_key(), i as int);
            }
            return Some(i);
        }
        i += 1;
    }
    proof {
        lemma_find_key_none(scenes@, id@, scene_key());
    }
    None
}

/// The index of an effect kind's preset namespace, if one exists.
pub fn find_namespace(map: &Vec<(String, Vec<(String, EffectConfig)>)>, effect_id: &str) -> (r:
    Option<usize>)
    ensures
        match r {
            Some(i) => i < map@.len() && spec_find_key(map@, effect_id@, ns_key()) == i,
            None => spec_find_key(map@, effect_id@, ns_key()) == -1,
        },
{
    let mut i: usize = 0;
    while i < map.len()
        invariant
            i <= map@.len(),
            forall|k: int| 0 <= k < i ==> (#[trigger] map@[k]).0@ != effect_id@,
        decreases map@.len() - i,
    {
        if str_eq(map[i].0.as_str(), effect_id) {
            proof {
                lemma_find_key_is(map@, effect_id@, ns_key(), i as int);
            }
            return Some(i);
        }
        i += 1;
    }
    proof {
        lemma_find_key_none(map@, effect_id@, ns_key());
    }
    None
}

/// The index of a named preset in one namespace, if it exists.
pub fn find_preset(presets: &Vec<(String, EffectConfig)>, name: &str) -> (r: Option<usize>)
    ensures
        match r {
            Some(i) => i < presets@.len() && spec_find_key(presets@, name@, preset_key()) == i,
            None => spec_find_key(presets@, name@, preset_key()) == -1,
        },
{
    let mut i: usize = 0;
    while i < presets.len()
        invariant
            i <= presets@.len(),
            forall|k: int| 0 <= k < i ==> (#[trigger] presets@[k]).0@ != name@,
        decreases presets@.len() - i,
    {
        if str_eq(presets[i].0.as_str(), name) {
            proof {
                lemma_find_key_is(presets@, name@, preset_key(), i as int);
            }
            return Some(i);
        }
        i += 1;
    }
    proof {
        lemma_find_key_none(presets@, name@, preset_key());
    }
    None
}

/// The key of a stored surface: its identifier.
pub open spec fn virtual_key() -> spec_fn(Virtual) -> Seq<char> {
    |v: Virtual| v.id@
}

/// The index of the stored surface with identifier `id`, if one exists.
fn find_virtual_config(virtuals: &Vec<Virtual>, id: &str) -> (r: Option<usize>)
    ensures
        match r {
            Some(i) => i < virtuals@.len() && spec_find_key(virtuals@, id@, virtual_key()) == i,
            None => spec_find_key(virtuals@, id@, virtual_key()) == -1,
        },
{
    let mut i: usize = 0;
    while i < virtuals.len()
        invariant
            i <= virtuals@.len(),
            forall|k: int| 0 <= k < i ==> (#[trigger] virtuals@[k]).id@ != id@,
        decreases virtuals@.len() - i,
    {
        if str_eq(virtuals[i].id.as_str(), id) {
            proof {
                lemma_find_key_is(virtuals@, id@, virtual_key(), i as int);
            }
            return Some(i);
        }
        i += 1;
    }
    proof {
        lemma_find_key_none(virtuals@, id@, virtual_key());
    }
    None
}

/// Folds stored devices into a keyed list, the last entry per address
/// winning, as the persisted map held them.
fn dedup_devices(src: Vec<Device>) -> (out: Vec<Device>)
    ensures
        out@ == spec_dedup(src@, src@.len() as int, device_key()),
        spec_keys_unique(out@, device_key()),
{
    proof {
        lemma_dedup_unique(src@, src@.len() as int, device_key());
    }
    let ghost srcv = src@;
    let total = src.len();
    let mut rest = src;
    let mut out: Vec<Device> = Vec::new();
    let mut i: usize = 0;
    proof {
        assert(srcv.skip(0) =~= srcv);
    }
    while rest.len() > 0
        invariant
            i <= total,
            total == srcv.len(),
            rest@ == srcv.skip(i as int),
            out@ == spec_dedup(srcv, i as int, device_key()),
        decreases rest@.len(),
    {
        proof {
            assert(srcv.skip(i as int)[0] == srcv[i as int]);
            assert(srcv.skip(i as int).drop_first() =~= srcv.skip(i + 1));
        }
        let x = rest.remove(0);
        match find_device(&out, x.ip_address.as_str()) {
            Some(at) => {
                out.set(at, x);
            },
            None => {
                out.push(x);
            },
        }
        i += 1;
    }
    out
}

/// Folds stored surfaces into a keyed list, the last entry per identifier
/// winning.
fn dedup_virtuals(src: Vec<Virtual>) -> (out: Vec<Virtual>)
    ensures
        out@ == spec_dedup(src@, src@.len() as int, virtual_key()),
        spec_keys_unique(out@, virtual_key()),
{
    proof {
        lemma_dedup_unique(src@, src@.len() as int, virtual_key());
    }
    let ghost srcv = src@;
    let total = src.len();
    let mut rest = src;
    let mut out: Vec<Virtual> = Vec::new();
    let mut i: usize = 0;
    proof {
        assert(srcv.skip(0) =~= srcv);
    }
    while rest.len() > 0
        invariant
            i <= total,
            total == srcv.len(),
            rest@ == srcv.skip(i as int),
            out@ == spec_dedup(srcv, i as int, virtual_key()),
        decreases rest@.len(),
    {
        proof {
            assert(srcv.skip(i as int)[0] == srcv[i as int]);
            assert(srcv.skip(i as int).drop_first() =~= srcv.skip(i + 1));
        }
        let x = rest.remove(0);
        match find_virtual_config(&out, x.id.as_str()) {
            Some(at) => {
                out.set(at, x);
            },
            None => {
                out.push(x);
            },
        }
        i += 1;
    }
    out
}

/// Folds stored scenes into a keyed list, the last entry per identifier
/// winning.
fn dedup_scenes(src: Vec<Scene>) -> (out: Vec<Scene>)
    ensures
        out@ == spec_dedup(src@, src@.len() as int, scene_key()),
        spec_keys_unique(out@, scene_key()),
{
    proof {
        lemma_dedup_unique(src@, src@.len() as int, scene_key());
    }
    let ghost srcv = src@;
    let total = src.len();
    let mut rest = src;
    let mut out: Vec<Scene> = Vec::new();
    let mut i: usize = 0;
    proof {
        assert(srcv.skip(0) =~= srcv);
    }
    while rest.len() > 0
        invariant
            i <= total,
            total == srcv.len(),
            rest@ == srcv.skip(i as int),
            out@ == spec_dedup(srcv, i as int, scene_key()),
        decreases rest@.len(),
    {
        proof {
            assert(srcv.skip(i as int)[0] == srcv[i as int]);
            assert(srcv.skip(i as int).drop_first() =~= srcv.skip(i + 1));
        }
        let x = rest.remove(0);
        match find_scene(&out, x.id.as_str()) {
            Some(at) => {
                out.set(at, x);
            },
            None => {
                out.push(x);
            },
        }
        i += 1;
    }
    out
}

/// Folds one kind's stored presets into a keyed list, the last entry per
/// name winning.
fn dedup_presets(src: Vec<(String, EffectConfig)>) -> (out: Vec<(String, EffectConfig)>)
    ensures
        out@ == spec_dedup(src@, src@.len() as int, preset_key()),
        spec_keys_unique(out@, preset_key()),
{
    proof {
        lemma_dedup_unique(src@, src@.len() as int, preset_key());
    }
    let ghost srcv = src@;
    let total = src.len();
    let mut rest = src;
    let mut out: Vec<(String, EffectConfig)> = Vec::new();
    let mut i: usize = 0;
    proof {
        assert(srcv.skip(0) =~= srcv);
    }
    while rest.len() > 0
        invariant
            i <= total,
            total == srcv.len(),
            rest@ == srcv.skip(i as int),
            out@ == spec_dedup(srcv, i as int, preset_key()),
        decreases rest@.len(),
    {
        proof {
            assert(srcv.skip(i as int)[0] == srcv[i as int]);
            assert(srcv.skip(i as int).drop_first() =~= srcv.skip(i + 1));
        }
        let x = rest.remove(0);
        match find_preset(&out, x.0.as_str()) {
            Some(at) => {
                out.set(at, x);
            },
            None => {
                out.push(x);
            },
        }
        i += 1;
    }
    out
}

/// Folds the stored preset namespaces into a keyed list, the last entry
/// per effect kind winning, then folds each kind's presets likewise.
fn dedup_preset_map(src: Vec<(String, Vec<(String, EffectConfig)>)>) -> (out: Vec<
    (String, Vec<(String, EffectConfig)>),
>)
    ensures
        ({
            let d = spec_dedup(src@, src@.len() as int, ns_key());
            &&& out@.len() == d.len()
            &&& forall|i: int|
                0 <= i < d.len() ==> (#[trigger] out@[i]).0 == d[i].0 && out@[i].1@ == spec_dedup(
                    d[i].1@,
                    d[i].1@.len() as int,
                    preset_key(),
                )
        }),
        spec_keys_unique(out@, ns_key()),
        forall|i: int|
            0 <= i < out@.len() ==> spec_keys_unique((#[trigger] out@[i]).1@, preset_key()),
{
    proof {
        lemma_dedup_unique(src@, src@.len() as int, ns_key());
    }
    let ghost srcv = src@;
    let total = src.len();
    let mut rest = src;
    let mut ns: Vec<(String, Vec<(String, EffectConfig)>)> = Vec::new();
    let mut i: usize = 0;
    proof {
        assert(srcv.skip(0) =~= srcv);
    }
    while rest.len() > 0
        invariant
            i <= total,
            total == srcv.len(),
            rest@ == srcv.skip(i as int),
            ns@ == spec_dedup(srcv, i as int, ns_key()),
        decreases rest@.len(),
    {
        proof {
            assert(srcv.skip(i as int)[0] == srcv[i as int]);
            assert(srcv.skip(i as int).drop_first() =~= srcv.skip(i + 1));
        }
        let x = rest.remove(0);
        match find_namespace(&ns, x.0.as_str()) {
            Some(at) => {
                ns.set(at, x);
            },
            None => {
                ns.push(x);
            },
        }
        i += 1;
    }
    let ghost d = ns@;
    let dn = ns.len();
    let mut rest2 = ns;
    let mut out: Vec<(String, Vec<(String, EffectConfig)>)> = Vec::new();
    let mut j: usize = 0;
    proof {
        assert(d.skip(0) =~= d);
    }
    while rest2.len() > 0
        invariant
            j <= dn,
            dn == d.len(),
            rest2@ == d.skip(j as int),
            out@.len() == j,
            forall|t: int|
                0 <= t < j ==> (#[trigger] out@[t]).0 == d[t].0 && out@[t].1@ == spec_dedup(
                    d[t].1@,
                    d[t].1@.len() as int,
                    preset_key(),
                ),
            forall|t: int|
                0 <= t < j ==> spec_keys_unique((#[trigger] out@[t]).1@, preset_key()),
        decreases rest2@.len(),
    {
        proof {
            assert(d.skip(j as int)[0] == d[j as int]);
            assert(d.skip(j as int).drop_first() =~= d.skip(j + 1));
        }
        let (id, inner) = rest2.remove(0);
        out.push((id, dedup_presets(inner)));
        j += 1;
    }
    proof {
        assert forall|a: int, b: int| 0 <= a < b < out@.len() implies ns_key()(
            #[trigger] out@[a],
        ) != ns_key()(#[trigger] out@[b]) by {
            assert(out@[a].0 == d[a].0 && out@[b].0 == d[b].0);
        }
    }
    out
}

/// The last entry of a scene that references surface `key`, or -1.
pub open spec fn spec_last_key(entries: Seq<(String, SceneEffect)>, key: Seq<char>) -> int
    decreases entries.len(),
{
    if entries.len() == 0 {
        -1
    } else if entries.last().0@ == key {
        entries.len() - 1
    } else {
        spec_last_key(entries.drop_last(), key)
    }
}

/// A byte channel of `n` zeroes.
pub fn zero_channel(n: usize) -> (out: Vec<u8>)
    ensures
        out@.len() == n,
        forall|k: int| 0 <= k < n ==> (#[trigger] out@[k]) == 0,
{
    let mut out: Vec<u8> = Vec::new();
    let mut i: usize = 0;
    while i < n
        invariant
            i <= n,
            out@.len() == i,
            forall|k: int| 0 <= k < i ==> (#[trigger] out@[k]) == 0,
        decreases n - i,
    {
        out.push(0);
        i += 1;
    }
    out
}

/// Whether `v` is the passthrough surface of device `d`: identifier
/// `device_` followed by the address, one row mapping pixel `j` to cell `j`.
pub open spec fn is_passthrough_for(v: Virtual, d: Device) -> bool {
    &&& v.id@ == "device_"@ + d.ip_address@
    &&& v.name@ == d.name@
    &&& (v.is_device matches Some(ip) && ip@ == d.ip_address@)
    &&& v.matrix_data@.len() == 1
    &&& v.matrix_data@[0]@.len() == d.led_count
    &&& forall|j: int|
        0 <= j < d.led_count ==> ((#[trigger] v.matrix_data@[0]@[j]) matches Some(c)
            && c.device_id@ == d.ip_address@ && c.pixel == j)
}

/// Builds the passthrough surface of a device.
fn make_passthrough(config: &Device) -> (av: ActiveVirtual)
    ensures
        av.effect is None,
        is_passthrough_for(av.config, *config),
        av.pixel_count == config.led_count,
        channels_zeroed(av),
{
    let n = config.led_count as usize;
    let mut row: Vec<Option<MatrixCell>> = Vec::new();
    let mut j: usize = 0;
    while j < n
        invariant
            j <= n,
            n == config.led_count,
            row@.len() == j,
            forall|k: int|
                0 <= k < j ==> ((#[trigger] row@[k]) matches Some(c) && c.device_id@
                    == config.ip_address@ && c.pixel == k),
        decreases n - j,
    {
        row.push(Some(MatrixCell { device_id: config.ip_address.clone(), pixel: j as u32 }));
        j += 1;
    }
    let mut grid: Vec<Vec<Option<MatrixCell>>> = Vec::new();
    grid.push(row);
    let vid = "device_".to_owned().concat(config.ip_address.as_str());
    let v = Virtual {
        id: vid,
        name: config.name.clone(),
        matrix_data: grid,
        is_device: Some(config.ip_address.clone()),
    };
    ActiveVirtual {
        effect: None,
        config: v,
        pixel_count: n,
        r_channel: zero_channel(n),
        g_channel: zero_channel(n),
        b_channel: zero_channel(n),
    }
}

/// A copy of the surface configurations of the live surfaces.
pub fn collect_virtual_configs(virtuals: &Vec<ActiveVirtual>) -> (out: Vec<Virtual>)
    ensures
        virtuals_view(out@) == virtuals_view(av_configs(virtuals@)),
{
    let mut out: Vec<Virtual> = Vec::new();
    let mut i: usize = 0;
    while i < virtuals.len()
        invariant
            i <= virtuals@.len(),
            out@.len() == i,
            forall|k: int| 0 <= k < i ==> virtual_eq(#[trigger] out@[k], virtuals@[k].config),
        decreases virtuals@.len() - i,
    {
        out.push(virtuals[i].config.duplicate());
        i += 1;
    }
    proof {
        assert(virtuals_view(out@) =~= virtuals_view(av_configs(virtuals@)));
    }
    out
}

impl Engine {
    /// An engine whose live state mirrors the snapshot `st`: each keyed
    /// list is folded so that every key appears once with its last stored
    /// entry, as the persisted maps held them; every stored surface comes
    /// up with no effect bound and scratch channels sized to its grid
    /// (saturated at the addressable limit); playback running, the frame
    /// counter at zero, sixty frames per second.
    pub fn import_state(st: EngineState) -> (e: Engine)
        ensures
            e.devices@ == spec_dedup(st.devices@, st.devices@.len() as int, device_key()),
            av_import_ok(
                spec_dedup(st.virtuals@, st.virtuals@.len() as int, virtual_key()),
                e.virtuals@,
            ),
            e.dsp_settings == st.dsp_settings,
            ({
                let d = spec_dedup(st.effect_presets@, st.effect_presets@.len() as int, ns_key());
                &&& e.effect_presets@.len() == d.len()
                &&& forall|i: int|
                    0 <= i < d.len() ==> (#[trigger] e.effect_presets@[i]).0 == d[i].0
                        && e.effect_presets@[i].1@ == spec_dedup(
                        d[i].1@,
                        d[i].1@.len() as int,
                        preset_key(),
                    )
            }),
            e.scenes@ == spec_dedup(st.scenes@, st.scenes@.len() as int, scene_key()),
            e.api_port == st.api_port,
            !e.is_paused,
            e.frame_counter == 0,
            e.target_fps == 60,
            spec_keys_unique(e.devices@, device_key()),
            spec_keys_unique(e.virtuals@, av_key()),
            spec_keys_unique(e.scenes@, scene_key()),
            spec_keys_unique(e.effect_presets@, ns_key()),
            forall|i: int|
                0 <= i < e.effect_presets@.len() ==> spec_keys_unique(
                    (#[trigger] e.effect_presets@[i]).1@,
                    preset_key(),
                ),
    {
        let EngineState { devices, virtuals, dsp_settings, effect_presets, scenes, api_port } = st;
        let devices = dedup_devices(devices);
        let virtuals = dedup_virtuals(virtuals);
        let effect_presets = dedup_preset_map(effect_presets);
        let scenes = dedup_scenes(scenes);
        let total = virtuals.len();
        let mut avs: Vec<ActiveVirtual> = Vec::new();
        let mut i: usize = 0;
        let ghost src = virtuals@;
        let mut rest = virtuals;
        proof {
            assert(src.skip(0) =~= src);
        }
        while rest.len() > 0
            invariant
                i <= total,
                total == src.len(),
                rest@ == src.skip(i as int),
                avs@.len() == i,
                forall|k: int| 0 <= k < i ==> av_imported(src[k], #[trigger] avs@[k]),
            decreases rest@.len(),
        {
            proof {
                assert(src.skip(i as int)[0] == src[i as int]);
                assert(src.skip(i as int).drop_first() =~= src.skip(i + 1));
            }
            let v = rest.remove(0);
            let pc = crate::types::pixel_count_capped(&v);
            avs.push(
                ActiveVirtual {
                    effect: None,
                    config: v,
                    pixel_count: pc,
                    r_channel: zero_channel(pc),
                    g_channel: zero_channel(pc),
                    b_channel: zero_channel(pc),
                },
            );
            i += 1;
        }
        proof {
            assert forall|a: int, b: int| 0 <= a < b < avs@.len() implies av_key()(
                #[trigger] avs@[a],
            ) != av_key()(#[trigger] avs@[b]) by {
                assert(avs@[a].config.id@ == src[a].id@ && avs@[b].config.id@ == src[b].id@);
            }
        }
        Engine {
            devices,
            virtuals: avs,
            dsp_settings,
            effect_presets,
            scenes,
            api_port,
            is_paused: false,
            frame_counter: 0,
            target_fps: 60,
        }
    }

    /// The snapshot of this engine's state, as the persistence layer stores
    /// it.
    pub fn export_state(&self) -> (st: EngineState)
        ensures
            st.devices@ == self.devices@,
            virtuals_view(st.virtuals@) == virtuals_view(av_configs(self.virtuals@)),
            st.dsp_settings == self.dsp_settings,
            preset_map_view(st.effect_presets@) == preset_map_view(self.effect_presets@),
            scenes_view(st.scenes@) == scenes_view(self.scenes@),
            st.api_port == self.api_port,
    {
        EngineState {
            devices: duplicate_devices(&self.devices),
            virtuals: collect_virtual_configs(&self.virtuals),
            dsp_settings: self.dsp_settings,
            effect_presets: crate::store::duplicate_preset_map(&self.effect_presets),
            scenes: duplicate_scenes(&self.scenes),
            api_port: self.api_port,
        }
    }
}

/// Surface `av` is the live form of stored surface `v`: same content, no
/// effect, channels zeroed at the grid's (saturated) pixel count.
pub open spec fn av_imported(v: Virtual, av: ActiveVirtual) -> bool {
    &&& virtual_eq(av.config, v)
    &&& av.effect is None
    &&& av.pixel_count == crate::types::spec_cap_pc(crate::types::spec_pixel_count(v))
    &&& channels_zeroed(av)
}

/// The scratch channels of a surface are zeroed at its pixel count.
pub open spec fn channels_zeroed(av: ActiveVirtual) -> bool {
    &&& av.r_channel@.len() == av.pixel_count
    &&& av.g_channel@.len() == av.pixel_count
    &&& av.b_channel@.len() == av.pixel_count
    &&& forall|t: int| 0 <= t < av.pixel_count ==> (#[trigger] av.r_channel@[t]) == 0
    &&& forall|t: int| 0 <= t < av.pixel_count ==> (#[trigger] av.g_channel@[t]) == 0
    &&& forall|t: int| 0 <= t < av.pixel_count ==> (#[trigger] av.b_channel@[t]) == 0
}

/// The live surfaces `avs` are the imported form of stored surfaces `vs`.
pub open spec fn av_import_ok(vs: Seq<Virtual>, avs: Seq<ActiveVirtual>) -> bool {
    avs.len() == vs.len() && forall|k: int| 0 <= k < vs.len() ==> av_imported(vs[k], #[trigger] avs[k])
}

/// Every keyed list of a snapshot holds each key once; what any snapshot
/// the persisted maps can represent satisfies.
pub open spec fn st_keys_unique(st: EngineState) -> bool {
    &&& spec_keys_unique(st.devices@, device_key())
    &&& spec_keys_unique(st.virtuals@, virtual_key())
    &&& spec_keys_unique(st.scenes@, scene_key())
    &&& spec_keys_unique(st.effect_presets@, ns_key())
    &&& forall|i: int|
        0 <= i < st.effect_presets@.len() ==> spec_keys_unique(
            (#[trigger] st.effect_presets@[i]).1@,
            preset_key(),
        )
}

/// Loading a snapshot back gives the snapshot: an engine imported from a
/// snapshot whose keys are unique — the only kind the persisted maps can
/// hold — exports a snapshot with the same content.
pub proof fn lemma_persistence_round_trip(st: EngineState, e: Engine, out: EngineState)
    requires
        st_keys_unique(st),
        e.devices@ == spec_dedup(st.devices@, st.devices@.len() as int, device_key()),
        av_import_ok(
            spec_dedup(st.virtuals@, st.virtuals@.len() as int, virtual_key()),
            e.virtuals@,
        ),
        e.dsp_settings == st.dsp_settings,
        ({
            let d = spec_dedup(st.effect_presets@, st.effect_presets@.len() as int, ns_key());
            &&& e.effect_presets@.len() == d.len()
            &&& forall|i: int|
                0 <= i < d.len() ==> (#[trigger] e.effect_presets@[i]).0 == d[i].0
                    && e.effect_presets@[i].1@ == spec_dedup(
                    d[i].1@,
                    d[i].1@.len() as int,
                    preset_key(),
                )
        }),
        e.scenes@ == spec_dedup(st.scenes@, st.scenes@.len() as int, scene_key()),
        e.api_port == st.api_port,
        out.devices@ == e.devices@,
        virtuals_view(out.virtuals@) == virtuals_view(av_configs(e.virtuals@)),
        out.dsp_settings == e.dsp_settings,
        preset_map_view(out.effect_presets@) == preset_map_view(e.effect_presets@),
        scenes_view(out.scenes@) == scenes_view(e.scenes@),
        out.api_port == e.api_port,
    ensures
        crate::store::state_eq(out, st),
{
    lemma_dedup_identity(st.devices@, st.devices@.len() as int, device_key());
    assert(st.devices@.take(st.devices@.len() as int) =~= st.devices@);
    lemma_dedup_identity(st.virtuals@, st.virtuals@.len() as int, virtual_key());
    assert(st.virtuals@.take(st.virtuals@.len() as int) =~= st.virtuals@);
    lemma_dedup_identity(st.scenes@, st.scenes@.len() as int, scene_key());
    assert(st.scenes@.take(st.scenes@.len() as int) =~= st.scenes@);
    lemma_dedup_identity(st.effect_presets@, st.effect_presets@.len() as int, ns_key());
    assert(st.effect_presets@.take(st.effect_presets@.len() as int) =~= st.effect_presets@);
    assert forall|i: int| 0 <= i < st.effect_presets@.len() implies (
    #[trigger] e.effect_presets@[i]).0 == st.effect_presets@[i].0 && e.effect_presets@[i].1@
        == st.effect_presets@[i].1@ by {
        let inner = st.effect_presets@[i].1@;
        lemma_dedup_identity(inner, inner.len() as int, preset_key());
        assert(inner.take(inner.len() as int) =~= inner);
    }
    assert(preset_map_view(e.effect_presets@) =~= preset_map_view(st.effect_presets@));
    assert(virtuals_view(av_configs(e.virtuals@)) =~= virtuals_view(st.virtuals@));
    assert(scenes_view(e.scenes@) =~= scenes_view(st.scenes@));
    assert(state_view(out) =~= state_view(st));
}


/// An outcome that changes nothing outside the engine.
fn outcome_plain() -> (out: CommandOutcome)
    ensures
        !out.dirty,
        out.events@.len() == 0,
        out.audio_commands@.len() == 0,
        out.api_commands@.len() == 0,
        !out.wants_reload,
{
    CommandOutcome {
        dirty: false,
        events: Vec::new(),
        audio_commands: Vec::new(),
        api_commands: Vec::new(),
        wants_reload: false,
    }
}

/// No events, no forwarded commands, no reload.
pub open spec fn out_quiet(out: CommandOutcome) -> bool {
    &&& out.events@.len() == 0
    &&& out.audio_commands@.len() == 0
    &&& out.api_commands@.len() == 0
    &&& !out.wants_reload
}

/// The two events a device change publishes: the device list, then the
/// surface list.
pub open spec fn out_device_events(out: CommandOutcome, post: Engine) -> bool {
    &&& out.events@.len() == 2
    &&& (out.events@[0] matches EngineEvent::DevicesChanged(l) && l@ == post.devices@)
    &&& (out.events@[1] matches EngineEvent::VirtualsChanged(l) && virtuals_view(l@)
        == virtuals_view(av_configs(post.virtuals@)))
    &&& out.audio_commands@.len() == 0
    &&& out.api_commands@.len() == 0
    &&& !out.wants_reload
}

/// The one event a surface change publishes: the surface list.
pub open spec fn out_virtual_events(out: CommandOutcome, post: Engine) -> bool {
    &&& out.events@.len() == 1
    &&& (out.events@[0] matches EngineEvent::VirtualsChanged(l) && virtuals_view(l@)
        == virtuals_view(av_configs(post.virtuals@)))
    &&& out.audio_commands@.len() == 0
    &&& out.api_commands@.len() == 0
    &&& !out.wants_reload
}

/// Surface `k` of `post` matches surface `k` of `pre` except possibly for
/// its effect binding.
pub open spec fn av_same_shape(pre: Seq<ActiveVirtual>, post: Seq<ActiveVirtual>) -> bool {
    &&& post.len() == pre.len()
    &&& forall|k: int|
        0 <= k < pre.len() ==> (#[trigger] post[k]).config == pre[k].config && post[k].pixel_count
            == pre[k].pixel_count && post[k].r_channel == pre[k].r_channel && post[k].g_channel
            == pre[k].g_channel && post[k].b_channel == pre[k].b_channel
}

/// How `AddDevice` moves the engine: the device is stored under its
/// address, and a passthrough surface for it is created or replaced with
/// fresh zeroed channels.
pub open spec fn effect_add_device(pre: Engine, d: Device, post: Engine, out: CommandOutcome) -> bool {
    let didx = spec_find_key(pre.devices@, d.ip_address@, device_key());
    let vid = "device_"@ + d.ip_address@;
    let vidx = spec_find_key(pre.virtuals@, vid, av_key());
    &&& post.devices@ == (if didx >= 0 {
        pre.devices@.update(didx, d)
    } else {
        pre.devices@.push(d)
    })
    &&& ({
        let n = pre.virtuals@.len() as int;
        let at = if vidx >= 0 {
            vidx
        } else {
            n
        };
        &&& post.virtuals@.len() == (if vidx >= 0 {
            n
        } else {
            n + 1
        })
        &&& forall|k: int|
            0 <= k < post.virtuals@.len() && k != at ==> (#[trigger] post.virtuals@[k])
                == pre.virtuals@[k]
        &&& post.virtuals@[at].effect is None
        &&& is_passthrough_for(post.virtuals@[at].config, d)
        &&& post.virtuals@[at].pixel_count == d.led_count
        &&& channels_zeroed(post.virtuals@[at])
    })
    &&& post.dsp_settings == pre.dsp_settings
    &&& post.effect_presets == pre.effect_presets
    &&& post.scenes == pre.scenes
    &&& post.api_port == pre.api_port
    &&& post.is_paused == pre.is_paused
    &&& post.frame_counter == pre.frame_counter
    &&& post.target_fps == pre.target_fps
    &&& out.dirty
    &&& out_device_events(out, post)
}

/// How `RemoveDevice` moves the engine: the device at the address and its
/// passthrough surface are dropped.
pub open spec fn effect_remove_device(
    pre: Engine,
    ip: Seq<char>,
    post: Engine,
    out: CommandOutcome,
) -> bool {
    let didx = spec_find_key(pre.devices@, ip, device_key());
    let vid = "device_"@ + ip;
    let vidx = spec_find_key(pre.virtuals@, vid, av_key());
    &&& post.devices@ == (if didx >= 0 {
        pre.devices@.remove(didx)
    } else {
        pre.devices@
    })
    &&& post.virtuals@ == (if vidx >= 0 {
        pre.virtuals@.remove(vidx)
    } else {
        pre.virtuals@
    })
    &&& post.dsp_settings == pre.dsp_settings
    &&& post.effect_presets == pre.effect_presets
    &&& post.scenes == pre.scenes
    &&& post.api_port == pre.api_port
    &&& post.is_paused == pre.is_paused
    &&& post.frame_counter == pre.frame_counter
    &&& post.target_fps == pre.target_fps
    &&& out.dirty
    &&& out_device_events(out, post)
}

/// How `AddVirtual` moves the engine: the surface is stored under its
/// identifier with no effect bound and fresh zeroed channels.
pub open spec fn effect_add_virtual(pre: Engine, v: Virtual, post: Engine, out: CommandOutcome) -> bool {
    let pc = crate::types::spec_cap_pc(crate::types::spec_pixel_count(v));
    let vidx = spec_find_key(pre.virtuals@, v.id@, av_key());
    let n = pre.virtuals@.len() as int;
    let at = if vidx >= 0 {
        vidx
    } else {
        n
    };
    &&& post.virtuals@.len() == (if vidx >= 0 {
        n
    } else {
        n + 1
    })
    &&& forall|k: int|
        0 <= k < post.virtuals@.len() && k != at ==> (#[trigger] post.virtuals@[k])
            == pre.virtuals@[k]
    &&& post.virtuals@[at].effect is None
    &&& post.virtuals@[at].config == v
    &&& post.virtuals@[at].pixel_count == pc
    &&& channels_zeroed(post.virtuals@[at])
    &&& post.devices == pre.devices
    &&& post.dsp_settings == pre.dsp_settings
    &&& post.effect_presets == pre.effect_presets
    &&& post.scenes == pre.scenes
    &&& post.api_port == pre.api_port
    &&& post.is_paused == pre.is_paused
    &&& post.frame_counter == pre.frame_counter
    &&& post.target_fps == pre.target_fps
    &&& out.dirty
    &&& out_virtual_events(out, post)
}

/// How `UpdateVirtual` moves the engine: an existing surface takes the new
/// grid, its channels are rebuilt zeroed at the new pixel count, its effect
/// binding is kept; an unknown identifier changes no surface.
pub open spec fn effect_update_virtual(
    pre: Engine,
    v: Virtual,
    post: Engine,
    out: CommandOutcome,
) -> bool {
    let pc = crate::types::spec_cap_pc(crate::types::spec_pixel_count(v));
    let vidx = spec_find_key(pre.virtuals@, v.id@, av_key());
    &&& (if vidx >= 0 {
        &&& post.virtuals@.len() == pre.virtuals@.len()
        &&& forall|k: int|
            0 <= k < post.virtuals@.len() && k != vidx ==> (#[trigger] post.virtuals@[k])
                == pre.virtuals@[k]
        &&& post.virtuals@[vidx].config == v
        &&& post.virtuals@[vidx].pixel_count == pc
        &&& post.virtuals@[vidx].effect == pre.virtuals@[vidx].effect
        &&& channels_zeroed(post.virtuals@[vidx])
    } else {
        post.virtuals == pre.virtuals
    })
    &&& post.devices == pre.devices
    &&& post.dsp_settings == pre.dsp_settings
    &&& post.effect_presets == pre.effect_presets
    &&& post.scenes == pre.scenes
    &&& post.api_port == pre.api_port
    &&& post.is_paused == pre.is_paused
    &&& post.frame_counter == pre.frame_counter
    &&& post.target_fps == pre.target_fps
    &&& out.dirty
    &&& out_virtual_events(out, post)
}

/// How `RemoveVirtual` moves the engine: the surface goes; a passthrough
/// surface takes its device along.
pub open spec fn effect_remove_virtual(
    pre: Engine,
    id: Seq<char>,
    post: Engine,
    out: CommandOutcome,
) -> bool {
    let vidx = spec_find_key(pre.virtuals@, id, av_key());
    if vidx < 0 {
        post == pre && !out.dirty && out_quiet(out)
    } else {
        let dev = pre.virtuals@[vidx].config.is_device;
        let emit_dev = dev is Some;
        &&& post.virtuals@ == pre.virtuals@.remove(vidx)
        &&& post.devices@ == (match dev {
            Some(ip) => {
                let didx = spec_find_key(pre.devices@, ip@, device_key());
                if didx >= 0 {
                    pre.devices@.remove(didx)
                } else {
                    pre.devices@
                }
            },
            None => pre.devices@,
        })
        &&& post.dsp_settings == pre.dsp_settings
        &&& post.effect_presets == pre.effect_presets
        &&& post.scenes == pre.scenes
        &&& post.api_port == pre.api_port
        &&& post.is_paused == pre.is_paused
        &&& post.frame_counter == pre.frame_counter
        &&& post.target_fps == pre.target_fps
        &&& out.dirty
        &&& (if emit_dev {
            &&& out.events@.len() == 2
            &&& (out.events@[0] matches EngineEvent::DevicesChanged(l) && l@ == post.devices@)
            &&& (out.events@[1] matches EngineEvent::VirtualsChanged(l) && virtuals_view(l@)
                == virtuals_view(av_configs(post.virtuals@)))
        } else {
            &&& out.events@.len() == 1
            &&& (out.events@[0] matches EngineEvent::VirtualsChanged(l) && virtuals_view(l@)
                == virtuals_view(av_configs(post.virtuals@)))
        })
        &&& out.audio_commands@.len() == 0
        &&& out.api_commands@.len() == 0
        &&& !out.wants_reload
    }
}

/// How `SavePreset` moves the preset namespaces: the configuration is
/// stored under its kind and name, replacing a preset of the same name.
pub open spec fn effect_save_preset(
    pre: Seq<(String, Vec<(String, EffectConfig)>)>,
    effect_id: String,
    name: String,
    settings: EffectConfig,
    post: Seq<(String, Vec<(String, EffectConfig)>)>,
) -> bool {
    let ns = spec_find_key(pre, effect_id@, ns_key());
    if ns >= 0 {
        let pidx = spec_find_key(pre[ns].1@, name@, preset_key());
        &&& post.len() == pre.len()
        &&& forall|k: int| 0 <= k < pre.len() && k != ns ==> (#[trigger] post[k]) == pre[k]
        &&& post[ns].0 == pre[ns].0
        &&& post[ns].1@ == (if pidx >= 0 {
            pre[ns].1@.update(pidx, (name, settings))
        } else {
            pre[ns].1@.push((name, settings))
        })
    } else {
        &&& post.len() == pre.len() + 1
        &&& forall|k: int| 0 <= k < pre.len() ==> (#[trigger] post[k]) == pre[k]
        &&& post.last().0 == effect_id
        &&& post.last().1@ == seq![(name, settings)]
    }
}

/// How `DeletePreset` moves the preset namespaces: the named preset of the
/// kind goes if it is there; `removed` says whether it was.
pub open spec fn effect_delete_preset(
    pre: Seq<(String, Vec<(String, EffectConfig)>)>,
    effect_id: Seq<char>,
    name: Seq<char>,
    post: Seq<(String, Vec<(String, EffectConfig)>)>,
    removed: bool,
) -> bool {
    let ns = spec_find_key(pre, effect_id, ns_key());
    let pidx = if ns >= 0 {
        spec_find_key(pre[ns].1@, name, preset_key())
    } else {
        -1
    };
    if ns >= 0 && pidx >= 0 {
        &&& removed
        &&& post.len() == pre.len()
        &&& forall|k: int| 0 <= k < pre.len() && k != ns ==> (#[trigger] post[k]) == pre[k]
        &&& post[ns].0 == pre[ns].0
        &&& post[ns].1@ == pre[ns].1@.remove(pidx)
    } else {
        !removed && post == pre
    }
}

impl Engine {
    /// Stores a device and creates or refreshes its passthrough surface.
    fn do_add_device(&mut self, config: Device) -> (out: CommandOutcome)
        ensures
            effect_add_device(*old(self), config, *final(self), out),
    {
        let av = make_passthrough(&config);
        match find_device(&self.devices, config.ip_address.as_str()) {
            Some(i) => {
                self.devices.set(i, config);
            },
            None => {
                self.devices.push(config);
            },
        }
        let ghost vid = av.config.id@;
        match find_virtual(&self.virtuals, av.config.id.as_str()) {
            Some(i) => {
                self.virtuals.set(i, av);
            },
            None => {
                self.virtuals.push(av);
            },
        }
        CommandOutcome {
            dirty: true,
            events: self.change_events_device(),
            audio_commands: Vec::new(),
            api_commands: Vec::new(),
            wants_reload: false,
        }
    }

    /// The device-list and surface-list events, in that order.
    fn change_events_device(&self) -> (out: Vec<EngineEvent>)
        ensures
            out@.len() == 2,
            (out@[0] matches EngineEvent::DevicesChanged(l) && l@ == self.devices@),
            (out@[1] matches EngineEvent::VirtualsChanged(l) && virtuals_view(l@)
                == virtuals_view(av_configs(self.virtuals@))),
    {
        let mut out: Vec<EngineEvent> = Vec::new();
        out.push(EngineEvent::DevicesChanged(duplicate_devices(&self.devices)));
        out.push(EngineEvent::VirtualsChanged(collect_virtual_configs(&self.virtuals)));
        out
    }

    /// The surface-list event alone.
    fn change_events_virtual(&self) -> (out: Vec<EngineEvent>)
        ensures
            out@.len() == 1,
            (out@[0] matches EngineEvent::VirtualsChanged(l) && virtuals_view(l@)
                == virtuals_view(av_configs(self.virtuals@))),
    {
        let mut out: Vec<EngineEvent> = Vec::new();
        out.push(EngineEvent::VirtualsChanged(collect_virtual_configs(&self.virtuals)));
        out
    }

    /// Drops a device and its passthrough surface.
    fn do_remove_device(&mut self, device_ip: String) -> (out: CommandOutcome)
        ensures
            effect_remove_device(*old(self), device_ip@, *final(self), out),
    {
        match find_device(&self.devices, device_ip.as_str()) {
            Some(i) => {
                self.devices.remove(i);
            },
            None => {},
        }
        let vid = "device_".to_owned().concat(device_ip.as_str());
        match find_virtual(&self.virtuals, vid.as_str()) {
            Some(i) => {
                self.virtuals.remove(i);
            },
            None => {},
        }
        CommandOutcome {
            dirty: true,
            events: self.change_events_device(),
            audio_commands: Vec::new(),
            api_commands: Vec::new(),
            wants_reload: false,
        }
    }

    /// Stores a surface under its identifier with no effect bound.
    fn do_add_virtual(&mut self, config: Virtual) -> (out: CommandOutcome)
        ensures
            effect_add_virtual(*old(self), config, *final(self), out),
    {
        let pc = crate::types::pixel_count_capped(&config);
        let ghost id = config.id@;
        let av = ActiveVirtual {
            effect: None,
            config,
            pixel_count: pc,
            r_channel: zero_channel(pc),
            g_channel: zero_channel(pc),
            b_channel: zero_channel(pc),
        };
        match find_virtual(&self.virtuals, av.config.id.as_str()) {
            Some(i) => {
                self.virtuals.set(i, av);
            },
            None => {
                self.virtuals.push(av);
            },
        }
        CommandOutcome {
            dirty: true,
            events: self.change_events_virtual(),
            audio_commands: Vec::new(),
            api_commands: Vec::new(),
            wants_reload: false,
        }
    }

    /// Reconfigures an existing surface, keeping its effect binding.
    fn do_update_virtual(&mut self, config: Virtual) -> (out: CommandOutcome)
        ensures
            effect_update_virtual(*old(self), config, *final(self), out),
    {
        let pc = crate::types::pixel_count_capped(&config);
        {
            match find_virtual(&self.virtuals, config.id.as_str()) {
                Some(i) => {
                    let mut av = self.virtuals.remove(i);
                    av.config = config;
                    av.pixel_count = pc;
                    av.r_channel = zero_channel(pc);
                    av.g_channel = zero_channel(pc);
                    av.b_channel = zero_channel(pc);
                    self.virtuals.insert(i, av);
                    proof {
                        assert(self.virtuals@ =~= old(self).virtuals@.update(
                            i as int,
                            self.virtuals@[i as int],
                        ));
                    }
                },
                None => {},
            }
        }
        CommandOutcome {
            dirty: true,
            events: self.change_events_virtual(),
            audio_commands: Vec::new(),
            api_commands: Vec::new(),
            wants_reload: false,
        }
    }

    /// Drops a surface; a passthrough surface takes its device along.
    fn do_remove_virtual(&mut self, virtual_id: String) -> (out: CommandOutcome)
        ensures
            effect_remove_virtual(*old(self), virtual_id@, *final(self), out),
    {
        match find_virtual(&self.virtuals, virtual_id.as_str()) {
            Some(i) => {
                let av = self.virtuals.remove(i);
                let emit_dev = match &av.config.is_device {
                    Some(ip) => {
                        match find_device(&self.devices, ip.as_str()) {
                            Some(d) => {
                                self.devices.remove(d);
                            },
                            None => {},
                        }
                        true
                    },
                    None => false,
                };
                let events = if emit_dev {
                    self.change_events_device()
                } else {
                    self.change_events_virtual()
                };
                CommandOutcome {
                    dirty: true,
                    events,
                    audio_commands: Vec::new(),
                    api_commands: Vec::new(),
                    wants_reload: false,
                }
            },
            None => outcome_plain(),
        }
    }

    /// Stores a preset under its kind and name.
    fn do_save_preset(&mut self, effect_id: String, preset_name: String, settings: EffectConfig)
        ensures
            effect_save_preset(
                old(self).effect_presets@,
                effect_id,
                preset_name,
                settings,
                final(self).effect_presets@,
            ),
            final(self).devices == old(self).devices,
            final(self).virtuals == old(self).virtuals,
            final(self).dsp_settings == old(self).dsp_settings,
            final(self).scenes == old(self).scenes,
            final(self).api_port == old(self).api_port,
            final(self).is_paused == old(self).is_paused,
            final(self).frame_counter == old(self).frame_counter,
            final(self).target_fps == old(self).target_fps,
    {
        match find_namespace(&self.effect_presets, effect_id.as_str()) {
            Some(ns) => {
                let mut entry = self.effect_presets.remove(ns);
                match find_preset(&entry.1, preset_name.as_str()) {
                    Some(p) => {
                        entry.1.set(p, (preset_name, settings));
                    },
                    None => {
                        entry.1.push((preset_name, settings));
                    },
                }
                self.effect_presets.insert(ns, entry);
                proof {
                    assert(self.effect_presets@ =~= old(self).effect_presets@.update(
                        ns as int,
                        self.effect_presets@[ns as int],
                    ));
                }
            },
            None => {
                let mut inner: Vec<(String, EffectConfig)> = Vec::new();
                inner.push((preset_name, settings));
                self.effect_presets.push((effect_id, inner));
            },
        }
    }

    /// Drops the named preset of a kind; says whether one went.
    fn do_delete_preset(&mut self, effect_id: &str, preset_name: &str) -> (removed: bool)
        ensures
            effect_delete_preset(
                old(self).effect_presets@,
                effect_id@,
                preset_name@,
                final(self).effect_presets@,
                removed,
            ),
            final(self).devices == old(self).devices,
            final(self).virtuals == old(self).virtuals,
            final(self).dsp_settings == old(self).dsp_settings,
            final(self).scenes == old(self).scenes,
            final(self).api_port == old(self).api_port,
            final(self).is_paused == old(self).is_paused,
            final(self).frame_counter == old(self).frame_counter,
            final(self).target_fps == old(self).target_fps,
    {
        match find_namespace(&self.effect_presets, effect_id) {
            Some(ns) => {
                let mut entry = self.effect_presets.remove(ns);
                match find_preset(&entry.1, preset_name) {
                    Some(p) => {
                        entry.1.remove(p);
                        self.effect_presets.insert(ns, entry);
                        proof {
                            assert(self.effect_presets@ =~= old(self).effect_presets@.update(
                                ns as int,
                                self.effect_presets@[ns as int],
                            ));
                        }
                        true
                    },
                    None => {
                        self.effect_presets.insert(ns, entry);
                        proof {
                            assert(self.effect_presets@ =~= old(self).effect_presets@);
                        }
                        false
                    },
                }
            },
            None => false,
        }
    }
}


/// What one scene entry pins down about the effect bound to the first
/// surface with its identifier, once no later entry references it: an
/// inline configuration binds a fresh instance of it; a preset reference
/// binds a fresh instance of the user preset, or of the compiled-in preset
/// of that name when the user namespace misses.
pub open spec fn entry_applied(
    entries: Seq<(String, SceneEffect)>,
    j: int,
    presets: Seq<(String, Vec<(String, EffectConfig)>)>,
    post: Seq<ActiveVirtual>,
    k: int,
) -> bool {
    match entries[j].1 {
        SceneEffect::Custom(c) => post[k].effect matches Some(e) && spec_fresh_instance(c, e),
        SceneEffect::Preset(p) => {
            let ns = spec_find_key(presets, p.effect_id@, ns_key());
            let u = if ns >= 0 {
                spec_find_key(presets[ns].1@, p.preset_name@, preset_key())
            } else {
                -1
            };
            if ns >= 0 && u >= 0 {
                post[k].effect matches Some(e) && spec_fresh_instance(presets[ns].1@[u].1, e)
            } else {
                exists|bl: Seq<(String, EffectConfig)>|
                    #[trigger] crate::effects::spec_is_builtins(p.effect_id@, bl) && ({
                        let b = spec_find_key(bl, p.preset_name@, preset_key());
                        &&& (b >= 0 ==> (post[k].effect matches Some(e)
                            && spec_fresh_instance(bl[b].1, e)))
                    })
            }
        },
    }
}

/// A scene entry that cannot resolve: a preset reference missing from the
/// user presets whose name the compiled-in presets of its kind also lack.
/// An inline configuration always resolves.
pub open spec fn entry_unresolvable(
    entries: Seq<(String, SceneEffect)>,
    j: int,
    presets: Seq<(String, Vec<(String, EffectConfig)>)>,
) -> bool {
    match entries[j].1 {
        SceneEffect::Custom(_) => false,
        SceneEffect::Preset(p) => {
            let ns = spec_find_key(presets, p.effect_id@, ns_key());
            let u = if ns >= 0 {
                spec_find_key(presets[ns].1@, p.preset_name@, preset_key())
            } else {
                -1
            };
            &&& !(ns >= 0 && u >= 0)
            &&& forall|bl: Seq<(String, EffectConfig)>|
                #[trigger] crate::effects::spec_is_builtins(p.effect_id@, bl) ==> spec_find_key(
                    bl,
                    p.preset_name@,
                    preset_key(),
                ) < 0
        },
    }
}

/// What the scene-activated event carries: the activated scene, and three
/// aligned lists naming each surface bound by this activation, the effect
/// kind selected for it, and the configuration it was bound with.
pub open spec fn activation_payload_ok(a: ActiveEffectsState, id: Seq<char>) -> bool {
    &&& (a.active_scene_id matches Some(s) && s@ == id)
    &&& a.active_effects@.len() == a.selected_effects@.len()
    &&& a.effect_settings@.len() == a.selected_effects@.len()
    &&& forall|t: int|
        0 <= t < a.selected_effects@.len() ==> (#[trigger] a.active_effects@[t]).0@
            == a.selected_effects@[t].0@ && a.active_effects@[t].1
    &&& forall|t: int|
        0 <= t < a.selected_effects@.len() ==> (#[trigger] a.effect_settings@[t]).0@
            == a.selected_effects@[t].0@ && a.effect_settings@[t].1@.len() == 1
            && a.effect_settings@[t].1@[0].0@ == a.selected_effects@[t].1@
            && crate::effects::spec_effect_id(a.effect_settings@[t].1@[0].1)
            == a.selected_effects@[t].1@
}

/// How `ActivateScene` moves the engine when scene `sidx` exists: every
/// effect binding is first cleared, then each scene entry in order binds
/// the surface it names; a surface no entry names, or whose references all
/// fail to resolve, ends bare, and the surface named by an entry ends as
/// that entry's resolution commands (for the last entry naming it).
pub open spec fn effect_activate_scene(
    pre: Engine,
    id: Seq<char>,
    post: Engine,
    out: CommandOutcome,
) -> bool {
    let sidx = spec_find_key(pre.scenes@, id, scene_key());
    if sidx < 0 {
        post == pre && !out.dirty && out_quiet(out)
    } else {
        let entries = pre.scenes@[sidx].virtual_effects@;
        &&& av_same_shape(pre.virtuals@, post.virtuals@)
        &&& forall|k: int|
            0 <= k < post.virtuals@.len() && (forall|j: int|
                0 <= j < entries.len() && entries[j].0@ == (#[trigger] post.virtuals@[k]).config.id@
                    ==> entry_unresolvable(entries, j, pre.effect_presets@))
                ==> post.virtuals@[k].effect is None
        &&& forall|k: int|
            0 <= k < post.virtuals@.len() && spec_last_key(
                entries,
                (#[trigger] post.virtuals@[k]).config.id@,
            ) >= 0 && spec_find_key(pre.virtuals@, post.virtuals@[k].config.id@, av_key()) == k
                ==> entry_applied(
                entries,
                spec_last_key(entries, post.virtuals@[k].config.id@),
                pre.effect_presets@,
                post.virtuals@,
                k,
            )
        &&& post.devices == pre.devices
        &&& post.dsp_settings == pre.dsp_settings
        &&& post.effect_presets == pre.effect_presets
        &&& post.scenes == pre.scenes
        &&& post.api_port == pre.api_port
        &&& post.is_paused == pre.is_paused
        &&& post.frame_counter == pre.frame_counter
        &&& post.target_fps == pre.target_fps
        &&& !out.dirty
        &&& out.events@.len() == 1
        &&& (out.events@[0] matches EngineEvent::SceneActivated(a) && activation_payload_ok(
            a,
            id,
        ))
        &&& out.audio_commands@.len() == 0
        &&& out.api_commands@.len() == 0
        &&& !out.wants_reload
    }
}

/// `spec_last_key` over a longer prefix: pushing one entry moves the last
/// reference of that entry's key to the new position and no other.
proof fn lemma_last_key_take(entries: Seq<(String, SceneEffect)>, j: int, key: Seq<char>)
    requires
        0 <= j < entries.len(),
    ensures
        spec_last_key(entries.take(j + 1), key) == (if entries[j].0@ == key {
            j
        } else {
            spec_last_key(entries.take(j), key)
        }),
{
    let t = entries.take(j + 1);
    assert(t.last() == entries[j]);
    assert(t.drop_last() =~= entries.take(j));
}

impl Engine {
    /// Clears every effect binding.
    fn clear_effects(&mut self)
        ensures
            av_same_shape(old(self).virtuals@, final(self).virtuals@),
            forall|k: int|
                0 <= k < final(self).virtuals@.len()
                    ==> (#[trigger] final(self).virtuals@[k]).effect is None,
            final(self).devices == old(self).devices,
            final(self).dsp_settings == old(self).dsp_settings,
            final(self).effect_presets == old(self).effect_presets,
            final(self).scenes == old(self).scenes,
            final(self).api_port == old(self).api_port,
            final(self).is_paused == old(self).is_paused,
            final(self).frame_counter == old(self).frame_counter,
            final(self).target_fps == old(self).target_fps,
    {
        let mut i: usize = 0;
        while i < self.virtuals.len()
            invariant
                i <= self.virtuals@.len(),
                av_same_shape(old(self).virtuals@, self.virtuals@),
                forall|k: int|
                    0 <= k < i ==> (#[trigger] self.virtuals@[k]).effect is None,
                self.devices == old(self).devices,
                self.dsp_settings == old(self).dsp_settings,
                self.effect_presets == old(self).effect_presets,
                self.scenes == old(self).scenes,
                self.api_port == old(self).api_port,
                self.is_paused == old(self).is_paused,
                self.frame_counter == old(self).frame_counter,
                self.target_fps == old(self).target_fps,
            decreases self.virtuals@.len() - i,
        {
            let ghost prev = self.virtuals@;
            let mut av = self.virtuals.remove(i);
            av.effect = None;
            self.virtuals.insert(i, av);
            proof {
                assert(self.virtuals@ =~= prev.update(i as int, self.virtuals@[i as int]));
            }
            i += 1;
        }
    }

    /// Resolves one scene entry and binds the named surface: an inline
    /// configuration directly, a preset reference through the user presets
    /// and then the compiled-in ones.  Yields the identifier of the effect
    /// kind bound and the configuration it was bound with, when one was.
    fn bind_entry(&mut self, vid: &str, se: &SceneEffect) -> (bound: Option<(String, EffectConfig)>)
        ensures
            (match bound {
                Some(p) => p.0@ == crate::effects::spec_effect_id(p.1),
                None => true,
            }),
            ({
                let k = spec_find_key(old(self).virtuals@, vid@, av_key());
                &&& av_same_shape(old(self).virtuals@, final(self).virtuals@)
                &&& (k < 0 ==> final(self).virtuals == old(self).virtuals)
                &&& (k >= 0 ==> forall|kk: int|
                    0 <= kk < old(self).virtuals@.len() && kk != k
                        ==> (#[trigger] final(self).virtuals@[kk]) == old(self).virtuals@[kk])
                &&& (k >= 0 ==> match *se {
                    SceneEffect::Custom(c) => final(self).virtuals@[k].effect matches Some(e)
                        && spec_fresh_instance(c, e),
                    SceneEffect::Preset(p) => {
                        let ns = spec_find_key(
                            old(self).effect_presets@,
                            p.effect_id@,
                            ns_key(),
                        );
                        let u = if ns >= 0 {
                            spec_find_key(
                                old(self).effect_presets@[ns].1@,
                                p.preset_name@,
                                preset_key(),
                            )
                        } else {
                            -1
                        };
                        if ns >= 0 && u >= 0 {
                            final(self).virtuals@[k].effect matches Some(e)
                                && spec_fresh_instance(
                                old(self).effect_presets@[ns].1@[u].1,
                                e,
                            )
                        } else {
                            exists|bl: Seq<(String, EffectConfig)>|
                                #[trigger] crate::effects::spec_is_builtins(p.effect_id@, bl)
                                    && ({
                                    let b = spec_find_key(bl, p.preset_name@, preset_key());
                                    &&& (b >= 0 ==> (final(self).virtuals@[k].effect
                                        matches Some(e) && spec_fresh_instance(bl[b].1, e)))
                                    &&& (b < 0 ==> final(self).virtuals@[k].effect
                                        == old(self).virtuals@[k].effect)
                                })
                        }
                    },
                })
            }),
            final(self).devices == old(self).devices,
            final(self).dsp_settings == old(self).dsp_settings,
            final(self).effect_presets == old(self).effect_presets,
            final(self).scenes == old(self).scenes,
            final(self).api_port == old(self).api_port,
            final(self).is_paused == old(self).is_paused,
            final(self).frame_counter == old(self).frame_counter,
            final(self).target_fps == old(self).target_fps,
    {
        let k = match find_virtual(&self.virtuals, vid) {
            Some(k) => k,
            None => {
                return None;
            },
        };
        let resolved: Option<EffectConfig> = match se {
            SceneEffect::Custom(c) => Some(c.duplicate()),
            SceneEffect::Preset(p) => {
                let user: Option<EffectConfig> = match find_namespace(
                    &self.effect_presets,
                    p.effect_id.as_str(),
                ) {
                    Some(ns) => {
                        match find_preset(&self.effect_presets[ns].1, p.preset_name.as_str()) {
                            Some(u) => {
                                let (_, cfg) = &self.effect_presets[ns].1[u];
                                Some(cfg.duplicate())
                            },
                            None => None,
                        }
                    },
                    None => None,
                };
                match user {
                    Some(c) => Some(c),
                    None => {
                        let bl = crate::effects::get_built_in_presets_for_effect(
                            p.effect_id.as_str(),
                        );
                        match find_preset(&bl, p.preset_name.as_str()) {
                            Some(b) => {
                                let (_, cfg) = &bl[b];
                                Some(cfg.duplicate())
                            },
                            None => None,
                        }
                    },
                }
            },
        };
        match resolved {
            Some(cfg) => {
                let effect_id = crate::effects::get_effect_id_from_config(&cfg);
                let kept = cfg.duplicate();
                let ghost prev = self.virtuals@;
                let mut av = self.virtuals.remove(k);
                av.effect = Some(create_effect(cfg));
                self.virtuals.insert(k, av);
                proof {
                    assert(self.virtuals@ =~= prev.update(k as int, self.virtuals@[k as int]));
                }
                Some((effect_id, kept))
            },
            None => None,
        }
    }

    /// Activates the scene with identifier `id`, if one is stored.
    fn do_activate_scene(&mut self, scene_id: String) -> (out: CommandOutcome)
        ensures
            effect_activate_scene(*old(self), scene_id@, *final(self), out),
    {
        let sidx = match find_scene(&self.scenes, scene_id.as_str()) {
            Some(i) => i,
            None => {
                return outcome_plain();
            },
        };
        let scene = self.scenes[sidx].duplicate();
        let ghost entries = old(self).scenes@[sidx as int].virtual_effects@;
        proof {
            assert(scene.virtual_effects@ == entries);
        }
        self.clear_effects();
        let mut selected: Vec<(String, String)> = Vec::new();
        let mut active: Vec<(String, bool)> = Vec::new();
        let mut settings_out: Vec<(String, Vec<(String, EffectConfig)>)> = Vec::new();
        let mut j: usize = 0;
        while j < scene.virtual_effects.len()
            invariant
                j <= scene.virtual_effects@.len(),
                scene.virtual_effects@ == entries,
                av_same_shape(old(self).virtuals@, self.virtuals@),
                active@.len() == selected@.len(),
                settings_out@.len() == selected@.len(),
                forall|t: int|
                    0 <= t < selected@.len() ==> (#[trigger] active@[t]).0@ == selected@[t].0@
                        && active@[t].1,
                forall|t: int|
                    0 <= t < selected@.len() ==> (#[trigger] settings_out@[t]).0@
                        == selected@[t].0@ && settings_out@[t].1@.len() == 1
                        && settings_out@[t].1@[0].0@ == selected@[t].1@
                        && crate::effects::spec_effect_id(settings_out@[t].1@[0].1)
                        == selected@[t].1@,
                forall|k: int|
                    0 <= k < self.virtuals@.len() && (forall|jj: int|
                        0 <= jj < j && entries[jj].0@
                            == (#[trigger] self.virtuals@[k]).config.id@
                            ==> entry_unresolvable(entries, jj, old(self).effect_presets@))
                        ==> self.virtuals@[k].effect is None,
                forall|k: int|
                    0 <= k < self.virtuals@.len() && spec_last_key(
                        entries.take(j as int),
                        (#[trigger] self.virtuals@[k]).config.id@,
                    ) >= 0 && spec_find_key(
                        old(self).virtuals@,
                        self.virtuals@[k].config.id@,
                        av_key(),
                    ) == k ==> entry_applied(
                        entries,
                        spec_last_key(entries.take(j as int), self.virtuals@[k].config.id@),
                        old(self).effect_presets@,
                        self.virtuals@,
                        k,
                    ),
                self.devices == old(self).devices,
                self.dsp_settings == old(self).dsp_settings,
                self.effect_presets == old(self).effect_presets,
                self.scenes == old(self).scenes,
                self.api_port == old(self).api_port,
                self.is_paused == old(self).is_paused,
                self.frame_counter == old(self).frame_counter,
                self.target_fps == old(self).target_fps,
            decreases scene.virtual_effects@.len() - j,
        {
            let (vid, se) = &scene.virtual_effects[j];
            let ghost mid = self.virtuals@;
            let bound = self.bind_entry(vid.as_str(), se);
            match bound {
                Some((effect_id, cfg)) => {
                    selected.push((vid.clone(), effect_id.clone()));
                    active.push((vid.clone(), true));
                    let mut one: Vec<(String, EffectConfig)> = Vec::new();
                    one.push((effect_id, cfg));
                    settings_out.push((vid.clone(), one));
                },
                None => {},
            }
            proof {
                let now = self.virtuals@;
                let vidc = entries[j as int].0@;
                let presets = old(self).effect_presets@;
                let k0 = spec_find_key(mid, vidc, av_key());
                assert forall|kk: int| 0 <= kk < now.len() implies spec_last_key(
                    entries.take(j + 1),
                    (#[trigger] now[kk]).config.id@,
                ) == (if vidc == now[kk].config.id@ {
                    j as int
                } else {
                    spec_last_key(entries.take(j as int), now[kk].config.id@)
                }) by {
                    lemma_last_key_take(entries, j as int, now[kk].config.id@);
                }
                lemma_find_key_same_ids(old(self).virtuals@, mid, vidc);
                lemma_find_key_props(mid, vidc, av_key());
                assert forall|k: int|
                    0 <= k < now.len() && (forall|jj: int|
                        0 <= jj < j + 1 && entries[jj].0@ == (#[trigger] now[k]).config.id@
                            ==> entry_unresolvable(entries, jj, presets)) implies now[k].effect
                    is None by {
                    assert(forall|jj: int|
                        0 <= jj < j && entries[jj].0@ == mid[k].config.id@
                            ==> entry_unresolvable(entries, jj, presets));
                    assert(mid[k].effect is None);
                    if now[k].config.id@ == vidc && k0 == k {
                        assert(entries[j as int].0@ == now[k].config.id@);
                        assert(entry_unresolvable(entries, j as int, presets));
                        match entries[j as int].1 {
                            SceneEffect::Custom(c) => {
                                assert(false);
                            },
                            SceneEffect::Preset(p) => {
                                let ns = spec_find_key(presets, p.effect_id@, ns_key());
                                let u = if ns >= 0 {
                                    spec_find_key(presets[ns].1@, p.preset_name@, preset_key())
                                } else {
                                    -1
                                };
                                assert(!(ns >= 0 && u >= 0));
                                let blw = choose|bl: Seq<(String, EffectConfig)>|
                                    #[trigger] crate::effects::spec_is_builtins(p.effect_id@, bl)
                                        && ({
                                        let b = spec_find_key(bl, p.preset_name@, preset_key());
                                        &&& (b >= 0 ==> (now[k].effect matches Some(e)
                                            && spec_fresh_instance(bl[b].1, e)))
                                        &&& (b < 0 ==> now[k].effect == mid[k].effect)
                                    });
                                assert(spec_find_key(blw, p.preset_name@, preset_key()) < 0);
                                assert(now[k].effect == mid[k].effect);
                            },
                        }
                    } else {
                        assert(now[k] == mid[k]);
                    }
                }
                assert forall|k: int|
                    0 <= k < now.len() && spec_last_key(entries.take(j + 1), (#[trigger] now[k]).config.id@)
                        >= 0 && spec_find_key(old(self).virtuals@, now[k].config.id@, av_key()) == k
                        implies entry_applied(
                        entries,
                        spec_last_key(entries.take(j + 1), now[k].config.id@),
                        presets,
                        now,
                        k,
                    ) by {
                    if now[k].config.id@ == vidc {
                        assert(spec_find_key(old(self).virtuals@, vidc, av_key()) == k);
                        assert(k0 == k);
                        assert(spec_last_key(entries.take(j + 1), now[k].config.id@) == j as int);
                        match entries[j as int].1 {
                            SceneEffect::Custom(c) => {},
                            SceneEffect::Preset(p) => {
                                let ns = spec_find_key(presets, p.effect_id@, ns_key());
                                let u = if ns >= 0 {
                                    spec_find_key(presets[ns].1@, p.preset_name@, preset_key())
                                } else {
                                    -1
                                };
                                if !(ns >= 0 && u >= 0) {
                                    let blw = choose|bl: Seq<(String, EffectConfig)>|
                                        #[trigger] crate::effects::spec_is_builtins(p.effect_id@, bl)
                                            && ({
                                            let b = spec_find_key(bl, p.preset_name@, preset_key());
                                            &&& (b >= 0 ==> (now[k].effect matches Some(e)
                                                && spec_fresh_instance(bl[b].1, e)))
                                            &&& (b < 0 ==> now[k].effect == mid[k].effect)
                                        });
                                    assert(crate::effects::spec_is_builtins(p.effect_id@, blw));
                                }
                            },
                        }
                    } else {
                        if k0 >= 0 {
                            assert(now[k] == mid[k]);
                        } else {
                            assert(now[k] == mid[k]);
                        }
                        let jl = spec_last_key(entries.take(j as int), now[k].config.id@);
                        assert(entry_applied(entries, jl, presets, mid, k));
                        match entries[jl].1 {
                            SceneEffect::Custom(c) => {},
                            SceneEffect::Preset(p) => {
                                let ns = spec_find_key(presets, p.effect_id@, ns_key());
                                let u = if ns >= 0 {
                                    spec_find_key(presets[ns].1@, p.preset_name@, preset_key())
                                } else {
                                    -1
                                };
                                if !(ns >= 0 && u >= 0) {
                                    let blw = choose|bl: Seq<(String, EffectConfig)>|
                                        #[trigger] crate::effects::spec_is_builtins(p.effect_id@, bl)
                                            && ({
                                            let b = spec_find_key(bl, p.preset_name@, preset_key());
                                            b >= 0 ==> (mid[k].effect matches Some(e)
                                                && spec_fresh_instance(bl[b].1, e))
                                        });
                                    assert(crate::effects::spec_is_builtins(p.effect_id@, blw));
                                }
                            },
                        }
                    }
                }
            }
            j += 1;
        }
        proof {
            assert(entries.take(entries.len() as int) =~= entries);
        }
        let mut events: Vec<EngineEvent> = Vec::new();
        events.push(
            EngineEvent::SceneActivated(
                ActiveEffectsState {
                    active_scene_id: Some(scene_id),
                    selected_effects: selected,
                    effect_settings: settings_out,
                    active_effects: active,
                },
            ),
        );
        CommandOutcome {
            dirty: false,
            events,
            audio_commands: Vec::new(),
            api_commands: Vec::new(),
            wants_reload: false,
        }
    }
}

/// Two surface lists of the same shape key identically.
proof fn lemma_find_key_same_ids(a: Seq<ActiveVirtual>, b: Seq<ActiveVirtual>, key: Seq<char>)
    requires
        av_same_shape(a, b),
    ensures
        spec_find_key(a, key, av_key()) == spec_find_key(b, key, av_key()),
    decreases a.len(),
{
    if a.len() > 0 {
        let ta = a.drop_first();
        let tb = b.drop_first();
        assert(av_same_shape(ta, tb)) by {
            assert forall|k: int|
                0 <= k < ta.len() implies (#[trigger] tb[k]).config == ta[k].config && tb[k].pixel_count
                == ta[k].pixel_count && tb[k].r_channel == ta[k].r_channel && tb[k].g_channel
                == ta[k].g_channel && tb[k].b_channel == ta[k].b_channel by {
                assert(ta[k] == a[k + 1]);
                assert(tb[k] == b[k + 1]);
            }
        }
        lemma_find_key_same_ids(ta, tb, key);
    }
}


/// How `SaveScene` moves the scene list: stored under its identifier,
/// replacing a scene with the same one.
pub open spec fn effect_save_scene(pre: Seq<Scene>, sc: Scene, post: Seq<Scene>) -> bool {
    let sidx = spec_find_key(pre, sc.id@, scene_key());
    if sidx >= 0 {
        post == pre.update(sidx, sc)
    } else {
        post == pre.push(sc)
    }
}

/// What the whole command handler guarantees, command by command.
pub open spec fn spec_command_effect(
    pre: Engine,
    cmd: EngineCommand,
    post: Engine,
    out: CommandOutcome,
) -> bool {
    match cmd {
        EngineCommand::StartEffect { virtual_id, config } => {
            let k = spec_find_key(pre.virtuals@, virtual_id@, av_key());
            &&& (k < 0 ==> post == pre)
            &&& (k >= 0 ==> av_same_shape(pre.virtuals@, post.virtuals@) && (forall|kk: int|
                0 <= kk < pre.virtuals@.len() && kk != k ==> (#[trigger] post.virtuals@[kk])
                    == pre.virtuals@[kk]) && (post.virtuals@[k].effect matches Some(e)
                && spec_fresh_instance(config, e)) && post.devices == pre.devices
                && post.dsp_settings == pre.dsp_settings && post.effect_presets
                == pre.effect_presets && post.scenes == pre.scenes && post.api_port
                == pre.api_port && post.is_paused == pre.is_paused && post.frame_counter
                == pre.frame_counter && post.target_fps == pre.target_fps)
            &&& !out.dirty
            &&& out_quiet(out)
        },
        EngineCommand::StopEffect { virtual_id } => {
            let k = spec_find_key(pre.virtuals@, virtual_id@, av_key());
            &&& (k < 0 ==> post == pre)
            &&& (k >= 0 ==> av_same_shape(pre.virtuals@, post.virtuals@) && (forall|kk: int|
                0 <= kk < pre.virtuals@.len() && kk != k ==> (#[trigger] post.virtuals@[kk])
                    == pre.virtuals@[kk]) && post.virtuals@[k].effect is None && post.devices
                == pre.devices && post.dsp_settings == pre.dsp_settings && post.effect_presets
                == pre.effect_presets && post.scenes == pre.scenes && post.api_port
                == pre.api_port && post.is_paused == pre.is_paused && post.frame_counter
                == pre.frame_counter && post.target_fps == pre.target_fps)
            &&& !out.dirty
            &&& out_quiet(out)
        },
        EngineCommand::UpdateSettings { virtual_id, settings } => {
            let k = spec_find_key(pre.virtuals@, virtual_id@, av_key());
            &&& ((k < 0 || (k >= 0 && pre.virtuals@[k].effect is None)) ==> post == pre)
            &&& ((k >= 0 && pre.virtuals@[k].effect is Some) ==> av_same_shape(
                pre.virtuals@,
                post.virtuals@,
            ) && (forall|kk: int|
                0 <= kk < pre.virtuals@.len() && kk != k ==> (#[trigger] post.virtuals@[kk])
                    == pre.virtuals@[kk]) && (post.virtuals@[k].effect matches Some(e1)
                && crate::effects::spec_config_updated(
                settings,
                pre.virtuals@[k].effect->Some_0,
                e1,
            )) && post.devices == pre.devices && post.dsp_settings == pre.dsp_settings
                && post.effect_presets == pre.effect_presets && post.scenes == pre.scenes
                && post.api_port == pre.api_port && post.is_paused == pre.is_paused
                && post.frame_counter == pre.frame_counter && post.target_fps == pre.target_fps)
            &&& !out.dirty
            &&& out_quiet(out)
        },
        EngineCommand::AddVirtual { config } => effect_add_virtual(pre, config, post, out),
        EngineCommand::UpdateVirtual { config } => effect_update_virtual(pre, config, post, out),
        EngineCommand::RemoveVirtual { virtual_id } => effect_remove_virtual(
            pre,
            virtual_id@,
            post,
            out,
        ),
        EngineCommand::AddDevice { config } => effect_add_device(pre, config, post, out),
        EngineCommand::RemoveDevice { device_ip } => effect_remove_device(
            pre,
            device_ip@,
            post,
            out,
        ),
        EngineCommand::SetTargetFps { fps } => {
            &&& (fps > 0 ==> post == Engine { target_fps: fps, ..pre })
            &&& (fps == 0 ==> post == pre)
            &&& !out.dirty
            &&& out_quiet(out)
        },
        EngineCommand::UpdateDspSettings { settings } => {
            &&& post == Engine { dsp_settings: settings, ..pre }
            &&& out.dirty
            &&& out.events@.len() == 1
            &&& (out.events@[0] matches EngineEvent::DspSettingsChanged(d) && d == settings)
            &&& out.audio_commands@.len() == 1
            &&& (out.audio_commands@[0] matches AudioCommand::UpdateSettings(d) && d == settings)
            &&& out.api_commands@.len() == 0
            &&& !out.wants_reload
        },
        EngineCommand::RestartAudioCapture => {
            &&& post == pre
            &&& !out.dirty
            &&& out.events@.len() == 0
            &&& out.audio_commands@.len() == 1
            &&& out.audio_commands@[0] is RestartStream
            &&& out.api_commands@.len() == 0
            &&& !out.wants_reload
        },
        EngineCommand::TogglePause => {
            &&& post == Engine { is_paused: !pre.is_paused, ..pre }
            &&& !out.dirty
            &&& out.events@.len() == 1
            &&& (out.events@[0] matches EngineEvent::PlaybackStateChanged(p) && p.is_paused
                == !pre.is_paused)
            &&& out.audio_commands@.len() == 0
            &&& out.api_commands@.len() == 0
            &&& !out.wants_reload
        },
        EngineCommand::ReloadState => {
            &&& post == pre
            &&& !out.dirty
            &&& out.events@.len() == 0
            &&& out.audio_commands@.len() == 0
            &&& out.api_commands@.len() == 0
            &&& out.wants_reload
        },
        EngineCommand::SavePreset { effect_id, preset_name, settings } => {
            &&& effect_save_preset(
                pre.effect_presets@,
                effect_id,
                preset_name,
                settings,
                post.effect_presets@,
            )
            &&& post.devices == pre.devices
            &&& post.virtuals == pre.virtuals
            &&& post.dsp_settings == pre.dsp_settings
            &&& post.scenes == pre.scenes
            &&& post.api_port == pre.api_port
            &&& post.is_paused == pre.is_paused
            &&& post.frame_counter == pre.frame_counter
            &&& post.target_fps == pre.target_fps
            &&& out.dirty
            &&& out_quiet(out)
        },
        EngineCommand::DeletePreset { effect_id, preset_name } => {
            &&& exists|removed: bool|
                #[trigger] effect_delete_preset(
                    pre.effect_presets@,
                    effect_id@,
                    preset_name@,
                    post.effect_presets@,
                    removed,
                ) && out.dirty == removed
            &&& post.devices == pre.devices
            &&& post.virtuals == pre.virtuals
            &&& post.dsp_settings == pre.dsp_settings
            &&& post.scenes == pre.scenes
            &&& post.api_port == pre.api_port
            &&& post.is_paused == pre.is_paused
            &&& post.frame_counter == pre.frame_counter
            &&& post.target_fps == pre.target_fps
            &&& out_quiet(out)
        },
        EngineCommand::SaveScene(sc) => {
            &&& effect_save_scene(pre.scenes@, sc, post.scenes@)
            &&& post.devices == pre.devices
            &&& post.virtuals == pre.virtuals
            &&& post.dsp_settings == pre.dsp_settings
            &&& post.effect_presets == pre.effect_presets
            &&& post.api_port == pre.api_port
            &&& post.is_paused == pre.is_paused
            &&& post.frame_counter == pre.frame_counter
            &&& post.target_fps == pre.target_fps
            &&& out.dirty
            &&& out.events@.len() == 1
            &&& (out.events@[0] matches EngineEvent::ScenesChanged(l) && scenes_view(l@)
                == scenes_view(post.scenes@))
            &&& out.audio_commands@.len() == 0
            &&& out.api_commands@.len() == 0
            &&& !out.wants_reload
        },
        EngineCommand::DeleteScene(id) => {
            let sidx = spec_find_key(pre.scenes@, id@, scene_key());
            &&& (sidx < 0 ==> post == pre && !out.dirty && out_quiet(out))
            &&& (sidx >= 0 ==> post.scenes@ == pre.scenes@.remove(sidx) && post.devices
                == pre.devices && post.virtuals == pre.virtuals && post.dsp_settings
                == pre.dsp_settings && post.effect_presets == pre.effect_presets && post.api_port
                == pre.api_port && post.is_paused == pre.is_paused && post.frame_counter
                == pre.frame_counter && post.target_fps == pre.target_fps && out.dirty
                && out.events@.len() == 1 && (out.events@[0] matches EngineEvent::ScenesChanged(l)
                && scenes_view(l@) == scenes_view(post.scenes@)) && out.audio_commands@.len() == 0
                && out.api_commands@.len() == 0 && !out.wants_reload)
        },
        EngineCommand::ActivateScene(id) => effect_activate_scene(pre, id@, post, out),
        EngineCommand::SetApiPort(p) => {
            &&& post == Engine { api_port: p, ..pre }
            &&& out.dirty
            &&& out.events@.len() == 0
            &&& out.audio_commands@.len() == 0
            &&& out.api_commands@.len() == 1
            &&& (out.api_commands@[0] matches ApiCommand::Restart { port } && port == p)
            &&& !out.wants_reload
        },
    }
}

impl Engine {
    /// Applies one control-plane command to the engine, handing back what
    /// must happen outside: persistence, events, forwarded commands, or a
    /// reload of the stored state.
    pub fn handle_command(&mut self, cmd: EngineCommand) -> (out: CommandOutcome)
        ensures
            spec_command_effect(*old(self), cmd, *final(self), out),
    {
        match cmd {
            EngineCommand::StartEffect { virtual_id, config } => {
                match find_virtual(&self.virtuals, virtual_id.as_str()) {
                    Some(k) => {
                        let ghost prev = self.virtuals@;
                        let mut av = self.virtuals.remove(k);
                        av.effect = Some(create_effect(config));
                        self.virtuals.insert(k, av);
                        proof {
                            assert(self.virtuals@ =~= prev.update(
                                k as int,
                                self.virtuals@[k as int],
                            ));
                        }
                    },
                    None => {},
                }
                outcome_plain()
            },
            EngineCommand::StopEffect { virtual_id } => {
                match find_virtual(&self.virtuals, virtual_id.as_str()) {
                    Some(k) => {
                        let ghost prev = self.virtuals@;
                        let mut av = self.virtuals.remove(k);
                        av.effect = None;
                        self.virtuals.insert(k, av);
                        proof {
                            assert(self.virtuals@ =~= prev.update(
                                k as int,
                                self.virtuals@[k as int],
                            ));
                        }
                    },
                    None => {},
                }
                outcome_plain()
            },
            EngineCommand::UpdateSettings { virtual_id, settings } => {
                match find_virtual(&self.virtuals, virtual_id.as_str()) {
                    Some(k) => {
                        if self.virtuals[k].effect.is_some() {
                            let ghost prev = self.virtuals@;
                            let mut av = self.virtuals.remove(k);
                            match &mut av.effect {
                                Some(e) => {
                                    e.update_config(settings);
                                },
                                None => {},
                            }
                            self.virtuals.insert(k, av);
                            proof {
                                assert(self.virtuals@ =~= prev.update(
                                    k as int,
                                    self.virtuals@[k as int],
                                ));
                            }
                        }
                    },
                    None => {},
                }
                outcome_plain()
            },
            EngineCommand::AddVirtual { config } => self.do_add_virtual(config),
            EngineCommand::UpdateVirtual { config } => self.do_update_virtual(config),
            EngineCommand::RemoveVirtual { virtual_id } => self.do_remove_virtual(virtual_id),
            EngineCommand::AddDevice { config } => self.do_add_device(config),
            EngineCommand::RemoveDevice { device_ip } => self.do_remove_device(device_ip),
            EngineCommand::SetTargetFps { fps } => {
                if fps > 0 {
                    self.target_fps = fps;
                }
                outcome_plain()
            },
            EngineCommand::UpdateDspSettings { settings } => {
                self.dsp_settings = settings;
                let mut events: Vec<EngineEvent> = Vec::new();
                events.push(EngineEvent::DspSettingsChanged(settings));
                let mut audio: Vec<AudioCommand> = Vec::new();
                audio.push(AudioCommand::UpdateSettings(settings));
                CommandOutcome {
                    dirty: true,
                    events,
                    audio_commands: audio,
                    api_commands: Vec::new(),
                    wants_reload: false,
                }
            },
            EngineCommand::RestartAudioCapture => {
                let mut audio: Vec<AudioCommand> = Vec::new();
                audio.push(AudioCommand::RestartStream);
                CommandOutcome {
                    dirty: false,
                    events: Vec::new(),
                    audio_commands: audio,
                    api_commands: Vec::new(),
                    wants_reload: false,
                }
            },
            EngineCommand::TogglePause => {
                self.is_paused = !self.is_paused;
                let mut events: Vec<EngineEvent> = Vec::new();
                events.push(
                    EngineEvent::PlaybackStateChanged(PlaybackState { is_paused: self.is_paused }),
                );
                CommandOutcome {
                    dirty: false,
                    events,
                    audio_commands: Vec::new(),
                    api_commands: Vec::new(),
                    wants_reload: false,
                }
            },
            EngineCommand::ReloadState => {
                CommandOutcome {
                    dirty: false,
                    events: Vec::new(),
                    audio_commands: Vec::new(),
                    api_commands: Vec::new(),
                    wants_reload: true,
                }
            },
            EngineCommand::SavePreset { effect_id, preset_name, settings } => {
                self.do_save_preset(effect_id, preset_name, settings);
                CommandOutcome {
                    dirty: true,
                    events: Vec::new(),
                    audio_commands: Vec::new(),
                    api_commands: Vec::new(),
                    wants_reload: false,
                }
            },
            EngineCommand::DeletePreset { effect_id, preset_name } => {
                let removed = self.do_delete_preset(effect_id.as_str(), preset_name.as_str());
                CommandOutcome {
                    dirty: removed,
                    events: Vec::new(),
                    audio_commands: Vec::new(),
                    api_commands: Vec::new(),
                    wants_reload: false,
                }
            },
            EngineCommand::SaveScene(sc) => {
                match find_scene(&self.scenes, sc.id.as_str()) {
                    Some(i) => {
                        self.scenes.set(i, sc);
                    },
                    None => {
                        self.scenes.push(sc);
                    },
                }
                let mut events: Vec<EngineEvent> = Vec::new();
                events.push(EngineEvent::ScenesChanged(duplicate_scenes(&self.scenes)));
                CommandOutcome {
                    dirty: true,
                    events,
                    audio_commands: Vec::new(),
                    api_commands: Vec::new(),
                    wants_reload: false,
                }
            },
            EngineCommand::DeleteScene(id) => {
                match find_scene(&self.scenes, id.as_str()) {
                    Some(i) => {
                        self.scenes.remove(i);
                        let mut events: Vec<EngineEvent> = Vec::new();
                        events.push(EngineEvent::ScenesChanged(duplicate_scenes(&self.scenes)));
                        CommandOutcome {
                            dirty: true,
                            events,
                            audio_commands: Vec::new(),
                            api_commands: Vec::new(),
                            wants_reload: false,
                        }
                    },
                    None => outcome_plain(),
                }
            },
            EngineCommand::ActivateScene(id) => self.do_activate_scene(id),
            EngineCommand::SetApiPort(p) => {
                self.api_port = p;
                let mut api: Vec<ApiCommand> = Vec::new();
                api.push(ApiCommand::Restart { port: p });
                CommandOutcome {
                    dirty: true,
                    events: Vec::new(),
                    audio_commands: Vec::new(),
                    api_commands: api,
                    wants_reload: false,
                }
            },
        }
    }

    /// Answers one request; a preset mutation also says whether state must
    /// be persisted.
    pub fn handle_request(&mut self, req: EngineRequest) -> (r: (EngineResponse, bool))
        ensures
            match req {
                EngineRequest::GetVirtuals => *final(self) == *old(self) && !r.1 && (r.0
                    matches EngineResponse::Virtuals(l) && virtuals_view(l@) == virtuals_view(
                    av_configs(old(self).virtuals@),
                )),
                EngineRequest::GetDevices => *final(self) == *old(self) && !r.1 && (r.0
                    matches EngineResponse::Devices(l) && l@ == old(self).devices@),
                EngineRequest::GetDspSettings => *final(self) == *old(self) && !r.1 && (r.0
                    matches EngineResponse::Dsp(d) && d == old(self).dsp_settings),
                EngineRequest::GetPlaybackState => *final(self) == *old(self) && !r.1 && (r.0
                    matches EngineResponse::Playback(p) && p.is_paused == old(self).is_paused),
                EngineRequest::GetPresets(effect_id) => *final(self) == *old(self) && !r.1 && (r.0
                    matches EngineResponse::Presets(pc) && ({
                    let ns = spec_find_key(old(self).effect_presets@, effect_id@, ns_key());
                    &&& (ns >= 0 ==> pc.user@ == old(self).effect_presets@[ns].1@)
                    &&& (ns < 0 ==> pc.user@.len() == 0)
                    &&& crate::effects::spec_is_builtins(effect_id@, pc.built_in@)
                })),
                EngineRequest::GetScenes => *final(self) == *old(self) && !r.1 && (r.0
                    matches EngineResponse::Scenes(l) && scenes_view(l@) == scenes_view(
                    old(self).scenes@,
                )),
                EngineRequest::GetFullState => *final(self) == *old(self) && !r.1 && (r.0
                    matches EngineResponse::FullState(st) && st.devices@ == old(self).devices@
                    && virtuals_view(st.virtuals@) == virtuals_view(av_configs(old(self).virtuals@))
                    && st.dsp_settings == old(self).dsp_settings && preset_map_view(
                    st.effect_presets@,
                ) == preset_map_view(old(self).effect_presets@) && scenes_view(st.scenes@)
                    == scenes_view(old(self).scenes@) && st.api_port == old(self).api_port),
                EngineRequest::SavePreset { effect_id, preset_name, settings } => r.0 is Ack && r.1
                    && effect_save_preset(
                    old(self).effect_presets@,
                    effect_id,
                    preset_name,
                    settings,
                    final(self).effect_presets@,
                ) && final(self).devices == old(self).devices && final(self).virtuals == old(self).virtuals && final(self).dsp_settings == old(self).dsp_settings && final(self).scenes == old(self).scenes && final(self).api_port == old(self).api_port && final(self).is_paused == old(self).is_paused && final(self).frame_counter == old(self).frame_counter && final(self).target_fps == old(self).target_fps,
                EngineRequest::DeletePreset { effect_id, preset_name } => r.0 is Ack && (exists|
                    removed: bool,
                |
                    #[trigger] effect_delete_preset(
                        old(self).effect_presets@,
                        effect_id@,
                        preset_name@,
                        final(self).effect_presets@,
                        removed,
                    ) && r.1 == removed) && final(self).devices == old(self).devices && final(self).virtuals == old(self).virtuals && final(self).dsp_settings == old(self).dsp_settings && final(self).scenes == old(self).scenes && final(self).api_port
                    == old(self).api_port && final(self).is_paused == old(self).is_paused && final(self).frame_counter == old(self).frame_counter && final(self).target_fps == old(self).target_fps,
            },
    {
        match req {
            EngineRequest::GetVirtuals => {
                (EngineResponse::Virtuals(collect_virtual_configs(&self.virtuals)), false)
            },
            EngineRequest::GetDevices => {
                (EngineResponse::Devices(duplicate_devices(&self.devices)), false)
            },
            EngineRequest::GetDspSettings => (EngineResponse::Dsp(self.dsp_settings), false),
            EngineRequest::GetPlaybackState => {
                (EngineResponse::Playback(PlaybackState { is_paused: self.is_paused }), false)
            },
            EngineRequest::GetPresets(effect_id) => {
                let user = match find_namespace(&self.effect_presets, effect_id.as_str()) {
                    Some(ns) => duplicate_presets(&self.effect_presets[ns].1),
                    None => Vec::new(),
                };
                let built_in = crate::effects::get_built_in_presets_for_effect(effect_id.as_str());
                (EngineResponse::Presets(PresetCollection { user, built_in }), false)
            },
            EngineRequest::GetScenes => {
                (EngineResponse::Scenes(duplicate_scenes(&self.scenes)), false)
            },
            EngineRequest::GetFullState => (EngineResponse::FullState(self.export_state()), false),
            EngineRequest::SavePreset { effect_id, preset_name, settings } => {
                self.do_save_preset(effect_id, preset_name, settings);
                (EngineResponse::Ack, true)
            },
            EngineRequest::DeletePreset { effect_id, preset_name } => {
                let removed = self.do_delete_preset(effect_id.as_str(), preset_name.as_str());
                (EngineResponse::Ack, removed)
            },
        }
    }
}

} // verus!
