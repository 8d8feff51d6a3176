//! End-to-end checks of the engine core: the transport codec, gradient
//! parsing, the filterbank layout, the effects, and the engine's command,
//! scene and persistence behaviour.

use ledcore::audio::{highs_power, lows_power, mids_power, AudioAnalysisData};
use ledcore::colors::{
    gradient_of_palette, hsv_to_rgb, parse_gradient, parse_single_color, resample_palette, Rgb,
};
use ledcore::ddp::{encode_datagram, packetize};
use ledcore::dsp::{assign_fft_bins, critical_change, delay_samples, DspSettings};
use ledcore::effects::blade_power::{BladePower, BladePowerConfig};
use ledcore::effects::fire::{Fire, FireConfig};
use ledcore::effects::scan::{Scan, ScanConfig};
use ledcore::effects::simple::{SolidScanConfig, SolidScanEffect};
use ledcore::effects::{
    create_effect, get_built_in_presets_for_effect, get_effect_id_from_config, BaseEffectConfig,
    EffectConfig, EffectInstance,
};
use ledcore::engine::{Engine, EngineCommand, EngineRequest, EngineResponse};
use ledcore::renderer::{apply_flip, apply_mirror, apply_mirror_flip, tick};
use ledcore::store::{EngineState, Scene, SceneEffect, ScenePreset};
use ledcore::types::{Device, MatrixCell, Virtual};

fn plain_base() -> BaseEffectConfig {
    BaseEffectConfig {
        mirror: false,
        flip: false,
        blur_milli: 0,
        background_color: "#000000".to_string(),
    }
}

fn silence(bands: usize) -> AudioAnalysisData {
    AudioAnalysisData::new(bands)
}

// --- transport codec ---

#[test]
fn small_buffer_is_one_final_datagram() {
    let data: Vec<u8> = vec![7u8; 1440];
    let pkts = packetize(0, &data, 0);
    assert_eq!(pkts.len(), 1);
    assert!(pkts[0].is_final);
    assert_eq!(pkts[0].offset, 0);
    assert_eq!(pkts[0].sequence, 1);
    assert_eq!(pkts[0].payload, data);
}

#[test]
fn empty_buffer_yields_one_final_datagram() {
    let data: Vec<u8> = Vec::new();
    let pkts = packetize(0, &data, 3);
    assert_eq!(pkts.len(), 1);
    assert!(pkts[0].is_final);
    assert_eq!(pkts[0].offset, 0);
    assert!(pkts[0].payload.is_empty());
}

#[test]
fn large_buffer_partitions_contiguously() {
    let data: Vec<u8> = (0..3000u32).map(|i| (i % 251) as u8).collect();
    let pkts = packetize(0, &data, 14);
    assert_eq!(pkts.len(), 3);
    assert_eq!(pkts[0].offset, 0);
    assert_eq!(pkts[1].offset, 1440);
    assert_eq!(pkts[2].offset, 2880);
    assert!(!pkts[0].is_final);
    assert!(!pkts[1].is_final);
    assert!(pkts[2].is_final);
    let mut joined: Vec<u8> = Vec::new();
    for p in &pkts {
        joined.extend_from_slice(&p.payload);
    }
    assert_eq!(joined, data);
    // frame counter 14 gives sequence (14 mod 15) + 1 = 15
    assert_eq!(pkts[0].sequence, 15);
}

#[test]
fn header_bits_mark_version_and_final() {
    let data: Vec<u8> = vec![1, 2, 3];
    let pkts = packetize(1440, &data, 15);
    let bytes = encode_datagram(&pkts[0]);
    assert_eq!(bytes[0] & 0x40, 0x40);
    assert_eq!(bytes[0] & 0x01, 0x01);
    // sequence wraps: (15 mod 15) + 1 = 1
    assert_eq!(bytes[1], 1);
    assert_eq!(bytes[2], 0x01);
    assert_eq!(bytes[3], 0x01);
    assert_eq!(&bytes[4..8], &[0x00, 0x00, 0x05, 0xA0]);
    assert_eq!(&bytes[8..10], &[0x00, 0x03]);
    assert_eq!(&bytes[10..], &[1, 2, 3]);
}

// --- colours and gradients ---

#[test]
fn single_colors_parse() {
    assert_eq!(parse_single_color("#ff8000"), Some(Rgb { r: 255, g: 128, b: 0 }));
    assert_eq!(parse_single_color("  #fff  "), Some(Rgb { r: 255, g: 255, b: 255 }));
    assert_eq!(parse_single_color("rgb(1, 2, 3)"), Some(Rgb { r: 1, g: 2, b: 3 }));
    assert_eq!(parse_single_color("rgb(1,2,3) 98%)"), Some(Rgb { r: 1, g: 2, b: 3 }));
    assert_eq!(parse_single_color("rgb(999, 2, 3)"), None);
    assert_eq!(parse_single_color("#ff80"), None);
    assert_eq!(parse_single_color("blue"), None);
}

#[test]
fn solid_gradient_fills_palette() {
    let p = parse_gradient("#102030", 4);
    assert_eq!(p.len(), 4);
    for c in &p {
        assert_eq!(*c, Rgb { r: 16, g: 32, b: 48 });
    }
}

#[test]
fn unparsable_gradient_is_black() {
    let p = parse_gradient("linear-gradient(90deg, nothing here)", 3);
    assert_eq!(p, vec![Rgb { r: 0, g: 0, b: 0 }; 3]);
}

#[test]
fn two_stop_gradient_interpolates() {
    let p = parse_gradient("linear-gradient(90deg, #ff0000 0%, #0000ff 100%)", 3);
    assert_eq!(p[0], Rgb { r: 255, g: 0, b: 0 });
    assert_eq!(p[1], Rgb { r: 127, g: 0, b: 127 });
    assert_eq!(p[2], Rgb { r: 0, g: 0, b: 255 });
}

#[test]
fn unordered_stops_are_sorted() {
    let p = parse_gradient("linear-gradient(90deg, #0000ff 100%, #ff0000 0%)", 2);
    assert_eq!(p[0], Rgb { r: 255, g: 0, b: 0 });
    assert_eq!(p[1], Rgb { r: 0, g: 0, b: 255 });
}

#[test]
fn gradient_round_trip_three_colors() {
    let palette = vec![
        Rgb { r: 10, g: 20, b: 30 },
        Rgb { r: 40, g: 50, b: 60 },
        Rgb { r: 70, g: 80, b: 90 },
    ];
    let s = gradient_of_palette(&palette);
    assert_eq!(s, "linear-gradient(90deg, #0a141e 0%, #28323c 50%, #46505a 100%)");
    let back = parse_gradient(&s, 3);
    assert_eq!(back, palette);
}

#[test]
fn gradient_round_trip_fractional_positions() {
    let palette = vec![
        Rgb { r: 1, g: 2, b: 3 },
        Rgb { r: 200, g: 100, b: 50 },
        Rgb { r: 9, g: 8, b: 7 },
        Rgb { r: 255, g: 255, b: 0 },
    ];
    let s = gradient_of_palette(&palette);
    let back = parse_gradient(&s, 4);
    assert_eq!(back, palette);
}

#[test]
fn resample_keeps_same_length_palette() {
    let palette = vec![
        Rgb { r: 1, g: 1, b: 1 },
        Rgb { r: 2, g: 2, b: 2 },
        Rgb { r: 3, g: 3, b: 3 },
    ];
    assert_eq!(resample_palette(&palette, 3), palette);
    let squeezed = resample_palette(&palette, 2);
    assert_eq!(squeezed, vec![Rgb { r: 1, g: 1, b: 1 }, Rgb { r: 3, g: 3, b: 3 }]);
}

#[test]
fn hsv_primaries() {
    assert_eq!(hsv_to_rgb(0, 1000, 1000), Rgb { r: 255, g: 0, b: 0 });
    assert_eq!(hsv_to_rgb(120000, 1000, 1000), Rgb { r: 0, g: 255, b: 0 });
    assert_eq!(hsv_to_rgb(240000, 1000, 1000), Rgb { r: 0, g: 0, b: 255 });
}

// --- DSP layout ---

#[test]
fn filterbank_bins_strictly_increase() {
    let hz: Vec<u64> = vec![0, 0, 0, 20000, 1000000, 2000000];
    let bins = assign_fft_bins(&hz, 2048, 30000);
    assert_eq!(bins.len(), 6);
    for i in 1..bins.len() {
        assert!(bins[i] >= bins[i - 1] + 1);
    }
    assert_eq!(bins[3], 3);
    assert_eq!(bins[4], 68);
    assert_eq!(bins[5], 136);
}

#[test]
fn critical_and_live_changes_are_told_apart() {
    let a = DspSettings::default();
    let mut b = a.clone();
    b.smoothing_milli = 900;
    assert!(!critical_change(&a, &b));
    b.num_bands = 48;
    assert!(critical_change(&a, &b));
}

#[test]
fn delay_ring_length() {
    assert_eq!(delay_samples(0, 30000), 0);
    assert_eq!(delay_samples(100, 30000), 3000);
    assert_eq!(delay_samples(33, 44100), 1455);
}

#[test]
fn band_means_cover_fixed_ranges() {
    let mut m: Vec<u16> = vec![0; 128];
    for i in 0..16 {
        m[i] = 800;
    }
    for i in 16..64 {
        m[i] = 400;
    }
    for i in 64..128 {
        m[i] = 200;
    }
    assert_eq!(lows_power(&m), 800);
    assert_eq!(mids_power(&m), 400);
    assert_eq!(highs_power(&m), 200);
    let short: Vec<u16> = vec![500; 8];
    assert_eq!(lows_power(&short), 500);
    // the mid range clamps to the last band of a short snapshot
    assert_eq!(mids_power(&short), 500);
    let one: Vec<u16> = vec![700];
    assert_eq!(lows_power(&one), 700);
    let none: Vec<u16> = Vec::new();
    assert_eq!(lows_power(&none), 0);
}

// --- effects ---

#[test]
fn solid_scan_draws_position_zero_first() {
    let mut e = SolidScanEffect::new(SolidScanConfig {
        color: Rgb { r: 255, g: 0, b: 0 },
        base: plain_base(),
    });
    let audio = silence(24);
    let mut frame = vec![9u8; 12];
    e.render(&audio, &mut frame);
    assert_eq!(frame, vec![255, 0, 0, 0, 0, 0, 0, 0, 0, 0, 0, 0]);
    e.render(&audio, &mut frame);
    assert_eq!(frame, vec![0, 0, 0, 255, 0, 0, 0, 0, 0, 0, 0, 0]);
}

#[test]
fn blade_power_is_dark_on_silence() {
    let mut e = BladePower::new(BladePowerConfig {
        decay_milli: 700,
        multiplier_milli: 500,
        frequency_range: "Lows (beat+bass)".to_string(),
        gradient: "#ffffff".to_string(),
        base: plain_base(),
    });
    let audio = silence(24);
    let mut frame = vec![9u8; 12];
    e.render(&audio, &mut frame);
    assert_eq!(frame, vec![0u8; 12]);
}

#[test]
fn blade_power_lights_bar_on_loud_lows() {
    let mut e = BladePower::new(BladePowerConfig {
        decay_milli: 700,
        multiplier_milli: 1000,
        frequency_range: "Lows (beat+bass)".to_string(),
        gradient: "#ffffff".to_string(),
        base: plain_base(),
    });
    let audio = AudioAnalysisData { melbanks: vec![1000u16; 24] };
    let mut frame = vec![0u8; 12];
    e.render(&audio, &mut frame);
    // full power and multiplier one light the whole bar
    assert_eq!(frame, vec![255u8; 12]);
}

#[test]
fn scan_paints_block_of_width() {
    let mut e = Scan::new(ScanConfig {
        speed_milli: 1000,
        width_milli: 2000,
        gradient: "#ff0000".to_string(),
        base: plain_base(),
    });
    let audio = silence(24);
    let mut frame = vec![0u8; 18];
    e.render(&audio, &mut frame);
    // position advanced one pixel, a two-pixel red block from pixel 1
    assert_eq!(frame, vec![0, 0, 0, 255, 0, 0, 255, 0, 0, 0, 0, 0, 0, 0, 0, 0, 0, 0]);
}

#[test]
fn fire_frame_is_palette_of_heat() {
    let mut e = Fire::new(FireConfig {
        cooling_milli: 55000,
        sparking_milli: 255000,
        gradient: "linear-gradient(90deg, #000000 0%, #ff0000 50%, #ffff00 100%)".to_string(),
        base: plain_base(),
    });
    let audio = silence(24);
    let mut frame = vec![0u8; 30];
    for _ in 0..50 {
        e.render(&audio, &mut frame);
    }
    assert_eq!(e.gradient_palette.len(), 256);
    assert_eq!(e.heat.len(), 10);
    for i in 0..10 {
        let c = e.gradient_palette[e.heat[i] as usize];
        assert_eq!(frame[3 * i], c.r);
        assert_eq!(frame[3 * i + 1], c.g);
        assert_eq!(frame[3 * i + 2], c.b);
    }
}

#[test]
fn effect_ids_name_their_kind() {
    let c = EffectConfig::SolidScan(SolidScanConfig {
        color: Rgb { r: 1, g: 2, b: 3 },
        base: plain_base(),
    });
    assert_eq!(get_effect_id_from_config(&c), "solid_scan");
    assert_eq!(
        get_effect_id_from_config(&EffectConfig::Rainbow(plain_base())),
        "rainbow"
    );
}

#[test]
fn built_in_presets_per_effect() {
    let blade = get_built_in_presets_for_effect("blade_power");
    assert_eq!(blade.len(), 3);
    assert_eq!(blade[0].0, "Ocean Breeze");
    let none = get_built_in_presets_for_effect("rainbow");
    assert!(none.is_empty());
}

#[test]
fn update_config_of_other_kind_is_ignored() {
    let mut inst = create_effect(EffectConfig::BladePower(BladePowerConfig {
        decay_milli: 700,
        multiplier_milli: 500,
        frequency_range: "Mids".to_string(),
        gradient: "#ffffff".to_string(),
        base: plain_base(),
    }));
    inst.update_config(EffectConfig::Rainbow(plain_base()));
    assert!(matches!(inst, EffectInstance::BladePower(_)));
    match &inst {
        EffectInstance::BladePower(s) => assert_eq!(s.config.frequency_range, "Mids"),
        _ => unreachable!(),
    }
}

// --- post-processing ---

#[test]
fn flip_twice_restores_channel() {
    let orig: Vec<u8> = vec![1, 2, 3, 4, 5];
    let mut v = orig.clone();
    apply_flip(&mut v);
    assert_eq!(v, vec![5, 4, 3, 2, 1]);
    apply_flip(&mut v);
    assert_eq!(v, orig);
}

#[test]
fn mirror_copies_first_half_reversed() {
    let mut v: Vec<u8> = vec![1, 2, 3, 4, 5];
    apply_mirror(&mut v);
    assert_eq!(v, vec![1, 2, 3, 2, 1]);
    // a second application leaves the symmetric channel unchanged
    let before = v.clone();
    apply_mirror(&mut v);
    assert_eq!(v, before);
}

#[test]
fn mirror_flip_writes_centre_out() {
    let mut v: Vec<u8> = vec![1, 2, 3, 4, 5];
    apply_mirror_flip(&mut v);
    assert_eq!(v, vec![2, 1, 3, 1, 2]);
    let mut w: Vec<u8> = vec![1, 2, 3, 2, 1];
    apply_mirror_flip(&mut w);
    assert_eq!(w, vec![2, 1, 3, 1, 2]);
    apply_mirror_flip(&mut w);
    assert_eq!(w, vec![1, 2, 3, 2, 1]);
}

// --- engine scenarios ---

fn fresh_engine() -> Engine {
    Engine::import_state(EngineState::default())
}

fn red_solid_scan() -> EffectConfig {
    EffectConfig::SolidScan(SolidScanConfig {
        color: Rgb { r: 255, g: 0, b: 0 },
        base: plain_base(),
    })
}

#[test]
fn empty_config_tick_emits_nothing_but_a_tick() {
    let mut e = fresh_engine();
    let audio = silence(24);
    let out = tick(&mut e, &audio);
    assert_eq!(out.datagrams.len(), 0);
    assert_eq!(out.device_frames.len(), 0);
    let previews = out.previews.expect("an unpaused tick reports itself");
    assert!(previews.is_empty());
}

#[test]
fn passthrough_device_first_tick_datagram() {
    let mut e = fresh_engine();
    e.handle_command(EngineCommand::AddDevice {
        config: Device {
            ip_address: "10.0.0.2".to_string(),
            name: "strip".to_string(),
            led_count: 4,
        },
    });
    let mut scene = Scene {
        id: "s1".to_string(),
        name: "red".to_string(),
        virtual_effects: Vec::new(),
    };
    scene
        .virtual_effects
        .push(("device_10.0.0.2".to_string(), SceneEffect::Custom(red_solid_scan())));
    e.handle_command(EngineCommand::SaveScene(scene));
    e.handle_command(EngineCommand::ActivateScene("s1".to_string()));
    let audio = silence(24);
    let out = tick(&mut e, &audio);
    assert_eq!(out.datagrams.len(), 1);
    assert_eq!(out.datagrams[0].0, "10.0.0.2");
    assert_eq!(out.datagrams[0].1.len(), 1);
    let bytes = encode_datagram(&out.datagrams[0].1[0]);
    assert_eq!(
        &bytes[..10],
        &[0x41, 0x01, 0x01, 0x01, 0x00, 0x00, 0x00, 0x00, 0x00, 0x0C]
    );
    assert_eq!(&bytes[10..], &[255, 0, 0, 0, 0, 0, 0, 0, 0, 0, 0, 0]);
}

#[test]
fn large_surface_splits_into_two_datagrams() {
    let mut e = fresh_engine();
    e.handle_command(EngineCommand::AddDevice {
        config: Device {
            ip_address: "10.0.0.3".to_string(),
            name: "long".to_string(),
            led_count: 800,
        },
    });
    e.handle_command(EngineCommand::StartEffect {
        virtual_id: "device_10.0.0.3".to_string(),
        config: EffectConfig::Scan(ScanConfig {
            speed_milli: 0,
            width_milli: 800000,
            gradient: "#ffffff".to_string(),
            base: plain_base(),
        }),
    });
    let audio = silence(24);
    let out = tick(&mut e, &audio);
    assert_eq!(out.datagrams.len(), 1);
    let pkts = &out.datagrams[0].1;
    assert_eq!(pkts.len(), 2);
    assert_eq!(pkts[0].payload.len(), 1440);
    assert_eq!(pkts[0].offset, 0);
    assert!(!pkts[0].is_final);
    assert_eq!(pkts[1].payload.len(), 960);
    assert_eq!(pkts[1].offset, 1440);
    assert!(pkts[1].is_final);
    assert_eq!(pkts[0].sequence, 1);
    assert_eq!(pkts[1].sequence, 1);
    assert!(pkts[0].payload.iter().all(|b| *b == 255));
    assert!(pkts[1].payload.iter().all(|b| *b == 255));
}

#[test]
fn pause_suppresses_output_and_resume_restores_it() {
    let mut e = fresh_engine();
    e.handle_command(EngineCommand::AddDevice {
        config: Device {
            ip_address: "10.0.0.4".to_string(),
            name: "strip".to_string(),
            led_count: 2,
        },
    });
    e.handle_command(EngineCommand::StartEffect {
        virtual_id: "device_10.0.0.4".to_string(),
        config: red_solid_scan(),
    });
    let audio = silence(24);
    let out1 = tick(&mut e, &audio);
    assert_eq!(out1.datagrams.len(), 1);
    e.handle_command(EngineCommand::TogglePause);
    let out2 = tick(&mut e, &audio);
    assert!(out2.previews.is_none());
    assert_eq!(out2.datagrams.len(), 0);
    let out3 = tick(&mut e, &audio);
    assert!(out3.previews.is_none());
    e.handle_command(EngineCommand::TogglePause);
    let out4 = tick(&mut e, &audio);
    assert!(out4.previews.is_some());
    assert_eq!(out4.datagrams.len(), 1);
}

#[test]
fn dsp_reconfigure_resizes_snapshot() {
    let mut e = fresh_engine();
    let mut settings = DspSettings::default();
    assert_eq!(settings.num_bands, 24);
    settings.num_bands = 48;
    let out = e.handle_command(EngineCommand::UpdateDspSettings { settings });
    assert_eq!(out.audio_commands.len(), 1);
    assert!(out.dirty);
    assert_eq!(e.dsp_settings.num_bands, 48);
    // the audio thread rebuilds its shared snapshot at the new width
    let snapshot = AudioAnalysisData::new(e.dsp_settings.num_bands as usize);
    assert_eq!(snapshot.melbanks.len(), 48);
    assert!(snapshot.melbanks[0] <= 1000);
}

#[test]
fn scene_preset_falls_back_to_built_in() {
    let mut e = fresh_engine();
    e.handle_command(EngineCommand::AddDevice {
        config: Device {
            ip_address: "10.0.0.5".to_string(),
            name: "strip".to_string(),
            led_count: 8,
        },
    });
    // a user preset shadows the built-in of the same name
    e.handle_command(EngineCommand::SavePreset {
        effect_id: "scan".to_string(),
        preset_name: "Cylon".to_string(),
        settings: EffectConfig::Scan(ScanConfig {
            speed_milli: 9999,
            width_milli: 1000,
            gradient: "#00ff00".to_string(),
            base: plain_base(),
        }),
    });
    let mut scene = Scene {
        id: "fall".to_string(),
        name: "fallback".to_string(),
        virtual_effects: Vec::new(),
    };
    scene.virtual_effects.push((
        "device_10.0.0.5".to_string(),
        SceneEffect::Preset(ScenePreset {
            effect_id: "scan".to_string(),
            preset_name: "Cylon".to_string(),
        }),
    ));
    e.handle_command(EngineCommand::SaveScene(scene));
    e.handle_command(EngineCommand::DeletePreset {
        effect_id: "scan".to_string(),
        preset_name: "Cylon".to_string(),
    });
    e.handle_command(EngineCommand::ActivateScene("fall".to_string()));
    match &e.virtuals[0].effect {
        Some(EffectInstance::Scan(s)) => {
            // the compiled-in Cylon preset was used
            assert_eq!(s.config.speed_milli, 2000);
            assert_eq!(s.config.width_milli, 50);
        }
        other => panic!("expected the built-in scan preset, found {}", other.is_some() as u8),
    }
}

#[test]
fn scene_reference_without_target_leaves_surface_bare() {
    let mut e = fresh_engine();
    e.handle_command(EngineCommand::AddDevice {
        config: Device {
            ip_address: "10.0.0.6".to_string(),
            name: "strip".to_string(),
            led_count: 8,
        },
    });
    let mut scene = Scene {
        id: "gone".to_string(),
        name: "gone".to_string(),
        virtual_effects: Vec::new(),
    };
    scene.virtual_effects.push((
        "device_10.0.0.6".to_string(),
        SceneEffect::Preset(ScenePreset {
            effect_id: "blade_power".to_string(),
            preset_name: "ocean".to_string(),
        }),
    ));
    e.handle_command(EngineCommand::SaveScene(scene));
    e.handle_command(EngineCommand::ActivateScene("gone".to_string()));
    assert!(e.virtuals[0].effect.is_none());
}

#[test]
fn scene_activation_binds_resolved_configs() {
    let mut e = fresh_engine();
    e.handle_command(EngineCommand::AddDevice {
        config: Device {
            ip_address: "10.0.0.7".to_string(),
            name: "a".to_string(),
            led_count: 4,
        },
    });
    e.handle_command(EngineCommand::AddDevice {
        config: Device {
            ip_address: "10.0.0.8".to_string(),
            name: "b".to_string(),
            led_count: 4,
        },
    });
    // bind an effect everywhere, then activate a scene covering only one surface
    e.handle_command(EngineCommand::StartEffect {
        virtual_id: "device_10.0.0.8".to_string(),
        config: red_solid_scan(),
    });
    let mut scene = Scene {
        id: "one".to_string(),
        name: "one".to_string(),
        virtual_effects: Vec::new(),
    };
    scene
        .virtual_effects
        .push(("device_10.0.0.7".to_string(), SceneEffect::Custom(red_solid_scan())));
    e.handle_command(EngineCommand::SaveScene(scene));
    let out = e.handle_command(EngineCommand::ActivateScene("one".to_string()));
    assert_eq!(out.events.len(), 1);
    match &out.events[0] {
        ledcore::engine::EngineEvent::SceneActivated(a) => {
            assert_eq!(a.active_scene_id.as_deref(), Some("one"));
            assert_eq!(a.selected_effects.len(), 1);
            assert_eq!(a.selected_effects[0].0, "device_10.0.0.7");
            assert_eq!(a.selected_effects[0].1, "solid_scan");
            assert_eq!(a.active_effects.len(), 1);
            assert!(a.active_effects[0].1);
            assert_eq!(a.effect_settings.len(), 1);
            assert_eq!(a.effect_settings[0].0, "device_10.0.0.7");
            assert_eq!(a.effect_settings[0].1.len(), 1);
            assert_eq!(a.effect_settings[0].1[0].0, "solid_scan");
            assert!(matches!(
                a.effect_settings[0].1[0].1,
                EffectConfig::SolidScan(_)
            ));
        }
        _ => unreachable!(),
    }
    let covered = e
        .virtuals
        .iter()
        .find(|v| v.config.id == "device_10.0.0.7")
        .expect("surface exists");
    assert!(matches!(covered.effect, Some(EffectInstance::SolidScan(_))));
    let cleared = e
        .virtuals
        .iter()
        .find(|v| v.config.id == "device_10.0.0.8")
        .expect("surface exists");
    assert!(cleared.effect.is_none(), "activation clears unreferenced surfaces");
}

#[test]
fn removing_passthrough_surface_removes_device() {
    let mut e = fresh_engine();
    e.handle_command(EngineCommand::AddDevice {
        config: Device {
            ip_address: "10.0.0.9".to_string(),
            name: "strip".to_string(),
            led_count: 4,
        },
    });
    assert_eq!(e.devices.len(), 1);
    assert_eq!(e.virtuals.len(), 1);
    e.handle_command(EngineCommand::RemoveVirtual {
        virtual_id: "device_10.0.0.9".to_string(),
    });
    assert!(e.devices.is_empty());
    assert!(e.virtuals.is_empty());
}

#[test]
fn persistence_round_trip_restores_state() {
    let mut st = EngineState::default();
    st.api_port = 4242;
    st.devices.push(Device {
        ip_address: "10.1.1.1".to_string(),
        name: "one".to_string(),
        led_count: 16,
    });
    let mut row: Vec<Option<MatrixCell>> = Vec::new();
    for i in 0..16 {
        row.push(Some(MatrixCell {
            device_id: "10.1.1.1".to_string(),
            pixel: i,
        }));
    }
    st.virtuals.push(Virtual {
        id: "device_10.1.1.1".to_string(),
        name: "one".to_string(),
        matrix_data: vec![row],
        is_device: Some("10.1.1.1".to_string()),
    });
    let mut inner: Vec<(String, EffectConfig)> = Vec::new();
    inner.push(("mine".to_string(), red_solid_scan()));
    st.effect_presets.push(("solid_scan".to_string(), inner));
    let mut scene = Scene {
        id: "sc".to_string(),
        name: "sc".to_string(),
        virtual_effects: Vec::new(),
    };
    scene
        .virtual_effects
        .push(("device_10.1.1.1".to_string(), SceneEffect::Custom(red_solid_scan())));
    st.scenes.push(scene);
    let engine = Engine::import_state(st.clone());
    let exported = engine.export_state();
    assert_eq!(exported, st);
}

#[test]
fn requests_answer_from_live_state() {
    let mut e = fresh_engine();
    e.handle_command(EngineCommand::AddDevice {
        config: Device {
            ip_address: "10.0.1.1".to_string(),
            name: "strip".to_string(),
            led_count: 3,
        },
    });
    match e.handle_request(EngineRequest::GetDevices) {
        (EngineResponse::Devices(d), dirty) => {
            assert!(!dirty);
            assert_eq!(d.len(), 1);
            assert_eq!(d[0].ip_address, "10.0.1.1");
        }
        _ => unreachable!(),
    }
    match e.handle_request(EngineRequest::GetPresets("blade_power".to_string())) {
        (EngineResponse::Presets(pc), _) => {
            assert!(pc.user.is_empty());
            assert_eq!(pc.built_in.len(), 3);
        }
        _ => unreachable!(),
    }
    match e.handle_request(EngineRequest::GetPlaybackState) {
        (EngineResponse::Playback(p), _) => assert!(!p.is_paused),
        _ => unreachable!(),
    }
}

#[test]
fn set_api_port_asks_for_restart() {
    let mut e = fresh_engine();
    let out = e.handle_command(EngineCommand::SetApiPort(8080));
    assert!(out.dirty);
    assert_eq!(out.api_commands.len(), 1);
    assert_eq!(e.api_port, 8080);
}

#[test]
fn large_device_is_stored_and_saved() {
    let mut e = fresh_engine();
    let out = e.handle_command(EngineCommand::AddDevice {
        config: Device {
            ip_address: "10.0.2.1".to_string(),
            name: "long".to_string(),
            led_count: 2000000,
        },
    });
    assert!(out.dirty);
    assert_eq!(e.devices.len(), 1);
    assert_eq!(e.virtuals.len(), 1);
    assert_eq!(e.virtuals[0].pixel_count, 2000000);
}

#[test]
fn blur_keeps_constant_frames_constant() {
    let mut e = fresh_engine();
    e.handle_command(EngineCommand::AddDevice {
        config: Device {
            ip_address: "10.0.3.1".to_string(),
            name: "strip".to_string(),
            led_count: 20,
        },
    });
    e.handle_command(EngineCommand::StartEffect {
        virtual_id: "device_10.0.3.1".to_string(),
        config: EffectConfig::Scan(ScanConfig {
            speed_milli: 0,
            width_milli: 20000,
            gradient: "#ffffff".to_string(),
            base: BaseEffectConfig {
                mirror: true,
                flip: false,
                blur_milli: 2000,
                background_color: "#000000".to_string(),
            },
        }),
    });
    let audio = silence(24);
    let out = tick(&mut e, &audio);
    assert_eq!(out.datagrams.len(), 1);
    let pkts = &out.datagrams[0].1;
    assert_eq!(pkts.len(), 1);
    assert!(pkts[0].payload.iter().all(|b| *b == 255));
}


#[test]
fn import_collapses_duplicate_keys_to_the_last() {
    let mut st = EngineState::default();
    st.devices.push(Device {
        ip_address: "10.9.9.9".to_string(),
        name: "first".to_string(),
        led_count: 4,
    });
    st.devices.push(Device {
        ip_address: "10.9.9.9".to_string(),
        name: "second".to_string(),
        led_count: 8,
    });
    let e = Engine::import_state(st);
    assert_eq!(e.devices.len(), 1);
    assert_eq!(e.devices[0].name, "second");
    assert_eq!(e.devices[0].led_count, 8);
}
