use display_profiles::devices::{
    audio_devices_from_listing, default_audio_devices, display_record, display_record_from_rect,
    trim_str,
};
use display_profiles::model::{AudioSettings, DisplayInfo};
use display_profiles::ops::{
    apply_audio_settings, display_placement_args, displays_or_fallback, fallback_display,
    placement_arg_of,
};
use display_profiles::text::str_eq;

fn display(id: u32, x: i32, y: i32, rotation: u32) -> DisplayInfo {
    DisplayInfo {
        id,
        name: format!("Display {}", id),
        width: 3840,
        height: 2160,
        x,
        y,
        scale_milli: 1000,
        is_primary: id == 1,
        rotation,
    }
}

#[test]
fn placement_arg_has_the_helper_layout() {
    let arg = placement_arg_of(&display(7, -1920, 42, 270));
    assert_eq!(arg, "id:7 res:3840x2160 origin:(-1920,42) degree:270");
}

#[test]
fn placement_args_follow_the_display_order() {
    let displays = vec![display(1, 0, 0, 0), display(2, 1920, 0, 90)];
    let args = display_placement_args(&displays);
    assert_eq!(args.len(), 2);
    assert_eq!(args[0], "id:1 res:3840x2160 origin:(0,0) degree:0");
    assert_eq!(args[1], "id:2 res:3840x2160 origin:(1920,0) degree:90");
}

#[test]
fn audio_apply_switches_only_a_recorded_output() {
    let with_output = AudioSettings {
        output_device: Some(String::from("USB DAC")),
        input_device: Some(String::from("Mic")),
        output_volume: 30,
        input_volume: 40,
    };
    assert_eq!(apply_audio_settings(&with_output).as_deref(), Some("USB DAC"));
    let without_output = AudioSettings {
        output_device: None,
        input_device: Some(String::from("Mic")),
        output_volume: 30,
        input_volume: 40,
    };
    assert_eq!(apply_audio_settings(&without_output), None);
}

#[test]
fn listing_lines_become_output_devices_plus_input_placeholder() {
    let devices = audio_devices_from_listing(Some("MacBook Pro Speakers\n  USB DAC  \n\n"));
    assert_eq!(devices.len(), 3);
    assert_eq!(devices[0].id, "MacBook Pro Speakers");
    assert_eq!(devices[0].name, "MacBook Pro Speakers");
    assert!(!devices[0].is_default);
    assert_eq!(devices[0].device_type, "output");
    assert_eq!(devices[1].id, "USB DAC");
    assert_eq!(devices[2].id, "default_input");
    assert!(devices[2].is_default);
    assert_eq!(devices[2].device_type, "input");
}

#[test]
fn absent_helper_falls_back_to_synthetic_devices() {
    let devices = audio_devices_from_listing(None);
    assert_eq!(devices.len(), 2);
    assert_eq!(devices[0].id, "default_output");
    assert_eq!(devices[0].name, "Default Output");
    assert!(devices[0].is_default);
    assert_eq!(devices[1].id, "default_input");
    let defaults = default_audio_devices();
    assert_eq!(defaults.len(), 2);
    assert_eq!(defaults[0].id, devices[0].id);
    assert_eq!(defaults[1].id, devices[1].id);
}

#[test]
fn blank_listing_still_reports_the_input_placeholder() {
    let devices = audio_devices_from_listing(Some("   \n\t\n"));
    assert_eq!(devices.len(), 1);
    assert_eq!(devices[0].id, "default_input");
}

#[test]
fn trimming_removes_edges_only() {
    assert_eq!(trim_str("  USB DAC  "), "USB DAC");
    assert_eq!(trim_str("\tline\r"), "line");
    assert_eq!(trim_str("inner  space"), "inner  space");
    assert_eq!(trim_str("   "), "");
    assert_eq!(trim_str(""), "");
}

#[test]
fn display_records_carry_the_enumeration_results() {
    let d = display_record(0, 42, 1920, 1080, -5, 7, 42);
    assert_eq!(d.name, "Display 1");
    assert_eq!(d.id, 42);
    assert!(d.is_primary);
    assert_eq!(d.scale_milli, 1000);
    assert_eq!(d.rotation, 0);
    let other = display_record(1, 43, 800, 600, 0, 0, 42);
    assert_eq!(other.name, "Display 2");
    assert!(!other.is_primary);
}

#[test]
fn rect_records_measure_the_rectangle() {
    let d = display_record_from_rect(0, 9, -1920, 0, 0, 1080, 1);
    assert_eq!(d.width, 1920);
    assert_eq!(d.height, 1080);
    assert_eq!(d.x, -1920);
    assert_eq!(d.y, 0);
    assert!(d.is_primary);
    let e = display_record_from_rect(1, 10, 0, 0, 2560, 1440, 0);
    assert!(!e.is_primary);
    assert_eq!(e.name, "Display 2");
}

#[test]
fn empty_enumeration_falls_back_to_one_primary_display() {
    let kept = displays_or_fallback(vec![display(5, 0, 0, 0)]);
    assert_eq!(kept.len(), 1);
    assert_eq!(kept[0].id, 5);
    let fallen = displays_or_fallback(Vec::new());
    assert_eq!(fallen.len(), 1);
    assert_eq!(fallen[0].name, "Primary Display");
    assert!(fallen[0].is_primary);
    let direct = fallback_display();
    assert_eq!(direct.width, 1920);
    assert_eq!(direct.height, 1080);
}

#[test]
fn string_equality_is_by_characters() {
    assert!(str_eq("abc", "abc"));
    assert!(!str_eq("abc", "abd"));
    assert!(!str_eq("abc", "ab"));
    assert!(str_eq("", ""));
}
