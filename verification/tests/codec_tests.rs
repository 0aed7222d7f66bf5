use display_profiles::codec::{parse_profiles, render_profiles};
use display_profiles::model::{AudioSettings, DisplayInfo, Profile};

fn sample_profile() -> Profile {
    Profile {
        id: String::from("a"),
        name: String::from("Work"),
        displays: vec![DisplayInfo {
            id: 1,
            name: String::from("Built-in"),
            width: 2560,
            height: 1440,
            x: -2560,
            y: 0,
            scale_milli: 2000,
            is_primary: true,
            rotation: 90,
        }],
        audio_settings: AudioSettings {
            output_device: Some(String::from("Speakers")),
            input_device: None,
            output_volume: 75,
            input_volume: 0,
        },
        created_at: String::from("2024-01-01T00:00:00Z"),
    }
}

#[test]
fn empty_collection_renders_as_empty_array() {
    let text = render_profiles(&Vec::new());
    assert_eq!(text, "[]");
}

#[test]
fn empty_array_parses_to_empty_collection() {
    let parsed = parse_profiles("[]").expect("canonical empty array must parse");
    assert!(parsed.is_empty());
}

#[test]
fn one_profile_renders_exactly() {
    let text = render_profiles(&vec![sample_profile()]);
    let expected = "[{\"id\":\"a\",\"name\":\"Work\",\"displays\":[\
{\"id\":1,\"name\":\"Built-in\",\"width\":2560,\"height\":1440,\
\"x\":-2560,\"y\":0,\"scale_milli\":2000,\"is_primary\":true,\"rotation\":90}\
],\"audio_settings\":{\"output_device\":\"Speakers\",\"input_device\":null,\
\"output_volume\":75,\"input_volume\":0},\
\"created_at\":\"2024-01-01T00:00:00Z\"}]";
    assert_eq!(text, expected);
}

#[test]
fn one_profile_round_trips() {
    let original = vec![sample_profile()];
    let text = render_profiles(&original);
    let parsed = parse_profiles(&text).expect("rendered text must parse");
    assert_eq!(parsed.len(), 1);
    let p = &parsed[0];
    assert_eq!(p.id, "a");
    assert_eq!(p.name, "Work");
    assert_eq!(p.created_at, "2024-01-01T00:00:00Z");
    assert_eq!(p.displays.len(), 1);
    let d = &p.displays[0];
    assert_eq!(d.id, 1);
    assert_eq!(d.name, "Built-in");
    assert_eq!(d.width, 2560);
    assert_eq!(d.height, 1440);
    assert_eq!(d.x, -2560);
    assert_eq!(d.y, 0);
    assert_eq!(d.scale_milli, 2000);
    assert!(d.is_primary);
    assert_eq!(d.rotation, 90);
    assert_eq!(p.audio_settings.output_device.as_deref(), Some("Speakers"));
    assert_eq!(p.audio_settings.input_device, None);
    assert_eq!(p.audio_settings.output_volume, 75);
    assert_eq!(p.audio_settings.input_volume, 0);
    assert_eq!(render_profiles(&parsed), text);
}

#[test]
fn several_profiles_round_trip_in_order() {
    let mut a = sample_profile();
    a.id = String::from("alpha");
    let mut b = sample_profile();
    b.id = String::from("beta");
    b.displays.clear();
    b.audio_settings.output_device = None;
    let original = vec![a, b];
    let text = render_profiles(&original);
    let parsed = parse_profiles(&text).expect("rendered text must parse");
    assert_eq!(parsed.len(), 2);
    assert_eq!(parsed[0].id, "alpha");
    assert_eq!(parsed[1].id, "beta");
    assert!(parsed[1].displays.is_empty());
    assert_eq!(parsed[1].audio_settings.output_device, None);
    assert_eq!(render_profiles(&parsed), text);
}

#[test]
fn awkward_strings_round_trip() {
    let mut p = sample_profile();
    p.id = String::from("quote\" backslash\\ newline\n tab\t return\r done");
    p.name = String::from("unicode \u{ac00}\u{1f5a5} mixed");
    p.displays[0].name = String::new();
    let original = vec![p];
    let text = render_profiles(&original);
    let parsed = parse_profiles(&text).expect("rendered text must parse");
    assert_eq!(parsed[0].id, "quote\" backslash\\ newline\n tab\t return\r done");
    assert_eq!(parsed[0].name, "unicode \u{ac00}\u{1f5a5} mixed");
    assert_eq!(parsed[0].displays[0].name, "");
    assert_eq!(render_profiles(&parsed), text);
}

#[test]
fn extreme_numbers_round_trip() {
    let mut p = sample_profile();
    p.displays[0].id = u32::MAX;
    p.displays[0].width = 0;
    p.displays[0].x = i32::MIN;
    p.displays[0].y = i32::MAX;
    let original = vec![p];
    let text = render_profiles(&original);
    let parsed = parse_profiles(&text).expect("rendered text must parse");
    assert_eq!(parsed[0].displays[0].id, u32::MAX);
    assert_eq!(parsed[0].displays[0].width, 0);
    assert_eq!(parsed[0].displays[0].x, i32::MIN);
    assert_eq!(parsed[0].displays[0].y, i32::MAX);
}

#[test]
fn malformed_text_is_rejected() {
    assert!(parse_profiles("").is_none());
    assert!(parse_profiles("{").is_none());
    assert!(parse_profiles("[").is_none());
    assert!(parse_profiles("[}").is_none());
    assert!(parse_profiles("[{\"id\":\"a\"}]").is_none());
    assert!(parse_profiles("null").is_none());
    // trailing garbage after the array
    let text = render_profiles(&vec![sample_profile()]);
    let mut with_tail = text.clone();
    with_tail.push(' ');
    assert!(parse_profiles(&with_tail).is_none());
    // an unknown escape inside a string
    assert!(parse_profiles("[{\"id\":\"\\q\"").is_none());
}

#[test]
fn number_overflow_is_rejected() {
    // 4294967296 does not fit a u32 display id
    let text = "[{\"id\":\"a\",\"name\":\"W\",\"displays\":[\
{\"id\":4294967296,\"name\":\"D\",\"width\":1,\"height\":1,\
\"x\":0,\"y\":0,\"scale_milli\":1000,\"is_primary\":false,\"rotation\":0}\
],\"audio_settings\":{\"output_device\":null,\"input_device\":null,\
\"output_volume\":0,\"input_volume\":0},\"created_at\":\"t\"}]";
    assert!(parse_profiles(text).is_none());
}
