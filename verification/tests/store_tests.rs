use display_profiles::model::{AudioSettings, DisplayInfo, Profile};
use display_profiles::ops::ApplyError;
use display_profiles::store::ProfileStore;

fn display(id: u32) -> DisplayInfo {
    DisplayInfo {
        id,
        name: format!("Display {}", id),
        width: 1920,
        height: 1080,
        x: 0,
        y: 0,
        scale_milli: 1000,
        is_primary: id == 1,
        rotation: 0,
    }
}

fn profile(id: &str, name: &str) -> Profile {
    Profile {
        id: String::from(id),
        name: String::from(name),
        displays: vec![display(1)],
        audio_settings: AudioSettings {
            output_device: Some(String::from("Speakers")),
            input_device: None,
            output_volume: 50,
            input_volume: 50,
        },
        created_at: String::from("2024-01-01T00:00:00Z"),
    }
}

#[test]
fn upsert_appends_new_ids() {
    let mut store = ProfileStore::new();
    assert_eq!(store.len(), 0);
    store.upsert(profile("a", "Work"));
    store.upsert(profile("b", "Home"));
    assert_eq!(store.len(), 2);
    assert_eq!(store.profiles()[0].id, "a");
    assert_eq!(store.profiles()[1].id, "b");
}

#[test]
fn upsert_twice_same_profile_is_idempotent() {
    let mut store = ProfileStore::new();
    store.upsert(profile("a", "Work"));
    store.upsert(profile("a", "Work"));
    assert_eq!(store.len(), 1);
    assert_eq!(store.profiles()[0].id, "a");
    assert_eq!(store.profiles()[0].name, "Work");
}

#[test]
fn upsert_matching_id_replaces_in_place() {
    let mut store = ProfileStore::new();
    store.upsert(profile("a", "Work"));
    store.upsert(profile("b", "Home"));
    store.upsert(profile("a", "Studio"));
    assert_eq!(store.len(), 2);
    assert_eq!(store.profiles()[0].id, "a");
    assert_eq!(store.profiles()[0].name, "Studio");
    assert_eq!(store.profiles()[1].id, "b");
    assert_eq!(store.profiles()[1].name, "Home");
}

#[test]
fn delete_removes_matching_records() {
    let mut store = ProfileStore::new();
    store.upsert(profile("a", "Work"));
    store.upsert(profile("b", "Home"));
    store.remove_id("a");
    assert_eq!(store.len(), 1);
    assert_eq!(store.profiles()[0].id, "b");
}

#[test]
fn delete_of_absent_id_is_a_no_op() {
    let mut store = ProfileStore::new();
    store.upsert(profile("a", "Work"));
    store.remove_id("missing");
    assert_eq!(store.len(), 1);
    assert_eq!(store.profiles()[0].id, "a");
    store.remove_id("missing");
    assert_eq!(store.len(), 1);
}

#[test]
fn find_locates_first_match_only() {
    let mut store = ProfileStore::new();
    store.upsert(profile("a", "Work"));
    store.upsert(profile("b", "Home"));
    let found = store.find("b").expect("record should exist");
    assert_eq!(found.name, "Home");
    assert!(store.find("c").is_none());
}

#[test]
fn apply_of_absent_id_fails_not_found() {
    let store = ProfileStore::new();
    let err = store.apply_profile("nope").err().expect("must fail");
    assert!(matches!(err, ApplyError::NotFound));
    assert_eq!(err.message(), "profile not found");
}

#[test]
fn apply_of_present_id_plans_the_helper_calls() {
    let mut store = ProfileStore::new();
    store.upsert(profile("a", "Work"));
    let plan = store.apply_profile("a").ok().expect("must succeed");
    assert_eq!(plan.display_args.len(), 1);
    assert_eq!(plan.display_args[0], "id:1 res:1920x1080 origin:(0,0) degree:0");
    assert_eq!(plan.audio_output.as_deref(), Some("Speakers"));
}

#[test]
fn empty_store_save_list_delete_apply_scenario() {
    let mut store = ProfileStore::new();
    assert_eq!(store.len(), 0);

    store.upsert(profile("a", "Work"));
    assert_eq!(store.len(), 1);
    assert_eq!(store.profiles()[0].id, "a");
    assert_eq!(store.profiles()[0].name, "Work");
    assert_eq!(store.profiles()[0].displays.len(), 1);
    assert!(store.profiles()[0].displays[0].is_primary);
    assert_eq!(
        store.profiles()[0].audio_settings.output_device.as_deref(),
        Some("Speakers")
    );

    store.remove_id("a");
    assert_eq!(store.len(), 0);
    assert!(store.profiles().is_empty());

    let err = store.apply_profile("a").err().expect("must fail after delete");
    assert!(matches!(err, ApplyError::NotFound));
}
