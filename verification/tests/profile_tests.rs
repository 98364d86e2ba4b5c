use vivaldi_sync::json::Json;
use vivaldi_sync::profiles::{collect_profiles, profile_folders, profile_folders_text, Profile};

fn obj(entries: Vec<(&str, Json)>) -> Json {
    Json::Object(entries.into_iter().map(|(k, v)| (k.to_string(), v)).collect())
}

fn profile(id: &str, name: &str) -> Profile {
    Profile { id: id.to_string(), name: name.to_string(), path: format!("/base/{}", id) }
}

#[test]
fn folders_with_display_names() {
    let state = obj(vec![(
        "profile",
        obj(vec![(
            "info_cache",
            obj(vec![
                ("Default", obj(vec![("name", Json::Str("Work".to_string()))])),
                ("Profile 1", obj(vec![("name", Json::Int(3))])),
                ("Profile 2", obj(vec![])),
            ]),
        )]),
    )]);
    let folders = profile_folders(&state).unwrap();
    let pairs: Vec<(String, String)> =
        folders.into_iter().map(|f| (f.id, f.name)).collect();
    assert_eq!(
        pairs,
        vec![
            ("Default".to_string(), "Work".to_string()),
            ("Profile 1".to_string(), "Profile 1".to_string()),
            ("Profile 2".to_string(), "Profile 2".to_string()),
        ]
    );
}

#[test]
fn missing_info_cache_is_an_error() {
    let state = obj(vec![("profile", obj(vec![("info_cache", Json::Null)]))]);
    assert_eq!(profile_folders(&state).err(), Some("No profile info_cache found".to_string()));
    assert_eq!(profile_folders(&Json::Null).err(), Some("No profile info_cache found".to_string()));
}

#[test]
fn profiles_sorted_by_name_stably_and_filtered() {
    let candidates = vec![
        profile("Default", "Work"),
        profile("Profile 1", "Home"),
        profile("Profile 2", "Work"),
        profile("Profile 3", "Archive"),
        profile("Profile 4", "Alpha"),
    ];
    let present = vec![true, true, true, true, false];
    let sorted = collect_profiles(candidates, &present);
    let ids: Vec<&str> = sorted.iter().map(|p| p.id.as_str()).collect();
    assert_eq!(ids, vec!["Profile 3", "Profile 1", "Default", "Profile 2"]);
    assert_eq!(sorted[0].path, "/base/Profile 3");
}

#[test]
fn uppercase_names_come_before_lowercase() {
    let sorted = collect_profiles(vec![profile("a", "beta"), profile("b", "Zeta")], &vec![true, true]);
    assert_eq!(sorted[0].name, "Zeta");
}

#[test]
fn folders_from_local_state_text() {
    let t = r#"{"profile": {"info_cache": {"Default": {"name": "Person 1"}, "Profile 3": {}}}}"#;
    let f = profile_folders_text(t).unwrap();
    assert_eq!(f.len(), 2);
    assert_eq!(f[0].id, "Default");
    assert_eq!(f[0].name, "Person 1");
    assert_eq!(f[1].name, "Profile 3");
    let bad = "{\"profile\": ";
    assert_eq!(
        profile_folders_text(bad).err(),
        Some(format!(
            "Cannot parse Local State: {}",
            serde_json::from_str::<serde_json::Value>(bad).unwrap_err()
        ))
    );
    assert_eq!(profile_folders_text("{}").err(), Some("No profile info_cache found".to_string()));
}

#[test]
fn folder_ids_are_distinct_when_a_key_repeats() {
    let t = r#"{"profile": {"info_cache": {"Default": {"name": "A"}, "Default": {"name": "B"}, "Profile 1": {}}}}"#;
    let f = profile_folders_text(t).unwrap();
    let ids: Vec<&str> = f.iter().map(|p| p.id.as_str()).collect();
    assert_eq!(ids, vec!["Default", "Profile 1"]);
    assert_eq!(f[0].name, "B");
}
