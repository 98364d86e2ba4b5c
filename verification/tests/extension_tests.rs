use vivaldi_sync::extensions::{
    copy_writes_preferences, extension_name, extension_settings, find_message,
    install_extension_settings, is_enabled, is_extension_folder, list_extensions, manifest_name,
    message_key, message_locales, resolve_msg_name, CopyStep, ExtensionCopy, ExtensionDir,
};
use vivaldi_sync::extensions::{extension_settings_text, start_extension_copy};
use vivaldi_sync::json::Json;

fn parse_error(t: &str) -> String {
    serde_json::from_str::<serde_json::Value>(t).unwrap_err().to_string()
}

fn text(s: &str) -> Json {
    Json::Str(s.to_string())
}

fn obj(entries: Vec<(&str, Json)>) -> Json {
    Json::Object(entries.into_iter().map(|(k, v)| (k.to_string(), v)).collect())
}

fn member<'a>(j: &'a Json, k: &str) -> Option<&'a Json> {
    match j {
        Json::Object(es) => es.iter().find(|(n, _)| n == k).map(|(_, v)| v),
        _ => None,
    }
}

fn prefs_with_settings() -> Json {
    obj(vec![(
        "extensions",
        obj(vec![(
            "settings",
            obj(vec![
                ("aaa", obj(vec![("state", Json::Int(1))])),
                ("bbb", obj(vec![("state", Json::Int(0))])),
                ("ccc", obj(vec![("state", text("1"))])),
            ]),
        )]),
    )])
}

#[test]
fn settings_and_state() {
    let settings = extension_settings(&prefs_with_settings());
    assert!(is_enabled(&settings, "aaa"));
    assert!(!is_enabled(&settings, "bbb"));
    assert!(is_enabled(&settings, "ccc"));
    assert!(is_enabled(&settings, "zzz"));
    let none = extension_settings(&obj(vec![("extensions", text("x"))]));
    assert_eq!(none, Json::Object(Vec::new()));
}

#[test]
fn manifest_names_and_message_keys() {
    let m = obj(vec![("name", text("__MSG_appName__"))]);
    assert_eq!(manifest_name(&m, "id1"), "__MSG_appName__");
    assert_eq!(manifest_name(&obj(vec![]), "id1"), "id1");
    assert_eq!(message_key("__MSG_appName__"), Some("appName".to_string()));
    assert_eq!(message_key("Plain"), None);
    assert!(is_extension_folder("abc"));
    assert!(!is_extension_folder(".DS_Store"));
    assert_eq!(message_locales(), vec!["en", "en_US", "es"]);
}

#[test]
fn messages_match_without_regard_to_case() {
    let catalog = obj(vec![
        ("other", obj(vec![("message", text("No"))])),
        ("APPNAME", obj(vec![("message", Json::Int(1))])),
        ("AppName", obj(vec![("message", text("Dark Reader"))])),
    ]);
    assert_eq!(find_message(&catalog, "appname"), Some("Dark Reader".to_string()));
    assert_eq!(find_message(&catalog, "missing"), None);
    assert_eq!(find_message(&text("x"), "appname"), None);
}

#[test]
fn catalogs_consulted_in_order() {
    let en = r#"{"x": {"message": "from en"}}"#.to_string();
    let es = r#"{"appName": {"message": "desde es"}}"#.to_string();
    let catalogs = vec![Some(en), Some("{not json".to_string()), Some(es)];
    assert_eq!(resolve_msg_name(&catalogs, "appName"), Some("desde es".to_string()));
    assert_eq!(resolve_msg_name(&catalogs, "x"), Some("from en".to_string()));
    assert_eq!(resolve_msg_name(&catalogs, "y"), None);
    let m = obj(vec![("name", text("__MSG_appName__"))]);
    assert_eq!(extension_name(&m, "id", &catalogs), "desde es");
    assert_eq!(extension_name(&m, "id", &Vec::new()), "__MSG_appName__");
}

fn dir(id: &str, name: &str, version: Option<&str>, has_manifest: bool) -> ExtensionDir {
    ExtensionDir {
        id: id.to_string(),
        version: version.map(|v| v.to_string()),
        manifest: if has_manifest { Some(format!("{{\"name\": \"{}\"}}", name)) } else { None },
        catalogs: Vec::new(),
    }
}

#[test]
fn extension_list_sorted_by_lowercase_name() {
    let dirs = vec![
        dir("aaa", "zebra", Some("1.0"), true),
        dir("bbb", "Apple", Some("2.0"), true),
        dir(".hidden", "x", Some("1"), true),
        dir("ccc", "banana", None, true),
        dir("ddd", "cherry", Some("3"), false),
        dir("eee", "apple", Some("4"), true),
        ExtensionDir {
            id: "fff".to_string(),
            version: Some("5".to_string()),
            manifest: Some("{broken".to_string()),
            catalogs: Vec::new(),
        },
    ];
    let settings = extension_settings(&prefs_with_settings());
    let list = list_extensions(&settings, dirs);
    let got: Vec<(&str, &str, &str, bool)> = list
        .iter()
        .map(|e| (e.id.as_str(), e.name.as_str(), e.version.as_str(), e.enabled))
        .collect();
    assert_eq!(
        got,
        vec![
            ("bbb", "Apple", "2.0", false),
            ("eee", "apple", "4", true),
            ("aaa", "zebra", "1.0", true),
        ]
    );
}

#[test]
fn installing_settings_of_a_copied_extension() {
    let from = extension_settings(&prefs_with_settings());
    let to = obj(vec![("extensions", obj(vec![("settings", obj(vec![]))])), ("x", Json::Null)]);
    let out = install_extension_settings(to, &from, "bbb");
    let s = member(member(&out, "extensions").unwrap(), "settings").unwrap();
    assert_eq!(member(s, "bbb"), Some(&obj(vec![("state", Json::Int(0))])));
    let bare = obj(vec![("extensions", text("none"))]);
    assert_eq!(install_extension_settings(bare, &from, "bbb"), obj(vec![("extensions", text("none"))]));
}

#[test]
fn copy_steps() {
    let from = extension_settings(&prefs_with_settings());
    let to = obj(vec![("extensions", obj(vec![("settings", obj(vec![]))]))]);
    let mut run = ExtensionCopy::new(to);
    assert_eq!(run.step(&from, "zzz", false, false, false), CopyStep::Missing);
    assert_eq!(run.step(&from, "aaa", true, true, false), CopyStep::AlreadyPresent);
    assert_eq!(run.step(&from, "bbb", true, false, false), CopyStep::CopyFolder);
    assert_eq!(
        run.copied,
        vec!["aaa (already exists)".to_string(), "bbb".to_string()]
    );
    let s = member(member(&run.preferences, "extensions").unwrap(), "settings").unwrap();
    assert!(member(s, "bbb").is_some());
    assert!(member(s, "aaa").is_none());
    assert!(copy_writes_preferences(false));
}

#[test]
fn dry_run_copy_reports_but_changes_nothing() {
    let from = extension_settings(&prefs_with_settings());
    let to = obj(vec![("extensions", obj(vec![("settings", obj(vec![]))]))]);
    let mut run = ExtensionCopy::new(to.clone());
    assert_eq!(run.step(&from, "bbb", true, false, true), CopyStep::Preview);
    assert_eq!(run.copied, vec!["bbb".to_string()]);
    assert_eq!(run.preferences, to);
    assert!(!copy_writes_preferences(true));
}

#[test]
fn settings_from_preferences_text() {
    let t = r#"{"extensions": {"settings": {"aaa": {"state": 0}, "bbb": {}}}}"#;
    let settings = extension_settings_text(t).unwrap();
    assert!(!is_enabled(&settings, "aaa"));
    assert!(is_enabled(&settings, "bbb"));
    assert_eq!(
        extension_settings_text("{").err(),
        Some(format!("Cannot parse Preferences: {}", parse_error("{")))
    );
}

#[test]
fn localised_name_from_catalog_files() {
    let dirs = vec![ExtensionDir {
        id: "abc".to_string(),
        version: Some("1.2".to_string()),
        manifest: Some(r#"{"name": "__MSG_extName__", "version": "1.2"}"#.to_string()),
        catalogs: vec![None, Some(r#"{"EXTNAME": {"message": "Bitwarden"}}"#.to_string()), None],
    }];
    let list = list_extensions(&Json::Object(Vec::new()), dirs);
    assert_eq!(list.len(), 1);
    assert_eq!(list[0].name, "Bitwarden");
    assert!(list[0].enabled);
}

#[test]
fn copy_from_preferences_texts() {
    let from = r#"{"extensions": {"settings": {"bbb": {"state": 1, "path": "bbb/1"}}}}"#;
    let to = r#"{"extensions": {"settings": {}}, "other": [1, 2.5, "x"]}"#;
    let (settings, mut run) = start_extension_copy(from, &Ok(to.to_string())).unwrap();
    assert_eq!(run.step(&settings, "bbb", true, false, false), CopyStep::CopyFolder);
    let written: serde_json::Value = serde_json::from_str(&run.preferences_text()).unwrap();
    let expected: serde_json::Value = serde_json::from_str(
        r#"{"extensions": {"settings": {"bbb": {"state": 1, "path": "bbb/1"}}}, "other": [1, 2.5, "x"]}"#,
    )
    .unwrap();
    assert_eq!(written, expected);
    assert_eq!(
        start_extension_copy("[", &Ok(to.to_string())).err(),
        Some(format!("Cannot parse source Preferences: {}", parse_error("[")))
    );
    assert_eq!(
        start_extension_copy(from, &Ok(String::new())).err(),
        Some(format!("Cannot parse dest Preferences: {}", parse_error("")))
    );
}

#[test]
fn copy_text_source_is_looked_at_before_destination_read() {
    let unread: Result<String, String> = Err("Cannot read dest Preferences: gone".to_string());
    assert_eq!(
        start_extension_copy("[", &unread).err(),
        Some(format!("Cannot parse source Preferences: {}", parse_error("[")))
    );
    assert_eq!(
        start_extension_copy("{}", &unread).err(),
        Some("Cannot read dest Preferences: gone".to_string())
    );
}

#[test]
fn copy_writes_other_numbers_unchanged() {
    let to = r#"{"a": 0.1, "b": 1e-300, "c": 123456789.123456789, "d": -0.0}"#;
    let (_, run) = start_extension_copy("{}", &Ok(to.to_string())).unwrap();
    let direct: serde_json::Value = serde_json::from_str(to).unwrap();
    assert_eq!(run.preferences_text(), serde_json::to_string(&direct).unwrap());
}

#[test]
fn ascii_names_match_in_any_case() {
    let catalog = obj(vec![("EXT_Name", obj(vec![("message", text("Found"))]))]);
    assert_eq!(find_message(&catalog, "ext_name"), Some("Found".to_string()));
    assert_eq!(find_message(&catalog, "EXT_NAME"), Some("Found".to_string()));
    assert_eq!(find_message(&catalog, "ext-name"), None);
}
