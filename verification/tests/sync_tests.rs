use vivaldi_sync::json::Json;
use vivaldi_sync::sync::{
    backup_extension, build_log_entry, copy_selected_keys, key_target, plan_sync, plan_sync_text,
    sync_log_entry,
    sync_message,
};

fn text(s: &str) -> Json {
    Json::Str(s.to_string())
}

fn obj(entries: Vec<(&str, Json)>) -> Json {
    Json::Object(entries.into_iter().map(|(k, v)| (k.to_string(), v)).collect())
}

fn keys(ks: &[&str]) -> Vec<String> {
    ks.iter().map(|k| k.to_string()).collect()
}

fn source() -> Json {
    obj(vec![
        (
            "vivaldi",
            obj(vec![
                ("tabs", obj(vec![("position", text("left"))])),
                ("theme", text("dark")),
                ("keyboard", Json::Array(vec![Json::Int(1), Json::Int(2)])),
            ]),
        ),
        ("default_search_provider", text("ddg")),
        ("bookmarks", text("source-bookmarks")),
    ])
}

fn destination() -> Json {
    obj(vec![
        (
            "vivaldi",
            obj(vec![("theme", text("light")), ("menu", text("custom"))]),
        ),
        ("bookmarks", text("dest-bookmarks")),
    ])
}

fn member<'a>(j: &'a Json, k: &str) -> Option<&'a Json> {
    match j {
        Json::Object(es) => es.iter().find(|(n, _)| n == k).map(|(_, v)| v),
        _ => None,
    }
}

fn as_text(j: Option<&Json>) -> Option<String> {
    match j {
        Some(Json::Str(s)) => Some(s.clone()),
        _ => None,
    }
}

#[test]
fn copies_profile_keys_into_vivaldi() {
    let (doc, copied) =
        copy_selected_keys(&source(), destination(), &keys(&["theme", "tabs"])).unwrap();
    assert_eq!(copied, keys(&["theme", "tabs"]));
    let viv = member(&doc, "vivaldi").unwrap();
    assert_eq!(as_text(member(viv, "theme")), Some("dark".to_string()));
    assert_eq!(as_text(member(member(viv, "tabs").unwrap(), "position")), Some("left".to_string()));
    assert_eq!(as_text(member(viv, "menu")), Some("custom".to_string()));
    assert_eq!(as_text(member(&doc, "bookmarks")), Some("dest-bookmarks".to_string()));
}

#[test]
fn missing_source_keys_are_not_reported() {
    let (doc, copied) =
        copy_selected_keys(&source(), destination(), &keys(&["panels", "theme"])).unwrap();
    assert_eq!(copied, keys(&["theme"]));
    let viv = member(&doc, "vivaldi").unwrap();
    assert!(member(viv, "panels").is_none());
}

#[test]
fn root_keys_copy_top_level_members() {
    let (doc, copied) = copy_selected_keys(
        &source(),
        destination(),
        &keys(&["root:default_search_provider", "theme", "root:missing"]),
    )
    .unwrap();
    // members of `vivaldi` are reported first, then top-level names without the marker
    assert_eq!(copied, keys(&["theme", "default_search_provider"]));
    assert_eq!(as_text(member(&doc, "default_search_provider")), Some("ddg".to_string()));
    assert!(member(&doc, "missing").is_none());
}

#[test]
fn repeated_root_marker_is_stripped() {
    assert_eq!(key_target("root:root:bookmarks"), "bookmarks");
    assert_eq!(key_target("tabs"), "tabs");
    let (doc, copied) =
        copy_selected_keys(&source(), destination(), &keys(&["root:root:bookmarks"])).unwrap();
    assert_eq!(copied, keys(&["bookmarks"]));
    assert_eq!(as_text(member(&doc, "bookmarks")), Some("source-bookmarks".to_string()));
}

#[test]
fn source_without_vivaldi_is_refused() {
    let from = obj(vec![("other", text("x"))]);
    let r = copy_selected_keys(&from, destination(), &keys(&["theme"]));
    assert_eq!(r.err(), Some("Source has no vivaldi settings".to_string()));
}

#[test]
fn destination_without_vivaldi_takes_only_root_keys() {
    let to = obj(vec![("bookmarks", text("b"))]);
    let (doc, copied) = copy_selected_keys(
        &source(),
        to,
        &keys(&["theme", "root:default_search_provider"]),
    )
    .unwrap();
    assert_eq!(copied, keys(&["default_search_provider"]));
    assert!(member(&doc, "vivaldi").is_none());
}

#[test]
fn nothing_selected_changes_nothing() {
    let plan = plan_sync(&source(), destination(), &Vec::new(), false).unwrap();
    assert!(plan.copied.is_empty());
    assert!(!plan.write);
    let (doc, _) = copy_selected_keys(&source(), destination(), &Vec::new()).unwrap();
    assert_eq!(format!("{:?}", doc), format!("{:?}", destination()));
}

#[test]
fn second_sync_changes_nothing_more() {
    let ks = keys(&["theme", "tabs", "root:default_search_provider"]);
    let (once, _) = copy_selected_keys(&source(), destination(), &ks).unwrap();
    let (twice, copied) = copy_selected_keys(&source(), once.clone(), &ks).unwrap();
    assert_eq!(format!("{:?}", once), format!("{:?}", twice));
    assert_eq!(copied, keys(&["theme", "tabs", "default_search_provider"]));
}

#[test]
fn dry_run_plans_the_same_copy_and_does_not_write() {
    let ks = keys(&["theme"]);
    let dry = plan_sync(&source(), destination(), &ks, true).unwrap();
    let real = plan_sync(&source(), destination(), &ks, false).unwrap();
    assert_eq!(dry.copied, real.copied);
    assert!(!dry.write);
    assert!(real.write);
}

#[test]
fn sync_messages() {
    assert_eq!(sync_message(true, 3), "Dry run: would copy 3 keys");
    assert_eq!(sync_message(false, 12), "Synced 12 keys");
    assert_eq!(sync_message(false, 0), "Synced 0 keys");
}

#[test]
fn log_entry_fields() {
    let e = build_log_entry(
        "2024-01-02 03:04:05".to_string(),
        "Default".to_string(),
        "Profile 1".to_string(),
        keys(&["theme"]),
        false,
    );
    assert_eq!(e.timestamp, "2024-01-02 03:04:05");
    assert_eq!(e.from, "Default");
    assert_eq!(e.to, "Profile 1");
    assert_eq!(e.keys, keys(&["theme"]));
    assert!(e.success);
    assert_eq!(e.message, "Synced 1 keys");
}

#[test]
fn log_entry_now_has_a_clock_timestamp() {
    let e = sync_log_entry("A".to_string(), "B".to_string(), keys(&["x", "y"]), true);
    assert_eq!(e.message, "Dry run: would copy 2 keys");
    assert_eq!(e.timestamp.len(), 19);
    assert_eq!(&e.timestamp[4..5], "-");
}

#[test]
fn backup_extension_has_prefix_and_stamp() {
    let ext = backup_extension();
    assert!(ext.starts_with("bak."));
    assert_eq!(ext.len(), "bak.".len() + 15);
    assert_eq!(&ext[12..13], "_");
    assert!(ext[4..12].chars().all(|c| c.is_ascii_digit()));
    assert!(ext[13..].chars().all(|c| c.is_ascii_digit()));
}

fn parse_error(t: &str) -> String {
    serde_json::from_str::<serde_json::Value>(t).unwrap_err().to_string()
}

#[test]
fn sync_from_preferences_texts() {
    let from = r#"{"vivaldi": {"theme": "dark", "tabs": {"pos": 1}}, "default_search_provider": {"id": 7}}"#;
    let to = r#"{"vivaldi": {"theme": "light"}, "history": 12.5}"#;
    let t = plan_sync_text(from, &Ok(to.to_string()), &keys(&["theme", "root:default_search_provider"]), false).unwrap();
    assert_eq!(t.plan.copied, keys(&["theme", "default_search_provider"]));
    assert!(t.plan.write);
    let written: serde_json::Value = serde_json::from_str(t.written.as_ref().unwrap()).unwrap();
    let expected: serde_json::Value = serde_json::from_str(
        r#"{"vivaldi": {"theme": "dark"}, "history": 12.5, "default_search_provider": {"id": 7}}"#,
    )
    .unwrap();
    assert_eq!(written, expected);
    let dry = plan_sync_text(from, &Ok(to.to_string()), &keys(&["theme"]), true).unwrap();
    assert!(dry.written.is_none());
    assert_eq!(dry.plan.copied, keys(&["theme"]));
}

#[test]
fn sync_text_errors() {
    let good = r#"{"vivaldi": {}}"#;
    assert_eq!(
        plan_sync_text("{oops", &Ok(good.to_string()), &Vec::new(), false).err(),
        Some(format!("Cannot parse source: {}", parse_error("{oops")))
    );
    assert_eq!(
        plan_sync_text(good, &Ok(String::new()), &Vec::new(), false).err(),
        Some(format!("Cannot parse destination: {}", parse_error("")))
    );
    assert_eq!(
        plan_sync_text("{}", &Ok(good.to_string()), &Vec::new(), false).err(),
        Some("Source has no vivaldi settings".to_string())
    );
}

#[test]
fn sync_text_source_is_looked_at_before_destination_read() {
    let unread: Result<String, String> = Err("Cannot read destination: gone".to_string());
    assert_eq!(
        plan_sync_text("{oops", &unread, &Vec::new(), false).err(),
        Some(format!("Cannot parse source: {}", parse_error("{oops")))
    );
    assert_eq!(
        plan_sync_text(r#"{"vivaldi": {}}"#, &unread, &Vec::new(), false).err(),
        Some("Cannot read destination: gone".to_string())
    );
}

#[test]
fn sync_writes_numbers_as_read() {
    let from = r#"{"vivaldi": {"zoom": 0.1, "tiny": 5e-324, "big": 1.7976931348623157e308}}"#;
    let to = r#"{"vivaldi": {"x": 0.30000000000000004}, "min": 2.2250738585072014e-308, "u": 18446744073709551615, "n": -5, "e": 1e-300}"#;
    let t = plan_sync_text(from, &Ok(to.to_string()), &keys(&["zoom", "tiny", "big"]), false).unwrap();
    let expected = r#"{"e":1e-300,"min":2.2250738585072014e-308,"n":-5,"u":18446744073709551615,"vivaldi":{"big":1.7976931348623157e308,"tiny":5e-324,"x":0.30000000000000004,"zoom":0.1}}"#;
    let direct: serde_json::Value = serde_json::from_str(expected).unwrap();
    assert_eq!(t.written.as_deref(), Some(serde_json::to_string(&direct).unwrap().as_str()));
}

#[test]
fn second_sync_reports_the_same_when_vivaldi_is_replaced() {
    let ks = keys(&["theme", "root:vivaldi"]);
    let from = obj(vec![("vivaldi", text("flat"))]);
    let to = obj(vec![("vivaldi", obj(vec![("theme", text("light"))]))]);
    let (once, first) = copy_selected_keys(&from, to, &ks).unwrap();
    let (_, second) = copy_selected_keys(&from, once, &ks).unwrap();
    assert_eq!(first, keys(&["vivaldi"]));
    assert_eq!(second, first);
    let from_obj = obj(vec![("vivaldi", obj(vec![("theme", text("dark"))]))]);
    let to_obj = obj(vec![("vivaldi", obj(vec![]))]);
    let (once, first) = copy_selected_keys(&from_obj, to_obj, &ks).unwrap();
    let (_, second) = copy_selected_keys(&from_obj, once, &ks).unwrap();
    assert_eq!(first, keys(&["theme", "vivaldi"]));
    assert_eq!(second, first);
}
