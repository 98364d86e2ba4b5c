use vivaldi_sync::categories::sync_categories;
use vivaldi_sync::config::AppConfig;
use vivaldi_sync::system::{login_item_script, other_instance_running};

#[test]
fn pgrep_output() {
    assert!(!other_instance_running("", 42));
    assert!(!other_instance_running("42\n", 42));
    assert!(other_instance_running("42\n 43 \n", 42));
    assert!(!other_instance_running("abc\n-5\n42", 42));
    assert!(other_instance_running("+7\r\n", 42));
}

#[test]
fn login_item_scripts() {
    let out = "/Applications/Vivaldi Sync.app\n/Other/Copy.app\n";
    assert_eq!(
        login_item_script(true, out).unwrap(),
        "tell application \"System Events\" to make login item at end with properties {path:\"/Applications/Vivaldi Sync.app\", hidden:true}"
    );
    assert_eq!(
        login_item_script(false, out).unwrap(),
        "tell application \"System Events\" to delete login item \"Vivaldi Sync\""
    );
    let none = login_item_script(true, "  \n/x.app");
    assert_eq!(
        none.err(),
        Some("App not found via Spotlight. Try launching from /Applications first.".to_string())
    );
    assert!(login_item_script(false, "").is_err());
}

#[test]
fn default_config_approves_nothing() {
    let c = AppConfig::default();
    assert!(!c.auto_sync_enabled);
    assert_eq!(c.auto_sync_minutes, 30);
    assert!(!c.sync_on_launch);
    assert!(!c.login_item_enabled);
    assert!(c.default_from.is_empty());
    assert!(c.default_to.is_empty());
    assert!(c.selected_keys.is_empty());
    assert!(!c.advanced_mode);
}

#[test]
fn category_table() {
    let cats = sync_categories();
    assert_eq!(cats.len(), 12);
    assert_eq!(cats[0].id, "ui_layout");
    assert_eq!(cats[0].sub_keys.len(), 4);
    assert_eq!(cats[11].sub_keys[0].key, "root:default_search_provider");
    assert_eq!(cats[10].label, "Privacy & Passwords");
    assert!(cats[10].sub_keys.iter().all(|k| !k.key.contains("password")));
    assert_eq!(cats[6].id, "downloads");
}
