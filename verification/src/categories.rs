//! The groups of settings that can be synced, and the keys in each.

use vstd::prelude::*;

verus! {

/// One key that can be synced, with the text that describes it.
#[derive(Debug, Clone, PartialEq, Eq)]
pub struct SyncKey {
    pub key: String,
    pub label: String,
}

/// A group of keys that can be synced together.
#[derive(Debug, Clone, PartialEq, Eq)]
pub struct SyncCategory {
    pub id: String,
    pub label: String,
    pub desc: String,
    pub icon: String,
    pub sub_keys: Vec<SyncKey>,
}

/// The view of a key: its name and its description.
pub open spec fn key_view(k: SyncKey) -> (Seq<char>, Seq<char>) {
    (k.key@, k.label@)
}

/// The view of a group: id, label, description, icon and keys.
pub open spec fn category_view(c: SyncCategory) -> (
    Seq<char>,
    Seq<char>,
    Seq<char>,
    Seq<char>,
    Seq<(Seq<char>, Seq<char>)>,
) {
    (c.id@, c.label@, c.desc@, c.icon@, c.sub_keys@.map_values(|k: SyncKey| key_view(k)))
}

/// The groups of keys, in the order in which they are offered.  A key written
/// `root:<name>` stands for the top-level member `<name>` of `Preferences`; every other
/// key for a member of its `vivaldi` object.
pub open spec fn category_table() -> Seq<
    (Seq<char>, Seq<char>, Seq<char>, Seq<char>, Seq<(Seq<char>, Seq<char>)>),
> {
    seq![
        ("ui_layout"@, "UI Layout"@, "Tab bar, toolbar buttons, address bar, and auto-hide rules"@, "🖥️"@, seq![("tabs"@, "Tab bar (position, close button side, stacking mode)"@), ("toolbars"@, "Toolbar button layout and order"@), ("address_bar"@, "Address bar behavior and search field"@), ("auto_hide"@, "Auto-hide rules for panels, tabs, and address bar"@)]),
        ("appearance"@, "Appearance & Themes"@, "Active theme, saved custom themes, window accent color"@, "🎨"@, seq![("appearance"@, "Window and UI appearance settings"@), ("theme"@, "Currently active theme"@), ("themes"@, "All saved custom themes"@)]),
        ("keyboard"@, "Keyboard Shortcuts"@, "Custom key bindings, multi-key command chains"@, "⌨️"@, seq![("keyboard"@, "Custom keyboard shortcut bindings"@), ("chained_commands"@, "Multi-key command chains"@), ("actions"@, "Custom action definitions"@)]),
        ("menus"@, "Menus & Context"@, "Menu bar customization and right-click context menu items"@, "☰"@, seq![("menu"@, "Menu bar customization"@), ("context_dialogs"@, "Right-click context menu items and dialog preferences"@)]),
        ("page"@, "Page & Content"@, "Default zoom, font rendering, per-site overrides, translation"@, "📄"@, seq![("page"@, "Default zoom level and font rendering"@), ("webpages"@, "Per-site overrides and content settings"@), ("translate"@, "Translation language preferences"@)]),
        ("features"@, "Features & Experiments"@, "Feature flags, experimental toggles, general preference switches"@, "🧪"@, seq![("features"@, "Feature flags and experimental options"@), ("settings"@, "General Vivaldi preference switches"@), ("list"@, "List view and display preferences"@)]),
        ("downloads"@, "Downloads"@, "Default download folder and download behavior"@, "⬇️"@, seq![("downloads"@, "Download folder, ask-before-download, open-after-download"@)]),
        ("web_panels"@, "Web Panels"@, "Saved web panels list, URLs, width, reload behavior"@, "📌"@, seq![("panels"@, "All saved web panels and their configuration"@)]),
        ("workspaces"@, "Workspaces"@, "Workspace names, icons, and tab groupings"@, "🗂️"@, seq![("workspaces"@, "Workspace names, icons, and layout groupings"@)]),
        ("startup"@, "Startup & Homepage"@, "What opens on launch and the homepage URL"@, "🏠"@, seq![("startup"@, "Startup behavior (last session / specific pages / speed dial)"@), ("homepage"@, "Homepage URL"@)]),
        ("privacy"@, "Privacy & Passwords"@, "Tracker blocking, cookie settings (not passwords)"@, "🛡️"@, seq![("privacy"@, "Tracker and ad blocking, privacy switches"@), ("cookies"@, "Cookie settings"@)]),
        ("search"@, "Search Engine"@, "Default search engine for address bar and private search"@, "🔍"@, seq![("root:default_search_provider"@, "Active search engine selection"@), ("root:default_search_provider_data"@, "Search engine URL templates and settings"@)]),
    ]
}

/// A key with its description.
fn sync_key(key: &str, label: &str) -> (r: SyncKey)
    ensures
        key_view(r) == (key@, label@),
{
    SyncKey { key: String::from_str(key), label: String::from_str(label) }
}

/// A group of keys.
fn category(id: &str, label: &str, desc: &str, icon: &str, sub_keys: Vec<SyncKey>) -> (r:
    SyncCategory)
    ensures
        category_view(r) == (id@, label@, desc@, icon@, sub_keys@.map_values(
            |k: SyncKey| key_view(k),
        )),
{
    SyncCategory {
        id: String::from_str(id),
        label: String::from_str(label),
        desc: String::from_str(desc),
        icon: String::from_str(icon),
        sub_keys,
    }
}

/// The groups of keys that can be synced, as [`category_table`] lists them.
pub fn sync_categories() -> (r: Vec<SyncCategory>)
    ensures
        r@.map_values(|c: SyncCategory| category_view(c)) == category_table(),
{
    let mut r: Vec<SyncCategory> = Vec::new();
    let mut subs: Vec<SyncKey> = Vec::new();
    subs.push(sync_key("tabs", "Tab bar (position, close button side, stacking mode)"));
    subs.push(sync_key("toolbars", "Toolbar button layout and order"));
    subs.push(sync_key("address_bar", "Address bar behavior and search field"));
    subs.push(sync_key("auto_hide", "Auto-hide rules for panels, tabs, and address bar"));
    assert(subs@.map_values(|k: SyncKey| key_view(k)) =~= seq![("tabs"@, "Tab bar (position, close button side, stacking mode)"@), ("toolbars"@, "Toolbar button layout and order"@), ("address_bar"@, "Address bar behavior and search field"@), ("auto_hide"@, "Auto-hide rules for panels, tabs, and address bar"@)]);
    r.push(category("ui_layout", "UI Layout", "Tab bar, toolbar buttons, address bar, and auto-hide rules", "🖥️", subs));
    let mut subs: Vec<SyncKey> = Vec::new();
    subs.push(sync_key("appearance", "Window and UI appearance settings"));
    subs.push(sync_key("theme", "Currently active theme"));
    subs.push(sync_key("themes", "All saved custom themes"));
    assert(subs@.map_values(|k: SyncKey| key_view(k)) =~= seq![("appearance"@, "Window and UI appearance settings"@), ("theme"@, "Currently active theme"@), ("themes"@, "All saved custom themes"@)]);
    r.push(category("appearance", "Appearance & Themes", "Active theme, saved custom themes, window accent color", "🎨", subs));
    let mut subs: Vec<SyncKey> = Vec::new();
    subs.push(sync_key("keyboard", "Custom keyboard shortcut bindings"));
    subs.push(sync_key("chained_commands", "Multi-key command chains"));
    subs.push(sync_key("actions", "Custom action definitions"));
    assert(subs@.map_values(|k: SyncKey| key_view(k)) =~= seq![("keyboard"@, "Custom keyboard shortcut bindings"@), ("chained_commands"@, "Multi-key command chains"@), ("actions"@, "Custom action definitions"@)]);
    r.push(category("keyboard", "Keyboard Shortcuts", "Custom key bindings, multi-key command chains", "⌨️", subs));
    let mut subs: Vec<SyncKey> = Vec::new();
    subs.push(sync_key("menu", "Menu bar customization"));
    subs.push(sync_key("context_dialogs", "Right-click context menu items and dialog preferences"));
    assert(subs@.map_values(|k: SyncKey| key_view(k)) =~= seq![("menu"@, "Menu bar customization"@), ("context_dialogs"@, "Right-click context menu items and dialog preferences"@)]);
    r.push(category("menus", "Menus & Context", "Menu bar customization and right-click context menu items", "☰", subs));
    let mut subs: Vec<SyncKey> = Vec::new();
    subs.push(sync_key("page", "Default zoom level and font rendering"));
    subs.push(sync_key("webpages", "Per-site overrides and content settings"));
    subs.push(sync_key("translate", "Translation language preferences"));
    assert(subs@.map_values(|k: SyncKey| key_view(k)) =~= seq![("page"@, "Default zoom level and font rendering"@), ("webpages"@, "Per-site overrides and content settings"@), ("translate"@, "Translation language preferences"@)]);
    r.push(category("page", "Page & Content", "Default zoom, font rendering, per-site overrides, translation", "📄", subs));
    let mut subs: Vec<SyncKey> = Vec::new();
    subs.push(sync_key("features", "Feature flags and experimental options"));
    subs.push(sync_key("settings", "General Vivaldi preference switches"));
    subs.push(sync_key("list", "List view and display preferences"));
    assert(subs@.map_values(|k: SyncKey| key_view(k)) =~= seq![("features"@, "Feature flags and experimental options"@), ("settings"@, "General Vivaldi preference switches"@), ("list"@, "List view and display preferences"@)]);
    r.push(category("features", "Features & Experiments", "Feature flags, experimental toggles, general preference switches", "🧪", subs));
    let mut subs: Vec<SyncKey> = Vec::new();
    subs.push(sync_key("downloads", "Download folder, ask-before-download, open-after-download"));
    assert(subs@.map_values(|k: SyncKey| key_view(k)) =~= seq![("downloads"@, "Download folder, ask-before-download, open-after-download"@)]);
    r.push(category("downloads", "Downloads", "Default download folder and download behavior", "⬇️", subs));
    let mut subs: Vec<SyncKey> = Vec::new();
    subs.push(sync_key("panels", "All saved web panels and their configuration"));
    assert(subs@.map_values(|k: SyncKey| key_view(k)) =~= seq![("panels"@, "All saved web panels and their configuration"@)]);
    r.push(category("web_panels", "Web Panels", "Saved web panels list, URLs, width, reload behavior", "📌", subs));
    let mut subs: Vec<SyncKey> = Vec::new();
    subs.push(sync_key("workspaces", "Workspace names, icons, and layout groupings"));
    assert(subs@.map_values(|k: SyncKey| key_view(k)) =~= seq![("workspaces"@, "Workspace names, icons, and layout groupings"@)]);
    r.push(category("workspaces", "Workspaces", "Workspace names, icons, and tab groupings", "🗂️", subs));
    let mut subs: Vec<SyncKey> = Vec::new();
    subs.push(sync_key("startup", "Startup behavior (last session / specific pages / speed dial)"));
    subs.push(sync_key("homepage", "Homepage URL"));
    assert(subs@.map_values(|k: SyncKey| key_view(k)) =~= seq![("startup"@, "Startup behavior (last session / specific pages / speed dial)"@), ("homepage"@, "Homepage URL"@)]);
    r.push(category("startup", "Startup & Homepage", "What opens on launch and the homepage URL", "🏠", subs));
    let mut subs: Vec<SyncKey> = Vec::new();
    subs.push(sync_key("privacy", "Tracker and ad blocking, privacy switches"));
    subs.push(sync_key("cookies", "Cookie settings"));
    assert(subs@.map_values(|k: SyncKey| key_view(k)) =~= seq![("privacy"@, "Tracker and ad blocking, privacy switches"@), ("cookies"@, "Cookie settings"@)]);
    r.push(category("privacy", "Privacy & Passwords", "Tracker blocking, cookie settings (not passwords)", "🛡️", subs));
    let mut subs: Vec<SyncKey> = Vec::new();
    subs.push(sync_key("root:default_search_provider", "Active search engine selection"));
    subs.push(sync_key("root:default_search_provider_data", "Search engine URL templates and settings"));
    assert(subs@.map_values(|k: SyncKey| key_view(k)) =~= seq![("root:default_search_provider"@, "Active search engine selection"@), ("root:default_search_provider_data"@, "Search engine URL templates and settings"@)]);
    r.push(category("search", "Search Engine", "Default search engine for address bar and private search", "🔍", subs));
    assert(r@.map_values(|c: SyncCategory| category_view(c)) =~= category_table());
    r
}

} // verus!
