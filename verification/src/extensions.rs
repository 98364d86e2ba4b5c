//! The extensions of a profile: their names, versions and state, and copying them to
//! another profile.

use vstd::prelude::*;

use crate::json::{
    json_text, json_to_text, lemma_member_well_formed, lemma_put_well_formed, parse_json,
    parsed_json, well_formed, entries_view, find_key, lemma_entries_view, lemma_first_index, lemma_lookup_put, lookup, member, put, put_entry,
    Json, JsonView,
};
use crate::order::{
    lemma_stably_sorted_by, lemma_stably_sorted_items, lemma_stably_sorted_map,
    lemma_stably_sorted_ties, sort_by_text_key,
    stably_sorted, text_le,
};
use crate::sync::texts;
use crate::text::{chars_of, starts_with, strip_prefixes, strip_suffixes, trim_end_matches, trim_start_matches};

verus! {

/// The lower-case form of a text, as `str::to_lowercase` gives it.
pub uninterp spec fn lowercase(s: Seq<char>) -> Seq<char>;

/// Whether every character of `s` is ASCII.
pub open spec fn is_ascii_text(s: Seq<char>) -> bool {
    forall|i: int| 0 <= i < s.len() ==> (#[trigger] s[i] as int) < 128
}

/// The lower-case form of an ASCII character: `A`..`Z` become `a`..`z`.
pub open spec fn ascii_lower(c: char) -> char {
    if 'A' <= c <= 'Z' {
        ((c as int) + 32) as char
    } else {
        c
    }
}

/// Calls `str::to_lowercase`, which maps each character to its Unicode lower-case
/// form.  The mapping (Unicode's case tables, with context rules such as the final
/// sigma) is not written out here: the result is named [`lowercase`] of the text.
/// Stated beside it: on an ASCII text it lowers `A`..`Z` and keeps every other
/// character, as the Unicode lower-case mapping does for ASCII.
#[verifier::external_body]
fn to_lowercase(s: &str) -> (r: String)
    ensures
        r@ == lowercase(s@),
        is_ascii_text(s@) ==> r@ == s@.map_values(|c: char| ascii_lower(c)),
{
    s.to_lowercase()
}

/// The document of a catalog file's text, when there is a text and it parses.
pub open spec fn catalog_doc(o: Option<String>) -> Option<JsonView> {
    match o {
        Some(t) => match parsed_json(t@) {
            Ok(j) => Some(j),
            Err(_) => None,
        },
        None => None,
    }
}

/// The documents of catalog texts, in order.
pub open spec fn catalogs_view(cs: Seq<Option<String>>) -> Seq<Option<JsonView>> {
    cs.map_values(|c: Option<String>| catalog_doc(c))
}

/// The extension settings of a `Preferences` document: the entries of
/// `extensions.settings`, or none when that member is not an object.
pub open spec fn settings_of(prefs: JsonView) -> Seq<(Seq<char>, JsonView)> {
    match member(prefs, "extensions"@) {
        Some(e) => match member(e, "settings"@) {
            Some(JsonView::Object(es)) => es,
            _ => Seq::empty(),
        },
        None => Seq::empty(),
    }
}

/// The extension settings of a `Preferences` document, as an object.
pub fn extension_settings(prefs: &Json) -> (r: Json)
    ensures
        r@ == JsonView::Object(settings_of(prefs@)),
{
    let found = match prefs.get("extensions") {
        Some(e) => match e.get("settings") {
            Some(s) => match s {
                Json::Object(_) => Some(s.clone()),
                _ => None,
            },
            None => None,
        },
        None => None,
    };
    match found {
        Some(s) => s,
        None => {
            assert(entries_view(Seq::<(String, Json)>::empty()) =~= Seq::empty());
            Json::Object(Vec::new())
        },
    }
}

/// Whether an extension is enabled by the settings: its `state` is 1 when it is an
/// integer, and an extension without a recorded integer state counts as enabled.
pub open spec fn enabled_in(settings: JsonView, id: Seq<char>) -> bool {
    match member(settings, id) {
        Some(s) => match member(s, "state"@) {
            Some(JsonView::Int(n)) => n == 1,
            _ => true,
        },
        None => true,
    }
}

/// Whether the settings show the extension `id` as enabled.
pub fn is_enabled(settings: &Json, id: &str) -> (r: bool)
    ensures
        r == enabled_in(settings@, id@),
{
    match settings.get(id) {
        Some(s) => match s.get("state") {
            Some(st) => match st.as_i64() {
                Some(n) => n == 1,
                None => true,
            },
            None => true,
        },
        None => true,
    }
}

/// The name a manifest gives, or the extension's id when it gives no string name.
pub open spec fn manifest_name_of(manifest: JsonView, id: Seq<char>) -> Seq<char> {
    match member(manifest, "name"@) {
        Some(JsonView::Str(n)) => n,
        _ => id,
    }
}

/// The name a manifest gives, or the extension's id when it gives no string name.
pub fn manifest_name(manifest: &Json, id: &str) -> (r: String)
    ensures
        r@ == manifest_name_of(manifest@, id@),
{
    match manifest.get("name") {
        Some(n) => match n.as_str() {
            Some(s) => s.clone(),
            None => String::from_str(id),
        },
        None => String::from_str(id),
    }
}

/// Whether a manifest name refers to a localised message: it begins with `__MSG_`.
pub open spec fn is_message_ref(raw: Seq<char>) -> bool {
    "__MSG_"@.is_prefix_of(raw)
}

/// The message key of a reference `__MSG_<key>__`: every leading `__MSG_` and then
/// every trailing `__` removed.
pub open spec fn message_key_of(raw: Seq<char>) -> Seq<char> {
    strip_suffixes(strip_prefixes(raw, "__MSG_"@), "__"@)
}

/// The message key that a manifest name refers to, when it refers to one.
pub fn message_key(raw: &str) -> (r: Option<String>)
    ensures
        match r {
            Some(k) => is_message_ref(raw@) && k@ == message_key_of(raw@),
            None => !is_message_ref(raw@),
        },
{
    if starts_with(raw, "__MSG_") {
        let inner = trim_start_matches(raw, "__MSG_");
        Some(trim_end_matches(inner.as_str(), "__"))
    } else {
        None
    }
}

/// The message of the first entry of a message catalog whose name matches `key`
/// without regard to case and whose `message` member is a string.
pub open spec fn catalog_message(es: Seq<(Seq<char>, JsonView)>, key: Seq<char>) -> Option<
    Seq<char>,
>
    decreases es.len(),
{
    if es.len() == 0 {
        None
    } else {
        let r = catalog_message(es.drop_last(), key);
        if r is Some {
            r
        } else if lowercase(es.last().0) == lowercase(key) && member(
            es.last().1,
            "message"@,
        ) is Some && member(es.last().1, "message"@)->0 is Str {
            Some(member(es.last().1, "message"@)->0->Str_0)
        } else {
            None
        }
    }
}

/// The message for `key` in a message catalog, when the catalog is an object.
pub open spec fn message_in(catalog: JsonView, key: Seq<char>) -> Option<Seq<char>> {
    match catalog {
        JsonView::Object(es) => catalog_message(es, key),
        _ => None,
    }
}

/// The message for `key` in the first catalog that has one; a missing catalog has
/// none.
pub open spec fn resolved_message(catalogs: Seq<Option<JsonView>>, key: Seq<char>) -> Option<
    Seq<char>,
>
    decreases catalogs.len(),
{
    if catalogs.len() == 0 {
        None
    } else {
        let r = resolved_message(catalogs.drop_last(), key);
        if r is Some {
            r
        } else {
            match catalogs.last() {
                Some(c) => message_in(c, key),
                None => None,
            }
        }
    }
}

/// The locales whose message catalogs are consulted, in order: `en`, `en_US`, `es`.
pub fn message_locales() -> (r: Vec<&'static str>)
    ensures
        r@.len() == 3,
        r@[0]@ == "en"@,
        r@[1]@ == "en_US"@,
        r@[2]@ == "es"@,
{
    let mut r: Vec<&'static str> = Vec::new();
    r.push("en");
    r.push("en_US");
    r.push("es");
    r
}

/// The message that one catalog entry gives for `key`: its `message` string, when its
/// name is `key` without regard to case.
pub open spec fn entry_message(e: (Seq<char>, JsonView), key: Seq<char>) -> Option<Seq<char>> {
    if lowercase(e.0) == lowercase(key) {
        match member(e.1, "message"@) {
            Some(JsonView::Str(m)) => Some(m),
            _ => None,
        }
    } else {
        None
    }
}

/// The message of a catalog is that of its first entry that gives one; there is none
/// only when no entry gives one.
pub proof fn law_catalog_first_match(es: Seq<(Seq<char>, JsonView)>, key: Seq<char>)
    ensures
        match catalog_message(es, key) {
            Some(m) => exists|i: int|
                0 <= i < es.len() && #[trigger] entry_message(es[i], key) == Some(m) && forall|j: int|
                    0 <= j < i ==> (#[trigger] entry_message(es[j], key)) is None,
            None => forall|i: int| 0 <= i < es.len() ==> (#[trigger] entry_message(es[i], key)) is None,
        },
    decreases es.len(),
{
    if es.len() > 0 {
        let prev = es.drop_last();
        let last = es.len() - 1;
        law_catalog_first_match(prev, key);
        assert(es[last] == es.last());
        match catalog_message(prev, key) {
            Some(m) => {
                let i = choose|i: int|
                    0 <= i < prev.len() && #[trigger] entry_message(prev[i], key) == Some(m) && forall|
                        j: int,
                    | 0 <= j < i ==> (#[trigger] entry_message(prev[j], key)) is None;
                assert(prev[i] == es[i]);
                assert forall|j: int| 0 <= j < i implies (#[trigger] entry_message(es[j], key)) is None by {
                    assert(prev[j] == es[j]);
                }
                assert(entry_message(es[i], key) == Some(m));
            },
            None => {
                assert forall|j: int| 0 <= j < last implies (#[trigger] entry_message(es[j], key)) is None by {
                    assert(prev[j] == es[j]);
                    assert(entry_message(prev[j], key) is None);
                }
                if let Some(m) = catalog_message(es, key) {
                    assert(entry_message(es[last], key) == Some(m));
                } else {
                    assert(entry_message(es[last], key) is None);
                }
            },
        }
    }
}

/// The message for `key` in one catalog.
pub fn find_message(catalog: &Json, key: &str) -> (r: Option<String>)
    ensures
        match r {
            Some(m) => message_in(catalog@, key@) == Some(m@),
            None => message_in(catalog@, key@) is None,
        },
        is_ascii_text(key@) ==> lowercase(key@) == key@.map_values(|c: char| ascii_lower(c)),
        catalog@ matches JsonView::Object(es) ==> forall|i: int|
            0 <= i < es.len() && is_ascii_text(#[trigger] es[i].0) ==> lowercase(es[i].0)
                == es[i].0.map_values(|c: char| ascii_lower(c)),
        catalog@ matches JsonView::Object(es) ==> match r {
            Some(m) => exists|i: int|
                0 <= i < es.len() && #[trigger] entry_message(es[i], key@) == Some(m@) && forall|j: int|
                    0 <= j < i ==> (#[trigger] entry_message(es[j], key@)) is None,
            None => forall|i: int| 0 <= i < es.len() ==> (#[trigger] entry_message(es[i], key@)) is None,
        },
        !(catalog@ is Object) ==> r is None,
{
    if let Json::Object(es) = catalog {
        proof {
            law_catalog_first_match(entries_view(es@), key@);
        }
    }
    let wanted = to_lowercase(key);
    let entries = match catalog {
        Json::Object(es) => es,
        _ => {
            return None;
        },
    };
    proof {
        lemma_entries_view(entries@);
    }
    let ghost es = entries_view(entries@);
    // the lower-case form of every name
    let mut names: Vec<String> = Vec::new();
    let mut i: usize = 0;
    while i < entries.len()
        invariant
            es == entries_view(entries@),
            es.len() == entries@.len(),
            forall|j: int| 0 <= j < es.len() ==> #[trigger] es[j] == (entries@[j].0@, entries@[j].1@),
            i <= entries.len(),
            names@.len() == i,
            forall|j: int| 0 <= j < i ==> (#[trigger] names@[j])@ == lowercase(es[j].0),
            forall|j: int|
                0 <= j < i && is_ascii_text(#[trigger] es[j].0) ==> lowercase(es[j].0)
                    == es[j].0.map_values(|c: char| ascii_lower(c)),
        decreases entries.len() - i,
    {
        let name = to_lowercase(entries[i].0.as_str());
        names.push(name);
        i = i + 1;
    }
    let mut i: usize = 0;
    while i < entries.len()
        invariant
            es == entries_view(entries@),
            catalog@ == JsonView::Object(es),
            es.len() == entries@.len(),
            forall|j: int| 0 <= j < es.len() ==> #[trigger] es[j] == (entries@[j].0@, entries@[j].1@),
            names@.len() == es.len(),
            forall|j: int| 0 <= j < es.len() ==> (#[trigger] names@[j])@ == lowercase(es[j].0),
            forall|j: int|
                0 <= j < es.len() && is_ascii_text(#[trigger] es[j].0) ==> lowercase(es[j].0)
                    == es[j].0.map_values(|c: char| ascii_lower(c)),
            wanted@ == lowercase(key@),
            is_ascii_text(key@) ==> lowercase(key@) == key@.map_values(|c: char| ascii_lower(c)),
            i <= entries.len(),
            catalog_message(es.take(i as int), key@) is None,
        decreases entries.len() - i,
    {
        proof {
            assert(es.take(i + 1).drop_last() =~= es.take(i as int));
            assert(es.take(i + 1).last() == es[i as int]);
        }
        if names[i] == wanted {
            match entries[i].1.get("message") {
                Some(m) => match m.as_str() {
                    Some(text) => {
                        proof {
                            assert(names@[i as int]@ == lowercase(es[i as int].0));
                            assert(catalog_message(es.take(i + 1), key@) == Some(text@));
                            lemma_catalog_message_prefix(es, i + 1, key@);
                            law_catalog_first_match(es, key@);
                        }
                        return Some(text.clone());
                    },
                    None => {},
                },
                None => {},
            }
        }
        proof {
            assert(names@[i as int]@ == lowercase(es[i as int].0));
        }
        i = i + 1;
    }
    proof {
        assert(es.take(es.len() as int) =~= es);
    }
    None
}

/// A message found in a prefix of the entries is the one found in all of them.
pub proof fn lemma_catalog_message_prefix(es: Seq<(Seq<char>, JsonView)>, n: int, key: Seq<char>)
    requires
        0 <= n <= es.len(),
        catalog_message(es.take(n), key) is Some,
    ensures
        catalog_message(es, key) == catalog_message(es.take(n), key),
    decreases es.len() - n,
{
    if n < es.len() {
        assert(es.take(n + 1).drop_last() =~= es.take(n));
        lemma_catalog_message_prefix(es, n + 1, key);
    } else {
        assert(es.take(n) =~= es);
    }
}

/// The message for `key` in one catalog text: none when there is no text, when it
/// does not parse, or when it has no such message.
pub open spec fn text_message(c: Option<String>, key: Seq<char>) -> Option<Seq<char>> {
    match c {
        Some(t) => match parsed_json(t@) {
            Ok(d) => message_in(d, key),
            Err(_) => None,
        },
        None => None,
    }
}

/// The catalogs are consulted in the order given: the message resolved is that of the
/// first catalog text that has one, and there is none only when no catalog has one.
pub proof fn law_first_catalog_wins(cs: Seq<Option<String>>, key: Seq<char>)
    ensures
        match resolved_message(catalogs_view(cs), key) {
            Some(m) => exists|i: int|
                0 <= i < cs.len() && #[trigger] text_message(cs[i], key) == Some(m) && forall|j: int|
                    0 <= j < i ==> (#[trigger] text_message(cs[j], key)) is None,
            None => forall|i: int| 0 <= i < cs.len() ==> (#[trigger] text_message(cs[i], key)) is None,
        },
    decreases cs.len(),
{
    if cs.len() > 0 {
        let prev = cs.drop_last();
        law_first_catalog_wins(prev, key);
        assert(catalogs_view(cs).drop_last() =~= catalogs_view(prev));
        assert(catalogs_view(cs).last() == catalog_doc(cs.last()));
        let last = cs.len() - 1;
        assert(cs[last] == cs.last());
        match resolved_message(catalogs_view(prev), key) {
            Some(m) => {
                let i = choose|i: int|
                    0 <= i < prev.len() && #[trigger] text_message(prev[i], key) == Some(m) && forall|
                        j: int,
                    | 0 <= j < i ==> (#[trigger] text_message(prev[j], key)) is None;
                assert(prev[i] == cs[i]);
                assert forall|j: int| 0 <= j < i implies (#[trigger] text_message(cs[j], key)) is None by {
                    assert(prev[j] == cs[j]);
                }
                assert(text_message(cs[i], key) == Some(m));
            },
            None => {
                assert forall|j: int| 0 <= j < last implies (#[trigger] text_message(cs[j], key)) is None by {
                    assert(prev[j] == cs[j]);
                    assert(text_message(prev[j], key) is None);
                }
                if let Some(m) = resolved_message(catalogs_view(cs), key) {
                    assert(text_message(cs[last], key) == Some(m));
                } else {
                    assert(text_message(cs[last], key) is None);
                }
            },
        }
    }
}

/// The message for `key` in the first of the catalog texts that parses and has one;
/// `None` stands for a catalog that could not be read.
pub fn resolve_msg_name(catalogs: &Vec<Option<String>>, key: &str) -> (r: Option<String>)
    ensures
        match r {
            Some(m) => resolved_message(catalogs_view(catalogs@), key@) == Some(m@),
            None => resolved_message(catalogs_view(catalogs@), key@) is None,
        },
        match r {
            Some(m) => exists|i: int|
                0 <= i < catalogs@.len() && #[trigger] text_message(catalogs@[i], key@) == Some(m@)
                    && forall|j: int|
                    0 <= j < i ==> (#[trigger] text_message(catalogs@[j], key@)) is None,
            None => forall|i: int|
                0 <= i < catalogs@.len() ==> (#[trigger] text_message(catalogs@[i], key@)) is None,
        },
{
    proof {
        law_first_catalog_wins(catalogs@, key@);
    }
    let ghost cs = catalogs_view(catalogs@);
    let mut i: usize = 0;
    while i < catalogs.len()
        invariant
            cs == catalogs_view(catalogs@),
            i <= catalogs.len(),
            resolved_message(cs.take(i as int), key@) is None,
        decreases catalogs.len() - i,
    {
        proof {
            assert(cs.take(i + 1).drop_last() =~= cs.take(i as int));
            assert(cs.take(i + 1).last() == catalog_doc(catalogs@[i as int]));
        }
        match &catalogs[i] {
            Some(text) => match parse_json(text.as_str()) {
                Ok(c) => match find_message(&c, key) {
                    Some(m) => {
                        proof {
                            lemma_resolved_prefix(cs, i + 1, key@);
                            law_first_catalog_wins(catalogs@, key@);
                        }
                        return Some(m);
                    },
                    None => {},
                },
                Err(_) => {},
            },
            None => {},
        }
        i = i + 1;
    }
    proof {
        assert(cs.take(cs.len() as int) =~= cs);
    }
    None
}

/// A message resolved from a prefix of the catalogs is the one resolved from all.
pub proof fn lemma_resolved_prefix(cs: Seq<Option<JsonView>>, n: int, key: Seq<char>)
    requires
        0 <= n <= cs.len(),
        resolved_message(cs.take(n), key) is Some,
    ensures
        resolved_message(cs, key) == resolved_message(cs.take(n), key),
    decreases cs.len() - n,
{
    if n < cs.len() {
        assert(cs.take(n + 1).drop_last() =~= cs.take(n));
        lemma_resolved_prefix(cs, n + 1, key);
    } else {
        assert(cs.take(n) =~= cs);
    }
}

/// The name shown for an extension: the manifest's name, or, when that refers to a
/// localised message, the message found in the catalogs (the reference itself when
/// none has it).
pub open spec fn extension_name_of(
    manifest: JsonView,
    id: Seq<char>,
    catalogs: Seq<Option<JsonView>>,
) -> Seq<char> {
    let raw = manifest_name_of(manifest, id);
    if is_message_ref(raw) {
        match resolved_message(catalogs, message_key_of(raw)) {
            Some(m) => m,
            None => raw,
        }
    } else {
        raw
    }
}

/// The name shown for an extension.
pub fn extension_name(manifest: &Json, id: &str, catalogs: &Vec<Option<String>>) -> (r: String)
    ensures
        r@ == extension_name_of(manifest@, id@, catalogs_view(catalogs@)),
{
    let raw = manifest_name(manifest, id);
    match message_key(raw.as_str()) {
        Some(key) => match resolve_msg_name(catalogs, key.as_str()) {
            Some(m) => m,
            None => raw,
        },
        None => raw,
    }
}


/// An installed extension as the extension list shows it.
#[derive(Debug, Clone, PartialEq, Eq)]
pub struct ExtensionInfo {
    pub id: String,
    pub name: String,
    pub version: String,
    pub enabled: bool,
}

/// The view of an extension in the list: id, name, version and whether it is enabled.
pub open spec fn info_view(e: ExtensionInfo) -> (Seq<char>, Seq<char>, Seq<char>, bool) {
    (e.id@, e.name@, e.version@, e.enabled)
}

/// What was found in one folder of a profile's `Extensions` folder: its name (the
/// extension's id), the first version folder in it, the text of its manifest file, and
/// the texts of its message catalogs, in the order of [`message_locales`] (`None`
/// for one that could not be read).
#[derive(Debug, Clone, PartialEq)]
pub struct ExtensionDir {
    pub id: String,
    pub version: Option<String>,
    pub manifest: Option<String>,
    pub catalogs: Vec<Option<String>>,
}

/// The extensions that the folders show, in folder order: a folder whose name begins
/// with `.`, that has no version folder, or whose manifest could not be read or does
/// not parse is left out.
pub open spec fn listed(settings: JsonView, dirs: Seq<ExtensionDir>) -> Seq<
    (Seq<char>, Seq<char>, Seq<char>, bool),
>
    decreases dirs.len(),
{
    if dirs.len() == 0 {
        Seq::empty()
    } else {
        let rest = listed(settings, dirs.drop_last());
        let d = dirs.last();
        if !"."@.is_prefix_of(d.id@) && d.version is Some && d.manifest is Some && parsed_json(
            d.manifest->0@,
        ) is Ok {
            rest.push(
                (
                    d.id@,
                    extension_name_of(
                        parsed_json(d.manifest->0@)->Ok_0,
                        d.id@,
                        catalogs_view(d.catalogs@),
                    ),
                    d.version->0@,
                    enabled_in(settings, d.id@),
                ),
            )
        } else {
            rest
        }
    }
}

/// Whether a folder of `Extensions` shows an extension: its name does not begin with
/// `.`, it has a version folder, and its manifest was read and parses.
pub open spec fn folder_shows(d: ExtensionDir) -> bool {
    &&& !"."@.is_prefix_of(d.id@)
    &&& d.version is Some
    &&& d.manifest is Some
    &&& parsed_json(d.manifest->0@) is Ok
}

/// The entry that a folder showing an extension gives: its id, the name its manifest
/// and catalogs give, its version folder and whether the settings enable it.
pub open spec fn folder_entry(settings: JsonView, d: ExtensionDir) -> (
    Seq<char>,
    Seq<char>,
    Seq<char>,
    bool,
) {
    (
        d.id@,
        extension_name_of(parsed_json(d.manifest->0@)->Ok_0, d.id@, catalogs_view(d.catalogs@)),
        d.version->0@,
        enabled_in(settings, d.id@),
    )
}

/// Whether `e1` and `e2` are the entries of two folders that show extensions, the
/// folder of `e1` before that of `e2`.
pub open spec fn entries_in_folder_order(
    settings: JsonView,
    dirs: Seq<ExtensionDir>,
    e1: (Seq<char>, Seq<char>, Seq<char>, bool),
    e2: (Seq<char>, Seq<char>, Seq<char>, bool),
) -> bool {
    exists|v1: int, v2: int|
        0 <= v1 < v2 < dirs.len() && folder_shows(dirs[v1]) && folder_shows(dirs[v2]) && e1
            == folder_entry(settings, #[trigger] dirs[v1]) && e2 == folder_entry(
            settings,
            #[trigger] dirs[v2],
        )
}

/// Whether `e` is the entry of some folder that shows an extension.
pub open spec fn entry_of_some_folder(
    settings: JsonView,
    dirs: Seq<ExtensionDir>,
    e: (Seq<char>, Seq<char>, Seq<char>, bool),
) -> bool {
    exists|v: int| 0 <= v < dirs.len() && folder_shows(dirs[v]) && e == folder_entry(settings, #[trigger] dirs[v])
}

/// Every folder that shows an extension gives its entry, no other folder gives one,
/// and the entries come in the folders' order, one per folder.
pub proof fn law_listed_folders(settings: JsonView, dirs: Seq<ExtensionDir>)
    ensures
        forall|v: int|
            0 <= v < dirs.len() && folder_shows(#[trigger] dirs[v]) ==> listed(
                settings,
                dirs,
            ).contains(folder_entry(settings, dirs[v])),
        forall|k: int|
            0 <= k < listed(settings, dirs).len() ==> entry_of_some_folder(
                settings,
                dirs,
                #[trigger] listed(settings, dirs)[k],
            ),
        forall|k1: int, k2: int|
            0 <= k1 < k2 < listed(settings, dirs).len() ==> entries_in_folder_order(
                settings,
                dirs,
                #[trigger] listed(settings, dirs)[k1],
                #[trigger] listed(settings, dirs)[k2],
            ),
    decreases dirs.len(),
{
    if dirs.len() > 0 {
        let n = dirs.len() - 1;
        let prev = dirs.drop_last();
        law_listed_folders(settings, prev);
        let rest = listed(settings, prev);
        let l = listed(settings, dirs);
        let d = dirs[n];
        assert(d == dirs.last());
        assert forall|v: int| 0 <= v < dirs.len() && folder_shows(#[trigger] dirs[v]) implies l.contains(
            folder_entry(settings, dirs[v]),
        ) by {
            if v < n {
                assert(prev[v] == dirs[v]);
                assert(rest.contains(folder_entry(settings, prev[v])));
                let k = choose|k: int| 0 <= k < rest.len() && rest[k] == folder_entry(settings, prev[v]);
                assert(l[k] == rest[k]);
            } else {
                assert(l[l.len() - 1] == folder_entry(settings, d));
            }
        }
        assert forall|k: int| 0 <= k < l.len() implies entry_of_some_folder(
            settings,
            dirs,
            #[trigger] l[k],
        ) by {
            if k < rest.len() {
                assert(l[k] == rest[k]);
                assert(entry_of_some_folder(settings, prev, rest[k]));
                let v = choose|v: int|
                    0 <= v < prev.len() && folder_shows(prev[v]) && rest[k] == folder_entry(
                        settings,
                        #[trigger] prev[v],
                    );
                assert(prev[v] == dirs[v]);
            } else {
                assert(l[k] == folder_entry(settings, dirs[n as int]));
            }
        }
        assert forall|k1: int, k2: int| 0 <= k1 < k2 < l.len() implies entries_in_folder_order(
            settings,
            dirs,
            #[trigger] l[k1],
            #[trigger] l[k2],
        ) by {
            assert(l[k1] == rest[k1]);
            if k2 < rest.len() {
                assert(l[k2] == rest[k2]);
                assert(entries_in_folder_order(settings, prev, rest[k1], rest[k2]));
                let (v1, v2) = choose|v1: int, v2: int|
                    0 <= v1 < v2 < prev.len() && folder_shows(prev[v1]) && folder_shows(prev[v2])
                        && rest[k1] == folder_entry(settings, #[trigger] prev[v1]) && rest[k2]
                        == folder_entry(settings, #[trigger] prev[v2]);
                assert(prev[v1] == dirs[v1] && prev[v2] == dirs[v2]);
            } else {
                assert(l[k2] == folder_entry(settings, dirs[n as int]));
                assert(entry_of_some_folder(settings, prev, rest[k1]));
                let v1 = choose|v1: int|
                    0 <= v1 < prev.len() && folder_shows(prev[v1]) && rest[k1] == folder_entry(
                        settings,
                        #[trigger] prev[v1],
                    );
                assert(prev[v1] == dirs[v1]);
            }
        }
    }
}

/// The keys by which the extension list is sorted: the lower-case names.
pub open spec fn lowercase_names(es: Seq<(Seq<char>, Seq<char>, Seq<char>, bool)>) -> Seq<
    Seq<char>,
> {
    es.map_values(|e: (Seq<char>, Seq<char>, Seq<char>, bool)| lowercase(e.1))
}

/// Whether a folder of `Extensions` can hold an extension: its name does not begin
/// with `.`.
pub fn is_extension_folder(name: &str) -> (r: bool)
    ensures
        r == !"."@.is_prefix_of(name@),
{
    !starts_with(name, ".")
}

/// The extension list holds exactly the extensions that the folders show, as many as
/// there are, and in the order of the lower-case form of their names.
pub proof fn law_extensions_listed(r: Seq<ExtensionInfo>, settings: JsonView, dirs: Seq<ExtensionDir>)
    requires
        stably_sorted(
            r.map_values(|e: ExtensionInfo| info_view(e)),
            listed(settings, dirs),
            lowercase_names(listed(settings, dirs)),
        ),
    ensures
        forall|i: int, j: int|
            0 <= i < j < r.len() ==> text_le(
                lowercase((#[trigger] r[i]).name@),
                lowercase((#[trigger] r[j]).name@),
            ),
        r.len() == listed(settings, dirs).len(),
        forall|v: int|
            0 <= v < listed(settings, dirs).len() ==> r.map_values(|e: ExtensionInfo| info_view(e)).contains(
                #[trigger] listed(settings, dirs)[v],
            ),
        forall|i: int| 0 <= i < r.len() ==> listed(settings, dirs).contains(info_view(#[trigger] r[i])),
        forall|i: int, j: int|
            0 <= i < j < r.len() && lowercase((#[trigger] r[i]).name@) == lowercase(
                (#[trigger] r[j]).name@,
            ) ==> exists|a: int, b: int|
                0 <= a < b < listed(settings, dirs).len() && #[trigger] listed(settings, dirs)[a]
                    == info_view(r[i]) && #[trigger] listed(settings, dirs)[b] == info_view(r[j]),
{
    let m = r.map_values(|e: ExtensionInfo| info_view(e));
    let s = listed(settings, dirs);
    let f = |e: (Seq<char>, Seq<char>, Seq<char>, bool)| lowercase(e.1);
    lemma_stably_sorted_items(m, s, lowercase_names(s));
    lemma_stably_sorted_by(m, s, lowercase_names(s), f);
    lemma_stably_sorted_ties(m, s, lowercase_names(s), f);
    assert forall|i: int, j: int|
        0 <= i < j < r.len() && lowercase((#[trigger] r[i]).name@) == lowercase(
            (#[trigger] r[j]).name@,
        ) implies exists|a: int, b: int|
        0 <= a < b < s.len() && #[trigger] s[a] == info_view(r[i]) && #[trigger] s[b] == info_view(
            r[j],
        ) by {
        assert(m[i] == info_view(r[i]) && m[j] == info_view(r[j]));
        assert(f(m[i]) == f(m[j]));
    }
    assert forall|i: int, j: int| 0 <= i < j < r.len() implies text_le(
        lowercase((#[trigger] r[i]).name@),
        lowercase((#[trigger] r[j]).name@),
    ) by {
        assert(m[i] == info_view(r[i]) && m[j] == info_view(r[j]));
        assert(text_le(f(m[i]), f(m[j])));
    }
    assert forall|i: int| 0 <= i < r.len() implies s.contains(info_view(#[trigger] r[i])) by {
        assert(m[i] == info_view(r[i]));
        assert(s.contains(m[i]));
    }
}

/// The extension list of a profile: one entry per extension folder that shows one,
/// with its name, version and state, sorted stably by lower-case name.
pub fn list_extensions(settings: &Json, dirs: Vec<ExtensionDir>) -> (r: Vec<ExtensionInfo>)
    ensures
        stably_sorted(
            r@.map_values(|e: ExtensionInfo| info_view(e)),
            listed(settings@, dirs@),
            lowercase_names(listed(settings@, dirs@)),
        ),
        forall|i: int, j: int|
            0 <= i < j < r@.len() ==> text_le(
                lowercase((#[trigger] r@[i]).name@),
                lowercase((#[trigger] r@[j]).name@),
            ),
        r@.len() == listed(settings@, dirs@).len(),
        forall|i: int|
            0 <= i < r@.len() ==> listed(settings@, dirs@).contains(info_view(#[trigger] r@[i])),
        forall|v: int|
            0 <= v < dirs@.len() && folder_shows(#[trigger] dirs@[v]) ==> r@.map_values(
                |e: ExtensionInfo| info_view(e),
            ).contains(folder_entry(settings@, dirs@[v])),
        forall|i: int|
            0 <= i < r@.len() ==> entry_of_some_folder(settings@, dirs@, info_view(#[trigger] r@[i])),
        forall|i: int, j: int|
            0 <= i < j < r@.len() && lowercase((#[trigger] r@[i]).name@) == lowercase(
                (#[trigger] r@[j]).name@,
            ) ==> exists|a: int, b: int|
                0 <= a < b < listed(settings@, dirs@).len() && #[trigger] listed(settings@, dirs@)[a]
                    == info_view(r@[i]) && #[trigger] listed(settings@, dirs@)[b] == info_view(r@[j]),
{
    let ghost ds = dirs@;
    let n = dirs.len();
    let mut dirs = dirs;
    let mut found: Vec<ExtensionInfo> = Vec::new();
    let mut keys: Vec<Vec<char>> = Vec::new();
    let mut i: usize = 0;
    while i < n
        invariant
            n == ds.len(),
            i <= n,
            dirs@ == ds.skip(i as int),
            found@.map_values(|e: ExtensionInfo| info_view(e)) == listed(
                settings@,
                ds.take(i as int),
            ),
            keys@.len() == found@.len(),
            forall|j: int| 0 <= j < keys@.len() ==> #[trigger] keys@[j]@ == lowercase(
                found@[j].name@,
            ),
        decreases n - i,
    {
        let ghost before = found@;
        let d = dirs.remove(0);
        proof {
            assert(d == ds[i as int]);
            assert(ds.take(i + 1).drop_last() =~= ds.take(i as int));
            assert(dirs@ =~= ds.skip(i + 1));
        }
        if is_extension_folder(d.id.as_str()) {
            match (d.version, d.manifest) {
                (Some(version), Some(manifest_text)) => match parse_json(manifest_text.as_str()) {
                    Ok(manifest) => {
                        let name = extension_name(&manifest, d.id.as_str(), &d.catalogs);
                        let enabled = is_enabled(settings, d.id.as_str());
                        let lower = to_lowercase(name.as_str());
                        let k = chars_of(lower.as_str());
                        found.push(ExtensionInfo { id: d.id, name, version, enabled });
                        keys.push(k);
                        proof {
                            assert(found@.map_values(|e: ExtensionInfo| info_view(e)) =~= before.map_values(
                                |e: ExtensionInfo| info_view(e),
                            ).push(info_view(found@.last())));
                        }
                    },
                    Err(_) => {},
                },
                _ => {},
            }
        }
        i = i + 1;
    }
    proof {
        assert(ds.take(n as int) =~= ds);
        assert(keys@.map_values(|k: Vec<char>| k@) =~= lowercase_names(listed(settings@, ds)))
            by {
            assert forall|j: int| 0 <= j < keys@.len() implies keys@.map_values(
                |k: Vec<char>| k@,
            )[j] == lowercase_names(listed(settings@, ds))[j] by {
                assert(keys@[j]@ == lowercase(found@[j].name@));
                assert(found@.map_values(|e: ExtensionInfo| info_view(e))[j] == info_view(
                    found@[j],
                ));
            }
        }
    }
    let r = sort_by_text_key(found, keys);
    proof {
        lemma_stably_sorted_map(
            r@,
            found@,
            keys@.map_values(|k: Vec<char>| k@),
            |e: ExtensionInfo| info_view(e),
        );
        law_extensions_listed(r@, settings@, ds);
        law_listed_folders(settings@, ds);
        let m = r@.map_values(|e: ExtensionInfo| info_view(e));
        let l = listed(settings@, ds);
        assert forall|v: int| 0 <= v < ds.len() && folder_shows(#[trigger] ds[v]) implies m.contains(
            folder_entry(settings@, ds[v]),
        ) by {
            let k = choose|k: int| 0 <= k < l.len() && l[k] == folder_entry(settings@, ds[v]);
            assert(m.contains(l[k]));
        }
        assert forall|i: int| 0 <= i < r@.len() implies entry_of_some_folder(
            settings@,
            ds,
            info_view(#[trigger] r@[i]),
        ) by {
            assert(l.contains(info_view(r@[i])));
            let k = choose|k: int| 0 <= k < l.len() && l[k] == info_view(r@[i]);
            assert(entry_of_some_folder(settings@, ds, l[k]));
        }
    }
    r
}


/// The `Preferences` document of the destination profile after installing the
/// settings entry of extension `id` from the source's settings: set under
/// `extensions.settings` when the source has an entry for it and both of those members
/// are objects; otherwise the document is unchanged.
pub open spec fn with_extension_settings(
    to: JsonView,
    from_settings: JsonView,
    id: Seq<char>,
) -> JsonView {
    match member(from_settings, id) {
        Some(cfg) => match to {
            JsonView::Object(es) => match lookup(es, "extensions"@) {
                Some(JsonView::Object(xes)) => match lookup(xes, "settings"@) {
                    Some(JsonView::Object(ses)) => JsonView::Object(
                        put(
                            es,
                            "extensions"@,
                            JsonView::Object(
                                put(xes, "settings"@, JsonView::Object(put(ses, id, cfg))),
                            ),
                        ),
                    ),
                    _ => to,
                },
                _ => to,
            },
            _ => to,
        },
        None => to,
    }
}

/// Whether a `Preferences` document has an `extensions.settings` object.
pub open spec fn has_settings_object(prefs: JsonView) -> bool {
    member(prefs, "extensions"@) matches Some(e) && member(e, "settings"@) matches Some(
        JsonView::Object(_),
    )
}

/// Installing the settings entry of extension `id` sets that one entry and leaves the
/// rest of the document alone: every other extension's settings entry, every other
/// member of `extensions`, every other top-level member.  The entry for `id` becomes
/// the source's; when the source has none, or the destination has no
/// `extensions.settings` object, the document is unchanged.
pub proof fn law_install_touches_only_its_entry(
    to: JsonView,
    from_settings: JsonView,
    id: Seq<char>,
)
    ensures
        ({
            let r = with_extension_settings(to, from_settings, id);
            &&& forall|k: Seq<char>|
                k != id ==> #[trigger] lookup(settings_of(r), k) == lookup(settings_of(to), k)
            &&& member(from_settings, id) is Some && has_settings_object(to) ==> has_settings_object(r)
                && lookup(settings_of(r), id) == member(from_settings, id)
            &&& !(member(from_settings, id) is Some && has_settings_object(to)) ==> r == to
            &&& forall|k: Seq<char>| k != "extensions"@ ==> #[trigger] member(r, k) == member(to, k)
            &&& has_settings_object(to) ==> forall|k: Seq<char>|
                k != "settings"@ ==> #[trigger] member(member(r, "extensions"@)->0, k) == member(
                    member(to, "extensions"@)->0,
                    k,
                )
        }),
{
    let r = with_extension_settings(to, from_settings, id);
    if let Some(cfg) = member(from_settings, id) {
        if let JsonView::Object(es) = to {
            if let Some(JsonView::Object(xes)) = lookup(es, "extensions"@) {
                if let Some(JsonView::Object(ses)) = lookup(xes, "settings"@) {
                    let ses2 = put(ses, id, cfg);
                    let xes2 = put(xes, "settings"@, JsonView::Object(ses2));
                    lemma_lookup_put(es, "extensions"@, JsonView::Object(xes2), "extensions"@);
                    lemma_lookup_put(xes, "settings"@, JsonView::Object(ses2), "settings"@);
                    lemma_lookup_put(ses, id, cfg, id);
                    assert forall|k: Seq<char>| k != id implies #[trigger] lookup(settings_of(r), k)
                        == lookup(settings_of(to), k) by {
                        lemma_lookup_put(ses, id, cfg, k);
                    }
                    assert forall|k: Seq<char>| k != "extensions"@ implies #[trigger] member(r, k)
                        == member(to, k) by {
                        lemma_lookup_put(es, "extensions"@, JsonView::Object(xes2), k);
                    }
                    assert forall|k: Seq<char>| k != "settings"@ implies #[trigger] member(
                        member(r, "extensions"@)->0,
                        k,
                    ) == member(member(to, "extensions"@)->0, k) by {
                        lemma_lookup_put(xes, "settings"@, JsonView::Object(ses2), k);
                    }
                }
            }
        }
    }
}

/// Installs the settings entry of extension `id` from the source's settings into the
/// destination's `Preferences` document, as [`with_extension_settings`] says.
pub fn install_extension_settings(to_prefs: Json, from_settings: &Json, id: &str) -> (r: Json)
    ensures
        r@ == with_extension_settings(to_prefs@, from_settings@, id@),
        forall|k: Seq<char>|
            k != id@ ==> #[trigger] lookup(settings_of(r@), k) == lookup(settings_of(to_prefs@), k),
        member(from_settings@, id@) is Some && has_settings_object(to_prefs@) ==> lookup(
            settings_of(r@),
            id@,
        ) == member(from_settings@, id@),
        !(member(from_settings@, id@) is Some && has_settings_object(to_prefs@)) ==> r@
            == to_prefs@,
        forall|k: Seq<char>| k != "extensions"@ ==> #[trigger] member(r@, k) == member(to_prefs@, k),
{
    proof {
        law_install_touches_only_its_entry(to_prefs@, from_settings@, id@);
    }
    let cfg = match from_settings.get(id) {
        Some(c) => c.clone(),
        None => {
            return to_prefs;
        },
    };
    let ghost target = with_extension_settings(to_prefs@, from_settings@, id@);
    match to_prefs {
        Json::Object(mut es) => {
            proof {
                lemma_entries_view(es@);
                lemma_first_index(entries_view(es@), "extensions"@);
            }
            match find_key(&es, "extensions") {
                Some(i) => {
                    let mut slot: (String, Json) = (String::new(), Json::Null);
                    es.set_and_swap(i, &mut slot);
                    let (name, ext) = slot;
                    let ext = match ext {
                        Json::Object(mut xes) => {
                            let ghost xes0 = entries_view(xes@);
                            proof {
                                lemma_entries_view(xes@);
                                lemma_first_index(entries_view(xes@), "settings"@);
                            }
                            match find_key(&xes, "settings") {
                                Some(j) => {
                                    let mut slot2: (String, Json) = (String::new(), Json::Null);
                                    xes.set_and_swap(j, &mut slot2);
                                    let (sname, sv) = slot2;
                                    let ghost sv0 = sv@;
                                    let sv = match sv {
                                        Json::Object(mut ses) => {
                                            put_entry(&mut ses, String::from_str(id), cfg);
                                            Json::Object(ses)
                                        },
                                        other => other,
                                    };
                                    xes.set(j, (sname, sv));
                                    proof {
                                        lemma_entries_view(xes@);
                                        if sv0 is Object {
                                            assert(entries_view(xes@) =~= put(
                                                xes0,
                                                "settings"@,
                                                sv@,
                                            ));
                                        } else {
                                            assert(entries_view(xes@) =~= xes0);
                                        }
                                    }
                                },
                                None => {},
                            }
                            Json::Object(xes)
                        },
                        other => other,
                    };
                    es.set(i, (name, ext));
                    proof {
                        lemma_entries_view(es@);
                        assert(entries_view(es@) =~= target->Object_0);
                    }
                },
                None => {},
            }
            Json::Object(es)
        },
        other => other,
    }
}

/// What to do with one extension of a copy.
#[derive(PartialEq, Eq, Structural, Debug, Clone, Copy)]
pub enum CopyStep {
    /// The source profile has no folder for it: nothing happens.
    Missing,
    /// The destination already has a folder for it: it is reported as already there.
    AlreadyPresent,
    /// Its folder is to be copied now; its settings entry has been installed.
    CopyFolder,
    /// A dry run: it is reported as copied, and nothing is copied.
    Preview,
}

/// The step for an extension, from whether the source and destination folders exist.
pub open spec fn copy_step_of(source_exists: bool, target_exists: bool, dry_run: bool) -> CopyStep {
    if !source_exists {
        CopyStep::Missing
    } else if target_exists {
        CopyStep::AlreadyPresent
    } else if dry_run {
        CopyStep::Preview
    } else {
        CopyStep::CopyFolder
    }
}

/// The text reported for an extension already present: its id and ` (already exists)`.
pub open spec fn already_present_text(id: Seq<char>) -> Seq<char> {
    id + " (already exists)"@
}

/// What a step reports: nothing for a missing extension, the already-present text
/// for one the destination has, its id otherwise.
pub open spec fn step_report(id: Seq<char>, step: CopyStep) -> Seq<Seq<char>> {
    match step {
        CopyStep::Missing => Seq::empty(),
        CopyStep::AlreadyPresent => seq![already_present_text(id)],
        _ => seq![id],
    }
}

/// A whole copy of extensions, one step per `(id, source folder exists, destination
/// folder exists)`: the texts reported and the destination's `Preferences` document at
/// the end.
pub open spec fn copy_run(
    prefs: JsonView,
    from_settings: JsonView,
    steps: Seq<(Seq<char>, bool, bool)>,
    dry_run: bool,
) -> (Seq<Seq<char>>, JsonView)
    decreases steps.len(),
{
    if steps.len() == 0 {
        (Seq::empty(), prefs)
    } else {
        let (c, p) = copy_run(prefs, from_settings, steps.drop_last(), dry_run);
        let (id, src, dst) = steps.last();
        let st = copy_step_of(src, dst, dry_run);
        (
            c + step_report(id, st),
            if st == CopyStep::CopyFolder {
                with_extension_settings(p, from_settings, id)
            } else {
                p
            },
        )
    }
}

/// A dry run of a whole copy reports what the real run reports, given the same folders
/// (as when the ids are distinct, so that no step copies a folder another step looks
/// at), and leaves the `Preferences` document as it was; it never writes.
pub proof fn law_dry_run_copy(
    prefs: JsonView,
    from_settings: JsonView,
    steps: Seq<(Seq<char>, bool, bool)>,
)
    ensures
        copy_run(prefs, from_settings, steps, true).0 == copy_run(
            prefs,
            from_settings,
            steps,
            false,
        ).0,
        copy_run(prefs, from_settings, steps, true).1 == prefs,
    decreases steps.len(),
{
    if steps.len() > 0 {
        law_dry_run_copy(prefs, from_settings, steps.drop_last());
    }
}

/// Installing settings from well-formed settings into a well-formed document keeps it
/// well-formed.
pub proof fn law_install_keeps_well_formed(to: JsonView, from_settings: JsonView, id: Seq<char>)
    requires
        well_formed(to),
        well_formed(from_settings),
    ensures
        well_formed(with_extension_settings(to, from_settings, id)),
{
    if let Some(cfg) = member(from_settings, id) {
        lemma_member_well_formed(from_settings, id);
        if let JsonView::Object(es) = to {
            if let Some(JsonView::Object(xes)) = lookup(es, "extensions"@) {
                lemma_member_well_formed(to, "extensions"@);
                if let Some(JsonView::Object(ses)) = lookup(xes, "settings"@) {
                    lemma_member_well_formed(JsonView::Object(xes), "settings"@);
                    lemma_put_well_formed(ses, id, cfg);
                    lemma_put_well_formed(
                        xes,
                        "settings"@,
                        JsonView::Object(put(ses, id, cfg)),
                    );
                    lemma_put_well_formed(
                        es,
                        "extensions"@,
                        JsonView::Object(
                            put(xes, "settings"@, JsonView::Object(put(ses, id, cfg))),
                        ),
                    );
                }
            }
        }
    }
}

/// An extension copy in progress: the texts reported so far and the destination's
/// `Preferences` document with the settings installed so far.
#[derive(Debug, Clone, PartialEq)]
pub struct ExtensionCopy {
    pub copied: Vec<String>,
    pub preferences: Json,
}

impl ExtensionCopy {
    /// A copy that has reported nothing yet.
    pub fn new(preferences: Json) -> (r: ExtensionCopy)
        ensures
            r.copied@.len() == 0,
            r.preferences@ == preferences@,
    {
        ExtensionCopy { copied: Vec::new(), preferences }
    }

    /// Decides the step for extension `id`, reports it and, for a folder to be copied,
    /// installs its settings entry from the source's settings.
    pub fn step(
        &mut self,
        from_settings: &Json,
        id: &str,
        source_exists: bool,
        target_exists: bool,
        dry_run: bool,
    ) -> (r: CopyStep)
        ensures
            r == copy_step_of(source_exists, target_exists, dry_run),
            texts(final(self).copied@) == texts(old(self).copied@) + step_report(id@, r),
            final(self).preferences@ == if r == CopyStep::CopyFolder {
                with_extension_settings(old(self).preferences@, from_settings@, id@)
            } else {
                old(self).preferences@
            },
    {
        let ghost before = self.copied@;
        if !source_exists {
            assert(texts(self.copied@) =~= texts(before) + Seq::<Seq<char>>::empty());
            return CopyStep::Missing;
        }
        if target_exists {
            let mut label = String::from_str(id);
            label.append(" (already exists)");
            self.copied.push(label);
            assert(texts(self.copied@) =~= texts(before) + seq![already_present_text(id@)]);
            return CopyStep::AlreadyPresent;
        }
        let step = if dry_run {
            CopyStep::Preview
        } else {
            let mut prefs = Json::Null;
            std::mem::swap(&mut prefs, &mut self.preferences);
            self.preferences = install_extension_settings(prefs, from_settings, id);
            CopyStep::CopyFolder
        };
        self.copied.push(String::from_str(id));
        assert(texts(self.copied@) =~= texts(before) + seq![id@]);
        step
    }
}

/// Whether a copy of extensions writes the destination's `Preferences` at the end:
/// every real run does, a dry run never.
pub fn copy_writes_preferences(dry_run: bool) -> (r: bool)
    ensures
        r == !dry_run,
{
    !dry_run
}

/// A dry run copies no folder and changes no settings; an extension that the
/// destination already has is never copied over.
pub proof fn law_copy_never_overwrites(source_exists: bool, target_exists: bool, dry_run: bool)
    ensures
        dry_run ==> copy_step_of(source_exists, target_exists, dry_run) != CopyStep::CopyFolder,
        target_exists ==> copy_step_of(source_exists, target_exists, dry_run)
            != CopyStep::CopyFolder,
{
}


/// The extension settings of a well-formed document form a well-formed object.
pub proof fn lemma_settings_well_formed(prefs: JsonView)
    requires
        well_formed(prefs),
    ensures
        well_formed(JsonView::Object(settings_of(prefs))),
{
    if let Some(e) = member(prefs, "extensions"@) {
        lemma_member_well_formed(prefs, "extensions"@);
        if let Some(JsonView::Object(es)) = member(e, "settings"@) {
            lemma_member_well_formed(e, "settings"@);
        }
    }
}

/// `prefix` followed by `detail`, as a new string.
fn message_with(prefix: &str, detail: &String) -> (r: String)
    ensures
        r@ == prefix@ + detail@,
{
    let mut m = String::from_str(prefix);
    m.append(detail.as_str());
    m
}

/// The extension settings of a profile from the text of its `Preferences` file, or
/// the parser's message when the text does not parse.
pub fn extension_settings_text(prefs_text: &str) -> (r: Result<Json, String>)
    ensures
        match r {
            Ok(s) => parsed_json(prefs_text@) is Ok && s@ == JsonView::Object(
                settings_of(parsed_json(prefs_text@)->Ok_0),
            ),
            Err(e) => parsed_json(prefs_text@) matches Err(m) && e@ == "Cannot parse Preferences: "@
                + m,
        },
{
    match parse_json(prefs_text) {
        Ok(p) => Ok(extension_settings(&p)),
        Err(m) => Err(message_with("Cannot parse Preferences: ", &m)),
    }
}

/// The start of a copy of extensions from the texts of the source's and the
/// destination's `Preferences` files (`to_read` is the destination's text, or the
/// message of the failed read): the source's extension settings and a copy that has
/// reported nothing, over the destination's document; or, in the order source parse,
/// destination read, destination parse, the message of the first that failed.
pub fn start_extension_copy(from_text: &str, to_read: &Result<String, String>) -> (r: Result<
    (Json, ExtensionCopy),
    String,
>)
    ensures
        match r {
            Ok((settings, run)) => {
                &&& parsed_json(from_text@) is Ok
                &&& to_read is Ok
                &&& parsed_json(to_read->Ok_0@) is Ok
                &&& settings@ == JsonView::Object(settings_of(parsed_json(from_text@)->Ok_0))
                &&& well_formed(settings@)
                &&& run.copied@.len() == 0
                &&& run.preferences@ == parsed_json(to_read->Ok_0@)->Ok_0
                &&& well_formed(run.preferences@)
            },
            Err(e) => {
                ||| parsed_json(from_text@) matches Err(m) && e@ == "Cannot parse source Preferences: "@
                    + m
                ||| parsed_json(from_text@) is Ok && (to_read matches Err(m) && e@ == m@)
                ||| parsed_json(from_text@) is Ok && (to_read matches Ok(t) && (parsed_json(t@)
                    matches Err(m) && e@ == "Cannot parse dest Preferences: "@ + m))
            },
        },
{
    let from = match parse_json(from_text) {
        Ok(p) => p,
        Err(m) => {
            return Err(message_with("Cannot parse source Preferences: ", &m));
        },
    };
    let to_text = match to_read {
        Ok(t) => t,
        Err(m) => {
            return Err(m.clone());
        },
    };
    let to = match parse_json(to_text.as_str()) {
        Ok(p) => p,
        Err(m) => {
            return Err(message_with("Cannot parse dest Preferences: ", &m));
        },
    };
    let settings = extension_settings(&from);
    proof {
        lemma_settings_well_formed(from@);
    }
    Ok((settings, ExtensionCopy::new(to)))
}

impl ExtensionCopy {
    /// The destination's `Preferences` document as JSON text, to write back.
    pub fn preferences_text(&self) -> (r: String)
        ensures
            r@ == json_text(self.preferences@),
    {
        json_to_text(&self.preferences)
    }
}

} // verus!
