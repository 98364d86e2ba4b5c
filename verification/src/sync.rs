//! Carrying selected settings from one profile's `Preferences` document to another's.
//!
//! A selected key names a member of the source's `vivaldi` object, which is copied
//! into the destination's `vivaldi` object; a key written `root:<name>` names a
//! top-level member `<name>` of the source document, copied to the top level of the
//! destination.  Nothing else in the destination document changes.

use vstd::prelude::*;

use crate::json::{
    entries_well_formed, json_text, json_to_text, lemma_member_well_formed, lemma_put_well_formed,
    parse_json, parsed_json, unique_keys, well_formed, entries_view, lemma_lookup_put, lemma_put_same, find_key, lemma_entries_view, lemma_first_index, lookup, member, put, put_entry,
    Json, JsonView,
};
use crate::text::{all_digits, decimal, decimal_text, is_digit, starts_with, strip_prefixes, trim_start_matches};

verus! {

/// The marker of a key that names a top-level member: `root:`.
pub open spec fn root_marker() -> Seq<char> {
    seq!['r', 'o', 'o', 't', ':']
}

/// The member that holds Vivaldi's own settings: `vivaldi`.
pub open spec fn vivaldi_member() -> Seq<char> {
    seq!['v', 'i', 'v', 'a', 'l', 'd', 'i']
}

/// The texts of a sequence of strings.
pub open spec fn texts(v: Seq<String>) -> Seq<Seq<char>> {
    v.map_values(|s: String| s@)
}

/// Whether a selected key names a top-level member.
pub open spec fn is_root_key(k: Seq<char>) -> bool {
    root_marker().is_prefix_of(k)
}

/// The member that a selected key names: the key itself, or, for a `root:` key, the
/// key with every leading `root:` removed.
pub open spec fn target_of(k: Seq<char>) -> Seq<char> {
    if is_root_key(k) {
        strip_prefixes(k, root_marker())
    } else {
        k
    }
}

/// Copying, in the order of `keys`, each key of the given kind (`root` or not) whose
/// target `src` holds, into the entries `dst`.  Gives the new entries and the targets
/// that were copied, in order.
pub open spec fn copy_keys(
    dst: Seq<(Seq<char>, JsonView)>,
    src: JsonView,
    keys: Seq<Seq<char>>,
    root: bool,
) -> (Seq<(Seq<char>, JsonView)>, Seq<Seq<char>>)
    decreases keys.len(),
{
    if keys.len() == 0 {
        (dst, Seq::empty())
    } else {
        let (d, c) = copy_keys(dst, src, keys.drop_last(), root);
        let k = keys.last();
        let t = target_of(k);
        if is_root_key(k) == root && member(src, t) is Some {
            (put(d, t, member(src, t)->0), c.push(t))
        } else {
            (d, c)
        }
    }
}

/// The destination document after the keys that name members of `vivaldi` were
/// copied, with the keys copied.  Nothing happens unless the destination is an object
/// whose `vivaldi` member is an object.
pub open spec fn profile_stage(from_viv: JsonView, to: JsonView, keys: Seq<Seq<char>>) -> (
    JsonView,
    Seq<Seq<char>>,
) {
    match to {
        JsonView::Object(es) => match lookup(es, vivaldi_member()) {
            Some(JsonView::Object(ves)) => {
                let (ves2, c) = copy_keys(ves, from_viv, keys, false);
                (JsonView::Object(put(es, vivaldi_member(), JsonView::Object(ves2))), c)
            },
            _ => (to, Seq::empty()),
        },
        _ => (to, Seq::empty()),
    }
}

/// The destination document after the `root:` keys were copied, with the names copied.
/// Nothing happens unless the destination is an object.
pub open spec fn root_stage(from: JsonView, to: JsonView, keys: Seq<Seq<char>>) -> (
    JsonView,
    Seq<Seq<char>>,
) {
    match to {
        JsonView::Object(es) => {
            let (es2, c) = copy_keys(es, from, keys, true);
            (JsonView::Object(es2), c)
        },
        _ => (to, Seq::empty()),
    }
}

/// The result of a sync of `keys` from `from` into `to`: the new destination document
/// and the names copied, members of `vivaldi` first, then top-level members.
pub open spec fn synced(from: JsonView, to: JsonView, keys: Seq<Seq<char>>) -> (
    JsonView,
    Seq<Seq<char>>,
) {
    let from_viv = member(from, vivaldi_member())->0;
    let (to1, c1) = profile_stage(from_viv, to, keys);
    let (to2, c2) = root_stage(from, to1, keys);
    (to2, c1 + c2)
}

/// Whether some key of `keys` of the given kind (`root` or not) names the member `t`.
pub open spec fn selects(keys: Seq<Seq<char>>, root: bool, t: Seq<char>) -> bool {
    exists|i: int| 0 <= i < keys.len() && is_root_key(#[trigger] keys[i]) == root && target_of(keys[i]) == t
}

/// What a lookup finds after copying: the source's value for a selected name that the
/// source holds, the old value for every other name; and the names copied are exactly
/// the selected names that the source holds.
pub proof fn lemma_copy_keys(
    dst: Seq<(Seq<char>, JsonView)>,
    src: JsonView,
    keys: Seq<Seq<char>>,
    root: bool,
    t: Seq<char>,
)
    ensures
        lookup(copy_keys(dst, src, keys, root).0, t) == if selects(keys, root, t) && member(
            src,
            t,
        ) is Some {
            member(src, t)
        } else {
            lookup(dst, t)
        },
        copy_keys(dst, src, keys, root).1.contains(t) <==> (selects(keys, root, t) && member(
            src,
            t,
        ) is Some),
    decreases keys.len(),
{
    if keys.len() > 0 {
        let prev = keys.drop_last();
        lemma_copy_keys(dst, src, prev, root, t);
        let (d, c) = copy_keys(dst, src, prev, root);
        let k = keys.last();
        let tk = target_of(k);
        assert(selects(keys, root, t) <==> (selects(prev, root, t) || (is_root_key(k) == root
            && tk == t))) by {
            if selects(keys, root, t) {
                let i = choose|i: int|
                    0 <= i < keys.len() && is_root_key(#[trigger] keys[i]) == root && target_of(
                        keys[i],
                    ) == t;
                if i < keys.len() - 1 {
                    assert(prev[i] == keys[i]);
                }
            }
            if selects(prev, root, t) {
                let i = choose|i: int|
                    0 <= i < prev.len() && is_root_key(#[trigger] prev[i]) == root && target_of(
                        prev[i],
                    ) == t;
                assert(keys[i] == prev[i]);
            }
            if is_root_key(k) == root && tk == t {
                assert(keys[keys.len() - 1] == k);
            }
        }
        if is_root_key(k) == root && member(src, tk) is Some {
            lemma_lookup_put(d, tk, member(src, tk)->0, t);
            assert(c.push(tk).contains(t) <==> (c.contains(t) || tk == t)) by {
                if c.push(tk).contains(t) {
                    let j = choose|j: int| 0 <= j < c.push(tk).len() && c.push(tk)[j] == t;
                    if j < c.len() {
                        assert(c[j] == t);
                    }
                }
                if c.contains(t) {
                    let j = choose|j: int| 0 <= j < c.len() && c[j] == t;
                    assert(c.push(tk)[j] == t);
                }
                if tk == t {
                    assert(c.push(tk)[c.len() as int] == t);
                }
            }
        }
    } else {
        assert(!selects(keys, root, t));
    }
}

/// Copying into entries that already hold the source's value under every selected
/// name changes nothing.
pub proof fn lemma_copy_keys_settled(
    dst: Seq<(Seq<char>, JsonView)>,
    src: JsonView,
    keys: Seq<Seq<char>>,
    root: bool,
)
    requires
        forall|t: Seq<char>|
            selects(keys, root, t) && member(src, t) is Some ==> #[trigger] lookup(dst, t)
                == member(src, t),
    ensures
        copy_keys(dst, src, keys, root).0 == dst,
    decreases keys.len(),
{
    if keys.len() > 0 {
        let prev = keys.drop_last();
        assert forall|t: Seq<char>|
            selects(prev, root, t) && member(src, t) is Some implies #[trigger] lookup(dst, t)
                == member(src, t) by {
            let i = choose|i: int|
                0 <= i < prev.len() && is_root_key(#[trigger] prev[i]) == root && target_of(
                    prev[i],
                ) == t;
            assert(keys[i] == prev[i]);
        }
        lemma_copy_keys_settled(dst, src, prev, root);
        let k = keys.last();
        let tk = target_of(k);
        if is_root_key(k) == root && member(src, tk) is Some {
            assert(keys[keys.len() - 1] == k);
            assert(selects(keys, root, tk));
            lemma_put_same(dst, tk, member(src, tk)->0);
        }
    }
}

/// A sync leaves every top-level member of the destination alone except `vivaldi`
/// and the members named by selected `root:` keys that the source holds; those get the
/// source's value.
pub proof fn law_sync_top_level(
    from: JsonView,
    to: JsonView,
    keys: Seq<Seq<char>>,
    name: Seq<char>,
)
    requires
        member(from, vivaldi_member()) is Some,
        to is Object,
    ensures
        selects(keys, true, name) && member(from, name) is Some ==> member(
            synced(from, to, keys).0,
            name,
        ) == member(from, name),
        !(selects(keys, true, name) && member(from, name) is Some) && name != vivaldi_member()
            ==> member(synced(from, to, keys).0, name) == member(to, name),
{
    let fv = member(from, vivaldi_member())->0;
    let es = to->Object_0;
    let (to1, c1) = profile_stage(fv, to, keys);
    let es1 = to1->Object_0;
    lemma_copy_keys(es1, from, keys, true, name);
    if let Some(JsonView::Object(ves)) = lookup(es, vivaldi_member()) {
        let (ves2, c) = copy_keys(ves, fv, keys, false);
        lemma_lookup_put(es, vivaldi_member(), JsonView::Object(ves2), name);
    }
}

/// Inside `vivaldi`, unless a selected `root:vivaldi` key replaced it whole, a sync
/// gives each member named by a selected key that the source's `vivaldi` holds the
/// source's value, and leaves every other member alone.
pub proof fn law_sync_settings(from: JsonView, to: JsonView, keys: Seq<Seq<char>>, k: Seq<char>)
    requires
        member(from, vivaldi_member()) is Some,
        member(to, vivaldi_member()) matches Some(JsonView::Object(_)),
        !(selects(keys, true, vivaldi_member()) && member(from, vivaldi_member()) is Some),
    ensures
        member(synced(from, to, keys).0, vivaldi_member()) matches Some(JsonView::Object(_)),
        member(member(synced(from, to, keys).0, vivaldi_member())->0, k) == if selects(
            keys,
            false,
            k,
        ) && member(member(from, vivaldi_member())->0, k) is Some {
            member(member(from, vivaldi_member())->0, k)
        } else {
            member(member(to, vivaldi_member())->0, k)
        },
{
    let fv = member(from, vivaldi_member())->0;
    let es = to->Object_0;
    let ves = lookup(es, vivaldi_member())->0->Object_0;
    let (ves2, c) = copy_keys(ves, fv, keys, false);
    let es1 = put(es, vivaldi_member(), JsonView::Object(ves2));
    lemma_lookup_put(es, vivaldi_member(), JsonView::Object(ves2), vivaldi_member());
    lemma_copy_keys(es1, from, keys, true, vivaldi_member());
    lemma_copy_keys(ves, fv, keys, false, k);
}

/// The names a sync reports as copied are exactly the selected members of the
/// source's `vivaldi` that it holds (when the destination has a `vivaldi` object) and
/// the selected top-level members that the source holds (when the destination is an
/// object).
pub proof fn law_sync_reported(from: JsonView, to: JsonView, keys: Seq<Seq<char>>, t: Seq<char>)
    requires
        member(from, vivaldi_member()) is Some,
    ensures
        synced(from, to, keys).1.contains(t) <==> ({
            ||| (member(to, vivaldi_member()) matches Some(JsonView::Object(_)) && selects(
                keys,
                false,
                t,
            ) && member(member(from, vivaldi_member())->0, t) is Some)
            ||| (to is Object && selects(keys, true, t) && member(from, t) is Some)
        }),
{
    let fv = member(from, vivaldi_member())->0;
    let (to1, c1) = profile_stage(fv, to, keys);
    let (to2, c2) = root_stage(from, to1, keys);
    if let JsonView::Object(es) = to {
        if let Some(JsonView::Object(ves)) = lookup(es, vivaldi_member()) {
            lemma_copy_keys(ves, fv, keys, false, t);
        }
        lemma_copy_keys(to1->Object_0, from, keys, true, t);
    }
    assert((c1 + c2).contains(t) <==> (c1.contains(t) || c2.contains(t))) by {
        if (c1 + c2).contains(t) {
            let j = choose|j: int| 0 <= j < (c1 + c2).len() && (c1 + c2)[j] == t;
            if j < c1.len() {
                assert(c1[j] == t);
            } else {
                assert(c2[j - c1.len()] == t);
            }
        }
        if c1.contains(t) {
            let j = choose|j: int| 0 <= j < c1.len() && c1[j] == t;
            assert((c1 + c2)[j] == t);
        }
        if c2.contains(t) {
            let j = choose|j: int| 0 <= j < c2.len() && c2[j] == t;
            assert((c1 + c2)[c1.len() + j] == t);
        }
    }
}

/// A destination document that is not an object is left as it is, and nothing is
/// reported as copied.
pub proof fn law_sync_needs_object(from: JsonView, to: JsonView, keys: Seq<Seq<char>>)
    requires
        member(from, vivaldi_member()) is Some,
        !(to is Object),
    ensures
        synced(from, to, keys) == (to, Seq::<Seq<char>>::empty()),
{
    assert(Seq::<Seq<char>>::empty() + Seq::<Seq<char>>::empty() =~= Seq::<Seq<char>>::empty());
}

/// With nothing selected, a sync copies nothing and leaves the destination as it is.
pub proof fn law_sync_nothing_selected(from: JsonView, to: JsonView)
    requires
        member(from, vivaldi_member()) is Some,
    ensures
        synced(from, to, Seq::empty()) == (to, Seq::<Seq<char>>::empty()),
{
    if let JsonView::Object(es) = to {
        if let Some(JsonView::Object(ves)) = lookup(es, vivaldi_member()) {
            lemma_put_same(es, vivaldi_member(), JsonView::Object(ves));
        }
    }
}

/// Syncing the same keys a second time from the same source changes the destination
/// no further.
pub proof fn law_sync_idempotent(from: JsonView, to: JsonView, keys: Seq<Seq<char>>)
    requires
        member(from, vivaldi_member()) is Some,
    ensures
        synced(from, synced(from, to, keys).0, keys).0 == synced(from, to, keys).0,
{
    let viv = vivaldi_member();
    let fv = member(from, viv)->0;
    let r = synced(from, to, keys).0;
    if let JsonView::Object(es) = to {
        let es1 = profile_stage(fv, to, keys).0->Object_0;
        let es2 = r->Object_0;
        // every selected top-level name now holds the source's value
        assert forall|t: Seq<char>|
            selects(keys, true, t) && member(from, t) is Some implies #[trigger] lookup(es2, t)
                == member(from, t) by {
            lemma_copy_keys(es1, from, keys, true, t);
        }
        // the second pass over `vivaldi` is settled
        lemma_copy_keys(es1, from, keys, true, viv);
        if let Some(JsonView::Object(ves_now)) = lookup(es2, viv) {
            if selects(keys, true, viv) && member(from, viv) is Some {
                assert forall|t: Seq<char>|
                    selects(keys, false, t) && member(fv, t) is Some implies #[trigger] lookup(
                        ves_now,
                        t,
                    ) == member(fv, t) by {}
            } else {
                let ves = lookup(es, viv)->0->Object_0;
                lemma_lookup_put(
                    es,
                    viv,
                    JsonView::Object(copy_keys(ves, fv, keys, false).0),
                    viv,
                );
                if !(lookup(es, viv) matches Some(JsonView::Object(_))) {
                    assert(lookup(es1, viv) == lookup(es, viv));
                }
                assert forall|t: Seq<char>|
                    selects(keys, false, t) && member(fv, t) is Some implies #[trigger] lookup(
                        ves_now,
                        t,
                    ) == member(fv, t) by {
                    lemma_copy_keys(ves, fv, keys, false, t);
                }
            }
            lemma_copy_keys_settled(ves_now, fv, keys, false);
            lemma_put_same(es2, viv, JsonView::Object(ves_now));
        }
        lemma_copy_keys_settled(es2, from, keys, true);
    }
}

/// Copying from a well-formed source keeps the entries of an object well-formed.
pub proof fn lemma_copy_keys_well_formed(
    dst: Seq<(Seq<char>, JsonView)>,
    src: JsonView,
    keys: Seq<Seq<char>>,
    root: bool,
)
    requires
        unique_keys(dst),
        entries_well_formed(dst),
        well_formed(src),
    ensures
        unique_keys(copy_keys(dst, src, keys, root).0),
        entries_well_formed(copy_keys(dst, src, keys, root).0),
    decreases keys.len(),
{
    if keys.len() > 0 {
        lemma_copy_keys_well_formed(dst, src, keys.drop_last(), root);
        let d = copy_keys(dst, src, keys.drop_last(), root).0;
        let t = target_of(keys.last());
        if is_root_key(keys.last()) == root && member(src, t) is Some {
            lemma_member_well_formed(src, t);
            lemma_put_well_formed(d, t, member(src, t)->0);
        }
    }
}

/// A sync of well-formed documents gives a well-formed document.
pub proof fn law_sync_keeps_well_formed(from: JsonView, to: JsonView, keys: Seq<Seq<char>>)
    requires
        member(from, vivaldi_member()) is Some,
        well_formed(from),
        well_formed(to),
    ensures
        well_formed(synced(from, to, keys).0),
{
    let viv = vivaldi_member();
    let fv = member(from, viv)->0;
    lemma_member_well_formed(from, viv);
    if let JsonView::Object(es) = to {
        if let Some(JsonView::Object(ves)) = lookup(es, viv) {
            lemma_member_well_formed(to, viv);
            lemma_copy_keys_well_formed(ves, fv, keys, false);
            let ves2 = copy_keys(ves, fv, keys, false).0;
            lemma_put_well_formed(es, viv, JsonView::Object(ves2));
        }
        let es1 = profile_stage(fv, to, keys).0->Object_0;
        lemma_copy_keys_well_formed(es1, from, keys, true);
    }
}

/// The names copied do not depend on what the destination held.
pub proof fn lemma_copy_keys_names(
    d1: Seq<(Seq<char>, JsonView)>,
    d2: Seq<(Seq<char>, JsonView)>,
    src: JsonView,
    keys: Seq<Seq<char>>,
    root: bool,
)
    ensures
        copy_keys(d1, src, keys, root).1 == copy_keys(d2, src, keys, root).1,
    decreases keys.len(),
{
    if keys.len() > 0 {
        lemma_copy_keys_names(d1, d2, src, keys.drop_last(), root);
    }
}

/// Nothing is copied from a source that is not an object.
pub proof fn lemma_copy_keys_from_non_object(
    dst: Seq<(Seq<char>, JsonView)>,
    src: JsonView,
    keys: Seq<Seq<char>>,
    root: bool,
)
    requires
        !(src is Object),
    ensures
        copy_keys(dst, src, keys, root).1 == Seq::<Seq<char>>::empty(),
    decreases keys.len(),
{
    if keys.len() > 0 {
        lemma_copy_keys_from_non_object(dst, src, keys.drop_last(), root);
    }
}

/// Syncing the same keys a second time from the same source reports the same names.
/// This fails only where a selected `root:` key brings the source's `vivaldi` object
/// over a destination whose `vivaldi` is not an object: the second sync then copies
/// into that object what the first could not.
pub proof fn law_sync_reports_same_twice(from: JsonView, to: JsonView, keys: Seq<Seq<char>>)
    requires
        member(from, vivaldi_member()) is Some,
        to is Object && selects(keys, true, vivaldi_member()) ==> ((member(to, vivaldi_member())
            matches Some(JsonView::Object(_))) || !(member(from, vivaldi_member())->0 is Object)),
    ensures
        synced(from, synced(from, to, keys).0, keys).1 == synced(from, to, keys).1,
{
    let viv = vivaldi_member();
    let fv = member(from, viv)->0;
    if let JsonView::Object(es) = to {
        let to1 = profile_stage(fv, to, keys).0;
        let es1 = to1->Object_0;
        let es2 = copy_keys(es1, from, keys, true).0;
        let r = JsonView::Object(es2);
        lemma_copy_keys(es1, from, keys, true, viv);
        let to1b = profile_stage(fv, r, keys).0;
        lemma_copy_keys_names(to1->Object_0, to1b->Object_0, from, keys, true);
        if let Some(JsonView::Object(ves)) = lookup(es, viv) {
            let ves2 = copy_keys(ves, fv, keys, false).0;
            lemma_lookup_put(es, viv, JsonView::Object(ves2), viv);
            if selects(keys, true, viv) {
                if let JsonView::Object(fves) = fv {
                    lemma_copy_keys_names(ves, fves, fv, keys, false);
                } else {
                    lemma_copy_keys_from_non_object(ves, fv, keys, false);
                }
            } else {
                lemma_copy_keys_names(ves, ves2, fv, keys, false);
            }
        } else {
            assert(lookup(es1, viv) == lookup(es, viv));
            if selects(keys, true, viv) {
                assert(!(fv is Object));
            }
        }
    }
}

/// The `root:` marker as a string.
fn root_marker_text() -> (r: &'static str)
    ensures
        r@ == root_marker(),
{
    let r = "root:";
    proof {
        reveal_strlit("root:");
    }
    r
}

/// The `vivaldi` member name as a string.
fn vivaldi_member_text() -> (r: &'static str)
    ensures
        r@ == vivaldi_member(),
{
    let r = "vivaldi";
    proof {
        reveal_strlit("vivaldi");
    }
    r
}

/// The member that `key` names, as in [`target_of`].
pub fn key_target(key: &str) -> (r: String)
    ensures
        r@ == target_of(key@),
{
    let marker = root_marker_text();
    if starts_with(key, marker) {
        trim_start_matches(key, marker)
    } else {
        String::from_str(key)
    }
}

/// Copies into `dst` each key of `keys` of the given kind whose target `src` holds,
/// and appends the targets copied to `copied`.
fn copy_keys_into(
    dst: &mut Vec<(String, Json)>,
    src: &Json,
    keys: &Vec<String>,
    root: bool,
    copied: &mut Vec<String>,
)
    ensures
        entries_view(final(dst)@) == copy_keys(entries_view(old(dst)@), src@, texts(keys@), root).0,
        texts(final(copied)@) == texts(old(copied)@) + copy_keys(
            entries_view(old(dst)@),
            src@,
            texts(keys@),
            root,
        ).1,
{
    let ghost d0 = entries_view(dst@);
    let ghost c0 = texts(copied@);
    let ghost ks = texts(keys@);
    let marker = root_marker_text();
    let mut i: usize = 0;
    while i < keys.len()
        invariant
            ks == texts(keys@),
            marker@ == root_marker(),
            i <= keys.len(),
            entries_view(dst@) == copy_keys(d0, src@, ks.take(i as int), root).0,
            texts(copied@) == c0 + copy_keys(d0, src@, ks.take(i as int), root).1,
        decreases keys.len() - i,
    {
        let key = &keys[i];
        proof {
            assert(ks.take(i + 1).drop_last() =~= ks.take(i as int));
            assert(ks.take(i + 1).last() == key@);
        }
        if starts_with(key.as_str(), marker) == root {
            let target = key_target(key.as_str());
            match src.get(target.as_str()) {
                Some(v) => {
                    let value = v.clone();
                    let ghost before = copied@;
                    put_entry(dst, target.clone(), value);
                    copied.push(target);
                    proof {
                        assert(texts(copied@) =~= texts(before).push(copied@.last()@));
                    }
                },
                None => {},
            }
        }
        i = i + 1;
    }
    proof {
        assert(ks.take(keys@.len() as int) =~= ks);
    }
}


/// The destination document after copying the selected keys from the source document,
/// with the names copied (members of `vivaldi` first, then top-level members); or the
/// error text when the source has no `vivaldi` member.
pub fn copy_selected_keys(from_json: &Json, to_json: Json, keys: &Vec<String>) -> (r: Result<
    (Json, Vec<String>),
    String,
>)
    ensures
        match r {
            Ok((doc, copied)) => {
                &&& member(from_json@, vivaldi_member()) is Some
                &&& (doc@, texts(copied@)) == synced(from_json@, to_json@, texts(keys@))
            },
            Err(e) => {
                &&& member(from_json@, vivaldi_member()) is None
                &&& e@ == "Source has no vivaldi settings"@
            },
        },
{
    let viv = vivaldi_member_text();
    let from_viv = match from_json.get(viv) {
        Some(v) => v,
        None => {
            return Err(String::from_str("Source has no vivaldi settings"));
        },
    };
    let ghost ks = texts(keys@);
    let ghost to_view = to_json@;
    let ghost stage1 = profile_stage(from_viv@, to_view, ks);
    let mut copied: Vec<String> = Vec::new();
    let doc = match to_json {
        Json::Object(mut es) => {
            let ghost ev = entries_view(es@);
            proof {
                lemma_entries_view(es@);
                lemma_first_index(ev, vivaldi_member());
            }
            match find_key(&es, viv) {
                Some(i) => {
                    let mut slot: (String, Json) = (String::new(), Json::Null);
                    es.set_and_swap(i, &mut slot);
                    let (name, value) = slot;
                    let value = match value {
                        Json::Object(mut ves) => {
                            copy_keys_into(&mut ves, from_viv, keys, false, &mut copied);
                            Json::Object(ves)
                        },
                        other => other,
                    };
                    es.set(i, (name, value));
                    proof {
                        lemma_entries_view(es@);
                        assert(entries_view(es@) =~= stage1.0->Object_0);
                    }
                },
                None => {},
            }
            assert(Json::Object(es)@ == stage1.0);
            assert(texts(copied@) =~= stage1.1);
            copy_keys_into(&mut es, from_json, keys, true, &mut copied);
            Json::Object(es)
        },
        other => other,
    };
    Ok((doc, copied))
}


/// What a sync of two profiles will do: the destination document after the copy, the
/// names copied, and whether the document is to be written back.
#[derive(Debug, Clone, PartialEq)]
pub struct SyncPlan {
    pub document: Json,
    pub copied: Vec<String>,
    pub write: bool,
}

/// Whether a sync writes the destination: only a real run that copied something does.
pub open spec fn writes(dry_run: bool, copied: Seq<Seq<char>>) -> bool {
    !dry_run && copied.len() > 0
}

/// The plan for syncing `keys` from the source document into the destination
/// document; a dry run plans the same copy and never writes.
pub fn plan_sync(from_json: &Json, to_json: Json, keys: &Vec<String>, dry_run: bool) -> (r: Result<
    SyncPlan,
    String,
>)
    ensures
        match r {
            Ok(p) => {
                &&& member(from_json@, vivaldi_member()) is Some
                &&& (p.document@, texts(p.copied@)) == synced(from_json@, to_json@, texts(keys@))
                &&& p.write == writes(dry_run, texts(p.copied@))
            },
            Err(e) => {
                &&& member(from_json@, vivaldi_member()) is None
                &&& e@ == "Source has no vivaldi settings"@
            },
        },
{
    match copy_selected_keys(from_json, to_json, keys) {
        Ok((document, copied)) => {
            let write = !dry_run && copied.len() > 0;
            Ok(SyncPlan { document, copied, write })
        },
        Err(e) => Err(e),
    }
}

/// A dry run never writes, whatever it would copy.
pub proof fn law_dry_run_never_writes(copied: Seq<Seq<char>>)
    ensures
        !writes(true, copied),
{
}

/// One line of the sync log.
#[derive(Debug, Clone, PartialEq, Eq)]
pub struct SyncLogEntry {
    pub timestamp: String,
    pub from: String,
    pub to: String,
    pub keys: Vec<String>,
    pub success: bool,
    pub message: String,
}

/// The log message of a sync that copied `n` names.
pub open spec fn sync_message_text(dry_run: bool, n: nat) -> Seq<char> {
    if dry_run {
        "Dry run: would copy "@ + decimal(n) + " keys"@
    } else {
        "Synced "@ + decimal(n) + " keys"@
    }
}

/// The log message of a sync that copied `n` names.
pub fn sync_message(dry_run: bool, n: usize) -> (r: String)
    ensures
        r@ == sync_message_text(dry_run, n as nat),
{
    let mut m = if dry_run {
        String::from_str("Dry run: would copy ")
    } else {
        String::from_str("Synced ")
    };
    let d = decimal_text(n);
    m.append(d.as_str());
    m.append(" keys");
    m
}

/// The log entry of a sync made at `timestamp`.
pub fn build_log_entry(
    timestamp: String,
    from: String,
    to: String,
    copied: Vec<String>,
    dry_run: bool,
) -> (r: SyncLogEntry)
    ensures
        r.timestamp@ == timestamp@,
        r.from@ == from@,
        r.to@ == to@,
        texts(r.keys@) == texts(copied@),
        r.success,
        r.message@ == sync_message_text(dry_run, copied@.len()),
{
    let message = sync_message(dry_run, copied.len());
    SyncLogEntry { timestamp, from, to, keys: copied, success: true, message }
}

/// A year as chrono's `%Y` writes it: four digits, or, for a year outside
/// 0..=9999, a sign and at least four digits.
pub open spec fn year_text(y: Seq<char>) -> bool {
    ||| y.len() == 4 && all_digits(y)
    ||| y.len() >= 5 && (y[0] == '+' || y[0] == '-') && all_digits(y.drop_first())
}

/// A time stamp as `%Y-%m-%d %H:%M:%S` writes it: the year, then
/// `-MM-DD HH:MM:SS` with two digits for each field.
pub open spec fn readable_stamp(t: Seq<char>) -> bool {
    &&& t.len() >= 19
    &&& year_text(t.take(t.len() - 15))
    &&& {
        let u = t.skip(t.len() - 15);
        &&& u[0] == '-' && is_digit(u[1]) && is_digit(u[2])
        &&& u[3] == '-' && is_digit(u[4]) && is_digit(u[5])
        &&& u[6] == ' ' && is_digit(u[7]) && is_digit(u[8])
        &&& u[9] == ':' && is_digit(u[10]) && is_digit(u[11])
        &&& u[12] == ':' && is_digit(u[13]) && is_digit(u[14])
    }
}

/// A time stamp as `%Y%m%d_%H%M%S` writes it: the year, then `MMDD_HHMMSS` with
/// two digits for each field.
pub open spec fn compact_stamp(t: Seq<char>) -> bool {
    &&& t.len() >= 15
    &&& year_text(t.take(t.len() - 11))
    &&& {
        let u = t.skip(t.len() - 11);
        &&& is_digit(u[0]) && is_digit(u[1]) && is_digit(u[2]) && is_digit(u[3])
        &&& u[4] == '_'
        &&& is_digit(u[5]) && is_digit(u[6]) && is_digit(u[7]) && is_digit(u[8])
        &&& is_digit(u[9]) && is_digit(u[10])
    }
}

/// The current local time written with a chrono `strftime` pattern.
///
/// Calls `chrono::Local::now()` and `DateTime::format(pattern)`, then `to_string()`.
/// Which time comes back depends on the clock and the machine's time zone, so only
/// its shape is stated: chrono writes `%Y` as four digits, or with a sign outside
/// 0..=9999, and `%m`, `%d`, `%H`, `%M`, `%S` as two zero-padded digits.  Formatting
/// panics on a malformed pattern; only the two patterns this library uses are
/// admitted.  chrono also panics when the clock reads before 1970 or the time-zone
/// data cannot be read, which no argument decides.
#[verifier::external_body]
fn local_time_text(pattern: &str) -> (r: String)
    requires
        pattern@ == "%Y-%m-%d %H:%M:%S"@ || pattern@ == "%Y%m%d_%H%M%S"@,
    ensures
        pattern@ == "%Y-%m-%d %H:%M:%S"@ ==> readable_stamp(r@),
        pattern@ == "%Y%m%d_%H%M%S"@ ==> compact_stamp(r@),
{
    chrono::Local::now().format(pattern).to_string()
}

/// The log entry of a sync made now: the timestamp is the local time as
/// `YYYY-MM-DD HH:MM:SS`.
pub fn sync_log_entry(from: String, to: String, copied: Vec<String>, dry_run: bool) -> (r:
    SyncLogEntry)
    ensures
        readable_stamp(r.timestamp@),
        r.from@ == from@,
        r.to@ == to@,
        texts(r.keys@) == texts(copied@),
        r.success,
        r.message@ == sync_message_text(dry_run, copied@.len()),
{
    let timestamp = local_time_text("%Y-%m-%d %H:%M:%S");
    build_log_entry(timestamp, from, to, copied, dry_run)
}

/// The extension for the backup copy of a `Preferences` file made now: `bak.` and the
/// local time as `YYYYMMDD_HHMMSS` (see [`compact_stamp`]).
pub fn backup_extension() -> (r: String)
    ensures
        "bak."@.is_prefix_of(r@),
        compact_stamp(r@.skip(4)),
{
    let stamp = local_time_text("%Y%m%d_%H%M%S");
    let mut r = String::from_str("bak.");
    r.append(stamp.as_str());
    proof {
        reveal_strlit("bak.");
        assert(r@.take("bak."@.len() as int) =~= "bak."@);
        assert(r@.skip(4) =~= stamp@);
    }
    r
}


/// A sync planned from the texts of the two `Preferences` files: the plan, and the
/// text to write to the destination when the plan writes.
#[derive(Debug, Clone, PartialEq)]
pub struct SyncTextPlan {
    pub plan: SyncPlan,
    pub written: Option<String>,
}

/// `prefix` followed by `detail`, as a new string.
fn message_with(prefix: &str, detail: &String) -> (r: String)
    ensures
        r@ == prefix@ + detail@,
{
    let mut m = String::from_str(prefix);
    m.append(detail.as_str());
    m
}

/// The plan for syncing `keys` from the source `Preferences` text into the destination
/// `Preferences` text (`to_read` is that text, or the message of the failed read): the
/// source is parsed first, then the destination's read is looked at and its text
/// parsed; a text that does not parse is refused with the parser's message, and the
/// documents are synced as [`plan_sync`] says; when the plan writes, the destination
/// document is written back as JSON text.
pub fn plan_sync_text(
    from_text: &str,
    to_read: &Result<String, String>,
    keys: &Vec<String>,
    dry_run: bool,
) -> (r: Result<SyncTextPlan, String>)
    ensures
        match r {
            Ok(t) => {
                &&& parsed_json(from_text@) is Ok
                &&& to_read is Ok
                &&& parsed_json(to_read->Ok_0@) is Ok
                &&& member(parsed_json(from_text@)->Ok_0, vivaldi_member()) is Some
                &&& (t.plan.document@, texts(t.plan.copied@)) == synced(
                    parsed_json(from_text@)->Ok_0,
                    parsed_json(to_read->Ok_0@)->Ok_0,
                    texts(keys@),
                )
                &&& t.plan.write == writes(dry_run, texts(t.plan.copied@))
                &&& well_formed(t.plan.document@)
                &&& (t.written is Some <==> t.plan.write)
                &&& t.written matches Some(w) ==> w@ == json_text(t.plan.document@)
            },
            Err(e) => {
                ||| parsed_json(from_text@) matches Err(m) && e@ == "Cannot parse source: "@ + m
                ||| parsed_json(from_text@) is Ok && (to_read matches Err(m) && e@ == m@)
                ||| parsed_json(from_text@) is Ok && (to_read matches Ok(t) && (parsed_json(t@)
                    matches Err(m) && e@ == "Cannot parse destination: "@ + m))
                ||| parsed_json(from_text@) is Ok && to_read is Ok && parsed_json(
                    to_read->Ok_0@,
                ) is Ok && member(
                    parsed_json(from_text@)->Ok_0,
                    vivaldi_member(),
                ) is None && e@ == "Source has no vivaldi settings"@
            },
        },
{
    let from_json = match parse_json(from_text) {
        Ok(j) => j,
        Err(m) => {
            return Err(message_with("Cannot parse source: ", &m));
        },
    };
    let to_text = match to_read {
        Ok(t) => t,
        Err(m) => {
            return Err(m.clone());
        },
    };
    let to_json = match parse_json(to_text.as_str()) {
        Ok(j) => j,
        Err(m) => {
            return Err(message_with("Cannot parse destination: ", &m));
        },
    };
    let ghost fv = from_json@;
    let ghost tv = to_json@;
    let plan = plan_sync(&from_json, to_json, keys, dry_run)?;
    proof {
        law_sync_keeps_well_formed(fv, tv, texts(keys@));
    }
    let written = if plan.write {
        Some(json_to_text(&plan.document))
    } else {
        None
    };
    Ok(SyncTextPlan { plan, written })
}

} // verus!
