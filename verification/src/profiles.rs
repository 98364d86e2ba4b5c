//! The list of Vivaldi profiles, read from the `Local State` document.

use vstd::prelude::*;

use crate::json::{
    lemma_entries_view, lemma_member_well_formed, member, parse_json, parsed_json, Json, JsonView,
};
use crate::order::{
    is_stable_sort, lemma_stably_sorted_by, lemma_stably_sorted_items, lemma_stably_sorted_ties,
    sort_by_text_key,
    stably_sorted, text_le,
};
use crate::text::chars_of;

verus! {

/// A browser profile: its folder name, its display name and the path of its folder.
#[derive(Debug, Clone, PartialEq, Eq)]
pub struct Profile {
    pub id: String,
    pub name: String,
    pub path: String,
}

/// A profile folder named in `Local State`, with the name to show for it.
#[derive(Debug, Clone, PartialEq, Eq)]
pub struct ProfileFolder {
    pub id: String,
    pub name: String,
}

/// The entries of `profile.info_cache` in a `Local State` document, when that member
/// is an object.
pub open spec fn info_cache(state: JsonView) -> Option<Seq<(Seq<char>, JsonView)>> {
    match member(state, "profile"@) {
        Some(p) => match member(p, "info_cache"@) {
            Some(JsonView::Object(es)) => Some(es),
            _ => None,
        },
        None => None,
    }
}

/// The name shown for a profile folder: the `name` member of its entry when that is a
/// string, otherwise the folder name.
pub open spec fn display_name(folder: Seq<char>, info: JsonView) -> Seq<char> {
    match member(info, "name"@) {
        Some(JsonView::Str(n)) => n,
        _ => folder,
    }
}

/// The profile folders that a `Local State` document lists, in its order, each with
/// its display name; or the error text when it has no `profile.info_cache` object.
pub fn profile_folders(state: &Json) -> (r: Result<Vec<ProfileFolder>, String>)
    ensures
        match r {
            Ok(v) => info_cache(state@) matches Some(es) && v@.len() == es.len() && forall|i: int|
                0 <= i < es.len() ==> (#[trigger] v@[i]).id@ == es[i].0 && v@[i].name@
                    == display_name(es[i].0, es[i].1),
            Err(e) => info_cache(state@) is None && e@ == "No profile info_cache found"@,
        },
{
    let cache = match state.get("profile") {
        Some(p) => match p.get("info_cache") {
            Some(c) => c.as_object(),
            None => None,
        },
        None => None,
    };
    let entries = match cache {
        Some(es) => es,
        None => {
            return Err(String::from_str("No profile info_cache found"));
        },
    };
    proof {
        lemma_entries_view(entries@);
    }
    let mut out: Vec<ProfileFolder> = Vec::new();
    let mut i: usize = 0;
    while i < entries.len()
        invariant
            i <= entries@.len(),
            out@.len() == i,
            forall|j: int|
                0 <= j < i ==> (#[trigger] out@[j]).id@ == entries@[j].0@ && out@[j].name@
                    == display_name(entries@[j].0@, entries@[j].1@),
        decreases entries.len() - i,
    {
        let folder = &entries[i].0;
        let info = &entries[i].1;
        let name = match info.get("name") {
            Some(n) => match n.as_str() {
                Some(s) => s.clone(),
                None => folder.clone(),
            },
            None => folder.clone(),
        };
        out.push(ProfileFolder { id: folder.clone(), name });
        i = i + 1;
    }
    Ok(out)
}

/// The profile folders listed in the text of a `Local State` file: the parser's message
/// when the text does not parse, otherwise as [`profile_folders`] says; no folder is
/// listed twice.
pub fn profile_folders_text(state_text: &str) -> (r: Result<Vec<ProfileFolder>, String>)
    ensures
        match r {
            Ok(v) => parsed_json(state_text@) matches Ok(state) && info_cache(state) matches Some(
                es,
            ) && v@.len() == es.len() && (forall|i: int|
                0 <= i < es.len() ==> (#[trigger] v@[i]).id@ == es[i].0 && v@[i].name@
                    == display_name(es[i].0, es[i].1)) && (forall|i: int, j: int|
                0 <= i < j < v@.len() ==> (#[trigger] v@[i]).id@ != (#[trigger] v@[j]).id@),
            Err(e) => {
                ||| parsed_json(state_text@) matches Err(m) && e@ == "Cannot parse Local State: "@ + m
                ||| parsed_json(state_text@) matches Ok(state) && info_cache(state) is None && e@
                    == "No profile info_cache found"@
            },
        },
{
    match parse_json(state_text) {
        Ok(state) => {
            proof {
                if let Some(p) = member(state@, "profile"@) {
                    lemma_member_well_formed(state@, "profile"@);
                    if member(p, "info_cache"@) is Some {
                        lemma_member_well_formed(p, "info_cache"@);
                    }
                }
            }
            profile_folders(&state)
        },
        Err(m) => {
            let mut e = String::from_str("Cannot parse Local State: ");
            e.append(m.as_str());
            Err(e)
        },
    }
}

/// The profiles of `candidates` whose flag in `present` is set, in order.
pub open spec fn kept_profiles(candidates: Seq<Profile>, present: Seq<bool>) -> Seq<Profile>
    decreases candidates.len(),
{
    if candidates.len() == 0 {
        Seq::empty()
    } else {
        let rest = kept_profiles(candidates.drop_last(), present.take(candidates.len() - 1));
        if present[candidates.len() - 1] {
            rest.push(candidates.last())
        } else {
            rest
        }
    }
}

/// The display names of a sequence of profiles.
pub open spec fn profile_names(ps: Seq<Profile>) -> Seq<Seq<char>> {
    ps.map_values(|p: Profile| p.name@)
}

/// No two profiles share an id.
pub open spec fn distinct_ids(ps: Seq<Profile>) -> bool {
    forall|i: int, j: int| 0 <= i < j < ps.len() ==> (#[trigger] ps[i]).id@ != (#[trigger] ps[j]).id@
}

/// Every kept profile is one of the candidates, kept in order, and distinct ids stay
/// distinct.
proof fn lemma_kept_profiles(candidates: Seq<Profile>, present: Seq<bool>)
    requires
        present.len() == candidates.len(),
    ensures
        forall|i: int|
            0 <= i < kept_profiles(candidates, present).len() ==> candidates.contains(
                #[trigger] kept_profiles(candidates, present)[i],
            ),
        distinct_ids(candidates) ==> distinct_ids(kept_profiles(candidates, present)),
    decreases candidates.len(),
{
    if candidates.len() > 0 {
        let prev = candidates.drop_last();
        let pf = present.take(candidates.len() - 1);
        lemma_kept_profiles(prev, pf);
        let rest = kept_profiles(prev, pf);
        let kept = kept_profiles(candidates, present);
        assert forall|i: int| 0 <= i < kept.len() implies candidates.contains(#[trigger] kept[i]) by {
            if i < rest.len() {
                assert(prev.contains(rest[i]));
                let k = choose|k: int| 0 <= k < prev.len() && prev[k] == rest[i];
                assert(kept[i] == candidates[k]);
            } else {
                assert(kept[i] == candidates[candidates.len() - 1]);
            }
        }
        if distinct_ids(candidates) {
            assert(distinct_ids(prev)) by {
                assert forall|i: int, j: int| 0 <= i < j < prev.len() implies (#[trigger] prev[i]).id@
                    != (#[trigger] prev[j]).id@ by {
                    assert(prev[i] == candidates[i] && prev[j] == candidates[j]);
                }
            }
            assert forall|i: int, j: int| 0 <= i < j < kept.len() implies (#[trigger] kept[i]).id@
                != (#[trigger] kept[j]).id@ by {
                if j >= rest.len() {
                    assert(prev.contains(rest[i]));
                    let k = choose|k: int| 0 <= k < prev.len() && prev[k] == rest[i];
                    assert(kept[i] == candidates[k]);
                    assert(kept[j] == candidates[candidates.len() - 1]);
                } else {
                    assert(kept[i] == rest[i] && kept[j] == rest[j]);
                }
            }
        }
    }
}

/// When the candidates' ids are distinct, so are the listed profiles' ids.
pub proof fn law_profiles_distinct(
    r: Seq<Profile>,
    candidates: Seq<Profile>,
    present: Seq<bool>,
)
    requires
        present.len() == candidates.len(),
        distinct_ids(candidates),
        stably_sorted(
            r,
            kept_profiles(candidates, present),
            profile_names(kept_profiles(candidates, present)),
        ),
    ensures
        distinct_ids(r),
{
    lemma_kept_profiles(candidates, present);
    let kept = kept_profiles(candidates, present);
    let keys = profile_names(kept);
    let perm = choose|perm: Seq<int>| is_stable_sort(r, kept, keys, perm);
    assert forall|i: int, j: int| 0 <= i < j < r.len() implies (#[trigger] r[i]).id@
        != (#[trigger] r[j]).id@ by {
        assert(r[i] == kept[perm[i]] && r[j] == kept[perm[j]]);
        assert(perm[i] != perm[j]);
        if perm[i] < perm[j] {
            assert(kept[perm[i]].id@ != kept[perm[j]].id@);
        } else {
            assert(kept[perm[j]].id@ != kept[perm[i]].id@);
        }
    }
}

/// Whether `p` is one of the candidates whose flag is set.
pub open spec fn is_flagged_candidate(candidates: Seq<Profile>, present: Seq<bool>, p: Profile) -> bool {
    exists|i: int| 0 <= i < candidates.len() && present[i] && #[trigger] candidates[i] == p
}

/// Whether `p` and `q` are candidates whose flags are set, `p` before `q`.
pub open spec fn flagged_in_order(
    candidates: Seq<Profile>,
    present: Seq<bool>,
    p: Profile,
    q: Profile,
) -> bool {
    exists|a: int, b: int|
        0 <= a < b < candidates.len() && present[a] && present[b] && #[trigger] candidates[a] == p
            && #[trigger] candidates[b] == q
}

/// The kept profiles keep the candidates' order.
proof fn lemma_kept_in_order(candidates: Seq<Profile>, present: Seq<bool>)
    requires
        present.len() == candidates.len(),
    ensures
        forall|k1: int, k2: int|
            0 <= k1 < k2 < kept_profiles(candidates, present).len() ==> flagged_in_order(
                candidates,
                present,
                #[trigger] kept_profiles(candidates, present)[k1],
                #[trigger] kept_profiles(candidates, present)[k2],
            ),
    decreases candidates.len(),
{
    if candidates.len() > 0 {
        let n = candidates.len() - 1;
        let prev = candidates.drop_last();
        let pf = present.take(n as int);
        lemma_kept_in_order(prev, pf);
        lemma_kept_exactly(prev, pf);
        let rest = kept_profiles(prev, pf);
        let kept = kept_profiles(candidates, present);
        assert forall|k1: int, k2: int| 0 <= k1 < k2 < kept.len() implies flagged_in_order(
            candidates,
            present,
            #[trigger] kept[k1],
            #[trigger] kept[k2],
        ) by {
            assert(kept[k1] == rest[k1]);
            if k2 < rest.len() {
                assert(kept[k2] == rest[k2]);
                assert(flagged_in_order(prev, pf, rest[k1], rest[k2]));
                let (a, b) = choose|a: int, b: int|
                    0 <= a < b < prev.len() && pf[a] && pf[b] && #[trigger] prev[a] == rest[k1]
                        && #[trigger] prev[b] == rest[k2];
                assert(candidates[a] == prev[a] && candidates[b] == prev[b]);
                assert(present[a] == pf[a] && present[b] == pf[b]);
            } else {
                assert(kept[k2] == candidates[n as int] && present[n as int]);
                assert(is_flagged_candidate(prev, pf, rest[k1]));
                let a = choose|a: int| 0 <= a < prev.len() && pf[a] && #[trigger] prev[a] == rest[k1];
                assert(candidates[a] == prev[a] && present[a] == pf[a]);
                assert(candidates[n as int] == kept[k2]);
            }
        }
    }
}

/// How many flags of `present` are set.
pub open spec fn flags_set(present: Seq<bool>) -> nat
    decreases present.len(),
{
    if present.len() == 0 {
        0
    } else {
        flags_set(present.drop_last()) + if present.last() {
            1nat
        } else {
            0nat
        }
    }
}

/// The kept profiles are exactly the candidates whose flag is set: each of those is
/// kept, each kept one is such a candidate, and there are as many as flags set.
proof fn lemma_kept_exactly(candidates: Seq<Profile>, present: Seq<bool>)
    requires
        present.len() == candidates.len(),
    ensures
        forall|i: int|
            0 <= i < candidates.len() && present[i] ==> kept_profiles(candidates, present).contains(
                #[trigger] candidates[i],
            ),
        forall|k: int|
            0 <= k < kept_profiles(candidates, present).len() ==> is_flagged_candidate(
                candidates,
                present,
                #[trigger] kept_profiles(candidates, present)[k],
            ),
        kept_profiles(candidates, present).len() == flags_set(present),
    decreases candidates.len(),
{
    if candidates.len() > 0 {
        let n = candidates.len() - 1;
        let prev = candidates.drop_last();
        let pf = present.take(n as int);
        assert(pf =~= present.drop_last());
        lemma_kept_exactly(prev, pf);
        let rest = kept_profiles(prev, pf);
        let kept = kept_profiles(candidates, present);
        assert forall|i: int| 0 <= i < candidates.len() && present[i] implies kept.contains(
            #[trigger] candidates[i],
        ) by {
            if i < n {
                assert(prev[i] == candidates[i] && pf[i] == present[i]);
                assert(rest.contains(prev[i]));
                let k = choose|k: int| 0 <= k < rest.len() && rest[k] == prev[i];
                assert(kept[k] == rest[k]);
            } else {
                assert(kept[kept.len() - 1] == candidates[i]);
            }
        }
        assert forall|k: int| 0 <= k < kept.len() implies is_flagged_candidate(
            candidates,
            present,
            #[trigger] kept[k],
        ) by {
            if k < rest.len() {
                assert(kept[k] == rest[k]);
                assert(is_flagged_candidate(prev, pf, rest[k]));
                let i = choose|i: int| 0 <= i < prev.len() && pf[i] && #[trigger] prev[i] == rest[k];
                assert(candidates[i] == prev[i] && present[i] == pf[i]);
            } else {
                assert(kept[k] == candidates[n as int] && present[n as int]);
            }
        }
    }
}

/// The profile list holds exactly the candidates that have a `Preferences` file, as
/// many as there are, and in order of their full display names.
pub proof fn law_profiles_listed(r: Seq<Profile>, candidates: Seq<Profile>, present: Seq<bool>)
    requires
        present.len() == candidates.len(),
        stably_sorted(
            r,
            kept_profiles(candidates, present),
            profile_names(kept_profiles(candidates, present)),
        ),
    ensures
        forall|i: int, j: int|
            0 <= i < j < r.len() ==> text_le((#[trigger] r[i]).name@, (#[trigger] r[j]).name@),
        forall|i: int|
            0 <= i < candidates.len() && present[i] ==> r.contains(#[trigger] candidates[i]),
        forall|k: int| 0 <= k < r.len() ==> is_flagged_candidate(candidates, present, #[trigger] r[k]),
        r.len() == flags_set(present),
        forall|i: int, j: int|
            0 <= i < j < r.len() && (#[trigger] r[i]).name@ == (#[trigger] r[j]).name@
                ==> flagged_in_order(candidates, present, r[i], r[j]),
{
    let kept = kept_profiles(candidates, present);
    lemma_kept_exactly(candidates, present);
    lemma_kept_in_order(candidates, present);
    lemma_stably_sorted_ties(r, kept, profile_names(kept), |p: Profile| p.name@);
    assert forall|i: int, j: int|
        0 <= i < j < r.len() && (#[trigger] r[i]).name@ == (#[trigger] r[j]).name@
            implies flagged_in_order(candidates, present, r[i], r[j]) by {
        let f = |p: Profile| p.name@;
        assert(f(r[i]) == f(r[j]));
        let (a, b) = choose|a: int, b: int|
            0 <= a < b < kept.len() && #[trigger] kept[a] == r[i] && #[trigger] kept[b] == r[j];
        assert(flagged_in_order(candidates, present, kept[a], kept[b]));
    }
    lemma_stably_sorted_items(r, kept, profile_names(kept));
    lemma_stably_sorted_by(r, kept, profile_names(kept), |p: Profile| p.name@);
    assert forall|i: int| 0 <= i < candidates.len() && present[i] implies r.contains(
        #[trigger] candidates[i],
    ) by {
        assert(kept.contains(candidates[i]));
        let v = choose|v: int| 0 <= v < kept.len() && kept[v] == candidates[i];
        assert(r.contains(kept[v]));
    }
    assert forall|k: int| 0 <= k < r.len() implies is_flagged_candidate(
        candidates,
        present,
        #[trigger] r[k],
    ) by {
        assert(kept.contains(r[k]));
        let v = choose|v: int| 0 <= v < kept.len() && kept[v] == r[k];
        assert(is_flagged_candidate(candidates, present, kept[v]));
    }
}

/// The profiles that have a `Preferences` file (`present[i]` tells it of
/// `candidates[i]`), sorted stably by display name.
pub fn collect_profiles(candidates: Vec<Profile>, present: &Vec<bool>) -> (r: Vec<Profile>)
    requires
        candidates@.len() == present@.len(),
    ensures
        stably_sorted(
            r@,
            kept_profiles(candidates@, present@),
            profile_names(kept_profiles(candidates@, present@)),
        ),
        forall|i: int, j: int|
            0 <= i < j < r@.len() ==> text_le((#[trigger] r@[i]).name@, (#[trigger] r@[j]).name@),
        forall|i: int|
            0 <= i < candidates@.len() && present@[i] ==> r@.contains(#[trigger] candidates@[i]),
        forall|k: int|
            0 <= k < r@.len() ==> is_flagged_candidate(candidates@, present@, #[trigger] r@[k]),
        r@.len() == flags_set(present@),
        forall|i: int, j: int|
            0 <= i < j < r@.len() && (#[trigger] r@[i]).name@ == (#[trigger] r@[j]).name@
                ==> flagged_in_order(candidates@, present@, r@[i], r@[j]),
{
    let ghost cs = candidates@;
    let ghost fs = present@;
    let n = candidates.len();
    let mut candidates = candidates;
    let mut kept: Vec<Profile> = Vec::new();
    let mut keys: Vec<Vec<char>> = Vec::new();
    let mut i: usize = 0;
    while i < n
        invariant
            n == cs.len(),
            fs == present@,
            fs.len() == n,
            i <= n,
            candidates@ == cs.skip(i as int),
            kept@ == kept_profiles(cs.take(i as int), fs.take(i as int)),
            keys@.len() == kept@.len(),
            forall|j: int| 0 <= j < keys@.len() ==> #[trigger] keys@[j]@ == kept@[j].name@,
        decreases n - i,
    {
        let ghost before = candidates@;
        let c = candidates.remove(0);
        proof {
            assert(c == cs[i as int]);
            assert(cs.take(i + 1).drop_last() =~= cs.take(i as int));
            assert(fs.take(i + 1).take(i as int) =~= fs.take(i as int));
            assert(candidates@ =~= cs.skip(i + 1));
        }
        if present[i] {
            let k = chars_of(c.name.as_str());
            kept.push(c);
            keys.push(k);
        }
        i = i + 1;
    }
    proof {
        assert(cs.take(n as int) =~= cs);
        assert(fs.take(n as int) =~= fs);
        assert(keys@.map_values(|k: Vec<char>| k@) =~= profile_names(kept@));
    }
    let r = sort_by_text_key(kept, keys);
    proof {
        law_profiles_listed(r@, cs, fs);
    }
    r
}

} // verus!
