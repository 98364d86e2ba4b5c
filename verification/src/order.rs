//! The order of texts and a stable sort by a text key.
//!
//! Texts are ordered character by character by code point, a proper prefix before
//! the longer text.  This is the order in which `String`'s `Ord` compares, since
//! UTF-8 keeps the order of code points byte for byte.

use vstd::prelude::*;

verus! {

/// Whether `a` comes before `b` or equals it.
pub open spec fn text_le(a: Seq<char>, b: Seq<char>) -> bool
    decreases a.len(),
{
    if a.len() == 0 {
        true
    } else if b.len() == 0 {
        false
    } else if a[0] != b[0] {
        (a[0] as int) < (b[0] as int)
    } else {
        text_le(a.drop_first(), b.drop_first())
    }
}

/// Any two texts are ordered one way or the other.
pub proof fn lemma_text_le_total(a: Seq<char>, b: Seq<char>)
    ensures
        text_le(a, b) || text_le(b, a),
    decreases a.len(),
{
    if a.len() > 0 && b.len() > 0 {
        if a[0] == b[0] {
            lemma_text_le_total(a.drop_first(), b.drop_first());
        } else {
            assert((a[0] as int) != (b[0] as int));
        }
    }
}

/// Texts ordered both ways are equal.
pub proof fn lemma_text_le_antisymmetric(a: Seq<char>, b: Seq<char>)
    requires
        text_le(a, b),
        text_le(b, a),
    ensures
        a == b,
    decreases a.len(),
{
    if a.len() > 0 && b.len() > 0 {
        if a[0] == b[0] {
            lemma_text_le_antisymmetric(a.drop_first(), b.drop_first());
            assert(a =~= seq![a[0]] + a.drop_first());
            assert(b =~= seq![b[0]] + b.drop_first());
        } else {
            assert((a[0] as int) != (b[0] as int));
        }
    } else {
        assert(a.len() == 0 && b.len() == 0);
        assert(a =~= b);
    }
}

/// The order is transitive.
pub proof fn lemma_text_le_transitive(a: Seq<char>, b: Seq<char>, c: Seq<char>)
    requires
        text_le(a, b),
        text_le(b, c),
    ensures
        text_le(a, c),
    decreases a.len(),
{
    if a.len() > 0 && b.len() > 0 && c.len() > 0 {
        if a[0] == b[0] && b[0] == c[0] {
            lemma_text_le_transitive(a.drop_first(), b.drop_first(), c.drop_first());
        }
    }
}

/// Whether `a` comes before `b` or equals it, in the order of [`text_le`].
pub fn text_le_exec(a: &Vec<char>, b: &Vec<char>) -> (r: bool)
    ensures
        r == text_le(a@, b@),
{
    let mut i: usize = 0;
    assert(a@.skip(0) =~= a@);
    assert(b@.skip(0) =~= b@);
    while i < a.len() && i < b.len() && a[i] == b[i]
        invariant
            i <= a@.len(),
            i <= b@.len(),
            a.len() == a@.len(),
            b.len() == b@.len(),
            text_le(a@, b@) == text_le(a@.skip(i as int), b@.skip(i as int)),
        decreases a.len() - i,
    {
        proof {
            assert(a@.skip(i as int).drop_first() =~= a@.skip(i + 1));
            assert(b@.skip(i as int).drop_first() =~= b@.skip(i + 1));
        }
        i = i + 1;
    }
    if i == a.len() {
        true
    } else if i == b.len() {
        false
    } else {
        a[i] < b[i]
    }
}

/// `perm` shows `r` to be `s` sorted stably by `keys`: `r[i]` is `s[perm[i]]`, no
/// position of `s` is taken twice, the keys come in order, and items with equal keys
/// keep the order they had in `s`.
pub open spec fn is_stable_sort<T>(r: Seq<T>, s: Seq<T>, keys: Seq<Seq<char>>, perm: Seq<int>) -> bool {
    &&& r.len() == s.len()
    &&& perm.len() == s.len()
    &&& forall|i: int| 0 <= i < r.len() ==> 0 <= #[trigger] perm[i] < s.len() && r[i] == s[perm[i]]
    &&& forall|i: int, j: int| 0 <= i < j < r.len() ==> #[trigger] perm[i] != #[trigger] perm[j]
    &&& forall|i: int, j: int|
        0 <= i < j < r.len() ==> text_le(keys[#[trigger] perm[i]], keys[#[trigger] perm[j]])
    &&& forall|i: int, j: int|
        0 <= i < j < r.len() && keys[#[trigger] perm[i]] == keys[#[trigger] perm[j]] ==> perm[i]
            < perm[j]
}

/// `r` is `s` sorted stably by `keys`, where `keys[i]` is the key of `s[i]`.
pub open spec fn stably_sorted<T>(r: Seq<T>, s: Seq<T>, keys: Seq<Seq<char>>) -> bool {
    exists|perm: Seq<int>| is_stable_sort(r, s, keys, perm)
}

/// A stable sort carries over to any view of the items.
pub proof fn lemma_stably_sorted_map<T, V>(
    r: Seq<T>,
    s: Seq<T>,
    keys: Seq<Seq<char>>,
    f: spec_fn(T) -> V,
)
    requires
        stably_sorted(r, s, keys),
    ensures
        stably_sorted(r.map_values(f), s.map_values(f), keys),
{
    let perm = choose|perm: Seq<int>| is_stable_sort(r, s, keys, perm);
    assert(is_stable_sort(r.map_values(f), s.map_values(f), keys, perm));
}

/// A stable sort keeps exactly the items it was given: as many, every item of `s` is
/// in `r`, and every item of `r` is one of `s`.
pub proof fn lemma_stably_sorted_items<T>(r: Seq<T>, s: Seq<T>, keys: Seq<Seq<char>>)
    requires
        stably_sorted(r, s, keys),
    ensures
        r.len() == s.len(),
        forall|v: int| 0 <= v < s.len() ==> r.contains(#[trigger] s[v]),
        forall|i: int| 0 <= i < r.len() ==> s.contains(#[trigger] r[i]),
{
    let perm = choose|perm: Seq<int>| is_stable_sort(r, s, keys, perm);
    assert forall|v: int| 0 <= v < s.len() implies r.contains(#[trigger] s[v]) by {
        lemma_perm_covers(r, s, keys, perm, v);
        let i = choose|i: int| 0 <= i < perm.len() && perm[i] == v;
        assert(r[i] == s[v]);
    }
    assert forall|i: int| 0 <= i < r.len() implies s.contains(#[trigger] r[i]) by {
        assert(r[i] == s[perm[i]]);
    }
}

/// A stable sort by keys that are `f` of the items puts the items in the order of `f`:
/// for any two positions of the result, the earlier item's `f` comes first.
pub proof fn lemma_stably_sorted_by<T>(
    r: Seq<T>,
    s: Seq<T>,
    keys: Seq<Seq<char>>,
    f: spec_fn(T) -> Seq<char>,
)
    requires
        stably_sorted(r, s, keys),
        keys.len() == s.len(),
        forall|v: int| 0 <= v < s.len() ==> #[trigger] keys[v] == f(s[v]),
    ensures
        forall|i: int, j: int|
            0 <= i < j < r.len() ==> text_le(f(#[trigger] r[i]), f(#[trigger] r[j])),
{
    let perm = choose|perm: Seq<int>| is_stable_sort(r, s, keys, perm);
    assert forall|i: int, j: int| 0 <= i < j < r.len() implies text_le(
        f(#[trigger] r[i]),
        f(#[trigger] r[j]),
    ) by {
        assert(r[i] == s[perm[i]] && r[j] == s[perm[j]]);
        assert(keys[perm[i]] == f(s[perm[i]]));
        assert(keys[perm[j]] == f(s[perm[j]]));
        assert(text_le(keys[perm[i]], keys[perm[j]]));
    }
}

/// A stable sort by keys that are `f` of the items keeps items with equal `f` in the
/// order they had: two such items of the result stand at increasing positions of `s`.
pub proof fn lemma_stably_sorted_ties<T>(
    r: Seq<T>,
    s: Seq<T>,
    keys: Seq<Seq<char>>,
    f: spec_fn(T) -> Seq<char>,
)
    requires
        stably_sorted(r, s, keys),
        keys.len() == s.len(),
        forall|v: int| 0 <= v < s.len() ==> #[trigger] keys[v] == f(s[v]),
    ensures
        forall|i: int, j: int|
            0 <= i < j < r.len() && f(#[trigger] r[i]) == f(#[trigger] r[j]) ==> exists|a: int, b: int|
                0 <= a < b < s.len() && #[trigger] s[a] == r[i] && #[trigger] s[b] == r[j],
{
    let perm = choose|perm: Seq<int>| is_stable_sort(r, s, keys, perm);
    assert forall|i: int, j: int|
        0 <= i < j < r.len() && f(#[trigger] r[i]) == f(#[trigger] r[j]) implies exists|a: int, b: int|
        0 <= a < b < s.len() && #[trigger] s[a] == r[i] && #[trigger] s[b] == r[j] by {
        assert(r[i] == s[perm[i]] && r[j] == s[perm[j]]);
        assert(keys[perm[i]] == f(s[perm[i]]));
        assert(keys[perm[j]] == f(s[perm[j]]));
        assert(perm[i] < perm[j]);
        assert(s[perm[i]] == r[i] && s[perm[j]] == r[j]);
    }
}

/// The positions that a stable-sort witness takes cover all of `s`.
proof fn lemma_perm_covers<T>(r: Seq<T>, s: Seq<T>, keys: Seq<Seq<char>>, perm: Seq<int>, v: int)
    requires
        is_stable_sort(r, s, keys, perm),
        0 <= v < s.len(),
    ensures
        exists|i: int| 0 <= i < perm.len() && perm[i] == v,
{
    assert(perm.no_duplicates()) by {
        assert forall|i: int, j: int| 0 <= i < perm.len() && 0 <= j < perm.len() && i != j implies perm[i]
            != perm[j] by {
            if i < j {
                assert(perm[i] != perm[j]);
            } else {
                assert(perm[j] != perm[i]);
            }
        }
    }
    perm.unique_seq_to_set();
    vstd::set_lib::lemma_int_range(0, s.len() as int);
    let range = vstd::set_lib::set_int_range(0, s.len() as int);
    assert(perm.to_set().subset_of(range)) by {
        assert forall|x: int| perm.to_set().contains(x) implies range.contains(x) by {
            let i = choose|i: int| 0 <= i < perm.len() && perm[i] == x;
            assert(0 <= perm[i] < s.len());
        }
    }
    vstd::set_lib::lemma_subset_equality(perm.to_set(), range);
    assert(range.contains(v));
    assert(perm.to_set().contains(v));
}

/// Two stable-sort witnesses agree on their first `k` positions.
proof fn lemma_perms_agree<T>(
    r1: Seq<T>,
    r2: Seq<T>,
    s: Seq<T>,
    keys: Seq<Seq<char>>,
    p1: Seq<int>,
    p2: Seq<int>,
    k: int,
)
    requires
        keys.len() == s.len(),
        is_stable_sort(r1, s, keys, p1),
        is_stable_sort(r2, s, keys, p2),
        0 <= k <= s.len(),
    ensures
        forall|i: int| 0 <= i < k ==> #[trigger] p1[i] == p2[i],
    decreases k,
{
    if k > 0 {
        lemma_perms_agree(r1, r2, s, keys, p1, p2, k - 1);
        let i = k - 1;
        let a = p1[i];
        let b = p2[i];
        if a != b {
            lemma_perm_covers(r2, s, keys, p2, a);
            let j = choose|j: int| 0 <= j < p2.len() && p2[j] == a;
            lemma_perm_covers(r1, s, keys, p1, b);
            let j2 = choose|j2: int| 0 <= j2 < p1.len() && p1[j2] == b;
            if j < i {
                assert(p1[j] == p2[j]);
                assert(p1[j] != p1[i]);
            }
            if j2 < i {
                assert(p1[j2] == p2[j2]);
                assert(p2[j2] != p2[i]);
            }
            assert(j > i && j2 > i);
            assert(text_le(keys[p2[i]], keys[p2[j]]));
            assert(text_le(keys[p1[i]], keys[p1[j2]]));
            lemma_text_le_antisymmetric(keys[a], keys[b]);
            assert(p2[i] < p2[j]);
            assert(p1[i] < p1[j2]);
        }
    }
}

/// A stable sort by given keys has exactly one outcome.
pub proof fn law_stable_sort_unique<T>(r1: Seq<T>, r2: Seq<T>, s: Seq<T>, keys: Seq<Seq<char>>)
    requires
        keys.len() == s.len(),
        stably_sorted(r1, s, keys),
        stably_sorted(r2, s, keys),
    ensures
        r1 == r2,
{
    let p1 = choose|p: Seq<int>| is_stable_sort(r1, s, keys, p);
    let p2 = choose|p: Seq<int>| is_stable_sort(r2, s, keys, p);
    lemma_perms_agree(r1, r2, s, keys, p1, p2, s.len() as int);
    assert forall|i: int| 0 <= i < r1.len() implies r1[i] == r2[i] by {
        assert(p1[i] == p2[i]);
    }
    assert(r1 =~= r2);
}

/// `items` sorted stably by `keys`, where `keys[i]` is the key of `items[i]`: a stable
/// insertion sort.
pub fn sort_by_text_key<T>(items: Vec<T>, keys: Vec<Vec<char>>) -> (r: Vec<T>)
    requires
        items@.len() == keys@.len(),
    ensures
        stably_sorted(r@, items@, keys@.map_values(|k: Vec<char>| k@)),
{
    let ghost s = items@;
    let ghost ks = keys@.map_values(|k: Vec<char>| k@);
    let n = items.len();
    let mut items = items;
    let mut keys = keys;
    let mut out: Vec<T> = Vec::new();
    let mut out_keys: Vec<Vec<char>> = Vec::new();
    let ghost mut perm: Seq<int> = Seq::empty();
    let mut i: usize = 0;
    while i < n
        invariant
            n == s.len(),
            ks.len() == n,
            i <= n,
            items@ == s.skip(i as int),
            keys@.len() == n - i,
            forall|j: int| 0 <= j < n - i ==> #[trigger] keys@[j]@ == ks[i + j],
            out@.len() == i,
            out_keys@.len() == i,
            perm.len() == i,
            forall|q: int| 0 <= q < i ==> 0 <= #[trigger] perm[q] < i && out@[q] == s[perm[q]]
                && out_keys@[q]@ == ks[perm[q]],
            forall|p: int, q: int| 0 <= p < q < i ==> #[trigger] perm[p] != #[trigger] perm[q],
            forall|p: int, q: int|
                0 <= p < q < i ==> text_le(ks[#[trigger] perm[p]], ks[#[trigger] perm[q]]),
            forall|p: int, q: int|
                0 <= p < q < i && ks[#[trigger] perm[p]] == ks[#[trigger] perm[q]] ==> perm[p]
                    < perm[q],
        decreases n - i,
    {
        let ghost keys_before = keys@;
        let ghost items_before = items@;
        let x = items.remove(0);
        let k = keys.remove(0);
        assert(k@ == ks[i as int]) by {
            assert(keys_before[0]@ == ks[i + 0]);
        }
        // the place after every kept item whose key is not greater than `k`
        let mut p: usize = 0;
        while p < out.len() && text_le_exec(&out_keys[p], &k)
            invariant
                p <= out@.len(),
                out@.len() == i,
                out_keys@.len() == i,
                perm.len() == i,
                forall|q: int| 0 <= q < i ==> #[trigger] out_keys@[q]@ == ks[perm[q]],
                forall|q: int| 0 <= q < p ==> text_le(#[trigger] ks[perm[q]], k@),
            decreases out.len() - p,
        {
            p = p + 1;
        }
        proof {
            if p < i {
                assert(!text_le(ks[perm[p as int]], k@));
                assert forall|q: int| p <= q < i implies !text_le(#[trigger] ks[perm[q]], k@) by {
                    if q > p {
                        assert(text_le(ks[perm[p as int]], ks[perm[q]]));
                    }
                    if text_le(ks[perm[q]], k@) {
                        lemma_text_le_transitive(ks[perm[p as int]], ks[perm[q]], k@);
                    }
                }
            }
        }
        let ghost old_perm = perm;
        let ghost old_out = out@;
        out.insert(p, x);
        out_keys.insert(p, k);
        proof {
            perm = old_perm.insert(p as int, i as int);
            assert forall|q: int| 0 <= q < i + 1 implies 0 <= #[trigger] perm[q] < i + 1 && out@[q]
                == s[perm[q]] && out_keys@[q]@ == ks[perm[q]] by {
                if q < p {
                    assert(perm[q] == old_perm[q]);
                } else if q > p {
                    assert(perm[q] == old_perm[q - 1]);
                } else {
                    assert(items_before[0] == s[i as int]);
                }
            }
            assert forall|a: int, b: int| 0 <= a < b < i + 1 implies #[trigger] perm[a]
                != #[trigger] perm[b] by {
                if a < p && b < p {
                    assert(old_perm[a] != old_perm[b]);
                } else if a < p && b > p {
                    assert(old_perm[a] != old_perm[b - 1]);
                } else if a > p && b > p {
                    assert(old_perm[a - 1] != old_perm[b - 1]);
                }
            }
            assert forall|a: int, b: int| 0 <= a < b < i + 1 implies text_le(
                ks[#[trigger] perm[a]],
                ks[#[trigger] perm[b]],
            ) by {
                if a < p && b < p {
                    assert(text_le(ks[old_perm[a]], ks[old_perm[b]]));
                } else if a < p && b == p {
                } else if a < p && b > p {
                    assert(text_le(ks[old_perm[a]], ks[old_perm[b - 1]]));
                } else if a == p {
                    assert(!text_le(ks[old_perm[b - 1]], k@));
                    lemma_text_le_total(ks[old_perm[b - 1]], k@);
                } else {
                    assert(text_le(ks[old_perm[a - 1]], ks[old_perm[b - 1]]));
                }
            }
            assert forall|a: int, b: int|
                0 <= a < b < i + 1 && ks[#[trigger] perm[a]] == ks[#[trigger] perm[b]] implies perm[a]
                < perm[b] by {
                if a < p && b < p {
                    assert(old_perm[a] < old_perm[b]);
                } else if a < p && b > p {
                    assert(old_perm[a] < old_perm[b - 1]);
                } else if a > p && b > p {
                    assert(old_perm[a - 1] < old_perm[b - 1]);
                } else if a == p {
                    assert(!text_le(ks[old_perm[b - 1]], k@));
                    lemma_text_le_total(k@, k@);
                }
            }
            assert(items@ =~= s.skip(i + 1));
            assert forall|j: int| 0 <= j < n - (i + 1) implies #[trigger] keys@[j]@ == ks[i + 1
                + j] by {
                assert(keys@[j] == keys_before[j + 1]);
                assert(keys_before[j + 1]@ == ks[i + (j + 1)]);
            }
        }
        i = i + 1;
    }
    assert(is_stable_sort(out@, s, ks, perm));
    out
}

} // verus!
