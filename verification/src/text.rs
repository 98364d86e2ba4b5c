//! Text helpers over `str` and `String`, each stated over the sequence of characters.

use vstd::prelude::*;

verus! {

/// The characters of `s`, in order.
pub fn chars_of(s: &str) -> (r: Vec<char>)
    ensures
        r@ == s@,
{
    let mut out: Vec<char> = Vec::new();
    for c in it: s.chars()
        invariant
            out@ == it.seq().take(it.index() as int),
    {
        out.push(c);
    }
    assert(out@ =~= s@);
    out
}

/// Whether two texts hold the same characters.
pub fn text_eq(a: &str, b: &str) -> (r: bool)
    ensures
        r == (a@ == b@),
{
    let x = chars_of(a);
    let y = chars_of(b);
    if x.len() != y.len() {
        return false;
    }
    let mut i: usize = 0;
    while i < x.len()
        invariant
            x@ == a@,
            y@ == b@,
            x.len() == y.len(),
            i <= x.len(),
            forall|j: int| 0 <= j < i ==> x@[j] == y@[j],
        decreases x.len() - i,
    {
        if x[i] != y[i] {
            return false;
        }
        i = i + 1;
    }
    assert(a@ =~= b@);
    true
}


/// `s` with every leading copy of `p` removed, as `str::trim_start_matches` does with
/// a text pattern; an empty pattern removes nothing.
pub open spec fn strip_prefixes(s: Seq<char>, p: Seq<char>) -> Seq<char>
    decreases s.len(),
{
    if p.len() > 0 && p.is_prefix_of(s) {
        strip_prefixes(s.skip(p.len() as int), p)
    } else {
        s
    }
}

/// `s` with every trailing copy of `p` removed, as `str::trim_end_matches` does with
/// a text pattern; an empty pattern removes nothing.
pub open spec fn strip_suffixes(s: Seq<char>, p: Seq<char>) -> Seq<char>
    decreases s.len(),
{
    if p.len() > 0 && p.is_suffix_of(s) {
        strip_suffixes(s.take(s.len() - p.len()), p)
    } else {
        s
    }
}

/// Whether `p` occurs in `s` at position `at`.
fn occurs_at(s: &Vec<char>, at: usize, p: &Vec<char>) -> (r: bool)
    requires
        at <= s@.len(),
    ensures
        r == (at + p@.len() <= s@.len() && s@.subrange(at as int, at + p@.len()) == p@),
{
    if p.len() > s.len() - at {
        return false;
    }
    let mut i: usize = 0;
    while i < p.len()
        invariant
            s.len() == s@.len(),
            p.len() == p@.len(),
            at <= s@.len(),
            at + p@.len() <= s@.len(),
            i <= p@.len(),
            forall|j: int| 0 <= j < i ==> s@[at + j] == p@[j],
        decreases p.len() - i,
    {
        if s[at + i] != p[i] {
            assert(s@.subrange(at as int, at + p@.len())[i as int] != p@[i as int]);
            return false;
        }
        i = i + 1;
    }
    assert(s@.subrange(at as int, at + p@.len()) =~= p@);
    true
}

/// Whether `s` begins with `p`.
pub fn starts_with(s: &str, p: &str) -> (r: bool)
    ensures
        r == p@.is_prefix_of(s@),
{
    let x = chars_of(s);
    let y = chars_of(p);
    let r = occurs_at(&x, 0, &y);
    proof {
        if r {
            assert(s@.take(p@.len() as int) =~= s@.subrange(0, p@.len() as int));
        } else if p@.is_prefix_of(s@) {
            assert(s@.take(p@.len() as int) =~= s@.subrange(0, p@.len() as int));
        }
    }
    r
}

/// `s` with every leading copy of `p` removed.
pub fn trim_start_matches(s: &str, p: &str) -> (r: String)
    ensures
        r@ == strip_prefixes(s@, p@),
{
    let x = chars_of(s);
    let y = chars_of(p);
    let n = x.len();
    let mut at: usize = 0;
    assert(s@.skip(0) =~= s@);
    if y.len() > 0 {
        while occurs_at(&x, at, &y)
            invariant
                x@ == s@,
                y@ == p@,
                n == x@.len(),
                p@.len() > 0,
                at <= n,
                strip_prefixes(s@, p@) == strip_prefixes(s@.skip(at as int), p@),
            decreases n - at,
        {
            proof {
                let rest = s@.skip(at as int);
                assert(rest.take(p@.len() as int) =~= s@.subrange(at as int, at + p@.len()));
                assert(rest.skip(p@.len() as int) =~= s@.skip(at + p@.len()));
            }
            at = at + y.len();
        }
        proof {
            let rest = s@.skip(at as int);
            if p@.is_prefix_of(rest) {
                assert(rest.take(p@.len() as int) =~= s@.subrange(at as int, at + p@.len()));
            }
        }
    } else {
        assert(s@.skip(0) =~= s@);
    }
    let r = String::from_str(s.substring_char(at, n));
    proof {
        assert(s@.subrange(at as int, n as int) =~= s@.skip(at as int));
    }
    r
}

/// `s` with every trailing copy of `p` removed.
pub fn trim_end_matches(s: &str, p: &str) -> (r: String)
    ensures
        r@ == strip_suffixes(s@, p@),
{
    let x = chars_of(s);
    let y = chars_of(p);
    let mut end: usize = x.len();
    assert(s@.take(x@.len() as int) =~= s@);
    if y.len() > 0 {
        while end >= y.len() && occurs_at(&x, end - y.len(), &y)
            invariant
                x@ == s@,
                y@ == p@,
                p@.len() > 0,
                end <= x@.len(),
                strip_suffixes(s@, p@) == strip_suffixes(s@.take(end as int), p@),
            decreases end,
        {
            proof {
                let rest = s@.take(end as int);
                let q = end - p@.len();
                assert(rest.subrange(rest.len() - p@.len(), rest.len() as int) =~= s@.subrange(
                    q,
                    q + p@.len(),
                ));
                assert(rest.take(rest.len() - p@.len()) =~= s@.take(q));
            }
            end = end - y.len();
        }
        proof {
            let rest = s@.take(end as int);
            if p@.is_suffix_of(rest) {
                let q = end - p@.len();
                assert(rest.subrange(rest.len() - p@.len(), rest.len() as int) =~= s@.subrange(
                    q,
                    q + p@.len(),
                ));
            }
        }
    } else {
        assert(s@.take(x@.len() as int) =~= s@);
    }
    let r = String::from_str(s.substring_char(0, end));
    proof {
        assert(s@.subrange(0, end as int) =~= s@.take(end as int));
    }
    r
}


/// The character of a decimal digit.
pub open spec fn digit_char(d: nat) -> char {
    (48 + d) as char
}

/// The decimal notation of `n`, without sign or leading zeros.
pub open spec fn decimal(n: nat) -> Seq<char>
    decreases n,
{
    if n < 10 {
        seq![digit_char(n)]
    } else {
        decimal(n / 10).push(digit_char(n % 10))
    }
}

/// The text of one decimal digit.
fn digit_text(d: usize) -> (r: &'static str)
    requires
        d < 10,
    ensures
        r@ == seq![digit_char(d as nat)],
{
    proof {
        reveal_strlit("0");
        reveal_strlit("1");
        reveal_strlit("2");
        reveal_strlit("3");
        reveal_strlit("4");
        reveal_strlit("5");
        reveal_strlit("6");
        reveal_strlit("7");
        reveal_strlit("8");
        reveal_strlit("9");
    }
    let r = match d {
        0 => "0",
        1 => "1",
        2 => "2",
        3 => "3",
        4 => "4",
        5 => "5",
        6 => "6",
        7 => "7",
        8 => "8",
        _ => "9",
    };
    assert(r@ =~= seq![digit_char(d as nat)]);
    r
}

/// The decimal notation of `n`, as `n.to_string()` writes it.
pub fn decimal_text(n: usize) -> (r: String)
    ensures
        r@ == decimal(n as nat),
    decreases n,
{
    if n < 10 {
        String::from_str(digit_text(n))
    } else {
        let mut s = decimal_text(n / 10);
        s.append(digit_text(n % 10));
        assert(s@ =~= decimal(n as nat));
        s
    }
}


/// Whether `c` is white space in Unicode's sense, as `char::is_whitespace` decides.
pub open spec fn is_white_space(c: char) -> bool {
    ||| '\u{9}' <= c <= '\u{d}'
    ||| c == ' '
    ||| c == '\u{85}'
    ||| c == '\u{a0}'
    ||| c == '\u{1680}'
    ||| '\u{2000}' <= c <= '\u{200a}'
    ||| c == '\u{2028}'
    ||| c == '\u{2029}'
    ||| c == '\u{202f}'
    ||| c == '\u{205f}'
    ||| c == '\u{3000}'
}

/// Whether `c` is white space.
pub fn is_white_space_char(c: char) -> (r: bool)
    ensures
        r == is_white_space(c),
{
    ('\u{9}' <= c && c <= '\u{d}') || c == ' ' || c == '\u{85}' || c == '\u{a0}' || c
        == '\u{1680}' || ('\u{2000}' <= c && c <= '\u{200a}') || c == '\u{2028}' || c
        == '\u{2029}' || c == '\u{202f}' || c == '\u{205f}' || c == '\u{3000}'
}

/// `s` without its leading white space.
pub open spec fn trim_start_ws(s: Seq<char>) -> Seq<char>
    decreases s.len(),
{
    if s.len() > 0 && is_white_space(s[0]) {
        trim_start_ws(s.drop_first())
    } else {
        s
    }
}

/// `s` without its trailing white space.
pub open spec fn trim_end_ws(s: Seq<char>) -> Seq<char>
    decreases s.len(),
{
    if s.len() > 0 && is_white_space(s.last()) {
        trim_end_ws(s.drop_last())
    } else {
        s
    }
}

/// `s` without leading and trailing white space, as `str::trim` gives it.
pub open spec fn trimmed(s: Seq<char>) -> Seq<char> {
    trim_end_ws(trim_start_ws(s))
}

/// `s` without leading and trailing white space.
pub fn trim(s: &str) -> (r: String)
    ensures
        r@ == trimmed(s@),
{
    let x = chars_of(s);
    let n = x.len();
    let mut start: usize = 0;
    assert(s@.skip(0) =~= s@);
    while start < n && is_white_space_char(x[start])
        invariant
            x@ == s@,
            n == x@.len(),
            start <= n,
            trim_start_ws(s@) == trim_start_ws(s@.skip(start as int)),
        decreases n - start,
    {
        assert(s@.skip(start as int).drop_first() =~= s@.skip(start + 1));
        start = start + 1;
    }
    let mut end: usize = n;
    assert(s@.subrange(start as int, n as int) =~= s@.skip(start as int));
    while end > start && is_white_space_char(x[end - 1])
        invariant
            x@ == s@,
            n == x@.len(),
            start <= end <= n,
            trimmed(s@) == trim_end_ws(s@.subrange(start as int, end as int)),
        decreases end,
    {
        assert(s@.subrange(start as int, end as int).drop_last() =~= s@.subrange(
            start as int,
            end - 1,
        ));
        end = end - 1;
    }
    String::from_str(s.substring_char(start, end))
}

/// `x` without one trailing carriage return.
pub open spec fn strip_cr(x: Seq<char>) -> Seq<char> {
    if x.len() > 0 && x.last() == '\r' {
        x.drop_last()
    } else {
        x
    }
}

/// The pieces of `s` between line feeds; there is always at least one.
pub open spec fn split_newlines(s: Seq<char>) -> Seq<Seq<char>>
    decreases s.len(),
{
    if s.len() == 0 {
        seq![Seq::empty()]
    } else {
        let p = split_newlines(s.drop_last());
        if s.last() == '\n' {
            p.push(Seq::empty())
        } else {
            p.update(p.len() - 1, p.last().push(s.last()))
        }
    }
}

/// The lines of `s`, as `str::lines` gives them: split at line feeds, a carriage
/// return before a line feed dropped, and no empty line after a final line feed.
pub open spec fn lines_of(s: Seq<char>) -> Seq<Seq<char>> {
    let p = split_newlines(s);
    let body = p.drop_last().map_values(|x: Seq<char>| strip_cr(x));
    if p.last().len() == 0 {
        body
    } else {
        body.push(p.last())
    }
}

/// `split_newlines` always gives at least one piece.
pub proof fn lemma_split_newlines_len(s: Seq<char>)
    ensures
        split_newlines(s).len() >= 1,
    decreases s.len(),
{
    if s.len() > 0 {
        lemma_split_newlines_len(s.drop_last());
    }
}

/// The lines of `s`.
pub fn lines(s: &str) -> (r: Vec<String>)
    ensures
        r@.map_values(|x: String| x@) == lines_of(s@),
{
    let x = chars_of(s);
    let n = x.len();
    let mut out: Vec<String> = Vec::new();
    let mut start: usize = 0;
    let mut i: usize = 0;
    while i < n
        invariant
            x@ == s@,
            n == x@.len(),
            start <= i <= n,
            split_newlines(s@.take(i as int)).len() >= 1,
            out@.map_values(|y: String| y@) == split_newlines(s@.take(i as int)).drop_last().map_values(
                |y: Seq<char>| strip_cr(y),
            ),
            split_newlines(s@.take(i as int)).last() == s@.subrange(start as int, i as int),
        decreases n - i,
    {
        proof {
            assert(s@.take(i + 1).drop_last() =~= s@.take(i as int));
            assert(s@.take(i + 1).last() == s@[i as int]);
            lemma_split_newlines_len(s@.take(i as int));
        }
        let ghost before = out@;
        if x[i] == '\n' {
            let piece = s.substring_char(start, i);
            let line = if i > start && x[i - 1] == '\r' {
                s.substring_char(start, i - 1)
            } else {
                piece
            };
            out.push(String::from_str(line));
            proof {
                let p = split_newlines(s@.take(i as int));
                assert(p.push(Seq::empty()).drop_last() =~= p);
                assert(strip_cr(s@.subrange(start as int, i as int)) =~= line@);
                assert(out@.map_values(|y: String| y@) =~= before.map_values(|y: String| y@).push(
                    line@,
                ));
                assert(p.drop_last().push(p.last()) =~= p);
                assert(p.map_values(|y: Seq<char>| strip_cr(y)) =~= p.drop_last().map_values(
                    |y: Seq<char>| strip_cr(y),
                ).push(strip_cr(p.last())));
            }
            start = i + 1;
            proof {
                assert(s@.subrange(start as int, i + 1) =~= Seq::<char>::empty());
            }
        } else {
            proof {
                let p = split_newlines(s@.take(i as int));
                let q = p.update(p.len() - 1, p.last().push(s@[i as int]));
                assert(q.drop_last() =~= p.drop_last());
                assert(q.last() =~= s@.subrange(start as int, i + 1));
            }
        }
        i = i + 1;
    }
    proof {
        assert(s@.take(n as int) =~= s@);
        lemma_split_newlines_len(s@);
    }
    if start < n {
        let ghost before = out@;
        out.push(String::from_str(s.substring_char(start, n)));
        proof {
            assert(out@.map_values(|y: String| y@) =~= before.map_values(|y: String| y@).push(
                s@.subrange(start as int, n as int),
            ));
        }
    }
    out
}


/// Whether `c` is an ASCII decimal digit.
pub open spec fn is_digit(c: char) -> bool {
    '0' <= c <= '9'
}

/// The number that a sequence of decimal digits writes.
pub open spec fn digits_value(d: Seq<char>) -> int
    decreases d.len(),
{
    if d.len() == 0 {
        0
    } else {
        digits_value(d.drop_last()) * 10 + (d.last() as int - 48)
    }
}

/// The text after an optional leading `+`.
pub open spec fn unsigned_digits(s: Seq<char>) -> Seq<char> {
    if s.len() > 0 && s[0] == '+' {
        s.drop_first()
    } else {
        s
    }
}

/// Whether every character of `d` is a decimal digit.
pub open spec fn all_digits(d: Seq<char>) -> bool {
    forall|i: int| 0 <= i < d.len() ==> is_digit(#[trigger] d[i])
}

/// What `u32::from_str` gives for `s`: an optional `+`, then one or more decimal
/// digits, whose value must fit a `u32`.
pub open spec fn parsed_u32(s: Seq<char>) -> Option<u32> {
    let d = unsigned_digits(s);
    if d.len() > 0 && all_digits(d) && digits_value(d) <= u32::MAX {
        Some(digits_value(d) as u32)
    } else {
        None
    }
}

/// A longer run of digits has at least the value of its prefix.
pub proof fn lemma_digits_value_grows(d: Seq<char>, k: int)
    requires
        0 <= k <= d.len(),
        forall|i: int| 0 <= i < d.len() ==> is_digit(#[trigger] d[i]),
    ensures
        digits_value(d) >= digits_value(d.take(k)),
        digits_value(d) >= 0,
    decreases d.len(),
{
    if d.len() > 0 {
        assert forall|i: int| 0 <= i < d.drop_last().len() implies is_digit(
            #[trigger] d.drop_last()[i],
        ) by {
            assert(is_digit(d[i]));
        }
        assert(is_digit(d[d.len() - 1]));
        if k < d.len() {
            assert(d.drop_last().take(k) =~= d.take(k));
            lemma_digits_value_grows(d.drop_last(), k);
        } else {
            lemma_digits_value_grows(d.drop_last(), 0);
            assert(d.take(k) =~= d);
        }
    } else {
        assert(d.take(k) =~= d);
    }
}

/// `s` read as a `u32`, as `u32::from_str` reads it.
pub fn parse_u32(s: &str) -> (r: Option<u32>)
    ensures
        r == parsed_u32(s@),
{
    let x = chars_of(s);
    let n = x.len();
    let mut i: usize = 0;
    if n > 0 && x[0] == '+' {
        i = 1;
    }
    let ghost d = unsigned_digits(s@);
    let first = i;
    assert(d =~= s@.skip(first as int));
    if i == n {
        return None;
    }
    let mut acc: u64 = 0;
    while i < n
        invariant
            x@ == s@,
            n == x@.len(),
            first <= i <= n,
            d == s@.skip(first as int),
            d == unsigned_digits(s@),
            forall|j: int| 0 <= j < i - first ==> is_digit(#[trigger] d[j]),
            acc == digits_value(d.take(i - first)),
            acc <= u32::MAX,
        decreases n - i,
    {
        let c = x[i];
        assert(d[i - first] == c);
        if !('0' <= c && c <= '9') {
            assert(!is_digit(d[i - first]));
            assert(!all_digits(d));
            return None;
        }
        let digit: u64 = (c as u32 - 48) as u64;
        assert(digit == c as int - 48);
        proof {
            assert(d.take(i + 1 - first).drop_last() =~= d.take(i - first));
            assert(d.take(i + 1 - first).last() == c);
        }
        acc = acc * 10 + digit;
        i = i + 1;
        assert(acc == digits_value(d.take(i - first)));
        if acc > 4294967295 {
            proof {
                if all_digits(d) {
                    lemma_digits_value_grows(d, i - first);
                }
            }
            return None;
        }
    }
    assert(d.take(n - first) =~= d);
    Some(acc as u32)
}

} // verus!
