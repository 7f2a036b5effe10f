//! Character-sequence utilities shared by the version, path and script logic:
//! splitting on a separator, equality of string slices, trimming ASCII
//! whitespace, substring search and joining lines.

use vstd::prelude::*;

verus! {

// ---------------------------------------------------------------------------
// Splitting on a separator character
// ---------------------------------------------------------------------------

/// Index of the first occurrence of `sep` in `s`, or `s.len()` if absent.
pub open spec fn first_sep(s: Seq<char>, sep: char) -> nat
    decreases s.len(),
{
    if s.len() == 0 {
        0
    } else if s[0] == sep {
        0
    } else {
        (1 + first_sep(s.drop_first(), sep)) as nat
    }
}

pub proof fn lemma_first_sep(s: Seq<char>, sep: char)
    ensures
        first_sep(s, sep) <= s.len(),
        first_sep(s, sep) < s.len() ==> s[first_sep(s, sep) as int] == sep,
        forall|j: int| 0 <= j < first_sep(s, sep) ==> s[j] != sep,
    decreases s.len(),
{
    if s.len() > 0 && s[0] != sep {
        lemma_first_sep(s.drop_first(), sep);
        assert forall|j: int| 0 <= j < first_sep(s, sep) implies s[j] != sep by {
            if j > 0 {
                assert(s.drop_first()[j - 1] == s[j]);
            }
        }
    }
}

/// The pieces of `s` between occurrences of `sep`, in order.  An input with
/// no separator yields one piece (possibly empty), matching how Rust's
/// `split` behaves on a single separator character.
pub open spec fn split_seq(s: Seq<char>, sep: char) -> Seq<Seq<char>>
    decreases s.len(),
{
    let i = first_sep(s, sep);
    if i >= s.len() {
        seq![s]
    } else {
        seq![s.subrange(0, i as int)] + split_seq(s.subrange(i as int + 1, s.len() as int), sep)
    }
}

/// If the first occurrence of `sep` is at `k`, splitting peels off the prefix
/// before `k` and continues after it.
pub proof fn lemma_split_prefix(s: Seq<char>, sep: char, k: int)
    requires
        0 <= k < s.len(),
        s[k] == sep,
        forall|j: int| 0 <= j < k ==> s[j] != sep,
    ensures
        split_seq(s, sep) == seq![s.subrange(0, k)] + split_seq(
            s.subrange(k + 1, s.len() as int),
            sep,
        ),
{
    lemma_first_sep(s, sep);
    let i = first_sep(s, sep);
    if i >= s.len() {
        assert(s[k] == sep);
        assert(false);
    }
    if i < k {
        assert(s[i as int] == sep);
        assert(false);
    }
    if k < i {
        assert(s[k] != sep);
        assert(false);
    }
}

/// A sequence with no separator splits into itself alone.
pub proof fn lemma_split_whole(s: Seq<char>, sep: char)
    requires
        forall|j: int| 0 <= j < s.len() ==> s[j] != sep,
    ensures
        split_seq(s, sep) == seq![s],
{
    lemma_first_sep(s, sep);
    if first_sep(s, sep) < s.len() {
        assert(s[first_sep(s, sep) as int] == sep);
        assert(false);
    }
}

/// No piece produced by `split_seq` contains the separator.
pub proof fn lemma_split_parts_clean(s: Seq<char>, sep: char)
    ensures
        forall|k: int, j: int|
            0 <= k < split_seq(s, sep).len() && 0 <= j < split_seq(s, sep)[k].len()
                ==> split_seq(s, sep)[k][j] != sep,
    decreases s.len(),
{
    lemma_first_sep(s, sep);
    let i = first_sep(s, sep);
    if i < s.len() {
        lemma_split_parts_clean(s.subrange(i as int + 1, s.len() as int), sep);
        let parts = split_seq(s, sep);
        let rest = split_seq(s.subrange(i as int + 1, s.len() as int), sep);
        assert forall|k: int, j: int|
            0 <= k < parts.len() && 0 <= j < parts[k].len() implies parts[k][j] != sep by {
            if k == 0 {
                assert(parts[0] == s.subrange(0, i as int));
                assert(s.subrange(0, i as int)[j] == s[j]);
            } else {
                assert(parts[k] == rest[k - 1]);
            }
        }
    }
}

/// Splitting a gluing `u ++ sep ++ v` where `u` is separator-free starts with
/// `u` and continues with the split of `v`.
pub proof fn lemma_split_glue(u: Seq<char>, v: Seq<char>, sep: char)
    requires
        forall|j: int| 0 <= j < u.len() ==> u[j] != sep,
    ensures
        split_seq(u + seq![sep] + v, sep) == seq![u] + split_seq(v, sep),
{
    let w = u + seq![sep] + v;
    let k = u.len() as int;
    assert(w[k] == sep);
    assert forall|j: int| 0 <= j < k implies w[j] != sep by {
        assert(w[j] == u[j]);
    }
    lemma_split_prefix(w, sep, k);
    assert(w.subrange(0, k) =~= u);
    assert(w.subrange(k + 1, w.len() as int) =~= v);
}

/// Splits `s` at every occurrence of `sep`, like Rust's `split` on a single
/// character.
pub fn split_str(s: &str, sep: char) -> (parts: Vec<String>)
    ensures
        parts.deep_view() == split_seq(s@, sep),
{
    let n = s.unicode_len();
    let mut parts: Vec<String> = Vec::new();
    let mut start: usize = 0;
    let mut i: usize = 0;
    proof {
        assert(s@.subrange(0, n as int) =~= s@);
        assert(parts.deep_view() =~= Seq::<Seq<char>>::empty());
        assert(parts.deep_view() + split_seq(s@, sep) =~= split_seq(s@, sep));
    }
    while i < n
        invariant
            n == s@.len(),
            start <= i <= n,
            split_seq(s@, sep) == parts.deep_view() + split_seq(
                s@.subrange(start as int, n as int),
                sep,
            ),
            forall|j: int| start <= j < i ==> s@[j] != sep,
        decreases n - i,
    {
        let c = s.get_char(i);
        if c == sep {
            let part = s.substring_char(start, i).to_owned();
            proof {
                let u = s@.subrange(start as int, n as int);
                lemma_split_prefix(u, sep, i - start);
                assert(u.subrange(0, i - start) =~= s@.subrange(start as int, i as int));
                assert(u.subrange(i - start + 1, u.len() as int) =~= s@.subrange(
                    i as int + 1,
                    n as int,
                ));
                assert(part@ == s@.subrange(start as int, i as int));
            }
            let ghost old_parts = parts.deep_view();
            parts.push(part);
            proof {
                assert(parts.deep_view() =~= old_parts.push(s@.subrange(
                    start as int,
                    i as int,
                )));
                assert(parts.deep_view() + split_seq(
                    s@.subrange(i as int + 1, n as int),
                    sep,
                ) =~= (old_parts + (seq![s@.subrange(start as int, i as int)] + split_seq(
                    s@.subrange(i as int + 1, n as int),
                    sep,
                ))));
            }
            start = i + 1;
        }
        i = i + 1;
    }
    let last = s.substring_char(start, n).to_owned();
    proof {
        lemma_split_whole(s@.subrange(start as int, n as int), sep);
    }
    let ghost old_parts = parts.deep_view();
    parts.push(last);
    proof {
        assert(parts.deep_view() =~= old_parts.push(s@.subrange(start as int, n as int)));
        assert(parts.deep_view() =~= old_parts + seq![s@.subrange(start as int, n as int)]);
    }
    parts
}

// ---------------------------------------------------------------------------
// Equality and membership
// ---------------------------------------------------------------------------

/// True exactly when the two slices hold the same characters.
pub fn str_eq(a: &str, b: &str) -> (r: bool)
    ensures
        r == (a@ == b@),
{
    let sa: String = a.to_owned();
    let sb: String = b.to_owned();
    sa == sb
}

/// True exactly when some element of `v` holds the same characters as `x`.
pub fn vec_contains_string(v: &Vec<String>, x: &str) -> (r: bool)
    ensures
        r == v.deep_view().contains(x@),
{
    let mut i: usize = 0;
    while i < v.len()
        invariant
            i <= v@.len(),
            forall|j: int| 0 <= j < i ==> v.deep_view()[j] != x@,
        decreases v@.len() - i,
    {
        if str_eq(v[i].as_str(), x) {
            assert(v.deep_view()[i as int] == x@);
            return true;
        }
        i = i + 1;
    }
    false
}

// ---------------------------------------------------------------------------
// Trimming ASCII whitespace
// ---------------------------------------------------------------------------

/// ASCII whitespace, the forms that ever appear around a command's output.
pub open spec fn is_space(c: char) -> bool {
    c == ' ' || c == '\t' || c == '\n' || c == '\r'
}

pub open spec fn trim_front(s: Seq<char>) -> Seq<char>
    decreases s.len(),
{
    if s.len() > 0 && is_space(s[0]) {
        trim_front(s.drop_first())
    } else {
        s
    }
}

pub open spec fn trim_back(s: Seq<char>) -> Seq<char>
    decreases s.len(),
{
    if s.len() > 0 && is_space(s.last()) {
        trim_back(s.drop_last())
    } else {
        s
    }
}

/// `s` with leading and trailing ASCII whitespace removed.
pub open spec fn trim_seq(s: Seq<char>) -> Seq<char> {
    trim_back(trim_front(s))
}

proof fn lemma_trim_front_skip(s: Seq<char>, i: int)
    requires
        0 <= i <= s.len(),
        forall|j: int| 0 <= j < i ==> is_space(s[j]),
        i < s.len() ==> !is_space(s[i]),
    ensures
        trim_front(s) == s.subrange(i, s.len() as int),
    decreases i,
{
    if i == 0 {
        assert(s.subrange(0, s.len() as int) =~= s);
    } else {
        assert(is_space(s[0]));
        lemma_trim_front_skip(s.drop_first(), i - 1);
        assert(s.drop_first().subrange(i - 1, s.drop_first().len() as int) =~= s.subrange(
            i,
            s.len() as int,
        ));
    }
}

proof fn lemma_trim_back_take(s: Seq<char>, i: int)
    requires
        0 <= i <= s.len(),
        forall|j: int| i <= j < s.len() ==> is_space(s[j]),
        i > 0 ==> !is_space(s[i - 1]),
    ensures
        trim_back(s) == s.subrange(0, i),
    decreases s.len() - i,
{
    if i == s.len() {
        assert(s.subrange(0, s.len() as int) =~= s);
    } else {
        assert(is_space(s.last()));
        lemma_trim_back_take(s.drop_last(), i);
        assert(s.drop_last().subrange(0, i) =~= s.subrange(0, i));
    }
}

fn is_space_char(c: char) -> (r: bool)
    ensures
        r == is_space(c),
{
    c == ' ' || c == '\t' || c == '\n' || c == '\r'
}

/// `s` with leading and trailing ASCII whitespace removed.
pub fn trim_str(s: &str) -> (r: String)
    ensures
        r@ == trim_seq(s@),
{
    let n = s.unicode_len();
    let mut a: usize = 0;
    while a < n && is_space_char(s.get_char(a))
        invariant
            n == s@.len(),
            a <= n,
            forall|j: int| 0 <= j < a ==> is_space(s@[j]),
        decreases n - a,
    {
        a = a + 1;
    }
    let mut b: usize = n;
    while b > a && is_space_char(s.get_char(b - 1))
        invariant
            n == s@.len(),
            a <= b <= n,
            forall|j: int| 0 <= j < a ==> is_space(s@[j]),
            a < n ==> !is_space(s@[a as int]),
            forall|j: int| b <= j < n ==> is_space(s@[j]),
        decreases b,
    {
        b = b - 1;
    }
    let r = s.substring_char(a, b).to_owned();
    proof {
        lemma_trim_front_skip(s@, a as int);
        let u = s@.subrange(a as int, n as int);
        lemma_trim_back_take(u, b - a);
        assert(u.subrange(0, b - a) =~= s@.subrange(a as int, b as int));
    }
    r
}

// ---------------------------------------------------------------------------
// Substring search, exact and ASCII-case-insensitive
// ---------------------------------------------------------------------------

/// `pat` occurs in `s` starting at `i`.
pub open spec fn matches_at(s: Seq<char>, pat: Seq<char>, i: int) -> bool {
    0 <= i && i + pat.len() <= s.len() && s.subrange(i, i + pat.len()) == pat
}

/// `pat` occurs somewhere in `s`.
pub open spec fn contains_seq(s: Seq<char>, pat: Seq<char>) -> bool {
    exists|i: int| matches_at(s, pat, i)
}

/// One character of the subject matches one character of a lowercase pattern,
/// ignoring ASCII case.
pub open spec fn char_matches_ci(c: char, p: char) -> bool {
    c == p || ('A' <= c && c <= 'Z' && c as u32 + 32 == p as u32)
}

pub open spec fn matches_at_ci(s: Seq<char>, pat: Seq<char>, i: int) -> bool {
    0 <= i && i + pat.len() <= s.len() && forall|j: int|
        0 <= j < pat.len() ==> char_matches_ci(s[i + j], pat[j])
}

/// `pat` (given in lowercase) occurs in `s`, ignoring the ASCII case of `s`.
pub open spec fn contains_seq_ci(s: Seq<char>, pat: Seq<char>) -> bool {
    exists|i: int| matches_at_ci(s, pat, i)
}

/// Naive substring search: does `pat` occur in `s`?
pub fn str_contains(s: &str, pat: &str) -> (r: bool)
    ensures
        r == contains_seq(s@, pat@),
{
    let n = s.unicode_len();
    let m = pat.unicode_len();
    if m > n {
        proof {
            assert forall|i: int| !matches_at(s@, pat@, i) by {}
        }
        return false;
    }
    let mut i: usize = 0;
    while i <= n - m
        invariant
            n == s@.len(),
            m == pat@.len(),
            m <= n,
            i <= n - m + 1,
            forall|k: int| 0 <= k < i ==> !matches_at(s@, pat@, k),
        decreases n - i,
    {
        let mut j: usize = 0;
        let mut ok = true;
        while j < m
            invariant
                n == s@.len(),
                m == pat@.len(),
                i + m <= n,
                j <= m,
                ok <==> (forall|t: int| 0 <= t < j ==> s@[i + t] == pat@[t]),
            decreases m - j,
        {
            if s.get_char(i + j) != pat.get_char(j) {
                ok = false;
                assert(s@[i + j as int] != pat@[j as int]);
                j = m;
            } else {
                j = j + 1;
            }
        }
        if ok {
            assert(s@.subrange(i as int, i + m) =~= pat@);
            assert(matches_at(s@, pat@, i as int));
            return true;
        }
        assert(!matches_at(s@, pat@, i as int)) by {
            if matches_at(s@, pat@, i as int) {
                let t = choose|t: int| 0 <= t < m && s@[i + t] != pat@[t];
                assert(s@.subrange(i as int, i + m)[t] == s@[i + t]);
            }
        }
        i = i + 1;
    }
    proof {
        assert forall|k: int| !matches_at(s@, pat@, k) by {
            if 0 <= k <= n - m {
                assert(!matches_at(s@, pat@, k));
            }
        }
    }
    false
}

fn char_ci_eq(c: char, p: char) -> (r: bool)
    ensures
        r == char_matches_ci(c, p),
{
    let cu = c as u32;
    let pu = p as u32;
    cu == pu || ('A' as u32 <= cu && cu <= 'Z' as u32 && cu + 32 == pu)
}

/// Naive substring search ignoring the ASCII case of `s`; `pat` must be
/// lowercase for the match to be meaningful.
pub fn str_contains_ci(s: &str, pat: &str) -> (r: bool)
    ensures
        r == contains_seq_ci(s@, pat@),
{
    let n = s.unicode_len();
    let m = pat.unicode_len();
    if m > n {
        proof {
            assert forall|i: int| !matches_at_ci(s@, pat@, i) by {}
        }
        return false;
    }
    let mut i: usize = 0;
    while i <= n - m
        invariant
            n == s@.len(),
            m == pat@.len(),
            m <= n,
            i <= n - m + 1,
            forall|k: int| 0 <= k < i ==> !matches_at_ci(s@, pat@, k),
        decreases n - i,
    {
        let mut j: usize = 0;
        let mut ok = true;
        while j < m
            invariant
                n == s@.len(),
                m == pat@.len(),
                i + m <= n,
                j <= m,
                ok <==> (forall|t: int| 0 <= t < j ==> char_matches_ci(s@[i + t], pat@[t])),
            decreases m - j,
        {
            if !char_ci_eq(s.get_char(i + j), pat.get_char(j)) {
                ok = false;
                assert(!char_matches_ci(s@[i + j as int], pat@[j as int]));
                j = m;
            } else {
                j = j + 1;
            }
        }
        if ok {
            assert(matches_at_ci(s@, pat@, i as int));
            return true;
        }
        i = i + 1;
    }
    proof {
        assert forall|k: int| !matches_at_ci(s@, pat@, k) by {
            if 0 <= k <= n - m {
                assert(!matches_at_ci(s@, pat@, k));
            }
        }
    }
    false
}

// ---------------------------------------------------------------------------
// Joining lines
// ---------------------------------------------------------------------------

/// Every line followed by a newline, in order.
pub open spec fn lines_with_newlines(lines: Seq<Seq<char>>) -> Seq<char>
    decreases lines.len(),
{
    if lines.len() == 0 {
        Seq::empty()
    } else {
        lines[0] + seq!['\n'] + lines_with_newlines(lines.drop_first())
    }
}

/// Lines joined by single newlines, with no trailing newline.
pub open spec fn joined_with_newlines(lines: Seq<Seq<char>>) -> Seq<char>
    decreases lines.len(),
{
    if lines.len() == 0 {
        Seq::empty()
    } else if lines.len() == 1 {
        lines[0]
    } else {
        lines[0] + seq!['\n'] + joined_with_newlines(lines.drop_first())
    }
}

/// Concatenates every line with a trailing newline after each.
pub fn terminate_lines(lines: &Vec<String>) -> (r: String)
    ensures
        r@ == lines_with_newlines(lines.deep_view()),
{
    let ghost all = lines.deep_view();
    let mut r = String::new();
    let mut i: usize = 0;
    proof {
        assert(all.skip(0) =~= all);
        assert(r@ + lines_with_newlines(all) =~= lines_with_newlines(all));
    }
    while i < lines.len()
        invariant
            all == lines.deep_view(),
            i <= all.len(),
            all.len() == lines@.len(),
            lines_with_newlines(all) == r@ + lines_with_newlines(all.skip(i as int)),
        decreases all.len() - i,
    {
        let ghost r0 = r@;
        r.append(lines[i].as_str());
        r.append("\n");
        proof {
            reveal_strlit("\n");
            let rest = all.skip(i as int);
            assert(rest[0] == all[i as int]);
            assert(rest.drop_first() =~= all.skip(i as int + 1));
            assert(r@ =~= r0 + all[i as int] + seq!['\n']);
            assert(r0 + (all[i as int] + seq!['\n'] + lines_with_newlines(
                all.skip(i as int + 1),
            )) =~= r@ + lines_with_newlines(all.skip(i as int + 1)));
        }
        i = i + 1;
    }
    proof {
        assert(all.skip(i as int) =~= Seq::<Seq<char>>::empty());
        assert(r@ + lines_with_newlines(all.skip(i as int)) =~= r@);
    }
    r
}

/// Joins the lines with newlines between them, with no trailing newline.
pub fn join_lines(lines: &Vec<String>) -> (r: String)
    ensures
        r@ == joined_with_newlines(lines.deep_view()),
{
    let ghost all = lines.deep_view();
    let mut r = String::new();
    let mut i: usize = 0;
    while i < lines.len()
        invariant
            all == lines.deep_view(),
            i <= all.len(),
            all.len() == lines@.len(),
            i == 0 ==> r@ == Seq::<char>::empty(),
            0 < i < all.len() ==> joined_with_newlines(all) == r@ + seq!['\n']
                + joined_with_newlines(all.skip(i as int)),
            i > 0 && i == all.len() ==> joined_with_newlines(all) == r@,
        decreases all.len() - i,
    {
        let ghost r0 = r@;
        if i > 0 {
            r.append("\n");
        }
        r.append(lines[i].as_str());
        proof {
            reveal_strlit("\n");
            let rest = all.skip(i as int);
            assert(rest[0] == all[i as int]);
            assert(rest.drop_first() =~= all.skip(i as int + 1));
            if i == 0 {
                assert(r@ =~= all[0]);
                if all.len() > 1 {
                    assert(joined_with_newlines(all) =~= r@ + seq!['\n']
                        + joined_with_newlines(all.skip(1)));
                } else {
                    assert(joined_with_newlines(all) == all[0]);
                }
            } else {
                assert(r@ =~= r0 + seq!['\n'] + all[i as int]);
                if rest.len() > 1 {
                    assert(joined_with_newlines(rest) == all[i as int] + seq!['\n']
                        + joined_with_newlines(all.skip(i as int + 1)));
                    assert(r0 + seq!['\n'] + (all[i as int] + seq!['\n']
                        + joined_with_newlines(all.skip(i as int + 1))) =~= r@ + seq!['\n']
                        + joined_with_newlines(all.skip(i as int + 1)));
                } else {
                    assert(joined_with_newlines(rest) == all[i as int]);
                    assert(r0 + seq!['\n'] + all[i as int] =~= r@);
                }
            }
        }
        i = i + 1;
    }
    r
}

} // verus!
