//! Verified string utilities: prefix and substring tests, splitting,
//! whitespace tokenization, joining, and trimming of trailing slashes.
//!
//! Every executable function is specified against a spec-level model over
//! `Seq<char>`.

use vstd::prelude::*;

verus! {

/// A sequence of characters `p` is a prefix of `s`.
pub open spec fn spec_starts_with(s: Seq<char>, p: Seq<char>) -> bool {
    p.len() <= s.len() && s.subrange(0, p.len() as int) == p
}

/// `sub` occurs in `s` as a contiguous substring.
pub open spec fn spec_contains(s: Seq<char>, sub: Seq<char>) -> bool {
    exists|i: int|
        0 <= i && i + sub.len() <= s.len() && #[trigger] s.subrange(i, i + sub.len()) == sub
}

/// Characters treated as token separators when a command line is tokenized.
pub open spec fn is_space(c: char) -> bool {
    c == ' ' || c == '\t' || c == '\r' || c == '\n'
}

/// Helper for [`spec_split`]: processes `s` left to right, `cur` being the
/// segment under construction and `acc` the finished segments.
pub open spec fn split_rec(s: Seq<char>, sep: char, cur: Seq<char>, acc: Seq<Seq<char>>) -> Seq<
    Seq<char>,
>
    decreases s.len(),
{
    if s.len() == 0 {
        acc.push(cur)
    } else if s[0] == sep {
        split_rec(s.skip(1), sep, Seq::empty(), acc.push(cur))
    } else {
        split_rec(s.skip(1), sep, cur.push(s[0]), acc)
    }
}

/// Full split of `s` on `sep`, keeping empty segments, as `str::split` does.
pub open spec fn spec_split(s: Seq<char>, sep: char) -> Seq<Seq<char>> {
    split_rec(s, sep, Seq::empty(), Seq::empty())
}

/// The predicate that keeps the non-empty segments of a split.
pub open spec fn nonempty_pred() -> spec_fn(Seq<char>) -> bool {
    |p: Seq<char>| p.len() > 0
}

/// The non-empty `/`-separated segments of a path string.
pub open spec fn spec_segments(s: Seq<char>) -> Seq<Seq<char>> {
    spec_split(s, '/').filter(nonempty_pred())
}

/// Helper for [`spec_tokens`]: whitespace-splitting that drops empty tokens.
pub open spec fn tokens_rec(s: Seq<char>, cur: Seq<char>, acc: Seq<Seq<char>>) -> Seq<Seq<char>>
    decreases s.len(),
{
    if s.len() == 0 {
        if cur.len() > 0 {
            acc.push(cur)
        } else {
            acc
        }
    } else if is_space(s[0]) {
        tokens_rec(
            s.skip(1),
            Seq::empty(),
            if cur.len() > 0 {
                acc.push(cur)
            } else {
                acc
            },
        )
    } else {
        tokens_rec(s.skip(1), cur.push(s[0]), acc)
    }
}

/// The whitespace-separated tokens of a command line, in order.
pub open spec fn spec_tokens(s: Seq<char>) -> Seq<Seq<char>> {
    tokens_rec(s, Seq::empty(), Seq::empty())
}

/// `parts` joined by `sep`: empty for no parts, no leading or trailing `sep`.
pub open spec fn spec_join(parts: Seq<Seq<char>>, sep: Seq<char>) -> Seq<char>
    decreases parts.len(),
{
    if parts.len() == 0 {
        Seq::empty()
    } else if parts.len() == 1 {
        parts[0]
    } else {
        spec_join(parts.drop_last(), sep) + sep + parts.last()
    }
}

/// `s` with every trailing `/` removed.
pub open spec fn spec_trim_end_slashes(s: Seq<char>) -> Seq<char>
    decreases s.len(),
{
    if s.len() > 0 && s.last() == '/' {
        spec_trim_end_slashes(s.drop_last())
    } else {
        s
    }
}

/// No occurrence of the character `c` in `x`.
pub open spec fn no_char(x: Seq<char>, c: char) -> bool {
    forall|i: int| 0 <= i < x.len() ==> x[i] != c
}

/// No two adjacent slashes anywhere in `s`.
pub open spec fn no_double_slash(s: Seq<char>) -> bool {
    forall|i: int| 0 <= i < s.len() - 1 ==> !(#[trigger] s[i] == '/' && s[i + 1] == '/')
}

/// A syntactically valid absolute path: non-empty, leading `/`, and no
/// empty segment between two slashes.
pub open spec fn valid_path(s: Seq<char>) -> bool {
    &&& s.len() >= 1
    &&& s[0] == '/'
    &&& no_double_slash(s)
}

/// A directory-change target that is made of non-empty `/`-separated
/// segments: non-empty, no leading or trailing `/`, no `//` inside.
pub open spec fn clean_token(t: Seq<char>) -> bool {
    &&& t.len() > 0
    &&& t[0] != '/'
    &&& t.last() != '/'
    &&& no_double_slash(t)
}

/// Character-by-character string equality.
pub fn str_eq(a: &str, b: &str) -> (r: bool)
    ensures
        r == (a@ == b@),
{
    let n = a.unicode_len();
    if n != b.unicode_len() {
        proof {
            assert(a@ != b@) by {
                assert(a@.len() != b@.len());
            }
        }
        return false;
    }
    let mut i: usize = 0;
    while i < n
        invariant
            i <= n,
            n == a@.len(),
            n == b@.len(),
            forall|j: int| 0 <= j < i ==> a@[j] == b@[j],
        decreases n - i,
    {
        if a.get_char(i) != b.get_char(i) {
            return false;
        }
        i = i + 1;
    }
    proof {
        assert(a@ =~= b@);
    }
    true
}

/// `p` is a prefix of `s`, decided character by character.
pub fn starts_with(s: &str, p: &str) -> (r: bool)
    ensures
        r == spec_starts_with(s@, p@),
{
    let n = p.unicode_len();
    if n > s.unicode_len() {
        return false;
    }
    let mut i: usize = 0;
    while i < n
        invariant
            i <= n,
            n == p@.len(),
            n <= s@.len(),
            forall|j: int| 0 <= j < i ==> s@[j] == p@[j],
        decreases n - i,
    {
        if s.get_char(i) != p.get_char(i) {
            proof {
                assert(s@.subrange(0, n as int)[i as int] != p@[i as int]);
            }
            return false;
        }
        i = i + 1;
    }
    proof {
        assert(s@.subrange(0, n as int) =~= p@);
    }
    true
}

/// `sub` occurs at position `i` of `s`.
fn match_at(s: &str, sub: &str, i: usize) -> (r: bool)
    requires
        i + sub@.len() <= s@.len(),
    ensures
        r == (s@.subrange(i as int, i + sub@.len()) == sub@),
{
    let n = s.unicode_len();
    let m = sub.unicode_len();
    let mut j: usize = 0;
    while j < m
        invariant
            j <= m,
            m == sub@.len(),
            n == s@.len(),
            i + m <= n,
            forall|k: int| 0 <= k < j ==> s@[i + k] == sub@[k],
        decreases m - j,
    {
        if s.get_char(i + j) != sub.get_char(j) {
            proof {
                assert(s@.subrange(i as int, i + sub@.len())[j as int] != sub@[j as int]);
            }
            return false;
        }
        j = j + 1;
    }
    proof {
        assert(s@.subrange(i as int, i + sub@.len()) =~= sub@);
    }
    true
}

/// `sub` occurs somewhere in `s`, decided by scanning every position.
pub fn contains_sub(s: &str, sub: &str) -> (r: bool)
    ensures
        r == spec_contains(s@, sub@),
{
    let n = s.unicode_len();
    let m = sub.unicode_len();
    if m > n {
        return false;
    }
    if sub.is_empty() {
        proof {
            assert(s@.subrange(0, 0 + sub@.len() as int) =~= sub@);
        }
        return true;
    }
    let mut i: usize = 0;
    while i <= n - m
        invariant
            0 < m <= n,
            n == s@.len(),
            m == sub@.len(),
            i <= n - m + 1,
            forall|k: int| 0 <= k < i ==> #[trigger] s@.subrange(k, k + sub@.len()) != sub@,
        decreases n - i,
    {
        if match_at(s, sub, i) {
            return true;
        }
        i = i + 1;
    }
    false
}

/// Full split of `s` on the character `sep`, keeping empty segments.
pub fn split_char(s: &str, sep: char) -> (r: Vec<String>)
    ensures
        r.deep_view() == spec_split(s@, sep),
{
    let n = s.unicode_len();
    let mut acc: Vec<String> = Vec::new();
    let mut start: usize = 0;
    let mut i: usize = 0;
    proof {
        assert(s@.skip(0) =~= s@);
        assert(s@.subrange(0, 0) =~= Seq::<char>::empty());
        assert(acc.deep_view() =~= Seq::<Seq<char>>::empty());
    }
    while i < n
        invariant
            start <= i <= n,
            n == s@.len(),
            split_rec(s@.skip(i as int), sep, s@.subrange(start as int, i as int), acc.deep_view())
                == spec_split(s@, sep),
        decreases n - i,
    {
        let ghost prev = acc.deep_view();
        let ghost cur = s@.subrange(start as int, i as int);
        proof {
            assert(s@.skip(i as int)[0] == s@[i as int]);
            assert(s@.skip(i as int).skip(1) =~= s@.skip(i as int + 1));
        }
        if s.get_char(i) == sep {
            let seg = s.substring_char(start, i).to_owned();
            acc.push(seg);
            start = i + 1;
            proof {
                assert(acc.deep_view() =~= prev.push(cur));
                assert(s@.subrange(start as int, start as int) =~= Seq::<char>::empty());
            }
        } else {
            proof {
                assert(s@.subrange(start as int, i as int + 1) =~= cur.push(s@[i as int]));
            }
        }
        i = i + 1;
    }
    let last = s.substring_char(start, n).to_owned();
    acc.push(last);
    proof {
        assert(s@.skip(n as int) =~= Seq::<char>::empty());
        assert(acc.deep_view() =~= spec_split(s@, sep));
    }
    acc
}

/// The non-empty `/`-separated segments of `s`, in order.
pub fn segments(s: &str) -> (r: Vec<String>)
    ensures
        r.deep_view() == spec_segments(s@),
{
    let parts = split_char(s, '/');
    let mut out: Vec<String> = Vec::new();
    let mut i: usize = 0;
    while i < parts.len()
        invariant
            i <= parts.len(),
            parts.deep_view() == spec_split(s@, '/'),
            out.deep_view() == parts.deep_view().take(i as int).filter(nonempty_pred()),
        decreases parts.len() - i,
    {
        let ghost prevtaken = parts.deep_view().take(i as int);
        let ghost taken = parts.deep_view().take(i as int + 1);
        proof {
            reveal(Seq::filter);
            assert(taken.drop_last() =~= prevtaken);
            assert(taken.last() == parts.deep_view()[i as int]);
        }
        let ghost prevout = out.deep_view();
        let p = &parts[i];
        if !p.as_str().is_empty() {
            out.push(p.clone());
            proof {
                assert(out.deep_view() =~= prevout.push(parts.deep_view()[i as int]));
            }
        }
        i = i + 1;
    }
    proof {
        assert(parts.deep_view().take(parts.deep_view().len() as int) =~= parts.deep_view());
    }
    out
}

/// The whitespace-separated tokens of `s`, in order, empties dropped.
pub fn tokenize(s: &str) -> (r: Vec<String>)
    ensures
        r.deep_view() == spec_tokens(s@),
{
    let n = s.unicode_len();
    let mut acc: Vec<String> = Vec::new();
    let mut start: usize = 0;
    let mut i: usize = 0;
    proof {
        assert(s@.skip(0) =~= s@);
        assert(s@.subrange(0, 0) =~= Seq::<char>::empty());
        assert(acc.deep_view() =~= Seq::<Seq<char>>::empty());
    }
    while i < n
        invariant
            start <= i <= n,
            n == s@.len(),
            tokens_rec(s@.skip(i as int), s@.subrange(start as int, i as int), acc.deep_view())
                == spec_tokens(s@),
        decreases n - i,
    {
        let ghost prev = acc.deep_view();
        let ghost cur = s@.subrange(start as int, i as int);
        proof {
            assert(s@.skip(i as int)[0] == s@[i as int]);
            assert(s@.skip(i as int).skip(1) =~= s@.skip(i as int + 1));
        }
        let c = s.get_char(i);
        if c == ' ' || c == '\t' || c == '\r' || c == '\n' {
            if i > start {
                let seg = s.substring_char(start, i).to_owned();
                acc.push(seg);
                proof {
                    assert(acc.deep_view() =~= prev.push(cur));
                }
            }
            start = i + 1;
            proof {
                assert(s@.subrange(start as int, start as int) =~= Seq::<char>::empty());
            }
        } else {
            proof {
                assert(s@.subrange(start as int, i as int + 1) =~= cur.push(s@[i as int]));
            }
        }
        i = i + 1;
    }
    proof {
        assert(s@.skip(n as int) =~= Seq::<char>::empty());
    }
    if n > start {
        let seg = s.substring_char(start, n).to_owned();
        let ghost prev = acc.deep_view();
        acc.push(seg);
        proof {
            assert(acc.deep_view() =~= prev.push(s@.subrange(start as int, n as int)));
        }
    }
    acc
}

/// `parts` joined by `sep`, built left to right.
pub fn join_with(parts: &Vec<String>, sep: &str) -> (r: String)
    ensures
        r@ == spec_join(parts.deep_view(), sep@),
{
    let mut out = String::new();
    let mut i: usize = 0;
    while i < parts.len()
        invariant
            i <= parts.len(),
            out@ == spec_join(parts.deep_view().take(i as int), sep@),
        decreases parts.len() - i,
    {
        let ghost taken = parts.deep_view().take(i as int + 1);
        proof {
            assert(taken.drop_last() =~= parts.deep_view().take(i as int));
            assert(taken.last() == parts.deep_view()[i as int]);
        }
        if i > 0 {
            out.append(sep);
        }
        out.append(parts[i].as_str());
        proof {
            if i == 0 {
                assert(out@ =~= taken[0]);
            }
        }
        i = i + 1;
    }
    proof {
        assert(parts.deep_view().take(parts.deep_view().len() as int) =~= parts.deep_view());
    }
    out
}

/// `s` with every trailing `/` removed, as a borrowed substring.
pub fn trim_end_slashes(s: &str) -> (r: &str)
    ensures
        r@ == spec_trim_end_slashes(s@),
{
    let mut end = s.unicode_len();
    proof {
        assert(s@.take(s@.len() as int) =~= s@);
    }
    while end > 0 && s.get_char(end - 1) == '/'
        invariant
            end <= s@.len(),
            spec_trim_end_slashes(s@) == spec_trim_end_slashes(s@.take(end as int)),
        decreases end,
    {
        proof {
            assert(s@.take(end as int).last() == s@[end - 1]);
            assert(s@.take(end as int).drop_last() =~= s@.take(end as int - 1));
        }
        end = end - 1;
    }
    proof {
        if end > 0 {
            assert(s@.take(end as int).last() == s@[end - 1]);
        }
    }
    s.substring_char(0, end)
}

/// Some element of `v` equals `x`.
pub fn contains_string(v: &Vec<String>, x: &str) -> (r: bool)
    ensures
        r == v.deep_view().contains(x@),
{
    let mut i: usize = 0;
    while i < v.len()
        invariant
            i <= v.len(),
            forall|j: int| 0 <= j < i ==> v.deep_view()[j] != x@,
        decreases v.len() - i,
    {
        if str_eq(v[i].as_str(), x) {
            proof {
                assert(v.deep_view()[i as int] == x@);
            }
            return true;
        }
        i = i + 1;
    }
    proof {
        assert(!v.deep_view().contains(x@));
    }
    false
}

/// Splitting consumes a separator-free prefix `t` into the current segment.
pub proof fn lemma_split_rec_no_sep(
    t: Seq<char>,
    rest: Seq<char>,
    sep: char,
    cur: Seq<char>,
    acc: Seq<Seq<char>>,
)
    requires
        no_char(t, sep),
    ensures
        split_rec(t + rest, sep, cur, acc) == split_rec(rest, sep, cur + t, acc),
    decreases t.len(),
{
    if t.len() == 0 {
        assert(t + rest =~= rest);
        assert(cur + t =~= cur);
    } else {
        let s = t + rest;
        assert(s[0] == t[0]);
        assert(s.skip(1) =~= t.skip(1) + rest);
        assert(no_char(t.skip(1), sep));
        lemma_split_rec_no_sep(t.skip(1), rest, sep, cur.push(t[0]), acc);
        assert(cur.push(t[0]) + t.skip(1) =~= cur + t);
    }
}

/// Every segment produced by a split is free of the separator.
pub proof fn lemma_split_rec_elems(s: Seq<char>, sep: char, cur: Seq<char>, acc: Seq<Seq<char>>)
    requires
        no_char(cur, sep),
        forall|j: int| 0 <= j < acc.len() ==> no_char(#[trigger] acc[j], sep),
    ensures
        forall|j: int|
            0 <= j < split_rec(s, sep, cur, acc).len() ==> no_char(
                #[trigger] split_rec(s, sep, cur, acc)[j],
                sep,
            ),
    decreases s.len(),
{
    if s.len() == 0 {
        assert(split_rec(s, sep, cur, acc) == acc.push(cur));
        assert(forall|j: int|
            0 <= j < acc.push(cur).len() ==> no_char(#[trigger] acc.push(cur)[j], sep));
    } else if s[0] == sep {
        assert(forall|j: int|
            0 <= j < acc.push(cur).len() ==> no_char(#[trigger] acc.push(cur)[j], sep));
        lemma_split_rec_elems(s.skip(1), sep, Seq::empty(), acc.push(cur));
        assert(split_rec(s, sep, cur, acc) == split_rec(s.skip(1), sep, Seq::empty(), acc.push(cur)));
    } else {
        assert(no_char(cur.push(s[0]), sep));
        lemma_split_rec_elems(s.skip(1), sep, cur.push(s[0]), acc);
        assert(split_rec(s, sep, cur, acc) == split_rec(s.skip(1), sep, cur.push(s[0]), acc));
    }
}

/// Every element kept by a filter is an element of the original sequence.
pub proof fn lemma_filter_subset<A>(s: Seq<A>, pred: spec_fn(A) -> bool)
    ensures
        forall|j: int|
            0 <= j < s.filter(pred).len() ==> s.contains(#[trigger] s.filter(pred)[j]),
    decreases s.len(),
{
    reveal(Seq::filter);
    if s.len() > 0 {
        let dl = s.drop_last();
        lemma_filter_subset(dl, pred);
        assert forall|j: int|
            0 <= j < s.filter(pred).len() implies s.contains(#[trigger] s.filter(pred)[j]) by {
            let x = s.filter(pred)[j];
            if pred(s.last()) && j == s.filter(pred).len() - 1 {
                assert(s[s.len() - 1] == x);
            } else {
                assert(dl.filter(pred).contains(x));
                let i = choose|i: int| 0 <= i < dl.len() && dl[i] == x;
                assert(s[i] == x);
            }
        }
    }
}

/// Joining non-empty slash-free parts with `/` yields a string without a
/// leading, trailing, or doubled slash.
pub proof fn lemma_join_slash_shape(parts: Seq<Seq<char>>, sep: Seq<char>)
    requires
        parts.len() > 0,
        sep.len() == 1 && sep[0] == '/',
        forall|j: int| 0 <= j < parts.len() ==> (#[trigger] parts[j]).len() > 0,
        forall|j: int| 0 <= j < parts.len() ==> no_char(#[trigger] parts[j], '/'),
    ensures
        spec_join(parts, sep).len() > 0,
        spec_join(parts, sep)[0] != '/',
        spec_join(parts, sep).last() != '/',
        no_double_slash(spec_join(parts, sep)),
    decreases parts.len(),
{
    if parts.len() == 1 {
        let r = spec_join(parts, sep);
        assert(r == parts[0]);
        assert(no_char(r, '/'));
    } else {
        let dl = parts.drop_last();
        lemma_join_slash_shape(dl, sep);
        let r0 = spec_join(dl, sep);
        let last = parts.last();
        let r = spec_join(parts, sep);
        assert(r == r0 + sep + last);
        assert(r[0] == r0[0]);
        assert(r.last() == last.last());
        assert(last.last() != '/');
        assert forall|i: int| 0 <= i < r.len() - 1 implies !(#[trigger] r[i] == '/' && r[i + 1]
            == '/') by {
            let n0 = r0.len() as int;
            if i + 1 < n0 {
                assert(r[i] == r0[i] && r[i + 1] == r0[i + 1]);
            } else if i + 1 == n0 {
                assert(r[i] == r0[i] && r[i + 1] == sep[0]);
                assert(r0[n0 - 1] == r0.last());
                assert(r0.last() != '/');
            } else if i == n0 {
                assert(r[i] == sep[0] && r[i + 1] == last[0]);
                assert(last[0] != '/');
            } else {
                assert(r[i] == last[i - n0 - 1] && r[i + 1] == last[i - n0]);
                assert(last[i - n0] != '/');
            }
        }
    }
}

/// Trimming trailing slashes yields a prefix of the original that does not
/// end in `/`.
pub proof fn lemma_trim_end_props(s: Seq<char>)
    ensures
        spec_trim_end_slashes(s).len() <= s.len(),
        spec_trim_end_slashes(s) == s.take(spec_trim_end_slashes(s).len() as int),
        spec_trim_end_slashes(s).len() > 0 ==> spec_trim_end_slashes(s).last() != '/',
    decreases s.len(),
{
    if s.len() > 0 && s.last() == '/' {
        let dl = s.drop_last();
        lemma_trim_end_props(dl);
        let t = spec_trim_end_slashes(s);
        assert(t == spec_trim_end_slashes(dl));
        assert(dl.take(t.len() as int) =~= s.take(t.len() as int));
    } else {
        assert(s.take(s.len() as int) =~= s);
    }
}

} // verus!
