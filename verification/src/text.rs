//! Character-level helpers over `&str` shared by the parsers of this crate.

use vstd::prelude::*;
use vstd::string::*;

verus! {

broadcast use vstd::string::group_string_axioms;

/// The characters of `s`, in order.
pub(crate) fn chars_of(s: &str) -> (r: Vec<char>)
    ensures
        r@ == s@,
{
    let mut out: Vec<char> = Vec::new();
    for c in iter: s.chars()
        invariant
            iter.seq() == s@,
            out@ == s@.take(iter.index() as int),
    {
        out.push(c);
    }
    assert(out@ == s@.take(s@.len() as int));
    out
}

/// `s` with every leading occurrence of `c` removed.
pub open spec fn trim_leading(s: Seq<char>, c: char) -> Seq<char>
    decreases s.len(),
{
    if s.len() > 0 && s[0] == c {
        trim_leading(s.drop_first(), c)
    } else {
        s
    }
}

/// `s` with one leading `c` removed, if it starts with one.
pub open spec fn strip_one_leading(s: Seq<char>, c: char) -> Seq<char> {
    if s.len() > 0 && s[0] == c {
        s.drop_first()
    } else {
        s
    }
}

proof fn lemma_trim_leading_skip(s: Seq<char>, c: char, k: int)
    requires
        0 <= k <= s.len(),
        forall|i: int| 0 <= i < k ==> s[i] == c,
    ensures
        trim_leading(s, c) == trim_leading(s.subrange(k, s.len() as int), c),
    decreases k,
{
    if k > 0 {
        assert(s.drop_first().subrange(k - 1, s.drop_first().len() as int) =~= s.subrange(
            k,
            s.len() as int,
        ));
        lemma_trim_leading_skip(s.drop_first(), c, k - 1);
    } else {
        assert(s.subrange(0, s.len() as int) =~= s);
    }
}

/// `s` without every leading `c` (what `str::trim_start_matches` does for one char).
pub(crate) fn trim_start_char(s: &str, c: char) -> (r: &str)
    ensures
        r@ == trim_leading(s@, c),
{
    let chars = chars_of(s);
    let n = chars.len();
    let mut k: usize = 0;
    while k < n && chars[k] == c
        invariant
            chars@ == s@,
            n == chars@.len(),
            0 <= k <= n,
            forall|i: int| 0 <= i < k ==> s@[i] == c,
        decreases n - k,
    {
        k = k + 1;
    }
    proof {
        lemma_trim_leading_skip(s@, c, k as int);
        let rest = s@.subrange(k as int, s@.len() as int);
        if rest.len() > 0 {
            assert(rest[0] == s@[k as int]);
        }
    }
    s.substring_char(k, n)
}

/// `s` without one leading `c`, if present (what `str::strip_prefix(c).unwrap_or(s)` does).
pub(crate) fn strip_one_char(s: &str, c: char) -> (r: &str)
    ensures
        r@ == strip_one_leading(s@, c),
{
    let n = s.unicode_len();
    if n > 0 && s.get_char(0) == c {
        s.substring_char(1, n)
    } else {
        s
    }
}

/// Whether `c` has the Unicode `White_Space` property (what `char::is_whitespace` tests).
pub open spec fn is_white_space(c: char) -> bool {
    let u = c as u32;
    ||| (0x09 <= u && u <= 0x0d)
    ||| u == 0x20
    ||| u == 0x85
    ||| u == 0xa0
    ||| u == 0x1680
    ||| (0x2000 <= u && u <= 0x200a)
    ||| u == 0x2028
    ||| u == 0x2029
    ||| u == 0x202f
    ||| u == 0x205f
    ||| u == 0x3000
}

/// `char::is_whitespace`.
pub(crate) fn white_space(c: char) -> (r: bool)
    ensures
        r == is_white_space(c),
{
    let u = c as u32;
    (0x09 <= u && u <= 0x0d) || u == 0x20 || u == 0x85 || u == 0xa0 || u == 0x1680 || (0x2000
        <= u && u <= 0x200a) || u == 0x2028 || u == 0x2029 || u == 0x202f || u == 0x205f || u
        == 0x3000
}

/// `s` without leading white space.
pub open spec fn trim_start_ws(s: Seq<char>) -> Seq<char>
    decreases s.len(),
{
    if s.len() > 0 && is_white_space(s[0]) {
        trim_start_ws(s.drop_first())
    } else {
        s
    }
}

/// `s` without trailing white space.
pub open spec fn trim_end_ws(s: Seq<char>) -> Seq<char>
    decreases s.len(),
{
    if s.len() > 0 && is_white_space(s.last()) {
        trim_end_ws(s.drop_last())
    } else {
        s
    }
}

/// `s` without leading or trailing white space (what `str::trim` does).
pub open spec fn trim_ws(s: Seq<char>) -> Seq<char> {
    trim_end_ws(trim_start_ws(s))
}

proof fn lemma_trim_start_ws_skip(s: Seq<char>, k: int)
    requires
        0 <= k <= s.len(),
        forall|i: int| 0 <= i < k ==> is_white_space(s[i]),
    ensures
        trim_start_ws(s) == trim_start_ws(s.subrange(k, s.len() as int)),
    decreases k,
{
    if k > 0 {
        assert(s.drop_first().subrange(k - 1, s.drop_first().len() as int) =~= s.subrange(
            k,
            s.len() as int,
        ));
        lemma_trim_start_ws_skip(s.drop_first(), k - 1);
    } else {
        assert(s.subrange(0, s.len() as int) =~= s);
    }
}

proof fn lemma_trim_end_ws_skip(s: Seq<char>, k: int)
    requires
        0 <= k <= s.len(),
        forall|i: int| k <= i < s.len() ==> is_white_space(s[i]),
    ensures
        trim_end_ws(s) == trim_end_ws(s.subrange(0, k)),
    decreases s.len() - k,
{
    if k < s.len() {
        assert(s.drop_last().subrange(0, k) =~= s.subrange(0, k));
        lemma_trim_end_ws_skip(s.drop_last(), k);
    } else {
        assert(s.subrange(0, k) =~= s);
    }
}

/// Where trimming white space off the start of `s` cuts it: after a run of white space.
pub proof fn lemma_trim_start_cut(s: Seq<char>) -> (k: int)
    ensures
        0 <= k <= s.len(),
        trim_start_ws(s) == s.subrange(k, s.len() as int),
        forall|i: int| 0 <= i < k ==> is_white_space(#[trigger] s[i]),
    decreases s.len(),
{
    if s.len() > 0 && is_white_space(s[0]) {
        let k = lemma_trim_start_cut(s.drop_first());
        assert(s.drop_first().subrange(k, s.drop_first().len() as int) =~= s.subrange(k + 1, s.len() as int));
        assert forall|i: int| 0 <= i < k + 1 implies is_white_space(#[trigger] s[i]) by {
            if i > 0 {
                assert(s[i] == s.drop_first()[i - 1]);
            }
        }
        k + 1
    } else {
        assert(s.subrange(0, s.len() as int) =~= s);
        0
    }
}

/// Where trimming white space off the end of `s` cuts it: before a run of white space.
pub proof fn lemma_trim_end_cut(s: Seq<char>) -> (k: int)
    ensures
        0 <= k <= s.len(),
        trim_end_ws(s) == s.subrange(0, k),
        forall|i: int| k <= i < s.len() ==> is_white_space(#[trigger] s[i]),
    decreases s.len(),
{
    if s.len() > 0 && is_white_space(s.last()) {
        let k = lemma_trim_end_cut(s.drop_last());
        assert(s.drop_last().subrange(0, k) =~= s.subrange(0, k));
        assert forall|i: int| k <= i < s.len() implies is_white_space(#[trigger] s[i]) by {
            if i < s.len() - 1 {
                assert(s[i] == s.drop_last()[i]);
            }
        }
        k
    } else {
        assert(s.subrange(0, s.len() as int) =~= s);
        s.len() as int
    }
}

/// Trimming white space off a text padded with white space on both sides gives back the
/// text, when the text starts and ends with a character that is not white space.
pub proof fn lemma_trim_padded(front: Seq<char>, x: Seq<char>, back: Seq<char>)
    requires
        forall|i: int| 0 <= i < front.len() ==> is_white_space(#[trigger] front[i]),
        forall|i: int| 0 <= i < back.len() ==> is_white_space(#[trigger] back[i]),
        x.len() > 0,
        !is_white_space(x[0]),
        !is_white_space(x.last()),
    ensures
        trim_ws(front + x + back) == x,
{
    let s = front + x + back;
    assert forall|i: int| 0 <= i < front.len() implies is_white_space(s[i]) by {
        assert(s[i] == front[i]);
    }
    lemma_trim_start_ws_skip(s, front.len() as int);
    let xb = x + back;
    assert(s.subrange(front.len() as int, s.len() as int) =~= xb);
    assert(xb[0] == x[0]);
    assert(trim_start_ws(xb) == xb);
    assert forall|i: int| x.len() <= i < xb.len() implies is_white_space(xb[i]) by {
        assert(xb[i] == back[i - x.len()]);
    }
    lemma_trim_end_ws_skip(xb, x.len() as int);
    assert(xb.subrange(0, x.len() as int) =~= x);
    assert(x.last() == x[x.len() - 1]);
    assert(trim_end_ws(x) == x);
}

/// The bounds `[a, b)` of `chars[from..to]` with white space trimmed from the start
/// (when `start`) and from the end (when `end`).
pub(crate) fn trim_bounds(chars: &Vec<char>, from: usize, to: usize, start: bool, end: bool) -> (r: (usize, usize))
    requires
        from <= to <= chars@.len(),
    ensures
        from <= r.0 <= r.1 <= to,
        !start ==> r.0 == from,
        !end ==> r.1 == to,
        chars@.subrange(r.0 as int, r.1 as int) == ({
            let t = chars@.subrange(from as int, to as int);
            let t1 = if start { trim_start_ws(t) } else { t };
            if end { trim_end_ws(t1) } else { t1 }
        }),
{
    let mut a = from;
    if start {
        while a < to && white_space(chars[a])
            invariant
                from <= a <= to <= chars@.len(),
                forall|i: int| from <= i < a ==> is_white_space(chars@[i]),
            decreases to - a,
        {
            a = a + 1;
        }
        proof {
            let t = chars@.subrange(from as int, to as int);
            lemma_trim_start_ws_skip(t, a - from);
            assert(t.subrange(a - from, t.len() as int) =~= chars@.subrange(a as int, to as int));
            let rest = chars@.subrange(a as int, to as int);
            if rest.len() > 0 {
                assert(rest[0] == chars@[a as int]);
            }
        }
    } else {
        proof {
            assert(chars@.subrange(from as int, to as int) =~= chars@.subrange(a as int, to as int));
        }
    }
    let mut b = to;
    if end {
        while b > a && white_space(chars[b - 1])
            invariant
                from <= a <= b <= to <= chars@.len(),
                forall|i: int| b <= i < to ==> is_white_space(chars@[i]),
            decreases b - a,
        {
            b = b - 1;
        }
        proof {
            let t = chars@.subrange(a as int, to as int);
            lemma_trim_end_ws_skip(t, b - a);
            assert(t.subrange(0, b - a) =~= chars@.subrange(a as int, b as int));
            let rest = chars@.subrange(a as int, b as int);
            if rest.len() > 0 {
                assert(rest.last() == chars@[b - 1]);
            }
        }
    }
    (a, b)
}

/// A `String` holding `chars[from..to]`.
pub(crate) fn string_of(chars: &Vec<char>, from: usize, to: usize) -> (r: String)
    requires
        from <= to <= chars@.len(),
    ensures
        r@ == chars@.subrange(from as int, to as int),
{
    let mut out = String::new();
    let mut i = from;
    while i < to
        invariant
            from <= i <= to <= chars@.len(),
            out@ == chars@.subrange(from as int, i as int),
        decreases to - i,
    {
        push_char(&mut out, chars[i]);
        proof {
            assert(chars@.subrange(from as int, i + 1) =~= chars@.subrange(from as int, i as int).push(chars@[i as int]));
        }
        i = i + 1;
    }
    out
}

/// Whether `chars[at..]` starts with `pat`.
pub(crate) fn has_at(chars: &Vec<char>, at: usize, pat: &Vec<char>) -> (r: bool)
    requires
        at <= chars@.len(),
    ensures
        r == (at + pat@.len() <= chars@.len() && chars@.subrange(at as int, at + pat@.len()) == pat@),
{
    if pat.len() > chars.len() - at {
        return false;
    }
    let n = chars.len();
    let mut k: usize = 0;
    while k < pat.len()
        invariant
            n == chars@.len(),
            at + pat@.len() <= chars@.len(),
            k <= pat@.len(),
            forall|j: int| 0 <= j < k ==> chars@[at + j] == pat@[j],
        decreases pat@.len() - k,
    {
        if chars[at + k] != pat[k] {
            proof {
                assert(chars@.subrange(at as int, at + pat@.len())[k as int] != pat@[k as int]);
            }
            return false;
        }
        k = k + 1;
    }
    proof {
        assert(chars@.subrange(at as int, at + pat@.len()) =~= pat@);
    }
    true
}

/// The first position at or after `i` where `p` occurs in `s`.
pub open spec fn find_from(s: Seq<char>, p: Seq<char>, i: int) -> Option<int>
    decreases s.len() + 1 - i,
{
    if i < 0 || i + p.len() > s.len() {
        None
    } else if s.subrange(i, i + p.len()) == p {
        Some(i)
    } else {
        find_from(s, p, i + 1)
    }
}

/// The first position in `[i, end)` holding `c`, or `end`.
pub open spec fn first_char_in(s: Seq<char>, c: char, i: int, end: int) -> int
    decreases end - i,
{
    if i >= end {
        end
    } else if s[i] == c {
        i
    } else {
        first_char_in(s, c, i + 1, end)
    }
}

/// Where [`find_from`] finds `p`, `p` does occur.
pub proof fn lemma_find_from(s: Seq<char>, p: Seq<char>, i: int)
    ensures
        find_from(s, p, i) matches Some(k) ==> i <= k && k + p.len() <= s.len() && s.subrange(k, k + p.len()) == p,
    decreases s.len() + 1 - i,
{
    if !(i < 0 || i + p.len() > s.len()) && s.subrange(i, i + p.len()) != p {
        lemma_find_from(s, p, i + 1);
    }
}

/// [`first_char_in`] is the first position in range holding `c`.
pub proof fn lemma_first_char_in(s: Seq<char>, c: char, i: int, end: int)
    requires
        0 <= i <= end <= s.len(),
    ensures
        i <= first_char_in(s, c, i, end) <= end,
        first_char_in(s, c, i, end) < end ==> s[first_char_in(s, c, i, end)] == c,
        forall|j: int| i <= j < first_char_in(s, c, i, end) ==> s[j] != c,
    decreases end - i,
{
    if i < end && s[i] != c {
        lemma_first_char_in(s, c, i + 1, end);
    }
}

/// `find_from`, computed.
pub(crate) fn find_text(chars: &Vec<char>, pat: &Vec<char>, from: usize) -> (r: Option<usize>)
    requires
        from <= chars@.len(),
    ensures
        match r {
            Some(k) => find_from(chars@, pat@, from as int) == Some(k as int),
            None => find_from(chars@, pat@, from as int) is None,
        },
{
    let n = chars.len();
    if pat.len() > n - from {
        return None;
    }
    let last = n - pat.len();
    let mut i = from;
    loop
        invariant
            n == chars@.len(),
            pat@.len() <= n,
            last == n - pat@.len(),
            from <= i <= last,
            find_from(chars@, pat@, from as int) == find_from(chars@, pat@, i as int),
        decreases last - i,
    {
        if has_at(chars, i, pat) {
            return Some(i);
        }
        if i == last {
            proof {
                assert(find_from(chars@, pat@, last + 1) is None);
            }
            return None;
        }
        i = i + 1;
    }
}

/// `first_char_in`, computed.
pub(crate) fn find_char(chars: &Vec<char>, c: char, from: usize, end: usize) -> (r: usize)
    requires
        from <= end <= chars@.len(),
    ensures
        r == first_char_in(chars@, c, from as int, end as int),
        from <= r <= end,
{
    let mut i = from;
    while i < end && chars[i] != c
        invariant
            from <= i <= end <= chars@.len(),
            first_char_in(chars@, c, from as int, end as int) == first_char_in(chars@, c, i as int, end as int),
        decreases end - i,
    {
        i = i + 1;
    }
    i
}

/// Whether two texts hold the same characters.
pub(crate) fn text_eq(a: &str, b: &str) -> (r: bool)
    ensures
        r == (a@ == b@),
{
    let x = chars_of(a);
    let y = chars_of(b);
    if x.len() != y.len() {
        return false;
    }
    for i in 0..x.len()
        invariant
            x@ == a@,
            y@ == b@,
            x@.len() == y@.len(),
            forall|j: int| 0 <= j < i ==> x@[j] == y@[j],
    {
        if x[i] != y[i] {
            return false;
        }
    }
    proof {
        assert(x@ =~= y@);
    }
    true
}

/// The text `{:?}` gives for a string: the string in double quotes, with quotes,
/// backslashes and control characters escaped.
pub uninterp spec fn debug_quoted_text(s: Seq<char>) -> Seq<char>;

/// `format!("{:?}", s)`, std's `Debug` rendering of a string slice; claimed to be a function
/// of the characters alone (named [`debug_quoted_text`]), nothing more.
#[verifier::external_body]
pub(crate) fn debug_quoted(s: &str) -> (r: String)
    ensures
        r@ == debug_quoted_text(s@),
{
    format!("{:?}", s)
}

/// Appends one character to a `String` (`String::push`).
#[verifier::external_body]
pub(crate) fn push_char(s: &mut String, c: char)
    ensures
        final(s)@ == old(s)@.push(c),
{
    s.push(c);
}

/// Appends the characters of `t` to `s`.
pub(crate) fn append_text(s: &mut String, t: &str)
    ensures
        final(s)@ == old(s)@ + t@,
{
    let extra = chars_of(t);
    let ghost start = s@;
    let mut i: usize = 0;
    while i < extra.len()
        invariant
            i <= extra@.len(),
            extra@ == t@,
            s@ == start + extra@.take(i as int),
        decreases extra@.len() - i,
    {
        push_char(s, extra[i]);
        proof {
            assert(extra@.take(i + 1) =~= extra@.take(i as int).push(extra@[i as int]));
        }
        i = i + 1;
    }
    proof {
        assert(extra@.take(extra@.len() as int) =~= extra@);
    }
}

} // verus!
