//! Text content and terminal row counting: display width that skips ANSI escape
//! sequences, and a counter of the rows a text takes when soft-wrapped at a fixed width.

use vstd::prelude::*;
use vstd::string::*;

use crate::text::chars_of;

verus! {

broadcast use vstd::string::group_string_axioms;

/// What `unicode_width::UnicodeWidthChar::width` gives for a character.
pub uninterp spec fn unicode_char_width(c: char) -> Option<usize>;

/// `unicode_width::UnicodeWidthChar::width`: the columns `c` takes, `None` for a
/// control character. The crate's source fixes the ASCII range (`None` below `' '`, one
/// column up to `'~'`, `None` from DEL to U+009F) and never yields more than three
/// columns; the table lookup for everything from U+00A0 on is only named.
#[verifier::external_body]
fn char_width(c: char) -> (r: Option<usize>)
    ensures
        r == unicode_char_width(c),
        (c as u32) < 0x20 ==> r is None,
        0x20 <= (c as u32) < 0x7f ==> r == Some(1usize),
        0x7f <= (c as u32) < 0xa0 ==> r is None,
        r matches Some(w) ==> w <= 3,
{
    unicode_width::UnicodeWidthChar::width(c)
}

/// The columns one character counts for: zero for a control character (below `' '`, and
/// DEL to U+009F), one for any other ASCII character, and its Unicode width from U+00A0 on.
pub open spec fn char_columns(c: char) -> nat {
    if (c as u32) < 0x20 || (0x7f <= (c as u32) && (c as u32) < 0xa0) {
        0
    } else if (c as u32) < 0x7f {
        1
    } else {
        match unicode_char_width(c) {
            Some(w) => w as nat,
            None => 0,
        }
    }
}

/// The columns `c` takes, as [`char_columns`] counts them.
fn columns_of(c: char) -> (r: usize)
    ensures
        r == char_columns(c),
{
    match char_width(c) {
        Some(w) => w,
        None => 0,
    }
}

/// The rest of `t` after the final byte of a CSI escape sequence (the first character in
/// `'@'..='~'`), or nothing when no such character follows.
pub open spec fn after_csi(t: Seq<char>) -> Seq<char>
    decreases t.len(),
{
    if t.len() == 0 {
        t
    } else if '@' <= t[0] && t[0] <= '~' {
        t.drop_first()
    } else {
        after_csi(t.drop_first())
    }
}

/// Display width of `s`: the sum of character widths, where `ESC [ ... final` (a CSI
/// sequence) and `ESC x` (any other escape) take no columns.
pub open spec fn spec_display_width(s: Seq<char>) -> nat
    decreases s.len(),
{
    if s.len() == 0 {
        0
    } else if s[0] == '\u{1b}' {
        if s.len() >= 2 && s[1] == '[' {
            proof {
                lemma_after_csi_shorter(s.subrange(2, s.len() as int));
            }
            spec_display_width(after_csi(s.subrange(2, s.len() as int)))
        } else if s.len() >= 2 {
            spec_display_width(s.subrange(2, s.len() as int))
        } else {
            0
        }
    } else {
        char_columns(s[0]) + spec_display_width(s.drop_first())
    }
}

/// Skipping a CSI sequence never lengthens the text.
pub proof fn lemma_after_csi_shorter(t: Seq<char>)
    ensures
        after_csi(t).len() <= t.len(),
    decreases t.len(),
{
    if t.len() > 0 && !('@' <= t[0] && t[0] <= '~') {
        lemma_after_csi_shorter(t.drop_first());
    }
}

proof fn lemma_after_csi_step(t: Seq<char>, j: int)
    requires
        0 <= j < t.len(),
        !('@' <= t[j] && t[j] <= '~'),
    ensures
        after_csi(t.subrange(j, t.len() as int)) == after_csi(t.subrange(j + 1, t.len() as int)),
{
    let u = t.subrange(j, t.len() as int);
    assert(u.drop_first() =~= t.subrange(j + 1, t.len() as int));
}

proof fn lemma_after_csi_stop(t: Seq<char>, j: int)
    requires
        0 <= j < t.len(),
        '@' <= t[j] && t[j] <= '~',
    ensures
        after_csi(t.subrange(j, t.len() as int)) == t.subrange(j + 1, t.len() as int),
{
    let u = t.subrange(j, t.len() as int);
    assert(u.drop_first() =~= t.subrange(j + 1, t.len() as int));
}

/// Display width of `chars[from..to]`, or `None` when it does not fit in `usize`.
fn display_width_range(chars: &Vec<char>, from: usize, to: usize) -> (r: Option<usize>)
    requires
        from <= to <= chars@.len(),
    ensures
        match r {
            Some(w) => w == spec_display_width(chars@.subrange(from as int, to as int)),
            None => spec_display_width(chars@.subrange(from as int, to as int)) > usize::MAX,
        },
{
    let ghost whole = chars@.subrange(from as int, to as int);
    let mut w: usize = 0;
    let mut i = from;
    while i < to
        invariant
            from <= i <= to <= chars@.len(),
            whole == chars@.subrange(from as int, to as int),
            w + spec_display_width(chars@.subrange(i as int, to as int)) == spec_display_width(
                whole,
            ),
        decreases to - i,
    {
        let ghost rest = chars@.subrange(i as int, to as int);
        let c = chars[i];
        if c == '\u{1b}' {
            if i + 1 < to && chars[i + 1] == '[' {
                let ghost tail = rest.subrange(2, rest.len() as int);
                assert(tail =~= chars@.subrange(i + 2, to as int));
                let mut j = i + 2;
                while j < to && !('@' <= chars[j] && chars[j] <= '~')
                    invariant
                        i + 2 <= j <= to <= chars@.len(),
                        after_csi(chars@.subrange(i + 2, to as int)) == after_csi(
                            chars@.subrange(j as int, to as int),
                        ),
                    decreases to - j,
                {
                    proof {
                        let t = chars@.subrange(0, to as int);
                        lemma_after_csi_step(t, j as int);
                        assert(t.subrange(j as int, to as int) =~= chars@.subrange(
                            j as int,
                            to as int,
                        ));
                        assert(t.subrange(j + 1, to as int) =~= chars@.subrange(
                            j + 1,
                            to as int,
                        ));
                    }
                    j = j + 1;
                }
                if j < to {
                    proof {
                        let t = chars@.subrange(0, to as int);
                        lemma_after_csi_stop(t, j as int);
                        assert(t.subrange(j as int, to as int) =~= chars@.subrange(
                            j as int,
                            to as int,
                        ));
                        assert(t.subrange(j + 1, to as int) =~= chars@.subrange(
                            j + 1,
                            to as int,
                        ));
                    }
                    i = j + 1;
                } else {
                    proof {
                        assert(chars@.subrange(j as int, to as int).len() == 0);
                        assert(chars@.subrange(j as int, to as int) =~= chars@.subrange(
                            to as int,
                            to as int,
                        ));
                    }
                    i = to;
                }
            } else if i + 1 < to {
                proof {
                    assert(rest.subrange(2, rest.len() as int) =~= chars@.subrange(
                        i + 2,
                        to as int,
                    ));
                }
                i = i + 2;
            } else {
                i = to;
            }
        } else {
            let cw = columns_of(c);
            proof {
                assert(rest.drop_first() =~= chars@.subrange(i + 1, to as int));
            }
            match w.checked_add(cw) {
                Some(x) => {
                    w = x;
                },
                None => {
                    return None;
                },
            }
            i = i + 1;
        }
    }
    Some(w)
}

/// Display width of `s`, skipping ANSI CSI escape sequences (such as SGR color codes),
/// which take up no columns.
pub fn display_width(s: &str) -> (w: usize)
    requires
        spec_display_width(s@) <= usize::MAX,
    ensures
        w == spec_display_width(s@),
{
    match checked_display_width(s) {
        Some(w) => w,
        None => 0,
    }
}

/// Display width of `s` as [`display_width`] measures it, or `None` when it does not fit
/// in `usize`.
pub fn checked_display_width(s: &str) -> (r: Option<usize>)
    ensures
        r == (if spec_display_width(s@) <= usize::MAX {
            Some(spec_display_width(s@) as usize)
        } else {
            None
        }),
{
    let chars = chars_of(s);
    proof {
        assert(chars@.subrange(0, chars@.len() as int) =~= s@);
    }
    display_width_range(&chars, 0, chars.len())
}

/// Text that a node can show.
pub trait Content {
    /// The characters the content renders as.
    spec fn text(&self) -> Seq<char>;

    /// Renders the content.
    fn fmt(&self) -> (r: String)
        ensures
            r@ == self.text(),
    ;
}

impl Content for String {
    open spec fn text(&self) -> Seq<char> {
        self@
    }

    fn fmt(&self) -> (r: String) {
        self.clone()
    }
}

impl<'a> Content for &'a str {
    open spec fn text(&self) -> Seq<char> {
        (*self)@
    }

    fn fmt(&self) -> (r: String) {
        (*self).to_owned()
    }
}

/// `width` columns soft-wrapped at `wrap`: the rows completed by wrapping and the columns
/// left on the last, unterminated row. A `wrap` of 0 never wraps.
pub open spec fn wrap_rows(width: nat, wrap: nat) -> (nat, nat)
    decreases width,
{
    if wrap > 0 && width > wrap {
        let (r, c) = wrap_rows((width - wrap) as nat, wrap);
        (r + 1, c)
    } else {
        (0, width)
    }
}

/// The index of the first `'\n'` in `s`, or its length when it holds none.
pub open spec fn first_newline(s: Seq<char>) -> nat
    decreases s.len(),
{
    if s.len() == 0 || s[0] == '\n' {
        0
    } else {
        1 + first_newline(s.drop_first())
    }
}

/// The first `'\n'` of `s` is where [`first_newline`] says.
pub proof fn lemma_first_newline(s: Seq<char>)
    ensures
        first_newline(s) <= s.len(),
        forall|i: int| 0 <= i < first_newline(s) ==> s[i] != '\n',
        first_newline(s) < s.len() ==> s[first_newline(s) as int] == '\n',
    decreases s.len(),
{
    if s.len() > 0 && s[0] != '\n' {
        lemma_first_newline(s.drop_first());
        assert forall|i: int| 0 <= i < first_newline(s) implies s[i] != '\n' by {
            if i > 0 {
                assert(s[i] == s.drop_first()[i - 1]);
            }
        }
    }
}

/// Rows and current-row columns after adding one newline-free segment.
pub open spec fn add_segment(rows: nat, width: nat, seg: Seq<char>, wrap: nat) -> (nat, nat) {
    let (r, c) = wrap_rows(width + spec_display_width(seg), wrap);
    (rows + r, c)
}

/// Rows and current-row columns after writing `s`: each `'\n'`-separated segment adds its
/// display width (soft-wrapping at `wrap`), and each `'\n'` completes the current row.
pub open spec fn write_rows(rows: nat, width: nat, s: Seq<char>, wrap: nat) -> (nat, nat)
    decreases s.len(),
{
    let i = first_newline(s);
    let (r1, w1) = add_segment(rows, width, s.take(i as int), wrap);
    if i < s.len() {
        proof {
            lemma_first_newline(s);
        }
        write_rows(r1 + 1, 0, s.skip(i + 1 as int), wrap)
    } else {
        (r1, w1)
    }
}

/// Whether writing `s` keeps every intermediate row and column count within `usize`.
pub open spec fn write_fits(rows: nat, width: nat, s: Seq<char>, wrap: nat) -> bool
    decreases s.len(),
{
    let i = first_newline(s);
    let seg_width = width + spec_display_width(s.take(i as int));
    let (r1, w1) = add_segment(rows, width, s.take(i as int), wrap);
    &&& seg_width <= usize::MAX
    &&& r1 <= usize::MAX
    &&& i < s.len() ==> {
        &&& r1 + 1 <= usize::MAX
        &&& {
            proof {
                lemma_first_newline(s);
            }
            write_fits(r1 + 1, 0, s.skip(i + 1 as int), wrap)
        }
    }
}

/// Counts the terminal rows needed to render text without keeping the text, accounting for
/// both hard newlines and soft (word-wrap) breaks at a fixed column width.
pub struct LineCounter {
    /// The number of completed rows counted so far.
    rows: usize,
    /// Display-width columns already consumed on the current, unterminated row.
    current_width: usize,
    /// The column width a row wraps at. `0` disables wrapping (only `\n` is counted).
    wrap_width: usize,
    /// Whether nothing has been written at all.
    is_empty: bool,
}

impl View for LineCounter {
    /// `(completed rows, columns on the current row, wrap width, nothing written yet)`.
    type V = (nat, nat, nat, bool);

    closed spec fn view(&self) -> (nat, nat, nat, bool) {
        (self.rows as nat, self.current_width as nat, self.wrap_width as nat, self.is_empty)
    }
}

/// The row count a counter in state `v` reports: a partially written last row counts,
/// and a counter nothing was written to reports 0.
pub open spec fn spec_count(v: (nat, nat, nat, bool)) -> nat {
    if v.3 {
        0
    } else if v.1 > 0 {
        v.0 + 1
    } else {
        v.0
    }
}

proof fn lemma_wrap_rows_split(a: nat, y: nat, wrap: nat)
    ensures
        ({
            let (ra, ca) = wrap_rows(a, wrap);
            let (rb, cb) = wrap_rows(ca + y, wrap);
            (ra + rb, cb) == wrap_rows(a + y, wrap)
        }),
    decreases a,
{
    if wrap > 0 && a > wrap {
        lemma_wrap_rows_split((a - wrap) as nat, y, wrap);
        assert((a + y - wrap) as nat == ((a - wrap) as nat + y));
    }
}

proof fn lemma_display_width_concat(p: Seq<char>, q: Seq<char>)
    requires
        forall|i: int| 0 <= i < p.len() ==> p[i] != '\u{1b}',
    ensures
        spec_display_width(p + q) == spec_display_width(p) + spec_display_width(q),
    decreases p.len(),
{
    if p.len() == 0 {
        assert(p + q =~= q);
    } else {
        assert((p + q).drop_first() =~= p.drop_first() + q);
        assert((p + q)[0] == p[0]);
        lemma_display_width_concat(p.drop_first(), q);
    }
}

proof fn lemma_first_newline_concat(p: Seq<char>, q: Seq<char>)
    requires
        forall|i: int| 0 <= i < p.len() ==> p[i] != '\n',
    ensures
        first_newline(p + q) == p.len() + first_newline(q),
    decreases p.len(),
{
    if p.len() == 0 {
        assert(p + q =~= q);
    } else {
        assert((p + q).drop_first() =~= p.drop_first() + q);
        assert((p + q)[0] == p[0]);
        lemma_first_newline_concat(p.drop_first(), q);
    }
}

/// Counting text written in pieces gives the same rows and columns as writing it all at
/// once, provided the first piece holds no escape character (an escape sequence cut in
/// two by the split would be measured differently).
pub proof fn law_write_in_pieces(rows: nat, width: nat, s1: Seq<char>, s2: Seq<char>, wrap: nat)
    requires
        forall|i: int| 0 <= i < s1.len() ==> s1[i] != '\u{1b}',
    ensures
        ({
            let (r1, w1) = write_rows(rows, width, s1, wrap);
            write_rows(r1, w1, s2, wrap)
        }) == write_rows(rows, width, s1 + s2, wrap),
    decreases s1.len(),
{
    lemma_first_newline(s1);
    let i = first_newline(s1);
    let both = s1 + s2;
    if i < s1.len() {
        lemma_first_newline(both);
        assert(both[i as int] == '\n');
        assert forall|k: int| 0 <= k < i implies both[k] != '\n' by {
            assert(both[k] == s1[k]);
        }
        let j = first_newline(both);
        assert(j == i) by {
            if j < i {
                assert(both[j as int] == s1[j as int]);
            }
        }
        assert(both.take(i as int) =~= s1.take(i as int));
        assert(both.skip(i + 1 as int) =~= s1.skip(i + 1 as int) + s2);
        let (r1, w1) = add_segment(rows, width, s1.take(i as int), wrap);
        let rest = s1.skip(i + 1 as int);
        assert forall|k: int| 0 <= k < rest.len() implies rest[k] != '\u{1b}' by {
            assert(rest[k] == s1[k + i + 1]);
        }
        law_write_in_pieces(r1 + 1, 0, rest, s2, wrap);
    } else {
        // `s1` is one segment: it joins the first segment of `s2`.
        assert(s1.take(i as int) =~= s1);
        lemma_first_newline(s2);
        let j = first_newline(s2);
        assert forall|k: int| 0 <= k < s1.len() implies s1[k] != '\n' by {}
        lemma_first_newline_concat(s1, s2);
        assert(both.take(first_newline(both) as int) =~= s1 + s2.take(j as int));
        lemma_display_width_concat(s1, s2.take(j as int));
        lemma_wrap_rows_split(width + spec_display_width(s1), spec_display_width(s2.take(j as int)), wrap);
        if j < s2.len() {
            assert(both.skip(first_newline(both) + 1 as int) =~= s2.skip(j + 1 as int));
        }
    }
}

proof fn lemma_wrap_rows_mono(a: nat, b: nat, wrap: nat)
    requires
        a <= b,
    ensures
        wrap_rows(a, wrap).0 <= wrap_rows(b, wrap).0,
    decreases b,
{
    if wrap > 0 && b > wrap && a > wrap {
        lemma_wrap_rows_mono((a - wrap) as nat, (b - wrap) as nat, wrap);
    }
}

proof fn lemma_wrap_rows_col(a: nat, wrap: nat)
    ensures
        wrap_rows(a, wrap).1 <= a,
    decreases a,
{
    if wrap > 0 && a > wrap {
        lemma_wrap_rows_col((a - wrap) as nat, wrap);
    }
}

/// When the whole of a text fits the counter (every row and column count within `usize`),
/// so does writing it in two pieces, the first holding no escape character: the first
/// piece fits, and the second fits from where the first left off. With
/// [`law_write_in_pieces`], writing in pieces then counts exactly what writing at once does.
pub proof fn law_whole_fit_covers_pieces(rows: nat, width: nat, s1: Seq<char>, s2: Seq<char>, wrap: nat)
    requires
        forall|i: int| 0 <= i < s1.len() ==> s1[i] != '\u{1b}',
        write_fits(rows, width, s1 + s2, wrap),
    ensures
        write_fits(rows, width, s1, wrap),
        ({
            let (r1, w1) = write_rows(rows, width, s1, wrap);
            write_fits(r1, w1, s2, wrap)
        }),
    decreases s1.len(),
{
    lemma_first_newline(s1);
    let i = first_newline(s1);
    let both = s1 + s2;
    if i < s1.len() {
        lemma_first_newline(both);
        assert(both[i as int] == '\n');
        assert forall|k: int| 0 <= k < i implies both[k] != '\n' by {
            assert(both[k] == s1[k]);
        }
        let j = first_newline(both);
        assert(j == i) by {
            if j < i {
                assert(both[j as int] == s1[j as int]);
            }
        }
        assert(both.take(i as int) =~= s1.take(i as int));
        assert(both.skip(i + 1 as int) =~= s1.skip(i + 1 as int) + s2);
        let (r1, w1) = add_segment(rows, width, s1.take(i as int), wrap);
        let rest = s1.skip(i + 1 as int);
        assert forall|k: int| 0 <= k < rest.len() implies rest[k] != '\u{1b}' by {
            assert(rest[k] == s1[k + i + 1]);
        }
        law_whole_fit_covers_pieces(r1 + 1, 0, rest, s2, wrap);
    } else {
        assert(s1.take(i as int) =~= s1);
        lemma_first_newline(s2);
        let j = first_newline(s2);
        assert forall|k: int| 0 <= k < s1.len() implies s1[k] != '\n' by {}
        lemma_first_newline_concat(s1, s2);
        assert(both.take(first_newline(both) as int) =~= s1 + s2.take(j as int));
        lemma_display_width_concat(s1, s2.take(j as int));
        let a = width + spec_display_width(s1);
        let y = spec_display_width(s2.take(j as int));
        lemma_wrap_rows_split(a, y, wrap);
        lemma_wrap_rows_mono(a, a + y, wrap);
        lemma_wrap_rows_col(a, wrap);
        if j < s2.len() {
            assert(both.skip(first_newline(both) + 1 as int) =~= s2.skip(j + 1 as int));
        }
    }
}

/// The row count does not depend on the width rows wrap at: it is fixed by the completed
/// rows, the columns on the current row and whether anything was written.
pub proof fn law_count_ignores_wrap_width(rows: nat, width: nat, empty: bool, wrap_a: nat, wrap_b: nat)
    ensures
        spec_count((rows, width, wrap_a, empty)) == spec_count((rows, width, wrap_b, empty)),
{
}

/// Text that ends with a line break leaves the current row empty, so a counter it was
/// written to counts exactly its completed rows: a line break closes its row, and nothing
/// after it adds one.
pub proof fn law_newline_closes_the_last_row(rows: nat, width: nat, s: Seq<char>, wrap: nat)
    requires
        s.len() > 0,
        s.last() == '\n',
    ensures
        write_rows(rows, width, s, wrap).1 == 0,
        spec_count((write_rows(rows, width, s, wrap).0, write_rows(rows, width, s, wrap).1, wrap, false))
            == write_rows(rows, width, s, wrap).0,
    decreases s.len(),
{
    lemma_first_newline(s);
    let i = first_newline(s);
    assert(i < s.len()) by {
        if i >= s.len() {
            assert(s[s.len() - 1] != '\n');
        }
    }
    let (r1, w1) = add_segment(rows, width, s.take(i as int), wrap);
    let rest = s.skip(i + 1 as int);
    assert(write_rows(rows, width, s, wrap) == write_rows(r1 + 1, 0, rest, wrap));
    if rest.len() == 0 {
        assert(first_newline(rest) == 0);
        assert(rest.take(0) =~= rest);
        assert(spec_display_width(rest) == 0);
        assert(wrap_rows(0, wrap) == (0nat, 0nat));
        assert(write_rows(r1 + 1, 0, rest, wrap) == (r1 + 1, 0nat));
    } else {
        assert(rest.last() == s.last());
        law_newline_closes_the_last_row(r1 + 1, 0, rest, wrap);
    }
}

/// A counter with no partial row counts its completed rows, and one holding columns on
/// its current row counts that row too: the count never depends on anything else.
pub proof fn law_count_is_rows_plus_partial_row(rows: nat, width: nat, wrap: nat)
    ensures
        spec_count((rows, 0, wrap, false)) == rows,
        width > 0 ==> spec_count((rows, width, wrap, false)) == rows + 1,
        spec_count((rows, width, wrap, true)) == 0,
{
}

impl LineCounter {
    /// Creates a counter that soft-wraps at `wrap_width` columns.
    pub fn new(wrap_width: usize) -> (r: Self)
        ensures
            r@ == (0nat, 0nat, wrap_width as nat, true),
    {
        LineCounter { rows: 0, current_width: 0, wrap_width, is_empty: true }
    }

    /// The final row count, including any partially written trailing row. An empty text
    /// has 0 rows.
    pub fn count(&self) -> (r: usize)
        requires
            spec_count(self@) <= usize::MAX,
        ensures
            r == spec_count(self@),
    {
        if self.is_empty {
            0
        } else if self.current_width > 0 {
            self.rows + 1
        } else {
            self.rows
        }
    }

    /// Accounts for `s` being written after everything written so far.
    pub fn write_str(&mut self, s: &str)
        requires
            write_fits(old(self)@.0, old(self)@.1, s@, old(self)@.2),
        ensures
            final(self)@.2 == old(self)@.2,
            final(self)@.3 == (old(self)@.3 && s@.len() == 0),
            (final(self)@.0, final(self)@.1) == write_rows(
                old(self)@.0,
                old(self)@.1,
                s@,
                old(self)@.2,
            ),
    {
        let _ = self.write_str_checked(s);
    }

    /// Accounts for `s` as [`LineCounter::write_str`] does when every row and column count
    /// stays within `usize`, and returns `true`; otherwise leaves the counter as it was and
    /// returns `false`.
    pub fn write_str_checked(&mut self, s: &str) -> (r: bool)
        ensures
            r == write_fits(old(self)@.0, old(self)@.1, s@, old(self)@.2),
            r ==> {
                &&& final(self)@.2 == old(self)@.2
                &&& final(self)@.3 == (old(self)@.3 && s@.len() == 0)
                &&& (final(self)@.0, final(self)@.1) == write_rows(old(self)@.0, old(self)@.1, s@, old(self)@.2)
            },
            !r ==> final(self)@ == old(self)@,
    {
        let chars = chars_of(s);
        match advance(self.rows, self.current_width, self.wrap_width, &chars) {
            Some((rows, width)) => {
                self.rows = rows;
                self.current_width = width;
                if chars.len() > 0 {
                    self.is_empty = false;
                }
                true
            },
            None => false,
        }
    }

    /// The row count [`LineCounter::count`] reports, or `None` when it does not fit in
    /// `usize`.
    pub fn checked_count(&self) -> (r: Option<usize>)
        ensures
            r == (if spec_count(self@) <= usize::MAX {
                Some(spec_count(self@) as usize)
            } else {
                None
            }),
    {
        if self.is_empty {
            Some(0)
        } else if self.current_width > 0 {
            self.rows.checked_add(1)
        } else {
            Some(self.rows)
        }
    }
}

/// Rows and current-row columns after writing `chars` from `rows` completed rows and
/// `width` columns, soft-wrapping at `wrap`; `None` when some count would not fit in
/// `usize`.
fn advance(start_rows: usize, start_width: usize, wrap: usize, chars: &Vec<char>) -> (r: Option<(usize, usize)>)
    ensures
        match r {
            Some((a, b)) => write_fits(start_rows as nat, start_width as nat, chars@, wrap as nat) && (a as nat, b as nat)
                == write_rows(start_rows as nat, start_width as nat, chars@, wrap as nat),
            None => !write_fits(start_rows as nat, start_width as nat, chars@, wrap as nat),
        },
{
    let mut rows = start_rows;
    let mut cw = start_width;
    let n = chars.len();
    let mut start: usize = 0;
    proof {
        assert(chars@.skip(0) =~= chars@);
    }
    loop
        invariant_except_break
            start <= n,
            n == chars@.len(),
            write_rows(rows as nat, cw as nat, chars@.skip(start as int), wrap as nat) == write_rows(
                start_rows as nat,
                start_width as nat,
                chars@,
                wrap as nat,
            ),
            write_fits(rows as nat, cw as nat, chars@.skip(start as int), wrap as nat) == write_fits(
                start_rows as nat,
                start_width as nat,
                chars@,
                wrap as nat,
            ),
        ensures
            write_fits(start_rows as nat, start_width as nat, chars@, wrap as nat),
            (rows as nat, cw as nat) == write_rows(start_rows as nat, start_width as nat, chars@, wrap as nat),
        decreases n - start,
    {
        let ghost rest = chars@.skip(start as int);
        let mut end = start;
        while end < n && chars[end] != '\n'
            invariant
                start <= end <= n,
                n == chars@.len(),
                forall|i: int| start <= i < end ==> chars@[i] != '\n',
            decreases n - end,
        {
            end = end + 1;
        }
        let ghost seg = rest.take((end - start) as int);
        proof {
            lemma_first_newline(rest);
            let i = first_newline(rest);
            if i < end - start {
                assert(rest[i as int] == chars@[start + i]);
            }
            if end < n {
                assert(rest[end - start] == '\n');
                assert(rest[end - start] == chars@[end as int]);
            }
            assert(i == end - start);
            assert(seg =~= chars@.subrange(start as int, end as int));
            assert(rest.take(first_newline(rest) as int) == seg);
        }
        let ghost rb = rows;
        let ghost cb = cw;
        let w = match display_width_range(chars, start, end) {
            Some(w) => w,
            None => {
                proof {
                    assert(!write_fits(rb as nat, cb as nat, rest, wrap as nat));
                }
                return None;
            },
        };
        cw = match cw.checked_add(w) {
            Some(c) => c,
            None => {
                proof {
                    assert(!write_fits(rb as nat, cb as nat, rest, wrap as nat));
                }
                return None;
            },
        };
        let ghost r0 = rows;
        let ghost c0 = cw;
        if wrap > 0 {
            while cw > wrap
                invariant
                    wrap > 0,
                    r0 == rb,
                    c0 == cb + spec_display_width(seg),
                    c0 <= usize::MAX,
                    rest.take(first_newline(rest) as int) == seg,
                    write_fits(rb as nat, cb as nat, rest, wrap as nat) == write_fits(start_rows as nat, start_width as nat, chars@, wrap as nat),
                    r0 <= rows,
                    (rows - r0) + wrap_rows(cw as nat, wrap as nat).0 == wrap_rows(c0 as nat, wrap as nat).0,
                    wrap_rows(cw as nat, wrap as nat).1 == wrap_rows(c0 as nat, wrap as nat).1,
                decreases cw,
            {
                if rows == usize::MAX {
                    proof {
                        assert(wrap_rows(cw as nat, wrap as nat).0 >= 1);
                        assert(!write_fits(rb as nat, cb as nat, rest, wrap as nat));
                    }
                    return None;
                }
                cw = cw - wrap;
                rows = rows + 1;
            }
        }
        proof {
            assert((rows as nat, cw as nat) == add_segment(rb as nat, cb as nat, seg, wrap as nat));
        }
        if end < n {
            if rows == usize::MAX {
                proof {
                    assert(first_newline(rest) < rest.len());
                    assert(!write_fits(rb as nat, cb as nat, rest, wrap as nat));
                }
                return None;
            }
            rows = rows + 1;
            cw = 0;
            proof {
                assert(rest.skip(end - start + 1) =~= chars@.skip(end + 1));
            }
            start = end + 1;
        } else {
            break;
        }
    }
    Some((rows, cw))
}

} // verus!
