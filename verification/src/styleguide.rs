//! The styleguide document: a markdown file opening with a `---`-delimited YAML block that
//! names colors, dimensions and text sizes. This module finds that block and turns its
//! `colors` entries into a lookup table of `(r, g, b)`; reading the YAML itself is the
//! caller's part.

use vstd::prelude::*;
use vstd::string::*;

use crate::commands::starts_with;
use crate::hex::{spec_strict_hex_triple, strict_hex_triple};
use crate::text::{chars_of, debug_quoted, debug_quoted_text, find_from, find_text, lemma_find_from, strip_one_char, strip_one_leading, text_eq};

verus! {

broadcast use vstd::string::group_string_axioms;

#[verifier::external_type_specification]
#[verifier::external_body]
pub struct ExYamlError(serde_yaml::Error);

/// Why a styleguide document was refused.
pub enum StyleguideError {
    /// The document does not open with a `---`-delimited YAML block.
    MissingFrontmatter,
    /// The block is not valid YAML for a styleguide.
    Yaml(serde_yaml::Error),
    /// A `colors` entry was not a `#rrggbb` (or `rrggbb`) hex string; it holds that entry.
    InvalidColor(String),
}

/// serde_yaml's `Display` rendering of its error (`<serde_yaml::Error as Display>::fmt`).
/// Nothing is claimed of the text: the error is opaque here.
#[verifier::external_body]
fn yaml_error_text(e: &serde_yaml::Error) -> String {
    format!("{}", e)
}

/// What a refused document is told.
pub const MISSING_FRONTMATTER_MESSAGE: &'static str = "no YAML frontmatter found (expected a leading `---` block)";

/// The start of the message for YAML that does not read as a styleguide.
pub const INVALID_YAML_PREFIX: &'static str = "invalid frontmatter YAML: ";

/// The start of the message for a color that is not `#rrggbb`.
pub const INVALID_COLOR_PREFIX: &'static str = "invalid color ";

/// The end of the message for a color that is not `#rrggbb`.
pub const INVALID_COLOR_SUFFIX: &'static str = ": expected `#rrggbb`";

impl StyleguideError {
    /// The error as a person reads it.
    pub fn message(&self) -> (r: String)
        ensures
            match self {
                StyleguideError::MissingFrontmatter => r@ == MISSING_FRONTMATTER_MESSAGE@,
                StyleguideError::Yaml(_) => starts_with(r@, INVALID_YAML_PREFIX@),
                StyleguideError::InvalidColor(raw) => r@ == INVALID_COLOR_PREFIX@ + debug_quoted_text(raw@)
                    + INVALID_COLOR_SUFFIX@,
            },
    {
        match self {
            StyleguideError::MissingFrontmatter => String::from_str(MISSING_FRONTMATTER_MESSAGE),
            StyleguideError::Yaml(error) => {
                let mut out = String::from_str(INVALID_YAML_PREFIX);
                let detail = yaml_error_text(error);
                out.append(detail.as_str());
                proof {
                    assert((INVALID_YAML_PREFIX@ + detail@).take(INVALID_YAML_PREFIX@.len() as int) =~= INVALID_YAML_PREFIX@);
                }
                out
            },
            StyleguideError::InvalidColor(raw) => {
                let mut out = String::from_str(INVALID_COLOR_PREFIX);
                let quoted = debug_quoted(raw.as_str());
                out.append(quoted.as_str());
                out.append(INVALID_COLOR_SUFFIX);
                out
            },
        }
    }
}

/// `---`.
pub open spec fn fence() -> Seq<char> {
    seq!['-', '-', '-']
}

/// A line break followed by `---`: where the block closes.
pub open spec fn closing_fence() -> Seq<char> {
    seq!['\n', '-', '-', '-']
}

/// What follows the opening `---`, without one `"\n"` or `"\r\n"` right after it.
pub open spec fn after_opening(document: Seq<char>) -> Seq<char> {
    let body = document.skip(3);
    if starts_with(body, seq!['\n']) {
        body.skip(1)
    } else if starts_with(body, seq!['\r', '\n']) {
        body.skip(2)
    } else {
        body
    }
}

/// The YAML block of `document`: the text between the opening `---` (and its line break)
/// and the first `"\n---"` after it. `None` when the document does not start with `---`
/// or the block is never closed.
pub open spec fn spec_frontmatter(document: Seq<char>) -> Option<Seq<char>> {
    if !starts_with(document, fence()) {
        None
    } else {
        let body = after_opening(document);
        match find_from(body, closing_fence(), 0) {
            Some(end) => Some(body.take(end)),
            None => None,
        }
    }
}

/// The YAML block of a styleguide document (the markdown after it is prose for people,
/// not read here).
pub fn frontmatter(document: &str) -> (r: Result<&str, StyleguideError>)
    ensures
        match r {
            Ok(block) => spec_frontmatter(document@) == Some(block@),
            Err(e) => spec_frontmatter(document@) is None && e is MissingFrontmatter,
        },
{
    let chars = chars_of(document);
    let n = chars.len();
    let opening = vec!['-', '-', '-'];
    if n < 3 || chars[0] != '-' || chars[1] != '-' || chars[2] != '-' {
        proof {
            if starts_with(document@, fence()) {
                assert(document@.take(3)[0] == '-');
                assert(document@.take(3)[1] == '-');
                assert(document@.take(3)[2] == '-');
            }
        }
        return Err(StyleguideError::MissingFrontmatter);
    }
    proof {
        assert(document@.take(3) =~= fence());
    }
    let mut start: usize = 3;
    if n > 3 && chars[3] == '\n' {
        start = 4;
        proof {
            assert(document@.skip(3).take(1) =~= seq!['\n']);
            assert(document@.skip(3).skip(1) =~= document@.skip(4));
        }
    } else if n > 4 && chars[3] == '\r' && chars[4] == '\n' {
        start = 5;
        proof {
            let body = document@.skip(3);
            assert(!starts_with(body, seq!['\n'])) by {
                if starts_with(body, seq!['\n']) {
                    assert(body.take(1)[0] == '\n');
                }
            }
            assert(body.take(2) =~= seq!['\r', '\n']);
            assert(body.skip(2) =~= document@.skip(5));
        }
    } else {
        proof {
            let body = document@.skip(3);
            assert(!starts_with(body, seq!['\n'])) by {
                if starts_with(body, seq!['\n']) {
                    assert(body.take(1)[0] == '\n');
                }
            }
            assert(!starts_with(body, seq!['\r', '\n'])) by {
                if starts_with(body, seq!['\r', '\n']) {
                    assert(body.take(2)[0] == '\r');
                    assert(body.take(2)[1] == '\n');
                }
            }
        }
    }
    let ghost body = after_opening(document@);
    assert(body =~= chars@.skip(start as int));
    let closing = vec!['\n', '-', '-', '-'];
    assert(closing@ =~= closing_fence());
    match find_text(&chars, &closing, start) {
        None => {
            proof {
                lemma_find_shift(chars@, closing@, start as int, 0);
            }
            Err(StyleguideError::MissingFrontmatter)
        },
        Some(k) => {
            proof {
                lemma_find_from(chars@, closing@, start as int);
                lemma_find_shift(chars@, closing@, start as int, 0);
                assert(body.take(k - start) =~= chars@.subrange(start as int, k as int));
            }
            Ok(document.substring_char(start, k))
        },
    }
}

/// Searching the text from `start` on finds what searching its suffix from 0 finds,
/// shifted by `start`.
proof fn lemma_find_shift(s: Seq<char>, p: Seq<char>, start: int, i: int)
    requires
        0 <= start <= s.len(),
        0 <= i,
    ensures
        find_from(s, p, start + i) == (match find_from(s.skip(start), p, i) {
            Some(k) => Some(k + start),
            None => None,
        }),
    decreases s.len() + 1 - (start + i),
{
    let t = s.skip(start);
    if start + i + p.len() > s.len() {
    } else {
        assert(s.subrange(start + i, start + i + p.len()) =~= t.subrange(i, i + p.len()));
        if s.subrange(start + i, start + i + p.len()) != p {
            lemma_find_shift(s, p, start, i + 1);
        }
    }
}

/// The color a styleguide entry denotes: one leading `#` is dropped, then the text must
/// be exactly six hex digits `rrggbb`, read in pairs.
pub open spec fn spec_parse_hex(hex: Seq<char>) -> Option<(u8, u8, u8)> {
    spec_strict_hex_triple(strip_one_leading(hex, '#'))
}

/// Parses a styleguide color, `#rrggbb` or `rrggbb`; anything else gives `None`.
pub fn parse_hex(hex: &str) -> (r: Option<(u8, u8, u8)>)
    ensures
        r == spec_parse_hex(hex@),
{
    strict_hex_triple(strip_one_char(hex, '#'))
}

/// The color named `name` in `entries`: the first entry with that name.
pub open spec fn spec_lookup(entries: Seq<(Seq<char>, (u8, u8, u8))>, name: Seq<char>) -> Option<(u8, u8, u8)>
    decreases entries.len(),
{
    if entries.len() == 0 {
        None
    } else if entries[0].0 == name {
        Some(entries[0].1)
    } else {
        spec_lookup(entries.drop_first(), name)
    }
}

/// The lookup finds the first entry carrying the name.
proof fn lemma_lookup_at(entries: Seq<(Seq<char>, (u8, u8, u8))>, name: Seq<char>, i: int)
    requires
        0 <= i < entries.len(),
        entries[i].0 == name,
        forall|j: int| 0 <= j < i ==> (#[trigger] entries[j]).0 != name,
    ensures
        spec_lookup(entries, name) == Some(entries[i].1),
    decreases i,
{
    if i > 0 {
        let rest = entries.drop_first();
        assert forall|j: int| 0 <= j < i - 1 implies (#[trigger] rest[j]).0 != name by {
            assert(rest[j] == entries[j + 1]);
        }
        lemma_lookup_at(rest, name, i - 1);
    }
}

/// The lookup of a name no entry carries finds nothing.
proof fn lemma_lookup_absent(entries: Seq<(Seq<char>, (u8, u8, u8))>, name: Seq<char>)
    requires
        forall|j: int| 0 <= j < entries.len() ==> (#[trigger] entries[j]).0 != name,
    ensures
        spec_lookup(entries, name) is None,
    decreases entries.len(),
{
    if entries.len() > 0 {
        let rest = entries.drop_first();
        assert forall|j: int| 0 <= j < rest.len() implies (#[trigger] rest[j]).0 != name by {
            assert(rest[j] == entries[j + 1]);
        }
        lemma_lookup_absent(rest, name);
    }
}

/// A table built from a styleguide's `colors` (whose names are distinct, as YAML map keys
/// are) gives back, for each name, the color its entry was written with, and nothing for a
/// name that was not written.
pub proof fn law_table_reads_back(
    raw: Seq<(Seq<char>, Seq<char>)>,
    table: Seq<(Seq<char>, (u8, u8, u8))>,
    name: Seq<char>,
)
    requires
        forall|i: int, j: int| 0 <= i < j < raw.len() ==> (#[trigger] raw[i]).0 != (#[trigger] raw[j]).0,
        first_bad_color(raw) is None,
        table.len() == raw.len(),
        forall|i: int| 0 <= i < raw.len() ==> #[trigger] table[i] == (raw[i].0, spec_parse_hex(raw[i].1)->0),
    ensures
        forall|i: int| 0 <= i < raw.len() && raw[i].0 == name ==> spec_lookup(table, name) == spec_parse_hex(
            raw[i].1,
        ),
        (forall|i: int| 0 <= i < raw.len() ==> (#[trigger] raw[i]).0 != name) ==> spec_lookup(table, name) is None,
{
    assert forall|i: int| 0 <= i < raw.len() && raw[i].0 == name implies spec_lookup(table, name)
        == spec_parse_hex(raw[i].1) by {
        assert forall|j: int| 0 <= j < i implies (#[trigger] table[j]).0 != name by {
            assert(raw[j].0 != raw[i].0);
        }
        lemma_lookup_at(table, name, i);
        if spec_parse_hex(raw[i].1) is None {
            assert(exists|k: int| 0 <= k < raw.len() && (#[trigger] spec_parse_hex(raw[k].1)) is None);
        }
    }
    if forall|i: int| 0 <= i < raw.len() ==> (#[trigger] raw[i]).0 != name {
        assert forall|j: int| 0 <= j < table.len() implies (#[trigger] table[j]).0 != name by {
            assert(raw[j].0 != name);
        }
        lemma_lookup_absent(table, name);
    }
}

/// The first raw entry whose color does not parse, if any.
pub open spec fn first_bad_color(raw: Seq<(Seq<char>, Seq<char>)>) -> Option<int> {
    if exists|i: int| 0 <= i < raw.len() && (#[trigger] spec_parse_hex(raw[i].1)) is None {
        Some(choose|i: int| 0 <= i < raw.len() && (#[trigger] spec_parse_hex(raw[i].1)) is None
            && forall|j: int| 0 <= j < i ==> (#[trigger] spec_parse_hex(raw[j].1)) is Some)
    } else {
        None
    }
}

/// Named colors, in the order they were read.
pub struct ColorTable {
    entries: Vec<(String, (u8, u8, u8))>,
}

impl View for ColorTable {
    type V = Seq<(Seq<char>, (u8, u8, u8))>;

    closed spec fn view(&self) -> Seq<(Seq<char>, (u8, u8, u8))> {
        self.entries@.map_values(|e: (String, (u8, u8, u8))| (e.0@, e.1))
    }
}

/// The plain values of raw `(name, hex)` entries.
pub open spec fn raw_view(raw: Seq<(String, String)>) -> Seq<(Seq<char>, Seq<char>)> {
    raw.map_values(|e: (String, String)| (e.0@, e.1@))
}

impl ColorTable {
    /// Builds the table from the `colors` entries of a styleguide, in the order given.
    /// Fails with the first entry (in that order) whose color is not `#rrggbb`.
    pub fn from_hex_entries(raw: &Vec<(String, String)>) -> (r: Result<ColorTable, StyleguideError>)
        ensures
            match r {
                Ok(table) => {
                    &&& first_bad_color(raw_view(raw@)) is None
                    &&& table@.len() == raw@.len()
                    &&& forall|i: int| 0 <= i < raw@.len() ==> #[trigger] table@[i] == (
                        raw@[i].0@,
                        spec_parse_hex(raw@[i].1@)->0,
                    )
                },
                Err(StyleguideError::InvalidColor(hex)) => first_bad_color(raw_view(raw@)) matches Some(k)
                    && hex@ == raw@[k].1@,
                Err(_) => false,
            },
    {
        let ghost rv = raw_view(raw@);
        let mut entries: Vec<(String, (u8, u8, u8))> = Vec::new();
        let n = raw.len();
        let mut i: usize = 0;
        while i < n
            invariant
                n == raw@.len(),
                i <= n,
                rv == raw_view(raw@),
                entries@.len() == i,
                forall|j: int| 0 <= j < i ==> (#[trigger] spec_parse_hex(rv[j].1)) is Some,
                forall|j: int| 0 <= j < i ==> (#[trigger] entries@[j]).0@ == raw@[j].0@,
                forall|j: int| 0 <= j < i ==> (#[trigger] entries@[j]).1 == spec_parse_hex(raw@[j].1@)->0,
            decreases n - i,
        {
            let parsed = parse_hex(raw[i].1.as_str());
            match parsed {
                Some(rgb) => {
                    let name = raw[i].0.clone();
                    entries.push((name, rgb));
                    proof {
                        assert(rv[i as int].1 == raw@[i as int].1@);
                    }
                },
                None => {
                    proof {
                        assert(rv[i as int].1 == raw@[i as int].1@);
                        assert(spec_parse_hex(rv[i as int].1) is None);
                        assert(0 <= i < rv.len() && spec_parse_hex(rv[i as int].1) is None && forall|j: int|
                            0 <= j < i ==> (#[trigger] spec_parse_hex(rv[j].1)) is Some);
                        assert(first_bad_color(rv) is Some);
                        let k = first_bad_color(rv)->0;
                        if k < i {
                            assert(spec_parse_hex(rv[k].1) is Some);
                        }
                        if k > i {
                            assert(spec_parse_hex(rv[i as int].1) is Some);
                        }
                        assert(k == i);
                    }
                    return Err(StyleguideError::InvalidColor(raw[i].1.clone()));
                },
            }
            i = i + 1;
        }
        let table = ColorTable { entries };
        proof {
            assert forall|j: int| 0 <= j < raw@.len() implies #[trigger] table@[j] == (
                raw@[j].0@,
                spec_parse_hex(raw@[j].1@)->0,
            ) by {
                assert(table.entries@[j].0@ == raw@[j].0@);
            }
            if first_bad_color(rv) is Some {
                let k = choose|k: int| 0 <= k < rv.len() && (#[trigger] spec_parse_hex(rv[k].1)) is None;
                assert(spec_parse_hex(rv[k].1) is Some);
            }
        }
        Ok(table)
    }

    /// The color named `name`, if the table has one.
    pub fn color(&self, name: &str) -> (r: Option<(u8, u8, u8)>)
        ensures
            r == spec_lookup(self@, name@),
    {
        let n = self.entries.len();
        let mut i: usize = 0;
        proof {
            assert(self@.skip(0) =~= self@);
        }
        while i < n
            invariant
                n == self.entries@.len(),
                i <= n,
                spec_lookup(self@, name@) == spec_lookup(self@.skip(i as int), name@),
            decreases n - i,
        {
            proof {
                assert(self@.skip(i as int).drop_first() =~= self@.skip(i + 1));
            }
            if text_eq(self.entries[i].0.as_str(), name) {
                return Some(self.entries[i].1);
            }
            i = i + 1;
        }
        None
    }
}

} // verus!
