//! The `/shape` command's parsing half: picking the one JSON payload out of a script's
//! progress-noisy stdout, and reading the box's `#rrggbb` color.

use vstd::prelude::*;
use vstd::string::*;

use crate::hex::{hex_triple, spec_hex_triple, triple_slicing_panics};
use crate::text::{chars_of, trim_leading, trim_start_char};

verus! {

broadcast use vstd::string::group_string_axioms;

/// The characters of `t` after its last `'\n'` (all of `t` when it holds none).
pub open spec fn after_last_newline(t: Seq<char>) -> Seq<char>
    decreases t.len(),
{
    if t.len() == 0 {
        t
    } else if t.last() == '\n' {
        Seq::empty()
    } else {
        after_last_newline(t.drop_last()).push(t.last())
    }
}

/// `x` without one trailing `'\r'`.
pub open spec fn strip_trailing_cr(x: Seq<char>) -> Seq<char> {
    if x.len() > 0 && x.last() == '\r' {
        x.drop_last()
    } else {
        x
    }
}

/// The last item `str::lines` yields for `s`, or `s` itself when it yields none (empty
/// `s`). A line ends at `"\n"` or `"\r\n"`; the final line ending is optional, and a `'\r'`
/// that no `'\n'` follows stays part of its line.
pub open spec fn spec_last_line(s: Seq<char>) -> Seq<char> {
    if s.len() == 0 {
        s
    } else if s.last() == '\n' {
        strip_trailing_cr(after_last_newline(s.drop_last()))
    } else {
        after_last_newline(s)
    }
}

proof fn lemma_after_last_newline(t: Seq<char>, k: int)
    requires
        0 <= k <= t.len(),
        k == 0 || t[k - 1] == '\n',
        forall|i: int| k <= i < t.len() ==> t[i] != '\n',
    ensures
        after_last_newline(t) == t.subrange(k, t.len() as int),
    decreases t.len(),
{
    if t.len() == k {
        if k > 0 {
            assert(t.last() == '\n');
        }
    } else {
        lemma_after_last_newline(t.drop_last(), k);
        assert(t.subrange(k, t.len() as int) =~= t.drop_last().subrange(
            k,
            t.drop_last().len() as int,
        ).push(t.last()));
    }
}

/// The start of the text after the last `'\n'` among the first `end` characters.
fn line_start(chars: &Vec<char>, end: usize) -> (k: usize)
    requires
        end <= chars@.len(),
    ensures
        k <= end,
        after_last_newline(chars@.take(end as int)) == chars@.subrange(k as int, end as int),
{
    let mut k = end;
    while k > 0 && chars[k - 1] != '\n'
        invariant
            k <= end <= chars@.len(),
            forall|i: int| k <= i < end ==> chars@[i] != '\n',
        decreases k,
    {
        k = k - 1;
    }
    proof {
        let t = chars@.take(end as int);
        lemma_after_last_newline(t, k as int);
        assert(t.subrange(k as int, t.len() as int) =~= chars@.subrange(k as int, end as int));
    }
    k
}

/// The last line of a script's stdout — the `run()` payload that follows any
/// `console.log` progress lines.
pub fn last_line(output: &str) -> (r: &str)
    ensures
        r@ == spec_last_line(output@),
{
    let chars = chars_of(output);
    let n = chars.len();
    if n == 0 {
        return output;
    }
    if chars[n - 1] == '\n' {
        let end = n - 1;
        let k = line_start(&chars, end);
        proof {
            assert(output@.drop_last() =~= chars@.take(end as int));
        }
        if end > k && chars[end - 1] == '\r' {
            proof {
                assert(chars@.subrange(k as int, end as int).drop_last() =~= chars@.subrange(
                    k as int,
                    end - 1,
                ));
            }
            output.substring_char(k, end - 1)
        } else {
            output.substring_char(k, end)
        }
    } else {
        let k = line_start(&chars, n);
        proof {
            assert(output@ =~= chars@.take(n as int));
        }
        output.substring_char(k, n)
    }
}

/// Parses a `#rrggbb` (or `rrggbb`) color into `(r, g, b)`; every leading `#` is dropped.
pub fn parse_hex_color(hex: &str) -> (r: Option<(u8, u8, u8)>)
    requires
        !triple_slicing_panics(trim_leading(hex@, '#')),
    ensures
        r == spec_hex_triple(trim_leading(hex@, '#')),
{
    hex_triple(trim_start_char(hex, '#'))
}

/// One entry of a node's `styles` array, as far as the renderer reads it.
pub struct StyleEntry {
    /// The style's `type`, when it is a string.
    pub kind: Option<String>,
    /// The style's `color`, when it is a string.
    pub color: Option<String>,
}

/// One node of a shape description, as far as the renderer reads it.
pub struct ShapeNode {
    /// The node's `styles`, when it is an array.
    pub styles: Option<Vec<StyleEntry>>,
    /// The node's `content`, when it is a string.
    pub content: Option<String>,
    /// The node's `children`, in order (none when absent or not an array).
    pub children: Vec<ShapeNode>,
}

/// `backgroundColor`.
pub open spec fn background_kind() -> Seq<char> {
    seq!['b', 'a', 'c', 'k', 'g', 'r', 'o', 'u', 'n', 'd', 'C', 'o', 'l', 'o', 'r']
}

/// Whether a style entry is a `backgroundColor` style.
pub open spec fn is_background(entry: StyleEntry) -> bool {
    entry.kind matches Some(k) && k@ == background_kind()
}

/// Whether one of the node's own styles is a `backgroundColor`.
pub open spec fn has_background(node: ShapeNode) -> bool {
    node.styles matches Some(styles) && exists|i: int| 0 <= i < styles@.len() && is_background(#[trigger] styles@[i])
}

/// The first node, depth first, with a `backgroundColor` style of its own.
pub open spec fn find_background(node: ShapeNode) -> Option<ShapeNode>
    decreases node, 1int,
{
    if has_background(node) {
        Some(node)
    } else {
        find_background_in(node.children@)
    }
}

/// The first node with a `backgroundColor` style in `nodes`, each searched depth first.
pub open spec fn find_background_in(nodes: Seq<ShapeNode>) -> Option<ShapeNode>
    decreases nodes, 0int,
{
    if nodes.len() == 0 {
        None
    } else {
        match find_background(nodes[0]) {
            Some(n) => Some(n),
            None => find_background_in(nodes.drop_first()),
        }
    }
}

/// Whether a style entry is a `backgroundColor` style.
fn is_background_entry(entry: &StyleEntry) -> (r: bool)
    ensures
        r == is_background(*entry),
{
    match &entry.kind {
        Some(k) => {
            let label = "backgroundColor";
            proof {
                reveal_strlit("backgroundColor");
                assert(label@ =~= background_kind());
            }
            crate::text::text_eq(k.as_str(), label)
        },
        None => false,
    }
}

/// Whether one of the node's own styles is a `backgroundColor`.
pub fn has_background_color(node: &ShapeNode) -> (r: bool)
    ensures
        r == has_background(*node),
{
    match &node.styles {
        Some(styles) => {
            let n = styles.len();
            let mut i: usize = 0;
            while i < n
                invariant
                    n == styles@.len(),
                    i <= n,
                    node.styles == Some(*styles),
                    forall|j: int| 0 <= j < i ==> !is_background(#[trigger] styles@[j]),
                decreases n - i,
            {
                if is_background_entry(&styles[i]) {
                    proof {
                        let ghost s = node.styles->0;
                        assert(s == *styles);
                        assert(is_background(s@[i as int]));
                        assert(has_background(*node));
                    }
                    return true;
                }
                i = i + 1;
            }
            false
        },
        None => false,
    }
}

/// The box of a shape description: the first node, depth first, with a `backgroundColor`
/// style of its own, however deep it is nested.
pub fn find_node_with_background_color(node: &ShapeNode) -> (r: Option<&ShapeNode>)
    ensures
        match r {
            Some(n) => find_background(*node) == Some(*n),
            None => find_background(*node) is None,
        },
    decreases node,
{
    if has_background_color(node) {
        return Some(node);
    }
    let kids = &node.children;
    let n = kids.len();
    let mut i: usize = 0;
    proof {
        assert(kids@.skip(0) =~= kids@);
    }
    while i < n
        invariant
            n == kids@.len(),
            i <= n,
            kids == &node.children,
            !has_background(*node),
            find_background_in(kids@) == find_background_in(kids@.skip(i as int)),
        decreases n - i,
    {
        proof {
            assert(kids@.skip(i as int)[0] == kids@[i as int]);
            assert(kids@.skip(i as int).drop_first() =~= kids@.skip(i + 1));
            assert(decreases_to!(*node => node.children@[i as int]));
        }
        match find_node_with_background_color(&kids[i]) {
            Some(found) => {
                proof {
                    assert(find_background(*node) == find_background_in(node.children@));
                    assert(find_background_in(kids@.skip(i as int)) == Some(*found));
                }
                return Some(found);
            },
            None => {},
        }
        i = i + 1;
    }
    None
}

/// A node's own `content` string, if it has one.
pub open spec fn own_contents(node: ShapeNode) -> Seq<Seq<char>> {
    match node.content {
        Some(c) => seq![c@],
        None => Seq::<Seq<char>>::empty(),
    }
}

/// Every `content` string in the tree, depth first, a node's own before its children's.
pub open spec fn node_contents(node: ShapeNode) -> Seq<Seq<char>>
    decreases node, 1int,
{
    own_contents(node) + contents_in(node.children@)
}

/// The `content` strings of `nodes` and their descendants, in order.
pub open spec fn contents_in(nodes: Seq<ShapeNode>) -> Seq<Seq<char>>
    decreases nodes, 0int,
{
    if nodes.len() == 0 {
        Seq::empty()
    } else {
        node_contents(nodes[0]) + contents_in(nodes.drop_first())
    }
}

/// The captions of a shape description: every `content` string, depth first.
pub fn collect_content_strings(node: &ShapeNode) -> (r: Vec<String>)
    ensures
        r@.map_values(|t: String| t@) == node_contents(*node),
    decreases node,
{
    let mut out: Vec<String> = Vec::new();
    match &node.content {
        Some(c) => out.push(c.clone()),
        None => {},
    }
    let ghost own = own_contents(*node);
    proof {
        assert(out@.map_values(|t: String| t@) =~= own);
    }
    let kids = &node.children;
    let n = kids.len();
    let mut i: usize = 0;
    proof {
        assert(kids@.skip(0) =~= kids@);
        assert(own + contents_in(kids@) =~= out@.map_values(|t: String| t@) + contents_in(kids@.skip(0)));
    }
    while i < n
        invariant
            n == kids@.len(),
            i <= n,
            kids == &node.children,
            own + contents_in(kids@) == out@.map_values(|t: String| t@) + contents_in(kids@.skip(i as int)),
        decreases n - i,
    {
        proof {
            assert(kids@.skip(i as int)[0] == kids@[i as int]);
            assert(kids@.skip(i as int).drop_first() =~= kids@.skip(i + 1));
            assert(decreases_to!(*node => node.children@[i as int]));
        }
        let ghost before = out@.map_values(|t: String| t@);
        let mut sub = collect_content_strings(&kids[i]);
        let ghost sub_view = sub@.map_values(|t: String| t@);
        out.append(&mut sub);
        proof {
            assert(out@.map_values(|t: String| t@) =~= before + sub_view);
            assert(before + contents_in(kids@.skip(i as int)) =~= before + sub_view + contents_in(kids@.skip(i + 1)));
        }
        i = i + 1;
    }
    proof {
        assert(contents_in(kids@.skip(n as int)) =~= Seq::<Seq<char>>::empty()) by {
            assert(kids@.skip(n as int).len() == 0);
        }
        assert(out@.map_values(|t: String| t@) + Seq::<Seq<char>>::empty() =~= out@.map_values(|t: String| t@));
    }
    out
}

/// The block color when the box names none: the accent blue.
pub open spec fn default_block_color() -> (u8, u8, u8) {
    (122u8, 162u8, 247u8)
}

/// The color a style list paints: the last `backgroundColor` style whose `color` parses,
/// the default when there is none.
pub open spec fn styles_color(styles: Seq<StyleEntry>) -> (u8, u8, u8)
    decreases styles.len(),
{
    if styles.len() == 0 {
        default_block_color()
    } else {
        let e = styles.last();
        if is_background(e) && e.color is Some && spec_hex_triple(trim_leading(e.color->0@, '#')) is Some {
            spec_hex_triple(trim_leading(e.color->0@, '#'))->0
        } else {
            styles_color(styles.drop_last())
        }
    }
}

/// Parsing the colors of a style list's `backgroundColor` styles never slices inside a
/// character.
pub open spec fn style_colors_parse(styles: Seq<StyleEntry>) -> bool {
    forall|i: int| 0 <= i < styles.len() && is_background(#[trigger] styles[i]) && styles[i].color is Some ==> !triple_slicing_panics(
        trim_leading(styles[i].color->0@, '#'),
    )
}

/// The color a style list paints.
pub fn shape_color(styles: &Vec<StyleEntry>) -> (r: (u8, u8, u8))
    requires
        style_colors_parse(styles@),
    ensures
        r == styles_color(styles@),
{
    let mut color: (u8, u8, u8) = (122, 162, 247);
    let n = styles.len();
    let mut i: usize = 0;
    while i < n
        invariant
            n == styles@.len(),
            i <= n,
            style_colors_parse(styles@),
            color == styles_color(styles@.take(i as int)),
        decreases n - i,
    {
        proof {
            assert(styles@.take(i + 1).drop_last() =~= styles@.take(i as int));
            assert(styles@.take(i + 1).last() == styles@[i as int]);
        }
        if is_background_entry(&styles[i]) {
            match &styles[i].color {
                Some(c) => {
                    proof {
                        assert(is_background(styles@[i as int]));
                    }
                    match parse_hex_color(c.as_str()) {
                        Some(rgb) => {
                            color = rgb;
                        },
                        None => {},
                    }
                },
                None => {},
            }
        }
        i = i + 1;
    }
    proof {
        assert(styles@.take(n as int) =~= styles@);
    }
    color
}

/// The style list the renderer paints from: the box's (the description itself when no
/// node has a `backgroundColor`), none when that node has no `styles` array.
pub open spec fn block_styles(description: ShapeNode) -> Seq<StyleEntry> {
    let node = match find_background(description) {
        Some(b) => b,
        None => description,
    };
    match node.styles {
        Some(s) => s@,
        None => Seq::empty(),
    }
}

/// The color of the terminal block a shape description renders as.
pub fn block_color(description: &ShapeNode) -> (r: (u8, u8, u8))
    requires
        style_colors_parse(block_styles(*description)),
    ensures
        r == styles_color(block_styles(*description)),
{
    let node = match find_node_with_background_color(description) {
        Some(b) => b,
        None => description,
    };
    match &node.styles {
        Some(styles) => shape_color(styles),
        None => {
            proof {
                assert(block_styles(*description) =~= Seq::<StyleEntry>::empty());
            }
            (122, 162, 247)
        },
    }
}

} // verus!
