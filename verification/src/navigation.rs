//! Reading the host out of a URL typed into the address bar, without a URL parser: the
//! `scheme://host/path` shape is all the callers see.

use vstd::prelude::*;
use vstd::string::*;

use crate::commands::trim_end_char;
use crate::scaffold::Scaffold;
use crate::text::{has_at, chars_of, find_char, find_text, find_from, first_char_in, lemma_find_from, string_of};

verus! {

broadcast use vstd::string::group_string_axioms;

/// The `host[:port]` part of `url`: after the first `"://"`, up to the next `"://"` or
/// the first `'/'`, whichever comes first (what `url.split("://").nth(1)` followed by
/// `.split('/').next()` gives). `None` when `url` holds no `"://"`.
pub open spec fn spec_authority(url: Seq<char>) -> Option<Seq<char>> {
    match find_from(url, "://"@, 0) {
        Some(k) => {
            let start = k + 3;
            let end = match find_from(url, "://"@, start) {
                Some(q) => q,
                None => url.len() as int,
            };
            Some(url.subrange(start, first_char_in(url, '/', start, end)))
        },
        None => None,
    }
}

/// The authority of `url`, computed.
pub fn authority(url: &str) -> (r: Option<String>)
    ensures
        match r {
            Some(a) => spec_authority(url@) == Some(a@),
            None => spec_authority(url@) is None,
        },
{
    let chars = chars_of(url);
    let n = chars.len();
    let sep = chars_of("://");
    proof {
        reveal_strlit("://");
    }
    match find_text(&chars, &sep, 0) {
        None => None,
        Some(k) => {
            proof {
                lemma_find_from(chars@, sep@, 0);
                assert(k + 3 <= chars@.len());
            }
            let start = k + 3;
            let end = match find_text(&chars, &sep, start) {
                Some(q) => q,
                None => chars.len(),
            };
            proof {
                lemma_find_from(chars@, sep@, start as int);
            }
            let stop = find_char(&chars, '/', start, end);
            Some(string_of(&chars, start, stop))
        },
    }
}

/// A URL's host, for favicon lookup and display; the whole `url` when it has no
/// `scheme://`.
pub fn host_of(url: &str) -> (r: String)
    ensures
        r@ == (match spec_authority(url@) {
            Some(a) => a,
            None => url@,
        }),
{
    match authority(url) {
        Some(a) => a,
        None => url.to_owned(),
    }
}

/// The pages served under the app's own `anvil://` scheme.
#[derive(Clone, Copy, Debug, PartialEq, Eq, Structural)]
pub enum AnvilPage {
    /// `anvil://settings`.
    Settings,
}

/// The page name an `anvil://` address asks for: the text after `anvil://` (the whole
/// address when it lacks the scheme), without trailing slashes.
pub open spec fn anvil_page_name(url: Seq<char>) -> Seq<char> {
    let rest = if url.len() >= "anvil://"@.len() && url.take("anvil://"@.len() as int) == "anvil://"@ {
        url.skip("anvil://"@.len() as int)
    } else {
        url
    };
    trim_end_char(rest, '/')
}

/// The `anvil://` page an address asks for: `settings` (trailing slashes allowed) is the
/// one page there is; anything else has none.
pub fn anvil_page(url: &str) -> (r: Option<AnvilPage>)
    ensures
        r == (if anvil_page_name(url@) == "settings"@ { Some(AnvilPage::Settings) } else { None }),
{
    let chars = chars_of(url);
    let scheme = chars_of("anvil://");
    let start: usize = if has_at(&chars, 0, &scheme) { scheme.len() } else { 0 };
    proof {
        if chars@.len() >= scheme@.len() {
            assert(chars@.subrange(0, scheme@.len() as int) =~= chars@.take(scheme@.len() as int));
        }
        assert(chars@.subrange(start as int, chars@.len() as int) =~= (if start > 0 {
            url@.skip(scheme@.len() as int)
        } else {
            url@
        }));
    }
    let mut end = chars.len();
    while end > start && chars[end - 1] == '/'
        invariant
            start <= end <= chars@.len(),
            chars@ == url@,
            trim_end_char(chars@.subrange(start as int, chars@.len() as int), '/') == trim_end_char(
                chars@.subrange(start as int, end as int),
                '/',
            ),
        decreases end - start,
    {
        proof {
            let t = chars@.subrange(start as int, end as int);
            assert(t.last() == '/');
            assert(t.drop_last() =~= chars@.subrange(start as int, end - 1));
        }
        end = end - 1;
    }
    proof {
        let t = chars@.subrange(start as int, end as int);
        if t.len() > 0 {
            assert(t.last() == chars@[end - 1]);
        }
    }
    let name = string_of(&chars, start, end);
    if crate::text::text_eq(name.as_str(), "settings") {
        Some(AnvilPage::Settings)
    } else {
        None
    }
}

/// The settings page's heading.
pub const SETTINGS_TITLE: &'static str = "Anvil Settings";
/// The settings page's text.
pub const SETTINGS_BODY: &'static str = "Nothing configurable here yet \u{2014} this is a stub.";
/// The slot kind of a page's heading.
pub const TITLE_KIND: u64 = 1;
/// The slot kind of a page's text.
pub const BODY_KIND: u64 = 2;

/// Draws a page's heading into a blank node.
fn draw_settings_title(t: Scaffold<()>) -> (c: Scaffold<()>)
    ensures
        c.text() == Some(SETTINGS_TITLE@),
{
    t.content(Some(SETTINGS_TITLE))
}

/// Draws the settings page's text into a blank node.
fn draw_settings_body(b: Scaffold<()>) -> (c: Scaffold<()>)
    ensures
        c.text() == Some(SETTINGS_BODY@),
{
    b.content(Some(SETTINGS_BODY))
}

/// The settings page's tree: a heading slot, then a text slot, each holding its text.
pub fn settings_page() -> (r: Scaffold<()>)
    ensures
        r.children().len() == 2,
        r.children()[0].0 == (TITLE_KIND, 0usize),
        r.children()[0].1.text() == Some(SETTINGS_TITLE@),
        r.children()[1].0 == (BODY_KIND, 0usize),
        r.children()[1].1.text() == Some(SETTINGS_BODY@),
{
    let root: Scaffold<()> = Scaffold::new();
    let with_title = root.slot(TITLE_KIND, draw_settings_title);
    let page = with_title.slot(BODY_KIND, draw_settings_body);
    proof {
        assert(page.children()[0] == with_title.children()[0]);
        assert(with_title.children().drop_last() =~= root.children());
        assert(crate::scaffold::kind_count(root.children(), BODY_KIND) == 0);
        assert(crate::scaffold::kind_count(with_title.children(), BODY_KIND) == 0);
    }
    page
}

} // verus!
