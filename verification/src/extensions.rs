//! Dev-tool extensions: every `.js` and `.css` file of the configured directories becomes
//! part of one script that each browser tab runs. A script is taken as is; a stylesheet
//! becomes a snippet that appends a `<style>` element holding it, its text embedded as a JSON
//! string literal so that nothing in it can break out of the script. Reading the directories
//! is the caller's part.

use vstd::prelude::*;
use vstd::string::*;

use crate::text::push_char;

verus! {

broadcast use vstd::string::group_string_axioms;

#[verifier::external_type_specification]
#[verifier::external_body]
pub struct ExJsonError(serde_json::Error);

/// The lower-case hex digit for `n` (below 16).
pub open spec fn lower_hex_digit(n: u32) -> char {
    if n < 10 {
        (0x30 + n) as char
    } else {
        (0x61 + n - 10) as char
    }
}

/// How serde_json writes one character inside a string literal: a quote and a backslash
/// behind a backslash; backspace, tab, line feed, form feed and carriage return as `\b`,
/// `\t`, `\n`, `\f`, `\r`; any other character below U+0020 as `\u00XX` in lower-case
/// hex; every other character as it is.
pub open spec fn json_escape(c: char) -> Seq<char> {
    if c == '"' {
        seq!['\\', '"']
    } else if c == '\\' {
        seq!['\\', '\\']
    } else if c == '\u{8}' {
        seq!['\\', 'b']
    } else if c == '\t' {
        seq!['\\', 't']
    } else if c == '\n' {
        seq!['\\', 'n']
    } else if c == '\u{c}' {
        seq!['\\', 'f']
    } else if c == '\r' {
        seq!['\\', 'r']
    } else if (c as u32) < 0x20 {
        seq!['\\', 'u', '0', '0', lower_hex_digit((c as u32) / 16), lower_hex_digit((c as u32) % 16)]
    } else {
        seq![c]
    }
}

/// The characters of `text`, each as [`json_escape`] writes it.
pub open spec fn json_escaped(text: Seq<char>) -> Seq<char>
    decreases text.len(),
{
    if text.len() == 0 {
        Seq::empty()
    } else {
        json_escaped(text.drop_last()) + json_escape(text.last())
    }
}

/// The JSON string literal serde_json writes for a text: the escaped text in double quotes.
pub open spec fn json_string_literal(text: Seq<char>) -> Seq<char> {
    seq!['"'] + json_escaped(text) + seq!['"']
}

/// `serde_json::to_string` of a string slice. Claimed: it succeeds (a string serializes
/// into an in-memory buffer, which cannot fail), and the result is [`json_string_literal`]
/// of the characters, as serde_json's escape table writes it.
#[verifier::external_body]
fn json_encode_str(text: &str) -> (r: Result<String, serde_json::Error>)
    ensures
        r is Ok,
        r matches Ok(s) ==> s@ == json_string_literal(text@),
{
    serde_json::to_string(text)
}

/// The start of a stylesheet's snippet, up to its encoded text.
pub const STYLE_SNIPPET_HEAD: &'static str = "(() => { const style = document.createElement('style'); style.textContent = ";

/// The rest of a stylesheet's snippet after its encoded text.
pub const STYLE_SNIPPET_TAIL: &'static str = "; (document.head ?? document.documentElement).appendChild(style); })();\n";

/// What an encoding that failed is replaced by: an empty JSON string.
pub const EMPTY_JSON_STRING: &'static str = "\"\"";

/// A stylesheet's snippet around its already-encoded text.
pub open spec fn style_snippet_text(encoded: Seq<char>) -> Seq<char> {
    STYLE_SNIPPET_HEAD@ + encoded + STYLE_SNIPPET_TAIL@
}

/// The snippet that appends a `<style>` element with the given encoded text.
pub fn style_snippet(encoded: &str) -> (r: String)
    ensures
        r@ == style_snippet_text(encoded@),
{
    let mut out = String::from_str(STYLE_SNIPPET_HEAD);
    out.append(encoded);
    out.append(STYLE_SNIPPET_TAIL);
    out
}

/// The stylesheet snippet for the outcome of encoding `contents`: the encoded text, or an
/// empty JSON string when encoding failed.
pub fn style_snippet_from(encoded: Result<String, serde_json::Error>) -> (r: String)
    ensures
        match encoded {
            Ok(e) => r@ == style_snippet_text(e@),
            Err(_) => r@ == style_snippet_text(EMPTY_JSON_STRING@),
        },
{
    match encoded {
        Ok(e) => style_snippet(e.as_str()),
        Err(_) => style_snippet(EMPTY_JSON_STRING),
    }
}

/// The kind of an extension file, by its file extension.
#[derive(Clone, Copy, PartialEq, Eq, Structural, Debug)]
pub enum ExtensionFile {
    Script,
    Style,
}

/// `js` is a script, `css` a stylesheet; any other extension is skipped.
pub fn extension_file_kind(extension: &str) -> (r: Option<ExtensionFile>)
    ensures
        r == (if extension@ == "js"@ {
            Some(ExtensionFile::Script)
        } else if extension@ == "css"@ {
            Some(ExtensionFile::Style)
        } else {
            None
        }),
{
    if crate::text::text_eq(extension, "js") {
        Some(ExtensionFile::Script)
    } else if crate::text::text_eq(extension, "css") {
        Some(ExtensionFile::Style)
    } else {
        None
    }
}

/// What one file adds to the combined script: a script followed by a line break, or a
/// stylesheet's snippet; nothing for another kind of file.
pub fn extension_snippet(extension: &str, contents: &str) -> (r: Option<String>)
    ensures
        extension@ == "js"@ ==> (r matches Some(s) && s@ == contents@.push('\n')),
        extension@ != "js"@ && extension@ == "css"@ ==> (r matches Some(s) && s@ == style_snippet_text(
            json_string_literal(contents@),
        )),
        extension@ != "js"@ && extension@ != "css"@ ==> r is None,
{
    match extension_file_kind(extension) {
        Some(ExtensionFile::Script) => {
            let mut out = String::from_str(contents);
            push_char(&mut out, '\n');
            Some(out)
        },
        Some(ExtensionFile::Style) => Some(style_snippet_from(json_encode_str(contents))),
        None => None,
    }
}

} // verus!
