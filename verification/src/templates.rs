//! The files `escher init` writes into a fresh project directory. The texts that name the
//! project are built here; writing them to disk (and refusing to overwrite) is the
//! command's own business.

use vstd::prelude::*;
use vstd::string::*;

verus! {

/// `Cargo.toml` up to the package name.
pub const CARGO_TOML_HEAD: &'static str = "[package]\nname = \"";

/// `Cargo.toml` between the package name and the Anvil title.
pub const CARGO_TOML_MIDDLE: &'static str = "\"\nversion = \"0.1.0\"\nedition = \"2024\"\n\n# Read by a mounted Anvil in place of its own default title/tagline — see this\n# workspace's own `spec/ROADMAP.md`, \"Anvil as a mountable exoskeleton.\"\n[package.metadata.anvil]\ntitle = \"";

/// `Cargo.toml` after the Anvil title.
pub const CARGO_TOML_TAIL: &'static str = "\"\ntagline = \"A new Escher project.\"\n\n[dependencies]\n";

/// `spec/README.md` up to the project name.
pub const README_HEAD: &'static str = "# ";

/// `spec/README.md` after the project name.
pub const README_TAIL: &'static str = "\n\nAn Escher project. `pages/index.html` is a real `<escher-scaffold>` page — open it\nwith `escher anvil` (or any Escher-aware surface) to see it rendered.\n\n`spec/.agents/` mirrors this workspace's own convention: `changelog.md` (terse,\none-line-per-change, newest at the top) and `handoff.md` (overwritten each session,\nnot appended to — always describes *current* state for whoever picks this up next).\n";

/// `src/main.rs` of a new project.
pub const MAIN_RS: &'static str = "fn main() {\n    println!(\"This project's real content lives in pages/ and spec/ — open it with `escher anvil`.\");\n}\n";

/// `pages/index.html` of a new project.
pub const EXAMPLE_PAGE: &'static str = "<!doctype html>\n<html lang=\"en\">\n<head>\n<meta charset=\"utf-8\" />\n<title>A new Escher project</title>\n<script type=\"module\" src=\"/scaffold-element.js\"></script>\n</head>\n<body style=\"margin: 0; background: #000;\">\n<escher-scaffold>\n  <div style=\"display: flex; flex-direction: column; gap: 12px; padding: 24px; color: #e2e2e2; font-family: system-ui;\">\n    <h1 style=\"margin: 0;\">Hello from a new Escher project</h1>\n    <p style=\"margin: 0; opacity: 0.7;\">\n      This is a real, editable <code>Scaffold</code> page — not a placeholder screenshot.\n    </p>\n    <div style=\"display: flex; gap: 8px;\">\n      <button style=\"padding: 8px 14px;\">A button</button>\n      <input placeholder=\"A text field\" style=\"padding: 8px 10px;\" />\n    </div>\n  </div>\n</escher-scaffold>\n</body>\n</html>\n";

/// `spec/.agents/changelog.md` of a new project.
pub const CHANGELOG_STUB: &'static str = "# Changelog\n\nTerse, one-line-per-entry, newest at the top.\n";

/// `spec/.agents/handoff.md` of a new project.
pub const HANDOFF_STUB: &'static str = "# Handoff\n\nOverwrite this each session with *current* state — don't append.\n\n(Nothing built yet.)\n";

/// The manifest text for a project named `name`: the name is both the package name and
/// the title a mounted Anvil shows.
pub open spec fn cargo_toml_text(name: Seq<char>) -> Seq<char> {
    CARGO_TOML_HEAD@ + name + CARGO_TOML_MIDDLE@ + name + CARGO_TOML_TAIL@
}

/// The spec README text for a project named `name`: a heading with the name, then the
/// fixed description.
pub open spec fn spec_readme_text(name: Seq<char>) -> Seq<char> {
    README_HEAD@ + name + README_TAIL@
}

/// `Cargo.toml` for a new project named `project_name`.
pub fn cargo_toml(project_name: &str) -> (r: String)
    ensures
        r@ == cargo_toml_text(project_name@),
{
    let mut out = String::from_str(CARGO_TOML_HEAD);
    out.append(project_name);
    out.append(CARGO_TOML_MIDDLE);
    out.append(project_name);
    out.append(CARGO_TOML_TAIL);
    out
}

/// `spec/README.md` for a new project named `project_name`.
pub fn spec_readme(project_name: &str) -> (r: String)
    ensures
        r@ == spec_readme_text(project_name@),
{
    let mut out = String::from_str(README_HEAD);
    out.append(project_name);
    out.append(README_TAIL);
    out
}

} // verus!
