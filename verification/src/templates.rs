//! Where the page templates are found.

use vstd::prelude::*;

verus! {

/// The glob that finds every template under the templates directory:
/// `{templates_dir}/**/*`.
pub fn template_glob(templates_dir: &str) -> (out: String)
    ensures
        out@ == templates_dir@ + "/**/*"@,
{
    let mut out = templates_dir.to_owned();
    out.append("/**/*");
    out
}

/// The template suffixes whose output is HTML-escaped: `.html` alone; the
/// XML feed escapes its own text.
pub fn autoescaped_suffixes() -> (out: Vec<&'static str>)
    ensures
        out@.len() == 1,
        out@[0]@ == ".html"@,
{
    let mut out: Vec<&'static str> = Vec::new();
    out.push(".html");
    out
}

} // verus!
