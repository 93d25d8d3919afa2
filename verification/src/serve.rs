//! Serving the built site: which file answers a request path, and with
//! what content type.

use vstd::prelude::*;

use crate::paths::{
    extension, extension_dot_of, join, joined, name_span_of, path_starts_with, range_is,
    starts_with_path, with_html, with_html_of,
};
use crate::text::{chars_of, find_chars, find_from, string_of};

verus! {

/// The content type a file is served with, by its extension.
pub open spec fn mime_for(ext: Option<Seq<char>>) -> Seq<char> {
    match ext {
        Some(e) => if e == seq!['h', 't', 'm', 'l'] {
            "text/html; charset=utf-8"@
        } else if e == seq!['c', 's', 's'] {
            "text/css; charset=utf-8"@
        } else if e == seq!['j', 's'] {
            "application/javascript"@
        } else if e == seq!['x', 'm', 'l'] {
            "application/xml; charset=utf-8"@
        } else if e == seq!['s', 'v', 'g'] {
            "image/svg+xml"@
        } else if e == seq!['p', 'n', 'g'] {
            "image/png"@
        } else if e == seq!['j', 'p', 'g'] || e == seq!['j', 'p', 'e', 'g'] {
            "image/jpeg"@
        } else if e == seq!['g', 'i', 'f'] {
            "image/gif"@
        } else if e == seq!['i', 'c', 'o'] {
            "image/x-icon"@
        } else if e == seq!['w', 'o', 'f', 'f'] {
            "font/woff"@
        } else if e == seq!['w', 'o', 'f', 'f', '2'] {
            "font/woff2"@
        } else {
            "application/octet-stream"@
        },
        None => "application/octet-stream"@,
    }
}

/// The content type a file at `path` is served with, chosen by the path's
/// extension; `application/octet-stream` when none is known.
pub fn mime_type(path: &str) -> (r: &'static str)
    ensures
        r@ == mime_for(extension(path@)),
{
    let cs = chars_of(path);
    let (s, e) = match name_span_of(&cs) {
        Some(span) => span,
        None => {
            return "application/octet-stream";
        },
    };
    let k = match extension_dot_of(&cs, s, e) {
        Some(k) => k,
        None => {
            return "application/octet-stream";
        },
    };
    let lo: usize = s + k + 1;
    proof {
        assert(['h', 't', 'm', 'l']@ =~= seq!['h', 't', 'm', 'l']);
        assert(['c', 's', 's']@ =~= seq!['c', 's', 's']);
        assert(['j', 's']@ =~= seq!['j', 's']);
        assert(['x', 'm', 'l']@ =~= seq!['x', 'm', 'l']);
        assert(['s', 'v', 'g']@ =~= seq!['s', 'v', 'g']);
        assert(['p', 'n', 'g']@ =~= seq!['p', 'n', 'g']);
        assert(['j', 'p', 'g']@ =~= seq!['j', 'p', 'g']);
        assert(['j', 'p', 'e', 'g']@ =~= seq!['j', 'p', 'e', 'g']);
        assert(['g', 'i', 'f']@ =~= seq!['g', 'i', 'f']);
        assert(['i', 'c', 'o']@ =~= seq!['i', 'c', 'o']);
        assert(['w', 'o', 'f', 'f']@ =~= seq!['w', 'o', 'f', 'f']);
        assert(['w', 'o', 'f', 'f', '2']@ =~= seq!['w', 'o', 'f', 'f', '2']);
    }
    if range_is(&cs, lo, e, &['h', 't', 'm', 'l']) {
        "text/html; charset=utf-8"
    } else if range_is(&cs, lo, e, &['c', 's', 's']) {
        "text/css; charset=utf-8"
    } else if range_is(&cs, lo, e, &['j', 's']) {
        "application/javascript"
    } else if range_is(&cs, lo, e, &['x', 'm', 'l']) {
        "application/xml; charset=utf-8"
    } else if range_is(&cs, lo, e, &['s', 'v', 'g']) {
        "image/svg+xml"
    } else if range_is(&cs, lo, e, &['p', 'n', 'g']) {
        "image/png"
    } else if range_is(&cs, lo, e, &['j', 'p', 'g']) || range_is(&cs, lo, e, &['j', 'p', 'e', 'g']) {
        "image/jpeg"
    } else if range_is(&cs, lo, e, &['g', 'i', 'f']) {
        "image/gif"
    } else if range_is(&cs, lo, e, &['i', 'c', 'o']) {
        "image/x-icon"
    } else if range_is(&cs, lo, e, &['w', 'o', 'f', 'f']) {
        "font/woff"
    } else if range_is(&cs, lo, e, &['w', 'o', 'f', 'f', '2']) {
        "font/woff2"
    } else {
        "application/octet-stream"
    }
}

/// `u` up to its first `?`, the query string set aside.
pub open spec fn before_query(u: Seq<char>) -> Seq<char> {
    match find_from(u, seq!['?'], 0) {
        Some(i) => u.take(i),
        None => u,
    }
}

/// `u` without its leading `/` characters.
pub open spec fn strip_leading_slashes(u: Seq<char>) -> Seq<char>
    decreases u.len(),
{
    if u.len() > 0 && u[0] == '/' {
        strip_leading_slashes(u.drop_first())
    } else {
        u
    }
}

/// `index.html`.
pub open spec fn index_html() -> Seq<char> {
    seq!['i', 'n', 'd', 'e', 'x', '.', 'h', 't', 'm', 'l']
}

/// `__invalid__`, a name no request is answered from.
pub open spec fn invalid_name() -> Seq<char> {
    seq!['_', '_', 'i', 'n', 'v', 'a', 'l', 'i', 'd', '_', '_']
}

/// The file a request path names before the file system is consulted: the
/// path without its query and leading slashes, under the output directory;
/// `index.html` there for the bare root.
pub open spec fn target_for(output_dir: Seq<char>, url_path: Seq<char>) -> Seq<char> {
    let cleaned = strip_leading_slashes(before_query(url_path));
    if cleaned.len() == 0 {
        join(output_dir, index_html())
    } else {
        join(output_dir, cleaned)
    }
}

/// What the file system says about a request's target (see
/// [`request_target`]) and the output directory.
pub struct PathFacts {
    /// The canonical form of the output directory, if it could be had.
    pub canonical_output: Option<String>,
    /// The canonical form of the target, if it could be had.
    pub canonical_target: Option<String>,
    /// The target is a directory.
    pub target_is_dir: bool,
    /// The target exists.
    pub target_exists: bool,
    /// The target with its extension set to `html` exists.
    pub html_sibling_exists: bool,
    /// The canonical form of that `.html` sibling, if it could be had.
    pub canonical_html_sibling: Option<String>,
}

/// Both canonical forms are known and the target's lies outside the output
/// directory's.
pub open spec fn escapes_output(facts: &PathFacts) -> bool {
    match (facts.canonical_output, facts.canonical_target) {
        (Some(co), Some(ct)) => !path_starts_with(ct@, co@),
        _ => false,
    }
}

/// Both canonical forms are known and the `.html` sibling's lies outside the
/// output directory's.
pub open spec fn sibling_escapes(facts: &PathFacts) -> bool {
    match (facts.canonical_output, facts.canonical_html_sibling) {
        (Some(co), Some(cs)) => !path_starts_with(cs@, co@),
        _ => false,
    }
}

/// A missing target without an extension is answered from its existing
/// `.html` sibling.
pub open spec fn sibling_answers(output_dir: Seq<char>, url_path: Seq<char>, facts: &PathFacts) -> bool {
    &&& !facts.target_is_dir
    &&& !facts.target_exists
    &&& extension(target_for(output_dir, url_path)) is None
    &&& facts.html_sibling_exists
}

/// The file that answers a request, given what the file system says about
/// the request's target: nothing whose canonical form lies outside the
/// output directory, neither the target nor its `.html` sibling.
pub open spec fn resolved(output_dir: Seq<char>, url_path: Seq<char>, facts: &PathFacts) -> Seq<
    char,
> {
    let target = target_for(output_dir, url_path);
    if escapes_output(facts) || (sibling_answers(output_dir, url_path, facts) && sibling_escapes(
        facts,
    )) {
        join(output_dir, invalid_name())
    } else if facts.target_is_dir {
        join(target, index_html())
    } else if !facts.target_exists && extension(target) is None {
        if facts.html_sibling_exists {
            with_html(target)
        } else {
            target
        }
    } else {
        target
    }
}

fn index_html_chars() -> (out: Vec<char>)
    ensures
        out@ == index_html(),
{
    let out = chars_of("index.html");
    proof {
        reveal_strlit("index.html");
        assert(out@ =~= index_html());
    }
    out
}

/// The file a request path names before the file system is consulted.
pub fn request_target(output_dir: &str, url_path: &str) -> (out: String)
    ensures
        out@ == target_for(output_dir@, url_path@),
{
    let out = target_chars(&chars_of(output_dir), &chars_of(url_path));
    string_of(&out)
}

fn target_chars(out_dir: &Vec<char>, url: &Vec<char>) -> (out: Vec<char>)
    ensures
        out@ == target_for(out_dir@, url@),
{
    let mut q: Vec<char> = Vec::new();
    q.push('?');
    assert(q@ =~= seq!['?']);
    let stop: usize = match find_chars(url, &q, 0) {
        Some(i) => i,
        None => url.len(),
    };
    proof {
        if let Some(i) = find_from(url@, seq!['?'], 0) {
            lemma_find_from_bounds(url@, seq!['?'], 0);
        }
    }
    let ghost bq = before_query(url@);
    assert(bq =~= url@.take(stop as int));
    let mut start: usize = 0;
    while start < stop && url[start] == '/'
        invariant
            start <= stop <= url@.len(),
            bq == url@.take(stop as int),
            strip_leading_slashes(bq) == strip_leading_slashes(url@.subrange(start as int, stop as int)),
        decreases stop - start,
    {
        assert(url@.subrange(start as int, stop as int).drop_first() =~= url@.subrange(start + 1, stop as int));
        start = start + 1;
    }
    let ghost cleaned = url@.subrange(start as int, stop as int);
    assert(strip_leading_slashes(cleaned) == cleaned);
    let mut rel: Vec<char> = Vec::new();
    let mut i: usize = start;
    while i < stop
        invariant
            start <= i <= stop <= url@.len(),
            rel@ == url@.subrange(start as int, i as int),
        decreases stop - i,
    {
        rel.push(url[i]);
        assert(url@.subrange(start as int, i + 1) =~= url@.subrange(start as int, i as int).push(url@[i as int]));
        i = i + 1;
    }
    if rel.len() == 0 {
        joined(out_dir, &index_html_chars())
    } else {
        joined(out_dir, &rel)
    }
}

proof fn lemma_find_from_bounds(s: Seq<char>, p: Seq<char>, from: int)
    ensures
        find_from(s, p, from) matches Some(i) ==> from <= i && i + p.len() <= s.len(),
    decreases s.len() + 1 - from,
{
    if !(from < 0 || from + p.len() > s.len()) && !crate::text::occurs_at(s, p, from) {
        lemma_find_from_bounds(s, p, from + 1);
    }
}

/// The file that answers a request for `url_path` from the site built in
/// `output_dir`, given what the file system says about the request's target
/// (`facts`, taken at [`request_target`]): a path whose canonical form lies
/// outside the output directory is answered from `__invalid__` there (so it
/// is not found); a directory by its `index.html`; a missing file without an
/// extension by the `.html` file of the same name when that exists and lies
/// within the output directory.
pub fn resolve_path(output_dir: &str, url_path: &str, facts: &PathFacts) -> (out: String)
    ensures
        out@ == resolved(output_dir@, url_path@, facts),
        escapes_output(facts) ==> out@ == join(output_dir@, invalid_name()),
        sibling_answers(output_dir@, url_path@, facts) && sibling_escapes(facts) ==> out@ == join(
            output_dir@,
            invalid_name(),
        ),
        sibling_answers(output_dir@, url_path@, facts) && !escapes_output(facts)
            && !sibling_escapes(facts) ==> out@ == with_html(target_for(output_dir@, url_path@)),
        !escapes_output(facts) && facts.target_is_dir ==> out@ == join(
            target_for(output_dir@, url_path@),
            "index.html"@,
        ),
        !escapes_output(facts) && !facts.target_is_dir && facts.target_exists ==> out@
            == target_for(output_dir@, url_path@),
        !escapes_output(facts) && !facts.target_is_dir && !facts.target_exists && (extension(
            target_for(output_dir@, url_path@),
        ) is Some || !facts.html_sibling_exists) ==> out@ == target_for(output_dir@, url_path@),
{
    proof {
        reveal_strlit("index.html");
        assert(index_html() =~= "index.html"@);
    }
    let out_dir = chars_of(output_dir);
    let target = target_chars(&out_dir, &chars_of(url_path));
    let escapes = match (&facts.canonical_output, &facts.canonical_target) {
        (Some(co), Some(ct)) => !starts_with_path(&chars_of(ct.as_str()), &chars_of(co.as_str())),
        _ => false,
    };
    let sibling_out = match (&facts.canonical_output, &facts.canonical_html_sibling) {
        (Some(co), Some(cs)) => !starts_with_path(&chars_of(cs.as_str()), &chars_of(co.as_str())),
        _ => false,
    };
    let from_sibling = !facts.target_is_dir && !facts.target_exists && !has_extension(&target)
        && facts.html_sibling_exists;
    let result = if escapes || (from_sibling && sibling_out) {
        let invalid = chars_of("__invalid__");
        proof {
            reveal_strlit("__invalid__");
            assert(invalid@ =~= invalid_name());
        }
        joined(&out_dir, &invalid)
    } else if facts.target_is_dir {
        joined(&target, &index_html_chars())
    } else if !facts.target_exists && !has_extension(&target) {
        if facts.html_sibling_exists {
            with_html_of(&target)
        } else {
            target
        }
    } else {
        target
    };
    string_of(&result)
}

/// Whether the path has an extension.
fn has_extension(cs: &Vec<char>) -> (r: bool)
    ensures
        r == (extension(cs@) is Some),
{
    match name_span_of(cs) {
        None => false,
        Some((s, e)) => extension_dot_of(cs, s, e).is_some(),
    }
}

/// The path of a request target with its extension set to `html`
/// (`Path::with_extension`).
pub fn html_sibling(path: &str) -> (out: String)
    ensures
        out@ == with_html(path@),
{
    string_of(&with_html_of(&chars_of(path)))
}

/// The answer to a request, once the file that answers it has been read or
/// not.
pub enum Reply {
    /// The file's bytes, with their content type.
    Found { content_type: &'static str, body: Vec<u8> },
    /// Status 404 with a short text.
    NotFound { status: u16, body: &'static str },
}

/// The answer to a request answered from `file_path`, given the file's bytes
/// when it could be read: the bytes with the content type of the path, or
/// `404 Not Found`.
pub fn reply_for(file_path: &str, contents: Option<Vec<u8>>) -> (r: Reply)
    ensures
        contents matches Some(bytes) ==> (r matches Reply::Found { content_type, body } && content_type@
            == mime_for(extension(file_path@)) && body@ == bytes@),
        contents is None ==> (r matches Reply::NotFound { status, body } && status == 404 && body@
            == "404 Not Found"@),
{
    match contents {
        Some(body) => Reply::Found { content_type: mime_type(file_path), body },
        None => Reply::NotFound { status: 404, body: "404 Not Found" },
    }
}

} // verus!
