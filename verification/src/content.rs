//! Posts: front matter, and the page data a post file yields.

use vstd::prelude::*;

use crate::config::SiteConfig;
use crate::date::{iso_date, long_date, rfc2822_date, short_date, Date};
use crate::paths::{extension, extension_dot_of, file_stem, file_stem_of, name_span_of, range_is};
use crate::text::{
    begins_with, chars_of, find_chars, find_from, push_char, starts_with, string_of,
    string_of_range, trim, trim_bounds,
};

verus! {

/// A post is published unless its front matter says otherwise.
pub fn default_published() -> (r: bool)
    ensures
        r,
{
    true
}

/// What a post's front matter says; each field is absent when not given.
pub struct Frontmatter {
    pub title: Option<String>,
    pub published: bool,
    pub date: Option<Date>,
}

impl Frontmatter {
    /// The front matter of a post that has none.
    pub fn absent() -> (r: Frontmatter)
        ensures
            r.title is None,
            r.published,
            r.date is None,
    {
        Frontmatter { title: None, published: default_published(), date: None }
    }
}

/// `---`, which opens and closes the front matter.
pub open spec fn fence() -> Seq<char> {
    seq!['-', '-', '-']
}

/// The front matter's text and the text after it, when `content` begins with
/// `---` and holds a second `---` (as `splitn(3, "---")` cuts it).
pub open spec fn frontmatter_parts(content: Seq<char>) -> Option<(Seq<char>, Seq<char>)> {
    if starts_with(content, fence()) {
        let rest = content.skip(3);
        match find_from(rest, fence(), 0) {
            Some(j) => Some((rest.take(j), rest.skip(j + 3))),
            None => None,
        }
    } else {
        None
    }
}

proof fn lemma_find_bounds(s: Seq<char>, p: Seq<char>, from: int)
    ensures
        find_from(s, p, from) matches Some(i) ==> from <= i && i + p.len() <= s.len()
            && s.subrange(i, i + p.len()) == p,
    decreases s.len() + 1 - from,
{
    if !(from < 0 || from + p.len() > s.len()) && !crate::text::occurs_at(s, p, from) {
        lemma_find_bounds(s, p, from + 1);
    }
}

/// Cutting off the front matter loses nothing: `---`, the front matter,
/// `---` and the rest give back the content.
pub proof fn lemma_frontmatter_reassembles(content: Seq<char>)
    ensures
        frontmatter_parts(content) matches Some((yaml, rest)) ==> content == fence() + yaml
            + fence() + rest,
{
    if let Some((yaml, rest)) = frontmatter_parts(content) {
        let r = content.skip(3);
        lemma_find_bounds(r, fence(), 0);
        let j = find_from(r, fence(), 0)->0;
        assert(r =~= r.take(j) + r.subrange(j, j + 3) + r.skip(j + 3));
        assert(content =~= content.take(3) + r);
    }
}

/// The front matter's text and the text after it, untouched (see
/// [`frontmatter_parts`]).
pub fn frontmatter_sections(content: &str) -> (r: Option<(String, String)>)
    ensures
        r matches Some((y, rest)) ==> frontmatter_parts(content@) == Some((y@, rest@)),
        r is None ==> frontmatter_parts(content@) is None,
{
    let cs = chars_of(content);
    let mut fence_chars: Vec<char> = Vec::new();
    fence_chars.push('-');
    fence_chars.push('-');
    fence_chars.push('-');
    assert(fence_chars@ =~= fence());
    if !begins_with(&cs, &fence_chars) {
        return None;
    }
    let found = find_chars(&cs, &fence_chars, 3);
    proof {
        lemma_find_shift(cs@, fence(), 3, 0);
    }
    match found {
        None => None,
        Some(i) => {
            proof {
                lemma_find_bounds(cs@, fence(), 3);
                assert(find_from(cs@, fence(), 3) == Some(i as int));
                assert(i + 3 <= cs.len());
                assert(cs@.skip(3).take(i - 3) =~= cs@.subrange(3, i as int));
                assert(cs@.skip(3).skip(i - 3 + 3) =~= cs@.subrange(i + 3, cs@.len() as int));
            }
            let yaml = string_of_range(&cs, 3, i);
            let rest = string_of_range(&cs, i + 3, cs.len());
            Some((yaml, rest))
        },
    }
}

/// Searching `s` from `off + from` is searching `s.skip(off)` from `from`,
/// shifted.
proof fn lemma_find_shift(s: Seq<char>, p: Seq<char>, off: int, from: int)
    requires
        0 <= off <= s.len(),
        0 <= from,
    ensures
        find_from(s, p, off + from) == (match find_from(s.skip(off), p, from) {
            Some(j) => Some(j + off),
            None => None,
        }),
    decreases s.len() + 1 - (off + from),
{
    let t = s.skip(off);
    if off + from + p.len() > s.len() {
    } else {
        assert(t.subrange(from, from + p.len()) =~= s.subrange(off + from, off + from + p.len()));
        if !crate::text::occurs_at(s, p, off + from) {
            lemma_find_shift(s, p, off, from + 1);
        }
    }
}

/// The front matter's text and the post's body, when the content has front
/// matter; the body is the text after the closing `---` without its leading
/// and trailing white space.
pub fn split_frontmatter(content: &str) -> (r: Option<(String, String)>)
    ensures
        r matches Some((y, body)) ==> frontmatter_parts(content@) matches Some((y2, rest)) && y@
            == y2 && body@ == trim(rest),
        r is None ==> frontmatter_parts(content@) is None,
{
    match frontmatter_sections(content) {
        None => None,
        Some((yaml, rest)) => {
            let cs = chars_of(rest.as_str());
            let (lo, hi) = trim_bounds(&cs, 0, cs.len());
            proof {
                assert(cs@.subrange(0, cs@.len() as int) =~= cs@);
            }
            let body = string_of_range(&cs, lo, hi);
            Some((yaml, body))
        },
    }
}

/// A post, with everything its pages show.
pub struct Post {
    pub slug: String,
    pub title: String,
    pub date: Date,
    pub published: bool,
    pub html_content: String,
    pub url: String,
    pub date_iso: String,
    pub date_short: String,
    pub date_long: String,
    pub date_rfc2822: String,
}

/// The title a post gets from its slug: each `-` becomes a space.
pub open spec fn title_from_slug(slug: Seq<char>) -> Seq<char> {
    slug.map_values(|c: char| if c == '-' { ' ' } else { c })
}

/// The slug a post gets from its file's path: the file stem, or nothing.
pub open spec fn slug_of_path(path: Seq<char>) -> Seq<char> {
    match file_stem(path) {
        Some(s) => s,
        None => Seq::empty(),
    }
}

/// The address of a post's page: `{base_url}/writing/{slug}/`.
pub open spec fn post_url(base_url: Seq<char>, slug: Seq<char>) -> Seq<char> {
    base_url + "/writing/"@ + slug + seq!['/']
}

fn title_of_slug(slug: &Vec<char>) -> (out: String)
    ensures
        out@ == title_from_slug(slug@),
{
    let mut out = String::new();
    let mut i: usize = 0;
    while i < slug.len()
        invariant
            i <= slug@.len(),
            out@ == title_from_slug(slug@.take(i as int)),
        decreases slug@.len() - i,
    {
        let c = slug[i];
        push_char(&mut out, if c == '-' { ' ' } else { c });
        assert(title_from_slug(slug@.take(i + 1)) =~= title_from_slug(slug@.take(i as int)).push(
            if c == '-' { ' ' } else { c },
        ));
        i = i + 1;
    }
    assert(slug@.take(slug@.len() as int) =~= slug@);
    out
}

impl Post {
    /// The post a file yields: `path` is the file's path, `frontmatter` what
    /// its front matter says, `html_content` its body rendered, `today` the
    /// date of the day it is read. The slug is the file stem; the title
    /// defaults to the slug with dashes as spaces, the date to `today`.
    pub fn from_file(
        path: &str,
        frontmatter: Frontmatter,
        html_content: String,
        today: Date,
        config: &SiteConfig,
    ) -> (post: Post)
        ensures
            post.slug@ == slug_of_path(path@),
            post.title@ == (match frontmatter.title {
                Some(t) => t@,
                None => title_from_slug(slug_of_path(path@)),
            }),
            post.date == (match frontmatter.date {
                Some(d) => d,
                None => today,
            }),
            post.published == frontmatter.published,
            post.html_content == html_content,
            post.url@ == post_url(config.base_url@, slug_of_path(path@)),
            frontmatter.title is None ==> {
                &&& post.title@.len() == post.slug@.len()
                &&& forall|i: int|
                    0 <= i < post.slug@.len() ==> #[trigger] post.title@[i] == if post.slug@[i]
                        == '-' {
                        ' '
                    } else {
                        post.slug@[i]
                    }
            },
            post.date_iso@ == crate::date::iso_text(post.date@.0, post.date@.1, post.date@.2),
            post.date_short@ == crate::date::short_text(post.date@.0, post.date@.1, post.date@.2),
            post.date_long@ == crate::date::long_text(post.date@.0, post.date@.1, post.date@.2),
            post.date_rfc2822@ == crate::date::rfc2822_text(
                post.date@.0,
                post.date@.1,
                post.date@.2,
            ),
    {
        let slug_chars = match file_stem_of(&chars_of(path)) {
            Some(s) => s,
            None => Vec::new(),
        };
        assert(slug_chars@ == slug_of_path(path@));
        let slug = string_of(&slug_chars);
        let title = match frontmatter.title {
            Some(t) => t,
            None => title_of_slug(&slug_chars),
        };
        let date = match frontmatter.date {
            Some(d) => d,
            None => today,
        };
        let mut url = config.base_url.clone();
        url.append("/writing/");
        url.append(slug.as_str());
        push_char(&mut url, '/');
        let date_iso = iso_date(&date);
        let date_short = short_date(&date);
        let date_long = long_date(&date);
        let date_rfc2822 = rfc2822_date(&date);
        Post {
            slug,
            title,
            date,
            published: frontmatter.published,
            html_content,
            url,
            date_iso,
            date_short,
            date_long,
            date_rfc2822,
        }
    }
}

/// Whether the file at `path` is a post source: its extension is `md`.
pub fn is_markdown_file(path: &str) -> (r: bool)
    ensures
        r == (extension(path@) == Some(seq!['m', 'd'])),
{
    let cs = chars_of(path);
    match name_span_of(&cs) {
        None => false,
        Some((s, e)) => match extension_dot_of(&cs, s, e) {
            None => false,
            Some(k) => {
                let r = range_is(&cs, s + k + 1, e, &['m', 'd']);
                proof {
                    assert(['m', 'd']@ =~= seq!['m', 'd']);
                }
                r
            },
        },
    }
}

} // verus!
