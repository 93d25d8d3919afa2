//! Where the build writes each part of the site.

use vstd::prelude::*;

use crate::paths::{join, joined};
use crate::text::{chars_of, string_of};

verus! {

/// A part of the built site.
pub enum SitePage {
    /// The home page.
    Home,
    /// The directory of the writing pages.
    WritingDir,
    /// The page that lists the posts.
    WritingIndex,
    /// The directory of the post with the given slug.
    PostDir(String),
    /// The page of the post with the given slug.
    PostPage(String),
    /// The contact page.
    Contact,
    /// The RSS feed.
    Feed,
    /// The file that names the custom domain.
    Cname,
    /// The copy of the static files.
    StaticFiles,
}

/// The path of a part of the site built in `out`.
pub open spec fn page_path(out: Seq<char>, page: SitePage) -> Seq<char> {
    let writing = join(out, "writing"@);
    match page {
        SitePage::Home => join(out, "index.html"@),
        SitePage::WritingDir => writing,
        SitePage::WritingIndex => join(writing, "index.html"@),
        SitePage::PostDir(slug) => join(writing, slug@),
        SitePage::PostPage(slug) => join(join(writing, slug@), "index.html"@),
        SitePage::Contact => join(out, "contact.html"@),
        SitePage::Feed => join(out, "feed.xml"@),
        SitePage::Cname => join(out, "CNAME"@),
        SitePage::StaticFiles => join(out, "static"@),
    }
}

/// The path of a part of the site built in `output_dir`.
pub fn site_path(output_dir: &str, page: &SitePage) -> (out: String)
    ensures
        out@ == page_path(output_dir@, *page),
{
    let out_dir = chars_of(output_dir);
    let writing = joined(&out_dir, &chars_of("writing"));
    let path = match page {
        SitePage::Home => joined(&out_dir, &chars_of("index.html")),
        SitePage::WritingDir => writing,
        SitePage::WritingIndex => joined(&writing, &chars_of("index.html")),
        SitePage::PostDir(slug) => joined(&writing, &chars_of(slug.as_str())),
        SitePage::PostPage(slug) => joined(
            &joined(&writing, &chars_of(slug.as_str())),
            &chars_of("index.html"),
        ),
        SitePage::Contact => joined(&out_dir, &chars_of("contact.html")),
        SitePage::Feed => joined(&out_dir, &chars_of("feed.xml")),
        SitePage::Cname => joined(&out_dir, &chars_of("CNAME")),
        SitePage::StaticFiles => joined(&out_dir, &chars_of("static")),
    };
    string_of(&path)
}

} // verus!
