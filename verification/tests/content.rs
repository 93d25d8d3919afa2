use brace::config::SiteConfig;
use brace::content::{
    default_published, frontmatter_sections, is_markdown_file, split_frontmatter, Frontmatter,
    Post,
};
use brace::date::Date;

fn config(base_url: &str) -> SiteConfig {
    SiteConfig::from_env(Some(base_url.to_string()), None)
}

#[test]
fn posts_are_published_by_default() {
    assert!(default_published());
    let fm = Frontmatter::absent();
    assert!(fm.published);
    assert!(fm.title.is_none());
    assert!(fm.date.is_none());
}

#[test]
fn front_matter_is_split_off() {
    let content = "---\ntitle: Hello\ndate: 2025-10-20\n---\n\n# Welcome\n\nText.\n\n";
    let (yaml, body) = split_frontmatter(content).unwrap();
    assert_eq!(yaml, "\ntitle: Hello\ndate: 2025-10-20\n");
    assert_eq!(body, "# Welcome\n\nText.");
}

#[test]
fn no_front_matter_without_opening_fence() {
    assert!(split_frontmatter("# Title\n---\nx: 1\n---\n").is_none());
    assert!(split_frontmatter("").is_none());
    assert!(split_frontmatter(" ---\ntitle: x\n---\n").is_none());
}

#[test]
fn no_front_matter_without_closing_fence() {
    assert!(split_frontmatter("---\ntitle: x\n").is_none());
    assert!(split_frontmatter("----").is_none());
}

#[test]
fn splitting_matches_splitn() {
    for content in [
        "---\na: 1\n---\nbody",
        "------",
        "---a---b---c",
        "---\n---\n",
        "--- x --- y",
        "---\nk: v\n---\n\n  spaced body  \n",
    ] {
        let parts: Vec<&str> = content.splitn(3, "---").collect();
        let (yaml, rest) = frontmatter_sections(content).unwrap();
        assert_eq!(yaml, parts[1], "{content:?}");
        assert_eq!(rest, parts[2], "{content:?}");
        let (_, body) = split_frontmatter(content).unwrap();
        assert_eq!(body, parts[2].trim(), "{content:?}");
    }
}

#[test]
fn post_from_file_with_full_front_matter() {
    let fm = Frontmatter {
        title: Some("Building Static Sites in 2025".to_string()),
        published: true,
        date: Date::from_ymd(2025, 10, 20),
    };
    let today = Date::from_ymd(2026, 1, 2).unwrap();
    let post = Post::from_file(
        "content/posts/building-static-sites.md",
        fm,
        "<p>x</p>".to_string(),
        today,
        &config(""),
    );
    assert_eq!(post.slug, "building-static-sites");
    assert_eq!(post.title, "Building Static Sites in 2025");
    assert_eq!(post.date, Date::from_ymd(2025, 10, 20).unwrap());
    assert!(post.published);
    assert_eq!(post.html_content, "<p>x</p>");
    assert_eq!(post.url, "/writing/building-static-sites/");
    assert_eq!(post.date_iso, "2025-10-20");
    assert_eq!(post.date_short, "Oct 20, 2025");
    assert_eq!(post.date_long, "October 20, 2025");
    assert_eq!(post.date_rfc2822, "Mon, 20 Oct 2025 00:00:00 GMT");
}

#[test]
fn post_defaults_from_file_name_and_today() {
    let today = Date::from_ymd(2026, 2, 25).unwrap();
    let post = Post::from_file(
        "content/posts/spec-driven-data-engineering.md",
        Frontmatter { title: None, published: false, date: None },
        String::new(),
        today,
        &config("https://example.org/blog"),
    );
    assert_eq!(post.slug, "spec-driven-data-engineering");
    assert_eq!(post.title, "spec driven data engineering");
    assert_eq!(post.date, today);
    assert!(!post.published);
    assert_eq!(post.url, "https://example.org/blog/writing/spec-driven-data-engineering/");
    assert_eq!(post.date_iso, "2026-02-25");
    assert_eq!(post.date_rfc2822, "Wed, 25 Feb 2026 00:00:00 GMT");
}

#[test]
fn slug_is_the_file_stem() {
    let today = Date::from_ymd(2025, 1, 1).unwrap();
    let post = Post::from_file(
        "posts/archive.v2.md",
        Frontmatter::absent(),
        String::new(),
        today,
        &config(""),
    );
    assert_eq!(post.slug, "archive.v2");
    assert_eq!(post.title, "archive.v2");
    let post = Post::from_file("posts/.md", Frontmatter::absent(), String::new(), today, &config(""));
    assert_eq!(post.slug, ".md");
}

#[test]
fn markdown_files_by_extension() {
    assert!(is_markdown_file("content/posts/a.md"));
    assert!(is_markdown_file("a.b.md"));
    assert!(!is_markdown_file("content/posts/a.markdown"));
    assert!(!is_markdown_file("content/posts/.md"));
    assert!(!is_markdown_file("content/posts/a.MD"));
    assert!(!is_markdown_file("content/posts/md"));
    assert!(is_markdown_file("content/posts/a.md/"));
}
