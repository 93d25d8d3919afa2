use brace::date::Date;
use brace::new::{draft_content, draft_filename, slugify};

/// Reference slugs, made with std's string functions.
fn expected_slug(title: &str) -> String {
    title
        .to_lowercase()
        .chars()
        .map(|c| if c.is_alphanumeric() || c == '-' { c } else { '-' })
        .collect::<String>()
        .split('-')
        .filter(|s| !s.is_empty())
        .collect::<Vec<_>>()
        .join("-")
}

const TITLES: &[&str] = &[
    "Building Static Sites in 2025",
    "The Bitter Lesson of Data Warehousing",
    "  Hello,   World!  ",
    "---",
    "",
    "already-a-slug",
    "Café Über Straße",
    "C++ & Rust: a \"comparison\"",
    "ΣΊΣΥΦΟΣ",
    "İstanbul",
    "tabs\tand\nnewlines",
    "x--y",
];

#[test]
fn slugs_from_titles() {
    assert_eq!(slugify("Building Static Sites in 2025"), "building-static-sites-in-2025");
    assert_eq!(slugify("  Hello,   World!  "), "hello-world");
    assert_eq!(slugify("---"), "");
    assert_eq!(slugify("x--y"), "x-y");
    assert_eq!(slugify("Café Über"), "café-über");
}

#[test]
fn slugs_match_std_pipeline() {
    for t in TITLES {
        assert_eq!(slugify(t), expected_slug(t), "{t:?}");
    }
}

#[test]
fn slugs_are_well_shaped() {
    for t in TITLES {
        let s = slugify(t);
        assert!(!s.starts_with('-') && !s.ends_with('-') && !s.contains("--"), "{s:?}");
        assert!(s.chars().all(|c| c == '-' || c.is_alphanumeric()), "{s:?}");
    }
}

#[test]
fn draft_file_names() {
    assert_eq!(draft_filename("My First Post"), "my-first-post.md");
    assert_eq!(draft_filename("!!!"), ".md");
}

#[test]
fn draft_documents() {
    let today = Date::from_ymd(2025, 10, 25).unwrap();
    assert_eq!(
        draft_content("My First Post", &today),
        "---\ntitle: \"My First Post\"\ndate: 2025-10-25\npublished: true\n---\n\n"
    );
    assert_eq!(
        draft_content("Say \"hi\"", &today),
        "---\ntitle: \"Say \\\"hi\\\"\"\ndate: 2025-10-25\npublished: true\n---\n\n"
    );
}

#[test]
fn draft_document_title_escaping_matches_replace() {
    let today = Date::from_ymd(2024, 2, 29).unwrap();
    for t in TITLES {
        let expected = format!(
            "---\ntitle: \"{}\"\ndate: {}\npublished: true\n---\n\n",
            t.replace('"', "\\\""),
            "2024-02-29"
        );
        assert_eq!(draft_content(t, &today), expected);
    }
}

#[test]
fn new_draft_front_matter_reads_back() {
    let today = Date::from_ymd(2025, 10, 25).unwrap();
    let doc = draft_content("A \"quoted\" title", &today);
    let (yaml, body) = brace::content::split_frontmatter(&doc).unwrap();
    assert_eq!(yaml, "\ntitle: \"A \\\"quoted\\\" title\"\ndate: 2025-10-25\npublished: true\n");
    assert_eq!(body, "");
    let (_, rest) = brace::content::frontmatter_sections(&doc).unwrap();
    assert_eq!(rest, "\n\n");
}

#[test]
fn hello_world_draft() {
    let today = Date::from_ymd(2025, 11, 7).unwrap();
    assert_eq!(draft_filename("Hello, World!"), "hello-world.md");
    assert_eq!(
        draft_content("Hello, World!", &today),
        "---\ntitle: \"Hello, World!\"\ndate: 2025-11-07\npublished: true\n---\n\n"
    );
}

#[test]
fn empty_slug_only_without_alphanumerics() {
    assert_eq!(slugify("!!!"), "");
    assert_eq!(slugify("- - -"), "");
    assert_eq!(slugify("!a!"), "a");
    assert_eq!(slugify("é"), "é");
}
