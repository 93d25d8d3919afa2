use std::path::Path;

use brace::serve::{html_sibling, mime_type, reply_for, request_target, resolve_path, PathFacts, Reply};

/// Reference content types, chosen from std's reading
/// of the path.
fn expected_mime(path: &str) -> &'static str {
    match Path::new(path).extension().and_then(|e| e.to_str()) {
        Some("html") => "text/html; charset=utf-8",
        Some("css") => "text/css; charset=utf-8",
        Some("js") => "application/javascript",
        Some("xml") => "application/xml; charset=utf-8",
        Some("svg") => "image/svg+xml",
        Some("png") => "image/png",
        Some("jpg") | Some("jpeg") => "image/jpeg",
        Some("gif") => "image/gif",
        Some("ico") => "image/x-icon",
        Some("woff") => "font/woff",
        Some("woff2") => "font/woff2",
        _ => "application/octet-stream",
    }
}

const PATHS: &[&str] = &[
    "docs/index.html",
    "docs/static/style.css",
    "app.js",
    "feed.xml",
    "static/favicon.svg",
    "a/b.png",
    "photo.jpg",
    "photo.jpeg",
    "anim.gif",
    "favicon.ico",
    "font.woff",
    "font.woff2",
    "noext",
    ".bashrc",
    ".hidden.css",
    "dir/",
    "dir/page.html/",
    "dir/page.html/.",
    "a/..",
    "..",
    ".",
    "/",
    "",
    "archive.tar.gz",
    "trailing.",
    "UPPER.HTML",
    "docs//x.css",
    "./x.js",
    "x.html/./",
];

#[test]
fn content_types_by_extension() {
    assert_eq!(mime_type("docs/index.html"), "text/html; charset=utf-8");
    assert_eq!(mime_type("docs/static/style.css"), "text/css; charset=utf-8");
    assert_eq!(mime_type("docs/feed.xml"), "application/xml; charset=utf-8");
    assert_eq!(mime_type("docs/static/images/a.jpeg"), "image/jpeg");
    assert_eq!(mime_type("docs/static/font.woff2"), "font/woff2");
    assert_eq!(mime_type("docs/README"), "application/octet-stream");
    assert_eq!(mime_type("docs/.htaccess"), "application/octet-stream");
}

#[test]
fn content_types_match_std_paths() {
    for p in PATHS {
        assert_eq!(mime_type(p), expected_mime(p), "{p}");
    }
}

#[test]
fn html_sibling_matches_std() {
    for p in PATHS {
        let expected = Path::new(p).with_extension("html");
        assert_eq!(html_sibling(p), expected.to_string_lossy(), "{p}");
    }
}

#[test]
fn request_targets() {
    assert_eq!(request_target("docs", "/"), "docs/index.html");
    assert_eq!(request_target("docs", ""), "docs/index.html");
    assert_eq!(request_target("docs", "/?q=1"), "docs/index.html");
    assert_eq!(request_target("docs", "/writing/post/"), "docs/writing/post/");
    assert_eq!(request_target("docs", "///feed.xml?x"), "docs/feed.xml");
    assert_eq!(request_target("docs/", "/a"), "docs/a");
    assert_eq!(request_target("docs", "/a?b?c"), "docs/a");
}

fn facts(is_dir: bool, exists: bool, sibling: bool) -> PathFacts {
    PathFacts {
        canonical_output: None,
        canonical_target: None,
        target_is_dir: is_dir,
        target_exists: exists,
        html_sibling_exists: sibling,
        canonical_html_sibling: None,
    }
}

#[test]
fn existing_files_answer_themselves() {
    assert_eq!(
        resolve_path("docs", "/static/style.css", &facts(false, true, false)),
        "docs/static/style.css"
    );
}

#[test]
fn directories_answer_with_their_index() {
    assert_eq!(
        resolve_path("docs", "/writing/", &facts(true, true, false)),
        "docs/writing/index.html"
    );
    assert_eq!(
        resolve_path("docs", "/writing/my-post", &facts(true, true, false)),
        "docs/writing/my-post/index.html"
    );
}

#[test]
fn missing_pages_fall_back_to_html_files() {
    assert_eq!(resolve_path("docs", "/contact", &facts(false, false, true)), "docs/contact.html");
    assert_eq!(resolve_path("docs", "/contact", &facts(false, false, false)), "docs/contact");
    assert_eq!(
        resolve_path("docs", "/missing.css", &facts(false, false, true)),
        "docs/missing.css"
    );
}

#[test]
fn escaping_paths_are_refused() {
    let outside = PathFacts {
        canonical_output: Some("/srv/site/docs".to_string()),
        canonical_target: Some("/etc/passwd".to_string()),
        target_is_dir: false,
        target_exists: true,
        html_sibling_exists: false,
        canonical_html_sibling: None,
    };
    assert_eq!(resolve_path("docs", "/../../etc/passwd", &outside), "docs/__invalid__");
    let sibling_dir = PathFacts {
        canonical_output: Some("/srv/site/docs".to_string()),
        canonical_target: Some("/srv/site/docs2/x".to_string()),
        target_is_dir: false,
        target_exists: true,
        html_sibling_exists: false,
        canonical_html_sibling: None,
    };
    assert_eq!(resolve_path("docs", "/../docs2/x", &sibling_dir), "docs/__invalid__");
    let inside = PathFacts {
        canonical_output: Some("/srv/site/docs".to_string()),
        canonical_target: Some("/srv/site/docs/writing/index.html".to_string()),
        target_is_dir: false,
        target_exists: true,
        html_sibling_exists: false,
        canonical_html_sibling: None,
    };
    assert_eq!(
        resolve_path("docs", "/writing/index.html", &inside),
        "docs/writing/index.html"
    );
}

#[test]
fn html_siblings_outside_the_site_are_refused() {
    let outside = PathFacts {
        canonical_output: Some("/srv/site/docs".to_string()),
        canonical_target: None,
        target_is_dir: false,
        target_exists: false,
        html_sibling_exists: true,
        canonical_html_sibling: Some("/srv/site/x.html".to_string()),
    };
    assert_eq!(resolve_path("docs", "/../x", &outside), "docs/__invalid__");
    let inside = PathFacts {
        canonical_output: Some("/srv/site/docs".to_string()),
        canonical_target: None,
        target_is_dir: false,
        target_exists: false,
        html_sibling_exists: true,
        canonical_html_sibling: Some("/srv/site/docs/contact.html".to_string()),
    };
    assert_eq!(resolve_path("docs", "/contact", &inside), "docs/contact.html");
}

#[test]
fn component_prefix_matches_std() {
    let cases = [
        ("/srv/site/docs/a", "/srv/site/docs"),
        ("/srv/site/docs", "/srv/site/docs"),
        ("/srv/site/docsx", "/srv/site/docs"),
        ("/srv/site", "/srv/site/docs"),
        ("/", "/"),
        ("/a", "/"),
        ("a/b", "a"),
        ("a/b", "/a"),
        ("./a/b", "a"),
        ("./a/b", "./a"),
        ("a//b/./c", "a/b/c"),
    ];
    for (target, output) in cases {
        let f = PathFacts {
            canonical_output: Some(output.to_string()),
            canonical_target: Some(target.to_string()),
            target_is_dir: false,
            target_exists: true,
            html_sibling_exists: false,
            canonical_html_sibling: None,
        };
        let refused = resolve_path("docs", "/x", &f) == "docs/__invalid__";
        assert_eq!(refused, !Path::new(target).starts_with(output), "{target} under {output}");
    }
}

#[test]
fn replies_to_requests() {
    match reply_for("docs/index.html", Some(b"<html>".to_vec())) {
        Reply::Found { content_type, body } => {
            assert_eq!(content_type, "text/html; charset=utf-8");
            assert_eq!(body, b"<html>".to_vec());
        }
        Reply::NotFound { .. } => panic!("the file was read"),
    }
    match reply_for("docs/missing", None) {
        Reply::NotFound { status, body } => {
            assert_eq!(status, 404);
            assert_eq!(body, "404 Not Found");
        }
        Reply::Found { .. } => panic!("nothing was read"),
    }
}
