use brace::date::Date;
use brace::publish::{update_frontmatter, PublishError};

fn today() -> Date {
    Date::from_ymd(2025, 11, 7).unwrap()
}

/// serde_yml's text for a value, ending in a line break.
fn written(v: &serde_yml::Value) -> String {
    let mut t = serde_yml::to_string(v).unwrap();
    if !t.ends_with('\n') {
        t.push('\n');
    }
    t
}

fn reread(doc: &str) -> serde_yml::Value {
    let parts: Vec<&str> = doc.splitn(3, "---").collect();
    serde_yml::from_str(parts[1]).unwrap()
}

#[test]
fn publishing_marks_published_and_keeps_the_date() {
    let draft = "---\ntitle: The Bitter Lesson\ndate: 2025-11-07\npublished: false\n---\n\n# Body\n";
    let doc = match update_frontmatter(draft, &Date::from_ymd(2026, 3, 1).unwrap()) {
        Ok(doc) => doc,
        Err(_) => panic!("front matter is YAML"),
    };
    assert!(doc.starts_with("---\n"));
    assert!(doc.ends_with("---\n\n\n# Body\n"));
    let v = reread(&doc);
    assert_eq!(v.get("published").and_then(|x| x.as_bool()), Some(true));
    assert_eq!(v.get("date").and_then(|x| x.as_str()), Some("2025-11-07"));
    assert_eq!(v.get("title").and_then(|x| x.as_str()), Some("The Bitter Lesson"));
}

#[test]
fn publishing_dates_undated_drafts() {
    let draft = "---\ntitle: Undated\n---\nText";
    let doc = match update_frontmatter(draft, &today()) {
        Ok(doc) => doc,
        Err(_) => panic!("front matter is YAML"),
    };
    assert!(doc.ends_with("---\n\nText"));
    let v = reread(&doc);
    assert_eq!(v.get("published").and_then(|x| x.as_bool()), Some(true));
    assert_eq!(v.get("date").and_then(|x| x.as_str()), Some("2025-11-07"));
}

#[test]
fn drafts_without_front_matter_are_unchanged() {
    for draft in ["# No front matter\n", "", "---\nunclosed: true\n"] {
        match update_frontmatter(draft, &today()) {
            Ok(doc) => assert_eq!(doc, draft),
            Err(_) => panic!("no front matter to read"),
        }
    }
}

#[test]
fn invalid_front_matter_is_an_error() {
    let draft = "---\ntitle: [unclosed\n---\nbody";
    assert!(matches!(
        update_frontmatter(draft, &today()),
        Err(PublishError::InvalidFrontmatter(_))
    ));
}

#[test]
fn non_mapping_front_matter_is_written_back() {
    let draft = "---\n- a\n- b\n---\nbody";
    match update_frontmatter(draft, &today()) {
        Ok(doc) => {
            assert!(doc.ends_with("---\n\nbody"));
            let v = reread(&doc);
            assert!(v.is_sequence());
        }
        Err(_) => panic!("a sequence is YAML"),
    }
}

#[test]
fn published_in_place_with_the_date_kept() {
    let draft = "---\ntitle: A\ndate: 2025-01-01\npublished: false\n---\nBody";
    let doc = match update_frontmatter(draft, &today()) {
        Ok(doc) => doc,
        Err(_) => panic!("front matter is YAML"),
    };
    let mut v: serde_yml::Value = serde_yml::from_str("\ntitle: A\ndate: 2025-01-01\npublished: false\n").unwrap();
    v.insert("published", serde_yml::Value::Bool(true));
    let expected = format!("---\n{}---\n\nBody", written(&v));
    assert_eq!(doc, expected);
    assert_eq!(doc, "---\ntitle: A\ndate: \"2025-01-01\"\npublished: true\n---\n\nBody");
    let v2 = reread(&doc);
    assert_eq!(v2.get("published").and_then(|x| x.as_bool()), Some(true));
    assert_eq!(v2.get("date").and_then(|x| x.as_str()), Some("2025-01-01"));
    assert_eq!(v2.get("title").and_then(|x| x.as_str()), Some("A"));
}

#[test]
fn added_keys_come_last_in_order() {
    let draft = "---\ntitle: T\ntags: x\n---\nB";
    let doc = match update_frontmatter(draft, &today()) {
        Ok(doc) => doc,
        Err(_) => panic!("front matter is YAML"),
    };
    let v = reread(&doc);
    let keys: Vec<String> = match v.as_mapping() {
        Some(m) => m.keys().map(|k| k.to_string()).collect(),
        None => panic!("a mapping"),
    };
    assert_eq!(keys, ["title", "tags", "published", "date"]);
    assert_eq!(v.get("tags").and_then(|x| x.as_str()), Some("x"));
    assert_eq!(v.get("date").and_then(|x| x.as_str()), Some("2025-11-07"));
}

#[test]
fn non_mapping_front_matter_is_written_back_exactly() {
    let draft = "---\n- a\n- b\n---\nbody";
    let v: serde_yml::Value = serde_yml::from_str("\n- a\n- b\n").unwrap();
    let expected = format!("---\n{}---\n\nbody", written(&v));
    match update_frontmatter(draft, &today()) {
        Ok(doc) => assert_eq!(doc, expected),
        Err(_) => panic!("a sequence is YAML"),
    }
}

#[test]
fn publishing_twice_only_adds_a_line_break() {
    let draft = "---\ntitle: Twice\n---\nText\n";
    let once = match update_frontmatter(draft, &today()) {
        Ok(doc) => doc,
        Err(_) => panic!("front matter is YAML"),
    };
    let twice = match update_frontmatter(&once, &Date::from_ymd(2030, 1, 2).unwrap()) {
        Ok(doc) => doc,
        Err(_) => panic!("front matter is YAML"),
    };
    assert_eq!(twice, once.replacen("\n---\n", "\n---\n\n", 1));
}

#[test]
fn a_value_ending_in_a_dash_reads_back() {
    let draft = "---\ntitle: a-\n---\nB";
    let doc = match update_frontmatter(draft, &today()) {
        Ok(doc) => doc,
        Err(_) => panic!("front matter is YAML"),
    };
    let (yaml, body) = brace::content::split_frontmatter(&doc).unwrap();
    let v: serde_yml::Value = serde_yml::from_str(&yaml).unwrap();
    assert_eq!(v.get("title").and_then(|x| x.as_str()), Some("a-"));
    assert_eq!(v.get("published").and_then(|x| x.as_bool()), Some(true));
    assert_eq!(body, "B");
}
