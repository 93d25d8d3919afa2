use brace::content::Post;
use brace::date::Date;
use brace::listing::{published_newest_first, recent_posts};

fn post(slug: &str, y: i32, m: u32, d: u32, published: bool) -> Post {
    Post {
        slug: slug.to_string(),
        title: slug.to_string(),
        date: Date::from_ymd(y, m, d).unwrap(),
        published,
        html_content: String::new(),
        url: String::new(),
        date_iso: String::new(),
        date_short: String::new(),
        date_long: String::new(),
        date_rfc2822: String::new(),
    }
}

fn slugs(posts: &[Post]) -> Vec<&str> {
    posts.iter().map(|p| p.slug.as_str()).collect()
}

#[test]
fn listing_is_newest_first() {
    let posts = vec![
        post("older", 2025, 10, 20, true),
        post("newest", 2026, 2, 25, true),
        post("middle", 2025, 11, 7, true),
    ];
    let listed = published_newest_first(posts);
    assert_eq!(slugs(&listed), ["newest", "middle", "older"]);
}

#[test]
fn drafts_are_not_listed() {
    let posts = vec![
        post("draft", 2026, 1, 1, false),
        post("live", 2025, 1, 1, true),
        post("hidden", 2024, 1, 1, false),
    ];
    let listed = published_newest_first(posts);
    assert_eq!(slugs(&listed), ["live"]);
}

#[test]
fn posts_of_one_day_keep_their_order() {
    let posts = vec![
        post("a", 2025, 5, 5, true),
        post("b", 2025, 6, 1, true),
        post("c", 2025, 5, 5, true),
        post("d", 2025, 5, 5, true),
        post("e", 2024, 1, 1, true),
    ];
    let listed = published_newest_first(posts);
    assert_eq!(slugs(&listed), ["b", "a", "c", "d", "e"]);
}

#[test]
fn listing_agrees_with_a_stable_sort() {
    let dates = [(2025, 3, 1), (2024, 12, 31), (2025, 3, 1), (2026, 1, 1), (2024, 12, 31), (2025, 2, 28)];
    let mut posts = Vec::new();
    for (i, (y, m, d)) in dates.iter().enumerate() {
        posts.push(post(&format!("p{i}"), *y, *m, *d, i % 3 != 2));
    }
    let mut expected: Vec<(String, (i32, u32, u32), bool)> = dates
        .iter()
        .enumerate()
        .map(|(i, (y, m, d))| (format!("p{i}"), (*y, *m, *d), i % 3 != 2))
        .filter(|x| x.2)
        .collect();
    expected.sort_by(|a, b| b.1.cmp(&a.1));
    let listed = published_newest_first(posts);
    let got: Vec<String> = listed.iter().map(|p| p.slug.clone()).collect();
    let want: Vec<String> = expected.into_iter().map(|x| x.0).collect();
    assert_eq!(got, want);
}

#[test]
fn empty_listing() {
    assert!(published_newest_first(Vec::new()).is_empty());
}

#[test]
fn home_shows_five_most_recent() {
    let posts: Vec<Post> = (1..=7).rev().map(|d| post(&format!("d{d}"), 2025, 1, d, true)).collect();
    let listed = published_newest_first(posts);
    assert_eq!(slugs(recent_posts(&listed)), ["d7", "d6", "d5", "d4", "d3"]);
    assert_eq!(slugs(recent_posts(&listed[..2])), ["d7", "d6"]);
    assert!(recent_posts(&[]).is_empty());
}
