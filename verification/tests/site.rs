use brace::config::SiteConfig;
use brace::site::{site_path, SitePage};
use brace::templates::{autoescaped_suffixes, template_glob};

#[test]
fn configuration_from_environment_values() {
    let c = SiteConfig::from_env(None, None);
    assert_eq!(c.base_url, "");
    assert_eq!(c.custom_domain.as_deref(), Some("braceindustries.com"));
    assert_eq!(c.posts_dir, "content/posts");
    assert_eq!(c.drafts_dir, "content/drafts");
    assert_eq!(c.output_dir, "docs");
    assert_eq!(c.site_title, "Brace Industries");

    let c = SiteConfig::from_env(Some("/blog".to_string()), Some(String::new()));
    assert_eq!(c.base_url, "/blog");
    assert!(c.custom_domain.is_none());

    let c = SiteConfig::from_env(None, Some("example.com".to_string()));
    assert_eq!(c.custom_domain.as_deref(), Some("example.com"));
}

#[test]
fn site_layout() {
    assert_eq!(site_path("docs", &SitePage::Home), "docs/index.html");
    assert_eq!(site_path("docs", &SitePage::WritingDir), "docs/writing");
    assert_eq!(site_path("docs", &SitePage::WritingIndex), "docs/writing/index.html");
    assert_eq!(site_path("docs", &SitePage::PostDir("a-post".to_string())), "docs/writing/a-post");
    assert_eq!(
        site_path("docs", &SitePage::PostPage("a-post".to_string())),
        "docs/writing/a-post/index.html"
    );
    assert_eq!(site_path("docs", &SitePage::Contact), "docs/contact.html");
    assert_eq!(site_path("docs", &SitePage::Feed), "docs/feed.xml");
    assert_eq!(site_path("docs", &SitePage::Cname), "docs/CNAME");
    assert_eq!(site_path("docs/", &SitePage::StaticFiles), "docs/static");
}

#[test]
fn templates_glob_and_escaping() {
    assert_eq!(template_glob("templates"), "templates/**/*");
    assert_eq!(autoescaped_suffixes(), vec![".html"]);
}
