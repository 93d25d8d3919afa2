//! Site configuration.

use vstd::prelude::*;

verus! {

/// Where the site's files live and how the site names itself. Directories
/// are paths relative to the working directory.
#[derive(Clone)]
pub struct SiteConfig {
    pub content_dir: String,
    pub posts_dir: String,
    pub drafts_dir: String,
    pub templates_dir: String,
    pub static_dir: String,
    pub output_dir: String,
    /// Prefix of every page link; empty for a site at the domain's root.
    pub base_url: String,
    /// Domain written to the `CNAME` file, if any.
    pub custom_domain: Option<String>,
    pub site_title: String,
    pub site_description: String,
    pub site_url: String,
}

/// The domain used when `CUSTOM_DOMAIN` is not set.
pub open spec fn default_domain() -> Seq<char> {
    "braceindustries.com"@
}

impl SiteConfig {
    /// The configuration, given the values of the `BASE_URL` and
    /// `CUSTOM_DOMAIN` environment variables (`None` where a variable is not
    /// set or not Unicode). `BASE_URL` defaults to empty; `CUSTOM_DOMAIN`
    /// defaults to `braceindustries.com`, and an empty one means no custom
    /// domain.
    pub fn from_env(base_url_var: Option<String>, custom_domain_var: Option<String>) -> (r: Self)
        ensures
            r.base_url@ == (match base_url_var {
                Some(v) => v@,
                None => Seq::empty(),
            }),
            custom_domain_var matches Some(v) ==> r.custom_domain == (if v@.len() == 0 {
                None
            } else {
                Some(v)
            }),
            custom_domain_var is None ==> (r.custom_domain matches Some(d) && d@ == default_domain()),
            r.content_dir@ == "content"@,
            r.posts_dir@ == "content/posts"@,
            r.drafts_dir@ == "content/drafts"@,
            r.templates_dir@ == "templates"@,
            r.static_dir@ == "static"@,
            r.output_dir@ == "docs"@,
            r.site_title@ == "Brace Industries"@,
            r.site_description@ == "Thoughts on software, data, and building things"@,
            r.site_url@ == "https://braceindustries.com"@,
    {
        let base_url = match base_url_var {
            Some(v) => v,
            None => String::new(),
        };
        let domain = match custom_domain_var {
            Some(v) => v,
            None => {
                proof {
                    reveal_strlit("braceindustries.com");
                }
                "braceindustries.com".to_owned()
            },
        };
        let custom_domain = if domain.as_str().is_empty() {
            None
        } else {
            Some(domain)
        };
        SiteConfig {
            content_dir: "content".to_owned(),
            posts_dir: "content/posts".to_owned(),
            drafts_dir: "content/drafts".to_owned(),
            templates_dir: "templates".to_owned(),
            static_dir: "static".to_owned(),
            output_dir: "docs".to_owned(),
            base_url,
            custom_domain,
            site_title: "Brace Industries".to_owned(),
            site_description: "Thoughts on software, data, and building things".to_owned(),
            site_url: "https://braceindustries.com".to_owned(),
        }
    }
}

} // verus!
