use vstd::prelude::*;
use crate::engine::config::BlogConfig;

verus! {

/// A minimal site configuration: title "Test" at https://test.com by "A",
/// dated by `date`, in English, with nothing optional set.
pub fn test_blog_config() -> (r: BlogConfig)
    ensures
        r.title@ == "Test"@,
        r.url@ == "https://test.com"@,
        r.author@ == "A"@,
        r.date_field@ == "date"@,
        r.lang@ == "en"@,
        r.subtitle is None,
        r.articles_path is None,
        r.theme is None,
        r.analytics_id is None,
        r.license is None,
        r.license_url is None,
        r.og_image is None,
        r.tags is None,
        r.links is None,
        r.guides is None,
{
    BlogConfig {
        title: String::from_str("Test"),
        subtitle: None,
        url: String::from_str("https://test.com"),
        author: String::from_str("A"),
        date_field: String::from_str("date"),
        lang: String::from_str("en"),
        articles_path: None,
        theme: None,
        analytics_id: None,
        license: None,
        license_url: None,
        og_image: None,
        tags: None,
        links: None,
        guides: None,
    }
}

} // verus!
