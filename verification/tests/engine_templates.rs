use devtui::engine::config::{BlogConfig, Guide, Link};
use devtui::engine::links::{render_guides, render_links, render_tags};
use devtui::engine::migrate::normalize_frontmatter;
use devtui::engine::template::{first_existing, template_render};

fn base_config() -> BlogConfig {
    BlogConfig {
        title: "Test".to_string(),
        subtitle: None,
        url: "https://test.com".to_string(),
        author: "Author".to_string(),
        date_field: "date".to_string(),
        lang: "en".to_string(),
        articles_path: None,
        theme: None,
        analytics_id: None,
        license: None,
        license_url: None,
        og_image: None,
        tags: None,
        links: None,
        guides: None,
    }
}

fn config_with_links() -> BlogConfig {
    BlogConfig {
        links: Some(vec![
            Link { label: "github".to_string(), url: "https://github.com/user".to_string() },
            Link { label: "linkedin".to_string(), url: "https://linkedin.com/in/user".to_string() },
        ]),
        ..base_config()
    }
}

fn config_with_tags() -> BlogConfig {
    BlogConfig {
        tags: Some(vec!["ruby".to_string(), "rust".to_string(), "docker".to_string()]),
        ..base_config()
    }
}

fn config_with_guides() -> BlogConfig {
    BlogConfig {
        guides: Some(vec![
            Guide { title: "Web 101".to_string(), url: "https://web101.test.com".to_string() },
            Guide { title: "AWS 101".to_string(), url: "https://aws101.test.com".to_string() },
        ]),
        ..base_config()
    }
}

#[test]
fn render_links_generates_nav_with_links() {
    let result = render_links(&config_with_links());
    assert!(result.contains(r#"<nav class="social-links">"#));
    assert!(result.contains("github"));
    assert!(result.contains("linkedin"));
    assert!(result.contains(" &middot; "));
}

#[test]
fn render_links_returns_empty_when_no_links() {
    assert!(render_links(&base_config()).is_empty());
}

#[test]
fn render_tags_generates_buttons() {
    let result = render_tags(&config_with_tags());
    assert!(result.contains(r#"data-tag="ruby""#));
    assert!(result.contains(r#"data-tag="rust""#));
    assert!(result.contains(r#"data-tag="docker""#));
    assert!(result.contains("active"));
}

#[test]
fn render_tags_returns_empty_when_no_tags() {
    assert!(render_tags(&base_config()).is_empty());
}

#[test]
fn render_guides_generates_badge_list() {
    let result = render_guides(&config_with_guides());
    assert!(result.contains(r#"class="guide-badge""#));
    assert!(result.contains("Web 101"));
    assert!(result.contains("AWS 101"));
}

#[test]
fn render_guides_returns_empty_when_no_guides() {
    assert!(render_guides(&base_config()).is_empty());
}

#[test]
fn render_links_exact_markup() {
    let cfg = BlogConfig {
        links: Some(vec![Link { label: "a".to_string(), url: "u".to_string() }]),
        ..base_config()
    };
    assert_eq!(
        render_links(&cfg),
        r#"<nav class="social-links"><a href="u" target="_blank" rel="noopener">a</a></nav>"#
    );
    let empty = BlogConfig { links: Some(vec![]), ..base_config() };
    assert_eq!(render_links(&empty), "");
}

#[test]
fn template_render_replaces_single_variable() {
    let vars = [("name", "World")];
    assert_eq!(template_render("Hello $name$", &vars), "Hello World");
}

#[test]
fn template_render_replaces_multiple_variables() {
    let vars = [("title", "My Blog"), ("subtitle", "a tagline")];
    let result = template_render("$title$ - $subtitle$", &vars);
    assert_eq!(result, "My Blog - a tagline");
}

#[test]
fn template_render_leaves_unmatched_variables() {
    let vars = [("title", "My Blog")];
    let result = template_render("$title$ $other$", &vars);
    assert_eq!(result, "My Blog $other$");
}

#[test]
fn template_render_handles_if_with_value() {
    let vars = [("description", "A desc")];
    let template = "before $if(description)$desc: $description$$endif$ after";
    let result = template_render(template, &vars);
    assert_eq!(result, "before desc: A desc after");
}

#[test]
fn template_render_handles_if_without_value() {
    let vars: [(&str, &str); 0] = [];
    let template = "before $if(description)$desc: $description$$endif$ after";
    let result = template_render(template, &vars);
    assert_eq!(result, "before  after");
}

#[test]
fn template_render_empty_value_drops_block_and_unclosed_if_stays() {
    let vars = [("x", "")];
    assert_eq!(template_render("a$if(x)$b$endif$c", &vars), "ac");
    assert_eq!(template_render("a$if(x)$b", &vars), "a$if(x)$b");
}

#[test]
fn normalize_renames_date_to_published_at() {
    let input = "---\ndate: 2026-03-28\n---\n";
    let expected = "---\npublished_at: \"2026-03-28\"\n---\n";
    assert_eq!(normalize_frontmatter(input), expected);
}

#[test]
fn normalize_quotes_unquoted_title() {
    let input = "---\ntitle: Foo\n---\n";
    let expected = "---\ntitle: \"Foo\"\n---\n";
    assert_eq!(normalize_frontmatter(input), expected);
}

#[test]
fn normalize_only_renames_exact_date_field() {
    let input = "---\nlast_date: 2026-03-28\n---\n";
    let expected = "---\nlast_date: \"2026-03-28\"\n---\n";
    assert_eq!(normalize_frontmatter(input), expected);
}

#[test]
fn normalize_leaves_canonical_leandronsp_post_unchanged() {
    let input = "---\n\
title: \"A brief history\"\n\
slug: \"a-brief-history\"\n\
published_at: \"2022-07-12 06:11:29Z\"\n\
language: \"en\"\n\
status: \"published\"\n\
tags: [\"unix\", \"linux\"]\n\
---\n\n\
Body text.\n";
    let expected = "---\n\
title: \"A brief history\"\n\
slug: \"a-brief-history\"\n\
published_at: \"2022-07-12 06:11:29Z\"\n\
language: \"en\"\n\
tags: [\"unix\", \"linux\"]\n\
status: \"published\"\n\
---\n\n\
Body text.\n";
    assert_eq!(normalize_frontmatter(input), expected);
}

#[test]
fn normalize_rewrites_minimal_acme_post_to_canonical() {
    let input = "---\ntitle: Why I Live in the Terminal\ndate: 2026-03-28\n---\n\nBody.\n";
    let expected = "---\ntitle: \"Why I Live in the Terminal\"\npublished_at: \"2026-03-28\"\n---\n\nBody.\n";
    assert_eq!(normalize_frontmatter(input), expected);
}

#[test]
fn normalize_passes_through_unknown_fields() {
    let input = "---\ntitle: Foo\ncustom: bar\n---\n";
    let expected = "---\ntitle: \"Foo\"\ncustom: \"bar\"\n---\n";
    assert_eq!(normalize_frontmatter(input), expected);
}

#[test]
fn normalize_reorders_fields_to_canonical() {
    let input = "---\npublished_at: \"2026-03-28\"\ntitle: \"Foo\"\n---\n";
    let expected = "---\ntitle: \"Foo\"\npublished_at: \"2026-03-28\"\n---\n";
    assert_eq!(normalize_frontmatter(input), expected);
}

#[test]
fn normalize_is_idempotent_on_canonical_input() {
    let canonical = "---\ntitle: \"Foo\"\npublished_at: \"2026-03-28\"\n---\n\nBody\n";
    let once = normalize_frontmatter(canonical);
    let twice = normalize_frontmatter(&once);
    assert_eq!(once, canonical);
    assert_eq!(twice, canonical);
}

#[test]
fn normalize_does_not_touch_body_text() {
    let input = "---\ndate: 2026-03-28\n---\n\nthe date: was yesterday\n";
    let expected = "---\npublished_at: \"2026-03-28\"\n---\n\nthe date: was yesterday\n";
    assert_eq!(normalize_frontmatter(input), expected);
}

#[test]
fn normalize_without_frontmatter_is_identity() {
    assert_eq!(normalize_frontmatter("plain body\n"), "plain body\n");
    assert_eq!(normalize_frontmatter("---\nno close\n"), "---\nno close\n");
}

#[test]
fn normalizing_unordered_fields_twice_equals_once() {
    let input = "---\ntags: [\"a\"]\nextra: x\ndate: 2026-03-28\ntitle: Foo\n---\nBody\n";
    let once = normalize_frontmatter(input);
    assert_eq!(
        once,
        "---\ntitle: \"Foo\"\npublished_at: \"2026-03-28\"\ntags: [\"a\"]\nextra: \"x\"\n---\nBody\n"
    );
    assert_eq!(normalize_frontmatter(&once), once);
}

#[test]
fn first_existing_prefers_the_blog_then_the_theme_then_the_engine() {
    let candidates = vec![
        std::path::PathBuf::from("blog/t.html"),
        std::path::PathBuf::from("theme/t.html"),
        std::path::PathBuf::from("engine/t.html"),
    ];
    assert_eq!(first_existing(&candidates, &vec![true, true, true]), Some(candidates[0].clone()));
    assert_eq!(first_existing(&candidates, &vec![false, true, true]), Some(candidates[1].clone()));
    assert_eq!(first_existing(&candidates, &vec![false, false, true]), Some(candidates[2].clone()));
    assert_eq!(first_existing(&candidates, &vec![false, false, false]), None);
}

#[test]
fn template_render_uses_the_first_binding_of_a_repeated_key() {
    let vars = [("a", "1"), ("a", "2"), ("b", "")];
    assert_eq!(template_render("$if(a)$x$endif$$if(b)$y$endif$ $a$", &vars), "x 1");
}

#[test]
fn normalizing_twice_equals_once_with_untidy_lines() {
    let input = "---\ndate:2026-01-01\r\n  title :  x y \nnocolon\n---\nbody\n---\nmore";
    let once = normalize_frontmatter(input);
    assert_eq!(once, "---\ntitle: \"x y\"\npublished_at: \"2026-01-01\"\n---\nbody\n---\nmore");
    assert_eq!(normalize_frontmatter(&once), once);
}
