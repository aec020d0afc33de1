use devtui::engine::analytics::ga_script_tag;
use devtui::engine::config::{extract_tags, frontmatter, frontmatter_date, markdown_files, post_body, resolve_og_image, twitter_card};
use devtui::engine::feed::{rss_header, rss_item};
use devtui::engine::seo::{robots_txt, sitemap_entry, xml_escape};

fn post_md() -> &'static str {
    "---\ntitle: My Test Post\ndate: 2026-03-29\ndescription: A test description\ntags: [\"rust\", \"tdd\"]\n---\n\nSome content here.\n"
}

fn post_alt_md() -> &'static str {
    "---\ntitle: \"Alt Date Post\"\npublished_at: \"2024-01-15 03:32:44Z\"\ndescription: \"Alt description\"\n---\n\nAlt content.\n"
}

fn post_no_desc_md() -> &'static str {
    "---\ntitle: No Description Post\ndate: 2026-03-29\n---\n\nContent without description.\n"
}

fn post_with_hr_md() -> &'static str {
    "---\ntitle: HR Post\ndate: 2026-03-29\n---\n\nBefore rule\n\n---\n\nAfter rule\n"
}

#[test]
fn frontmatter_extracts_title() {
    assert_eq!(frontmatter("title", post_md()).unwrap(), "My Test Post");
}

#[test]
fn frontmatter_extracts_date() {
    assert_eq!(frontmatter("date", post_md()).unwrap(), "2026-03-29");
}

#[test]
fn frontmatter_extracts_description() {
    assert_eq!(frontmatter("description", post_md()).unwrap(), "A test description");
}

#[test]
fn frontmatter_extracts_quoted_title() {
    assert_eq!(frontmatter("title", post_alt_md()).unwrap(), "Alt Date Post");
}

#[test]
fn frontmatter_extracts_published_at() {
    assert_eq!(frontmatter("published_at", post_alt_md()).unwrap(), "2024-01-15 03:32:44Z");
}

#[test]
fn frontmatter_returns_none_for_missing_field() {
    assert!(frontmatter("description", post_no_desc_md()).is_none());
}

#[test]
fn frontmatter_date_strips_time() {
    assert_eq!(frontmatter_date("published_at", post_alt_md()).unwrap(), "2024-01-15");
}

#[test]
fn frontmatter_date_keeps_date_only() {
    assert_eq!(frontmatter_date("date", post_md()).unwrap(), "2026-03-29");
}

#[test]
fn post_body_extracts_content_after_frontmatter() {
    let body = post_body(post_md());
    assert!(body.contains("Some content here."));
}

#[test]
fn post_body_does_not_include_frontmatter() {
    let body = post_body(post_md());
    assert!(!body.contains("title:"));
}

#[test]
fn post_body_handles_horizontal_rules_in_content() {
    let body = post_body(post_with_hr_md());
    assert!(body.contains("Before rule"));
    assert!(body.contains("---"));
    assert!(body.contains("After rule"));
}

#[test]
fn post_body_inserts_blank_line_before_star_lists() {
    let content = "---\ntitle: Test\n---\n\nSome text\n* item one\n* item two\n";
    let body = post_body(content);
    assert!(body.contains("Some text\n\n* item one"));
}

#[test]
fn post_body_inserts_blank_line_before_dash_lists() {
    let content = "---\ntitle: Test\n---\n\nSome text\n- item one\n- item two\n";
    let body = post_body(content);
    assert!(body.contains("Some text\n\n- item one"));
}

#[test]
fn post_body_inserts_blank_line_before_blockquotes() {
    let content = "---\ntitle: Test\n---\n\nSome text\n> a quote\n";
    let body = post_body(content);
    assert!(body.contains("Some text\n\n> a quote"));
}

#[test]
fn post_body_exact_output() {
    assert_eq!(post_body("---\na: b\n---\nx\n* y\n"), "x\n\n* y\n");
    assert_eq!(post_body("no fences\n"), "");
}

#[test]
fn frontmatter_stops_at_closing_fence_and_unquotes() {
    let c = "intro\n---\nkey: \"v\"\n---\nkey: other\n";
    assert_eq!(frontmatter("key", c).unwrap(), "v");
    assert!(frontmatter("missing", c).is_none());
    assert!(frontmatter("key", "---\nkey:   \n---\n").is_none());
}

#[test]
fn extract_tags_joins_with_spaces() {
    assert_eq!(extract_tags(post_md()), "rust tdd");
    assert_eq!(extract_tags("no tags here\n"), "");
    assert_eq!(extract_tags("tags: a, b ,c\n"), "a b c");
}

#[test]
fn og_image_and_twitter_card() {
    assert_eq!(resolve_og_image(Some("p.png"), Some("s.png")), "p.png");
    assert_eq!(resolve_og_image(None, Some("s.png")), "s.png");
    assert_eq!(resolve_og_image(None, None), "");
    assert_eq!(twitter_card(""), "summary");
    assert_eq!(twitter_card("x.png"), "summary_large_image");
}

#[test]
fn rss_header_contains_channel_title() {
    let result = rss_header("My Blog", "https://test.com", "A blog");
    assert!(result.contains("<title>My Blog</title>"));
}

#[test]
fn rss_header_contains_channel_link() {
    let result = rss_header("My Blog", "https://test.com", "A blog");
    assert!(result.contains("<link>https://test.com</link>"));
}

#[test]
fn rss_header_contains_atom_self_link() {
    let result = rss_header("My Blog", "https://test.com", "A blog");
    assert!(result.contains(r#"href="https://test.com/feed.xml""#));
}

#[test]
fn rss_item_contains_title_and_link() {
    let result = rss_item("Post", "https://test.com/post.html", "desc", "2026-03-29");
    assert!(result.contains("<title>Post</title>"));
    assert!(result.contains("<link>https://test.com/post.html</link>"));
}

#[test]
fn rss_item_contains_guid() {
    let result = rss_item("Post", "https://test.com/post.html", "desc", "2026-03-29");
    assert!(result.contains("<guid>https://test.com/post.html</guid>"));
}

#[test]
fn rss_item_contains_pub_date() {
    let result = rss_item("Post", "https://test.com/post.html", "desc", "2026-03-29");
    assert!(result.contains("<pubDate>2026-03-29</pubDate>"));
}

#[test]
fn rss_item_escapes_ampersand_in_title() {
    let result = rss_item("AI & Ruby", "https://test.com/post.html", "desc", "2026-03-29");
    assert!(result.contains("<title>AI &amp; Ruby</title>"));
}

#[test]
fn rss_item_wraps_description_in_cdata() {
    let result = rss_item("Post", "https://test.com/post.html", r#"A <b>bold</b> & "quoted""#, "2026-03-29");
    assert!(result.contains(r#"<description><![CDATA[A <b>bold</b> & "quoted"]]></description>"#));
}

#[test]
fn rss_header_contains_xml_declaration() {
    let result = rss_header("Blog", "https://test.com", "desc");
    assert!(result.starts_with(r#"<?xml version="1.0" encoding="UTF-8"?>"#));
}

#[test]
fn rss_header_contains_description() {
    let result = rss_header("Blog", "https://test.com", "My awesome blog");
    assert!(result.contains("<description>My awesome blog</description>"));
}

#[test]
fn xml_escape_escapes_ampersand() {
    assert_eq!(xml_escape("A & B"), "A &amp; B");
}

#[test]
fn xml_escape_escapes_angle_brackets() {
    assert_eq!(xml_escape("<tag>"), "&lt;tag&gt;");
}

#[test]
fn xml_escape_escapes_quotes() {
    assert_eq!(xml_escape(r#"say "hi""#), "say &quot;hi&quot;");
}

#[test]
fn xml_escape_preserves_utf8() {
    assert_eq!(xml_escape("café"), "café");
}

#[test]
fn sitemap_entry_generates_valid_xml() {
    let result = sitemap_entry("https://test.com/post.html", "2026-03-29");
    assert_eq!(result, "<url><loc>https://test.com/post.html</loc><lastmod>2026-03-29</lastmod></url>");
}

#[test]
fn robots_txt_contains_user_agent_allow_and_sitemap() {
    let result = robots_txt("https://test.com");
    assert!(result.contains("User-agent: *"));
    assert!(result.contains("Allow: /"));
    assert!(result.contains("Sitemap: https://test.com/sitemap.xml"));
}

#[test]
fn ga_script_tag_returns_empty_for_empty_id() {
    assert!(ga_script_tag("").is_empty());
}

#[test]
fn ga_script_tag_contains_analytics_id() {
    let result = ga_script_tag("G-ABC123");
    assert!(result.contains("G-ABC123"));
    assert!(result.contains("<script>"));
    assert!(result.contains("gtag"));
}

#[test]
fn ga_script_tag_contains_lazy_load_pattern() {
    let result = ga_script_tag("G-XYZ");
    assert!(result.contains("addEventListener('load'"));
    assert!(result.contains("setTimeout"));
}

#[test]
fn markdown_files_keeps_md_names_in_name_order() {
    let names: Vec<String> = ["b.md", "notes.txt", "a.md", ".md", "draft.MD", "x.tar.md", "README"]
        .iter()
        .map(|s| s.to_string())
        .collect();
    assert_eq!(markdown_files(&names), vec!["a.md".to_string(), "b.md".to_string(), "x.tar.md".to_string()]);
}

#[test]
fn markdown_files_of_nothing_is_empty() {
    assert!(markdown_files(&Vec::new()).is_empty());
}
