use devtui::engine::config::{BlogConfig, Guide, Link, Post};
use devtui::engine::index::{inject_footer, inject_nav, inject_post_list, normalize_lang, post_list_item, render_index};
use devtui::engine::pages::{
    article_url, feed_xml, inject_analytics, post_from_file, preview_body, render_404_page, render_article_page,
    render_preview_html, sitemap_xml, sort_posts_newest_first,
};
use devtui::testutil::test_blog_config;
use std::path::PathBuf;

fn post(slug: &str, title: &str, date: &str, content: &str) -> Post {
    Post {
        slug: slug.to_string(),
        title: title.to_string(),
        date: date.to_string(),
        description: String::new(),
        image: None,
        content: content.to_string(),
        path: PathBuf::from(format!("{slug}.md")),
    }
}

#[test]
fn test_blog_config_has_defaults() {
    let cfg = test_blog_config();
    assert_eq!(cfg.title, "Test");
    assert_eq!(cfg.author, "A");
    assert!(cfg.tags.is_none());
}

#[test]
fn normalize_lang_maps_portuguese() {
    assert_eq!(normalize_lang("---\nlanguage: pt-BR\n---\nx"), "pt");
    assert_eq!(normalize_lang("---\nlanguage: de\n---\nx"), "de");
    assert_eq!(normalize_lang("no frontmatter"), "");
}

#[test]
fn post_list_item_exact() {
    let p = post("hello", "Hello", "2026-01-02", "---\ntitle: Hello\ntags: [\"a\", \"b\"]\n---\n\nSome body.\n");
    assert_eq!(
        post_list_item(&p, ""),
        "<li data-lang=\"\" data-tags=\"a b\"><time datetime=\"2026-01-02\">2026-01-02</time><a href=\"hello.html\">Hello</a><p class=\"post-desc\">Some body.</p></li>"
    );
    assert!(post_list_item(&p, "posts").contains("href=\"posts/hello.html\""));
}

#[test]
fn post_list_skips_repeated_titles() {
    let posts = vec![
        post("a", "Same", "2026-01-02", "---\n---\nA"),
        post("b", "Same", "2026-01-01", "---\n---\nB"),
        post("c", "Other", "2026-01-01", "---\n---\nC"),
    ];
    let mut html = String::from("<ul>");
    inject_post_list(&posts, "", &mut html);
    assert_eq!(html.matches("<li").count(), 2);
    assert!(html.contains("a.html"));
    assert!(!html.contains("b.html"));
}

#[test]
fn inject_nav_fills_slots() {
    let cfg = BlogConfig {
        tags: Some(vec!["rust".to_string()]),
        links: Some(vec![Link { label: "gh".to_string(), url: "https://gh".to_string() }]),
        guides: Some(vec![Guide { title: "G".to_string(), url: "/g".to_string() }]),
        ..test_blog_config()
    };
    let mut html = String::from(
        "<div class=\"guides-slot\"></div>|<div class=\"tag-filter\"></div>|<div class=\"mobile-pills mobile-tags\"></div>|<div class=\"mobile-pills mobile-guides\"></div>",
    );
    inject_nav(&cfg, &mut html);
    assert!(!html.contains("<div class=\"guides-slot\"></div>"));
    assert!(html.contains("<div class=\"tag-filter\"><button"));
    assert!(html.contains("<div class=\"mobile-pills mobile-guides\">"));
    let mut untouched = String::from("<div class=\"guides-slot\"></div>");
    inject_nav(&test_blog_config(), &mut untouched);
    assert_eq!(untouched, "<div class=\"guides-slot\"></div>");
}

#[test]
fn inject_footer_links_license_and_feed() {
    let cfg = BlogConfig {
        license: Some("CC".to_string()),
        license_url: Some("https://cc".to_string()),
        ..test_blog_config()
    };
    let mut html = String::new();
    inject_footer(&cfg, &mut html);
    assert!(html.starts_with("</ul></main>\n<script>"));
    assert!(html.ends_with(
        "<footer><a href=\"https://cc\" target=\"_blank\" rel=\"noopener\">CC</a> · <a href=\"feed.xml\">rss</a></footer>\n</body></html>"
    ));
}

#[test]
fn render_index_fills_template() {
    let posts = vec![post("p", "P", "2026-01-01", "---\n---\nBody")];
    let html = render_index(&test_blog_config(), &posts, "", "<title>$title$</title><meta $twitter-card$>");
    assert!(html.starts_with("<title>Test</title><meta summary>"));
    assert!(html.contains("p.html"));
    assert!(html.ends_with("</body></html>"));
}

#[test]
fn posts_sorted_newest_first_stably() {
    let posts = vec![
        post("a", "A", "2026-01-01", ""),
        post("b", "B", "2026-03-01", ""),
        post("c", "C", "2026-01-01", ""),
    ];
    let sorted: Vec<String> = sort_posts_newest_first(posts).into_iter().map(|p| p.slug).collect();
    assert_eq!(sorted, vec!["b", "a", "c"]);
}

#[test]
fn urls_sitemap_and_analytics() {
    assert_eq!(article_url("https://x.io", "", "s"), "https://x.io/s.html");
    assert_eq!(article_url("https://x.io", "posts", "s"), "https://x.io/posts/s.html");
    assert_eq!(
        sitemap_xml("https://x.io", "E"),
        "<?xml version=\"1.0\" encoding=\"UTF-8\"?>\n<urlset xmlns=\"http://www.sitemaps.org/schemas/sitemap/0.9\">\n<url><loc>https://x.io/</loc></url>\nE</urlset>"
    );
    assert_eq!(inject_analytics("<body></body>", ""), "<body></body>");
    let with = inject_analytics("<body></body>", "G-1");
    assert!(with.contains("G-1"));
    assert!(with.ends_with("</script></body>"));
}

#[test]
fn article_and_404_pages() {
    let p = Post { image: Some("/i.png".to_string()), ..post("s", "T", "2026-01-01", "---\ntitle: T\n---\n\nHello there.\n") };
    let page = render_article_page(&test_blog_config(), &p, "posts", "$title$|$description$|$slug$|$base-path$|$twitter-card$|$body$", "<p>x</p>");
    assert_eq!(page, "T|Hello there.|posts/s|../|summary_large_image|<p>x</p>");
    assert_eq!(render_404_page(&test_blog_config(), "$title$ $lang$"), "Test en");
}

#[test]
fn feed_lists_at_most_twenty_posts() {
    let posts: Vec<Post> = (0..25).map(|i| post(&format!("p{i}"), "A & B", "D", "")).collect();
    let bodies: Vec<String> = (0..25).map(|i| format!("<p>{i}</p>")).collect();
    let feed = feed_xml(&test_blog_config(), &posts, "", &bodies);
    assert_eq!(feed.matches("<item>").count(), 20);
    assert!(feed.contains("<title>A &amp; B</title>"));
    assert!(feed.contains("<link>https://test.com/p0.html</link>"));
    assert!(feed.ends_with("</channel></rss>\n"));
}

#[test]
fn preview_uses_body_after_frontmatter() {
    assert_eq!(preview_body("plain text"), "plain text");
    let content = "---\ndate: 2026-02-03 10:00\n---\n\nBody.\n";
    assert_eq!(preview_body(content), "\nBody.\n");
    let page = render_preview_html(content, "T", &test_blog_config(), "$date$|$slug$|$description$", "");
    assert_eq!(page, "2026-02-03|preview|Body.");
}

#[test]
fn post_from_file_reads_frontmatter() {
    let content = "---\ntitle: \"Hi\"\ndate: 2026-01-05T10:00\nimage: /a.png\n---\nx".to_string();
    let p = post_from_file("hi".to_string(), content, "date", PathBuf::from("hi.md"));
    assert_eq!(p.title, "Hi");
    assert_eq!(p.date, "2026-01-05T10:00");
    assert_eq!(p.description, "");
    assert_eq!(p.image, Some("/a.png".to_string()));
}
