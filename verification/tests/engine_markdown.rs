use devtui::engine::markdown::{code_block_html, markdown_to_html, plan_events, PageEvent, Piece};
use devtui::engine::markdown::post_snippet;

#[test]
fn post_snippet_uses_description_when_available() {
    let result = post_snippet("body text", Some("A description"), 300);
    assert_eq!(result, "A description");
}

#[test]
fn post_snippet_falls_back_to_body() {
    let result = post_snippet("Content without description.", None, 300);
    assert!(result.contains("Content without description"));
}

#[test]
fn post_snippet_strips_bold_italic_code() {
    let result = post_snippet("Some **bold** and *italic* and `code` text", None, 300);
    assert!(result.contains("bold"));
    assert!(!result.contains("**"));
    assert!(!result.contains("`"));
}

#[test]
fn post_snippet_strips_links() {
    let result = post_snippet("Visit [my site](https://example.com) now", None, 300);
    assert!(result.contains("my site"));
    assert!(!result.contains("https://example.com"));
}

#[test]
fn post_snippet_strips_horizontal_rules() {
    let result = post_snippet("Before\n\n---\n\nAfter", None, 300);
    assert!(!result.contains("---"));
}

#[test]
fn post_snippet_strips_strikethrough() {
    let result = post_snippet("~~shame~~ courage", None, 300);
    assert!(result.contains("courage"));
    assert!(!result.contains("~~"));
}

#[test]
fn post_snippet_custom_limit_truncates() {
    let body = "This is a long body text that should be truncated at the word boundary when the limit is reached.";
    let result = post_snippet(body, None, 50);
    assert!(result.len() <= 50);
}

#[test]
fn post_snippet_preserves_utf8() {
    let result = post_snippet("Sentado no sofá, então lá vai", None, 300);
    assert!(result.contains("sofá"));
    assert!(result.contains("então"));
    assert!(result.contains("lá"));
}

#[test]
fn post_snippet_empty_description_falls_back_to_body() {
    let result = post_snippet("Body content here.", Some(""), 300);
    assert!(result.contains("Body content here"));
}

#[test]
fn post_snippet_skips_code_blocks() {
    let body = "Intro text\n\n```rust\nfn main() {}\n```\n\nAfter code.";
    let result = post_snippet(body, None, 300);
    assert!(result.contains("Intro text"));
    assert!(result.contains("After code"));
    assert!(!result.contains("fn main"));
}

#[test]
fn post_snippet_skips_image_alt_text() {
    // Image-only posts shouldn't leak the alt slug into the description.
    let body = "![my-screenshot-2026](/images/my-screenshot-2026.png)";
    let result = post_snippet(body, None, 300);
    assert!(!result.contains("my-screenshot"));
    assert!(!result.contains("2026"));
}

#[test]
fn post_snippet_keeps_prose_around_images() {
    // Body text adjacent to an image should still survive.
    let body = "Intro before image.\n\n![alt-tag](/images/x.png)\n\nProse after.";
    let result = post_snippet(body, None, 300);
    assert!(result.contains("Intro before image"));
    assert!(result.contains("Prose after"));
    assert!(!result.contains("alt-tag"));
}

#[test]
fn post_snippet_does_not_break_multibyte_at_boundary() {
    // UTF-8 boundary stress test
    let body = "á".repeat(100);
    let result = post_snippet(&body, None, 160);
    assert!(result.len() <= 160);
    // Verify it's valid UTF-8 (would panic if not)
    let _ = result.chars().count();
}

#[test]
fn post_snippet_cuts_at_last_space_within_limit() {
    assert_eq!(post_snippet("alpha beta gamma", None, 12), "alpha beta");
    assert_eq!(post_snippet("alphabetagamma", None, 5), "alpha");
    assert_eq!(post_snippet("a  b\n\nc", None, 300), "a b c");
    assert_eq!(post_snippet("ééé", None, 3), "é");
}

// --- markdown_to_html ---

#[test]
fn markdown_to_html_renders_heading_with_auto_id() {
    let result = markdown_to_html("## Section Title\n");
    assert!(result.contains(r#"<h2 id="section-title">Section Title</h2>"#));
}

#[test]
fn markdown_to_html_heading_id_uses_pandoc_slug() {
    // Manual TOC links like `[First things first](#first-things-first)`
    // must resolve to the heading "First things first" below.
    let result = markdown_to_html("## First things first\n");
    assert!(result.contains(r#"id="first-things-first""#));
}

#[test]
fn markdown_to_html_heading_id_preserves_unicode() {
    let result = markdown_to_html("## Bits não são suficientes\n");
    assert!(result.contains(r#"id="bits-não-são-suficientes""#));
}

#[test]
fn markdown_to_html_heading_id_strips_punctuation() {
    let result = markdown_to_html("## Hello, World!\n");
    assert!(result.contains(r#"id="hello-world""#));
}

#[test]
fn markdown_to_html_heading_id_uses_explicit_attribute() {
    let result = markdown_to_html("## My Heading {#custom-id}\n");
    assert!(result.contains(r#"id="custom-id""#));
}

#[test]
fn markdown_to_html_highlights_fenced_code_with_lang() {
    let result = markdown_to_html("```rust\nfn main() {}\n```\n");
    assert!(result.contains("language-rust"));
    // syntect emits scope-class spans
    assert!(result.contains("<span"));
    assert!(result.contains("storage"));
}

#[test]
fn markdown_to_html_codeblock_without_lang_still_renders() {
    let result = markdown_to_html("```\nplain text\n```\n");
    assert!(result.contains("plain text"));
    assert!(result.contains("<pre>"));
}

#[test]
fn markdown_to_html_renders_bold() {
    let result = markdown_to_html("Some **bold** text\n");
    assert!(result.contains("<strong>bold</strong>"));
}

#[test]
fn markdown_to_html_renders_code_block() {
    let result = markdown_to_html("```ruby\nputs 'hi'\n```\n");
    assert!(result.contains("<code"));
    // Highlighter HTML-escapes the apostrophes; check tokens that survive.
    assert!(result.contains("puts"));
    assert!(result.contains("hi"));
}

#[test]
fn markdown_to_html_renders_hr_before_heading_as_h2() {
    let md = "Some text\n\n---\n\n## Section After Rule\n";
    let result = markdown_to_html(md);
    assert!(result.contains(r#"<h2 id="section-after-rule">Section After Rule</h2>"#));
}

#[test]
fn markdown_to_html_hr_not_in_table() {
    let md = "Some text\n\n---\n\n## Section After Rule\n";
    let result = markdown_to_html(md);
    assert!(!result.contains("<th"));
}

#[test]
fn markdown_to_html_converts_emoji_shortcodes() {
    let result = markdown_to_html("Hello :wave: world :bulb:\n");
    assert!(result.contains(r#"data-emoji="wave""#));
    assert!(result.contains(r#"data-emoji="bulb""#));
}

#[test]
fn markdown_to_html_preserves_emoji_in_code_blocks() {
    let result = markdown_to_html("```\n:wave:\n```\n");
    // Inside code blocks, emoji shortcodes should NOT be converted
    assert!(!result.contains("data-emoji"));
}

#[test]
fn markdown_to_html_renders_lists_without_blank_line() {
    // post_body already inserts blank lines, but test the HTML output
    let md = "Some text\n\n* item one\n* item two\n";
    let result = markdown_to_html(md);
    assert!(result.contains("<li>"));
}

#[test]
fn markdown_to_html_renders_blockquote() {
    let md = "Some text\n\n> a quote\n";
    let result = markdown_to_html(md);
    assert!(result.contains("<blockquote>"));
}

#[test]
fn markdown_to_html_renders_links() {
    let md = "Visit [my site](https://example.com)\n";
    let result = markdown_to_html(md);
    assert!(result.contains(r#"<a href="https://example.com">my site</a>"#));
}


#[test]
fn markdown_to_html_renders_empty_input() {
    let result = markdown_to_html("");
    assert!(result.is_empty());
}

#[test]
fn markdown_to_html_renders_table() {
    let md = "| col1 | col2 |\n|------|------|\n| a    | b    |\n";
    let result = markdown_to_html(md);
    assert!(result.contains("<table>"));
    assert!(result.contains("<td>a</td>"));
}

#[test]
fn markdown_to_html_renders_italic() {
    let result = markdown_to_html("Some *italic* text\n");
    assert!(result.contains("<em>italic</em>"));
}

#[test]
fn markdown_to_html_renders_inline_code() {
    let result = markdown_to_html("Use `cargo build`\n");
    assert!(result.contains("<code>cargo build</code>"));
}

#[test]
fn markdown_to_html_preserves_emoji_in_inline_code() {
    let result = markdown_to_html("Use `:wave:` shortcode\n");
    // Inside inline backticks, shortcodes should NOT be converted
    assert!(result.contains(":wave:"));
}

#[test]
fn markdown_to_html_renders_nested_emphasis() {
    let result = markdown_to_html("Some ***bold italic*** text\n");
    assert!(result.contains("<em><strong>bold italic</strong></em>"));
}

#[test]
fn plan_events_wraps_headings_and_replaces_code_blocks() {
    let events = vec![
        PageEvent::Other,
        PageEvent::HeadingStart(2, None),
        PageEvent::Text("Hi ".to_string()),
        PageEvent::Code("x".to_string()),
        PageEvent::HeadingEnd(2),
        PageEvent::CodeStart(String::new()),
        PageEvent::Text("a<b".to_string()),
        PageEvent::CodeEnd,
        PageEvent::HeadingStart(1, Some("own".to_string())),
    ];
    let plan = plan_events(&events);
    let shown: Vec<String> = plan
        .iter()
        .map(|p| match p {
            Piece::Keep(i) => format!("keep {i}"),
            Piece::Html(h) => h.clone(),
        })
        .collect();
    assert_eq!(
        shown,
        vec![
            "keep 0".to_string(),
            "<h2 id=\"hi-x\">".to_string(),
            "keep 2".to_string(),
            "keep 3".to_string(),
            "</h2>".to_string(),
            code_block_html("a<b", ""),
            "<h1 id=\"own\">".to_string(),
            "</h1>".to_string(),
        ]
    );
}
