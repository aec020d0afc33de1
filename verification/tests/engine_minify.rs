use devtui::engine::minify::{inline_css, minify_css, minify_html};

// --- minify_css ---

#[test]
fn minify_css_strips_comments() {
    let css = "/* comment */\nbody { color: red; }";
    let result = minify_css(css);
    assert!(!result.contains("comment"));
    assert!(result.contains("body{color:red}"));
}

#[test]
fn minify_css_collapses_whitespace() {
    let css = "body {\n  color: red;\n  font-size: 16px;\n}";
    let result = minify_css(css);
    assert!(!result.contains('\n'));
    assert!(result.contains("body{color:red;font-size:16px}"));
}

// --- inline_css ---

#[test]
fn inline_css_replaces_link_tag_with_style() {
    let html = r#"<head><link rel="stylesheet" href="style.css"></head>"#;
    let css = "body{color:red}";
    let result = inline_css(html, css);
    assert!(result.contains("<style>body{color:red}</style>"));
    assert!(!result.contains("link"));
}

// --- minify_html ---

#[test]
fn minify_html_strips_comments() {
    let html = "<div><!-- comment --><p>text</p></div>";
    let result = minify_html(html);
    assert!(!result.contains("comment"));
    assert!(result.contains("<p>text</p>"));
}

#[test]
fn minify_html_collapses_whitespace_between_tags() {
    let html = "<div>  \n  <p>text</p>  \n  </div>";
    let result = minify_html(html);
    assert!(result.contains("<div><p>text</p></div>"));
}

#[test]
fn minify_html_preserves_pre_content() {
    let html = "<pre>  code\n  here  </pre><p>  text  </p>";
    let result = minify_html(html);
    assert!(result.contains("<pre>  code\n  here  </pre>"));
    assert!(result.contains("<p> text </p>"));
}

#[test]
fn minify_html_preserves_script_content() {
    let html = "<script>  var x = 1;  </script><p>  text  </p>";
    let result = minify_html(html);
    assert!(result.contains("<script>  var x = 1;  </script>"));
}

#[test]
fn minify_html_preserves_style_content() {
    let html = "<style>  body { color: red; }  </style><p>  text  </p>";
    let result = minify_html(html);
    assert!(result.contains("<style>  body { color: red; }  </style>"));
}

// --- minify_css edge cases ---

#[test]
fn minify_css_handles_empty_input() {
    assert_eq!(minify_css(""), "");
}

#[test]
fn minify_css_handles_media_queries() {
    let css = "@media (max-width: 768px) {\n  body { font-size: 14px; }\n}";
    let result = minify_css(css);
    assert!(result.contains("@media"));
    assert!(result.contains("768px"));
}

#[test]
fn minify_css_strips_multiline_comments() {
    let css = "/* first\n * comment\n */\nbody { color: red; }\n/* second */";
    let result = minify_css(css);
    assert!(!result.contains("comment"));
    assert!(!result.contains("second"));
    assert!(result.contains("body{color:red}"));
}

// --- inline_css edge cases ---

#[test]
fn inline_css_leaves_non_stylesheet_links() {
    let html = r#"<link rel="icon" href="favicon.ico"><link rel="stylesheet" href="style.css">"#;
    let result = inline_css(html, "body{}");
    assert!(result.contains(r#"<link rel="icon" href="favicon.ico">"#));
    assert!(result.contains("<style>body{}</style>"));
}

#[test]
fn inline_css_no_stylesheet_link_returns_unchanged() {
    let html = r#"<link rel="icon" href="favicon.ico">"#;
    let result = inline_css(html, "body{}");
    assert_eq!(result, html);
}

// --- minify_html edge cases ---

#[test]
fn minify_html_handles_empty_input() {
    assert_eq!(minify_html(""), "");
}

#[test]
fn minify_html_handles_multiple_preserved_blocks() {
    let html = "<pre>code1</pre><p>  text  </p><pre>code2</pre>";
    let result = minify_html(html);
    assert!(result.contains("<pre>code1</pre>"));
    assert!(result.contains("<pre>code2</pre>"));
}

#[test]
fn minify_html_strips_multiple_comments() {
    let html = "<!-- first --><p>text</p><!-- second --><p>more</p>";
    let result = minify_html(html);
    assert!(!result.contains("first"));
    assert!(!result.contains("second"));
    assert!(result.contains("<p>text</p>"));
    assert!(result.contains("<p>more</p>"));
}

// --- exact results ---

#[test]
fn minify_css_exact_output() {
    assert_eq!(minify_css("a , b > c {  color : red ; }"), "a,b>c{color:red}");
}

#[test]
fn minify_css_unclosed_comment_drops_rest() {
    assert_eq!(minify_css("a{}/* open"), "a{}");
}

#[test]
fn minify_html_exact_output() {
    assert_eq!(
        minify_html("<div>\n  <p>a   b</p>\n  text <!-- x --> </div>"),
        "<div><p>a b</p> text </div>"
    );
}

#[test]
fn minify_html_keeps_unclosed_comment() {
    assert_eq!(minify_html("<p>a</p><!-- open"), "<p>a</p><!-- open");
}

#[test]
fn minify_html_many_blocks_restore_in_place() {
    let mut html = String::new();
    for i in 0..12 {
        html.push_str(&format!("<pre> {i} </pre>"));
    }
    assert_eq!(minify_html(&html), html);
}

#[test]
fn inline_css_replaces_only_first_stylesheet() {
    let html = r#"<link rel="stylesheet" href="a.css"><link rel="stylesheet" href="b.css">"#;
    assert_eq!(
        inline_css(html, "x"),
        r#"<style>x</style><link rel="stylesheet" href="b.css">"#
    );
}
