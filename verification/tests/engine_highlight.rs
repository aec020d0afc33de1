use devtui::engine::highlight::{lookup_syntax, SyntaxLookup};
use devtui::engine::highlight::{escape_html, highlight};
use devtui::engine::markdown::{
    code_block_html, escape_attr, heading_close, heading_open, replace_emoji_shortcodes, slugify,
};

#[test]
fn highlight_rust_emits_keyword_span() {
    let html = highlight("fn main() {}\n", "rust");
    assert!(html.contains("class=\"storage type function rust\""));
}

#[test]
fn highlight_bash_emits_string_span() {
    let html = highlight("echo \"hello\"\n", "bash");
    assert!(html.contains("string quoted double shell"));
}

#[test]
fn highlight_unknown_language_falls_back_to_plain_text() {
    let html = highlight("some text\n", "this-lang-does-not-exist");
    assert!(html.contains("some text"));
}

#[test]
fn highlight_empty_lang_uses_plain_text() {
    let html = highlight("anything\n", "");
    assert!(html.contains("anything"));
}

#[test]
fn highlight_escapes_html_special_chars_in_plain_fallback() {
    let html = highlight("a < b && c > d\n", "totally-unknown");
    assert!(html.contains("&lt;"));
    assert!(html.contains("&amp;"));
    assert!(html.contains("&gt;"));
}

#[test]
fn highlight_uses_first_word_of_language() {
    let html = highlight("fn main() {}\n", "rust ignore");
    assert!(html.contains("storage type function rust"));
}

#[test]
fn escape_html_writes_entities() {
    assert_eq!(escape_html("<a href=\"x\">&</a>"), "&lt;a href=&quot;x&quot;&gt;&amp;&lt;/a&gt;");
    assert_eq!(escape_attr("say \"hi\""), "say &quot;hi&quot;");
}

#[test]
fn slugify_heading_follows_pandoc() {
    assert_eq!(slugify("Section Title"), "section-title");
    assert_eq!(slugify("First things first"), "first-things-first");
    assert_eq!(slugify("Bits não são suficientes"), "bits-não-são-suficientes");
    assert_eq!(slugify("Hello, World!"), "hello-world");
    assert_eq!(slugify("1. Intro"), "intro");
    assert_eq!(slugify("!!!"), "section");
    assert_eq!(slugify("v1.2_beta"), "v1.2_beta");
}

#[test]
fn heading_tags_carry_anchor() {
    assert_eq!(heading_open(2, None, "Section Title"), "<h2 id=\"section-title\">");
    assert_eq!(heading_open(3, Some("custom-id"), "ignored"), "<h3 id=\"custom-id\">");
    assert_eq!(heading_open(1, Some(""), "Fallback"), "<h1 id=\"fallback\">");
    assert_eq!(heading_close(2), "</h2>");
}

#[test]
fn code_block_html_wraps_highlighted_code() {
    let html = code_block_html("plain text\n", "");
    assert!(html.starts_with("<pre><code class=\"sourceCode\">"));
    assert!(html.contains("plain text"));
    assert!(html.ends_with("</code></pre>"));
    let rust = code_block_html("fn main() {}\n", "rust");
    assert!(rust.starts_with("<pre><code class=\"sourceCode language-rust\">"));
    assert!(rust.contains("<span"));
}

#[test]
fn replace_emoji_shortcodes_converts_known_names() {
    let out = replace_emoji_shortcodes("Hello :wave: world :bulb:\n");
    assert!(out.contains("data-emoji=\"wave\""));
    assert!(out.contains("data-emoji=\"bulb\""));
    assert!(out.ends_with('\n'));
    assert_eq!(replace_emoji_shortcodes("time 10:30:00"), "time 10:30:00");
    assert_eq!(replace_emoji_shortcodes(":not_an_emoji_name:"), ":not_an_emoji_name:");
}

#[test]
fn replace_emoji_shortcodes_leaves_code_alone() {
    let fenced = "```\n:wave:\n```\n";
    assert_eq!(replace_emoji_shortcodes(fenced), fenced);
    assert_eq!(replace_emoji_shortcodes("use `:wave:` here"), "use `:wave:` here");
    assert_eq!(replace_emoji_shortcodes("a\r\nb"), "a\nb");
}

#[test]
fn lookup_syntax_falls_back_in_order() {
    assert!(matches!(lookup_syntax(""), SyntaxLookup::PlainText));
    assert!(matches!(lookup_syntax("rust ignore"), SyntaxLookup::Token(ref t) if t == "rust"));
    assert!(matches!(lookup_syntax("no-such-language"), SyntaxLookup::PlainText));
}
