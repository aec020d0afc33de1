use devtui::editor::db::{build_markdown, imported_post, normalize_tags, slug_candidate, slugify, tags_from_column, Article, Status};
use devtui::editor::preview::{frontmatter_field, set_frontmatter_field, strip_frontmatter};
use devtui::editor::tmux::{write_kitty_cmd_inner, write_kitty_cmd_with_data_inner};
use devtui::editor::upload::{build_filename, sanitize, scroll_offset, upload_base_name};

// --- db ---

#[test]
fn slugify_converts_title() {
    assert_eq!(slugify("Hello World!"), "hello-world");
    assert_eq!(slugify("  My Post  "), "my-post");
    assert_eq!(slugify("Rust & TDD"), "rust-tdd");
}

#[test]
fn slugify_special_chars() {
    assert_eq!(slugify("C++ & Rust: A Comparison!"), "c-rust-a-comparison");
    assert_eq!(slugify("!!!"), "");
}

#[test]
fn build_markdown_produces_valid_frontmatter() {
    let article = Article {
        id: 1,
        title: "Test Post".to_string(),
        slug: "test-post".to_string(),
        content: "Hello world.".to_string(),
        status: Status::Published,
        language: "en".to_string(),
        pinned: false,
        tags: vec!["rust".to_string(), "tdd".to_string()],
        published_at: Some("2026-03-29".to_string()),
        created_at: "2026-03-29".to_string(),
        updated_at: "2026-03-29".to_string(),
    };
    let md = build_markdown(&article, "date");
    assert!(md.starts_with("---\n"));
    assert!(md.contains("title: Test Post"));
    assert!(md.contains("date: 2026-03-29"));
    assert!(md.contains("tags: [\"rust\", \"tdd\"]"));
    assert!(md.contains("Hello world."));
    // language "en" should NOT appear (it's the default)
    assert!(!md.contains("language:"));
}

#[test]
fn build_markdown_draft_without_date() {
    let article = Article {
        id: 1,
        title: "Draft Post".to_string(),
        slug: "draft-post".to_string(),
        content: "Work in progress.".to_string(),
        status: Status::Draft,
        language: "en".to_string(),
        pinned: false,
        tags: vec![],
        published_at: None,
        created_at: "2026-03-29".to_string(),
        updated_at: "2026-03-29".to_string(),
    };
    let md = build_markdown(&article, "date");
    assert!(md.starts_with("---\n"));
    assert!(md.contains("title: Draft Post"));
    assert!(!md.contains("date:"));
    assert!(!md.contains("tags:"));
    assert!(!md.contains("language:"));
    assert!(md.contains("Work in progress."));
}

#[test]
fn build_markdown_non_english_includes_language() {
    let article = Article {
        id: 1,
        title: "Post".to_string(),
        slug: "post".to_string(),
        content: "Body.".to_string(),
        status: Status::Published,
        language: "pt".to_string(),
        pinned: false,
        tags: vec![],
        published_at: Some("2026-03-29".to_string()),
        created_at: "2026-03-29".to_string(),
        updated_at: "2026-03-29".to_string(),
    };
    let md = build_markdown(&article, "date");
    assert!(md.contains("language: pt"));
}

#[test]
fn build_markdown_exact_text() {
    let article = Article {
        id: 7,
        title: "T".to_string(),
        slug: "t".to_string(),
        content: "B".to_string(),
        status: Status::Published,
        language: "de".to_string(),
        pinned: true,
        tags: vec!["a".to_string()],
        published_at: Some("2026-01-02".to_string()),
        created_at: String::new(),
        updated_at: String::new(),
    };
    assert_eq!(
        build_markdown(&article, "published_at"),
        "---\ntitle: T\npublished_at: 2026-01-02\ntags: [\"a\"]\nlanguage: de\n---\n\nB"
    );
}

#[test]
fn status_round_trips_through_its_name() {
    assert_eq!(Status::Draft.as_str(), "draft");
    assert_eq!(Status::Published.as_str(), "published");
    assert_eq!(Status::from_str("draft"), Ok(Status::Draft));
    assert_eq!(Status::from_str("published"), Ok(Status::Published));
    assert_eq!(Status::from_str("archived"), Err("archived".to_string()));
}

#[test]
fn normalize_tags_trims_lowercases_and_dedups() {
    let tags = vec![" Rust ".to_string(), "rust".to_string(), "".to_string(), "TDD".to_string()];
    assert_eq!(normalize_tags(&tags), vec!["rust".to_string(), "tdd".to_string()]);
}

// --- preview frontmatter helpers ---

#[test]
fn strip_frontmatter_removes_leading_yaml_block() {
    let content = "---\ntitle: Hello\nsubtitle: World\n---\nBody text";
    assert_eq!(strip_frontmatter(content), "Body text");
}

#[test]
fn strip_frontmatter_passthrough_when_no_block() {
    let content = "Just a plain body\nwith no frontmatter";
    assert_eq!(strip_frontmatter(content), content);
}

#[test]
fn strip_frontmatter_ignores_mid_document_rules() {
    // A `---` used as a markdown horizontal rule further down the file
    // must not be treated as the end of a frontmatter block.
    let content = "Body paragraph\n\n---\n\nAfter rule";
    assert_eq!(strip_frontmatter(content), content);
}

#[test]
fn set_frontmatter_field_replaces_existing() {
    let content = "---\ntitle: Old Title\npublished_at: 2026-01-01\n---\n\nBody.";
    let result = set_frontmatter_field(content, "title", "New Title");
    assert!(result.contains("title: New Title"));
    assert!(!result.contains("Old Title"));
    assert!(result.contains("published_at: 2026-01-01"));
    assert!(result.contains("Body."));
}

#[test]
fn set_frontmatter_field_inserts_when_missing() {
    let content = "---\ntitle: Hello\n---\n\nBody.";
    let result = set_frontmatter_field(content, "subtitle", "A tagline");
    assert!(result.contains("subtitle: A tagline"));
    assert!(result.contains("title: Hello"));
    assert!(result.contains("Body."));
}

#[test]
fn set_frontmatter_field_no_frontmatter_returns_unchanged() {
    let content = "Just plain text.";
    let result = set_frontmatter_field(content, "title", "New");
    assert_eq!(result, content);
}

#[test]
fn set_frontmatter_field_exact_text() {
    let content = "---\ntitle: A\nx: 1\n---\nBody";
    assert_eq!(set_frontmatter_field(content, "x", "2"), "---\ntitle: A\nx: 2\n---\nBody");
    assert_eq!(set_frontmatter_field(content, "y", "3"), "---\ntitle: A\nx: 1\ny: 3\n---\nBody");
}

#[test]
fn frontmatter_field_reads_unquoted_values() {
    let content = "---\ntitle: \"Quoted\"\nempty:\nstatus: draft\n---\nBody";
    assert_eq!(frontmatter_field(content, "title"), Some("Quoted".to_string()));
    assert_eq!(frontmatter_field(content, "status"), Some("draft".to_string()));
    assert_eq!(frontmatter_field(content, "empty"), None);
    assert_eq!(frontmatter_field(content, "missing"), None);
    assert_eq!(frontmatter_field("no block", "title"), None);
}

// --- tmux ---

#[test]
fn kitty_cmd_direct() {
    let mut buf = Vec::new();
    write_kitty_cmd_inner(&mut buf, "a=d,d=I,i=31,q=2", false).unwrap();
    assert_eq!(String::from_utf8(buf).unwrap(), "\x1b_Ga=d,d=I,i=31,q=2\x1b\\");
}

#[test]
fn kitty_cmd_with_data_direct() {
    let mut buf = Vec::new();
    write_kitty_cmd_with_data_inner(&mut buf, "m=1", b"AQID", false).unwrap();
    assert_eq!(String::from_utf8(buf).unwrap(), "\x1b_Gm=1;AQID\x1b\\");
}

#[test]
fn kitty_cmd_tmux_wrapped() {
    let mut buf = Vec::new();
    write_kitty_cmd_inner(&mut buf, "a=d,d=I,i=31,q=2", true).unwrap();
    assert_eq!(
        String::from_utf8(buf).unwrap(),
        "\x1bPtmux;\x1b\x1b_Ga=d,d=I,i=31,q=2\x1b\x1b\\\x1b\\"
    );
}

#[test]
fn kitty_cmd_with_data_tmux_wrapped() {
    let mut buf = Vec::new();
    write_kitty_cmd_with_data_inner(&mut buf, "m=1", b"AQID", true).unwrap();
    assert_eq!(
        String::from_utf8(buf).unwrap(),
        "\x1bPtmux;\x1b\x1b_Gm=1;AQID\x1b\x1b\\\x1b\\"
    );
}

// --- upload helpers ---

#[test]
fn sanitize_lowercases_and_replaces_spaces() {
    assert_eq!(sanitize("Screenshot 2026-04-27 at 15.54.01"), "screenshot-2026-04-27-at-15-54-01");
}

#[test]
fn sanitize_collapses_runs_of_separators() {
    assert_eq!(sanitize("foo  ___  bar!!!baz"), "foo-bar-baz");
}

#[test]
fn sanitize_strips_leading_and_trailing_separators() {
    assert_eq!(sanitize("  hello world  "), "hello-world");
}

#[test]
fn sanitize_handles_empty_input() {
    assert_eq!(sanitize(""), "");
    assert_eq!(sanitize("   "), "");
}

#[test]
fn scroll_offset_keeps_selection_visible() {
    assert_eq!(scroll_offset(10, 20, 5), 6);
    assert_eq!(scroll_offset(2, 20, 5), 0);
    assert_eq!(scroll_offset(19, 20, 5), 15);
    assert_eq!(scroll_offset(3, 4, 10), 0);
}

#[test]
fn build_filename_variants() {
    assert_eq!(build_filename("shot", "", 0), "shot");
    assert_eq!(build_filename("shot", "png", 0), "shot.png");
    assert_eq!(build_filename("shot", "", 3), "shot-3");
    assert_eq!(build_filename("shot", "png", 12), "shot-12.png");
}

#[test]
fn slug_candidates_count_up_then_stop() {
    assert_eq!(slug_candidate("hello-world", 0), Some("hello-world".to_string()));
    assert_eq!(slug_candidate("hello-world", 1), Some("hello-world-2".to_string()));
    assert_eq!(slug_candidate("hello-world", 98), Some("hello-world-99".to_string()));
    assert_eq!(slug_candidate("hello-world", 99), None);
}

#[test]
fn tags_column_is_split_and_trimmed() {
    assert_eq!(tags_from_column(""), Vec::<String>::new());
    assert_eq!(tags_from_column("rust, tdd ,x"), vec!["rust", "tdd", "x"]);
}

#[test]
fn upload_base_name_prefixes_the_article_slug() {
    assert_eq!(upload_base_name("Screen Shot 1", "My Post"), "my-post-screen-shot-1");
    assert_eq!(upload_base_name("Screen Shot 1", "  "), "screen-shot-1");
}

#[test]
fn imported_post_reads_the_frontmatter_with_fallbacks() {
    let content = "---\ntitle: Hello\ndate: 2026-04-01 10:00\nlanguage: pt\ntags: rust tdd\n---\n\nBody.\n";
    let p = imported_post("hello", content, "date");
    assert_eq!(p.title, "Hello");
    assert_eq!(p.date, Some("2026-04-01".to_string()));
    assert_eq!(p.language, "pt");
    assert_eq!(p.tags, "rust,tdd");
    let bare = imported_post("my-slug", "Just text.\n", "date");
    assert_eq!(bare.title, "my-slug");
    assert_eq!(bare.date, None);
    assert_eq!(bare.language, "en");
    assert_eq!(bare.tags, "");
}
