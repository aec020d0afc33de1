use devtui::editor::preview::{render_with_offsets, Color, Line, Style};

fn line_text(line: &Line) -> String {
    line.spans.iter().map(|s| s.content.as_str()).collect()
}

fn all_text(lines: &[Line]) -> Vec<String> {
    lines.iter().map(line_text).collect()
}

const TEST_ARTICLE: &str = "# The Art of Writing Clean Code\n\nWriting clean code is not about following rules blindly. It is about **communication**. Code is read far more often than it is written.\n\n## Principles That Matter\n\nHere are the principles I follow daily:\n\n- Keep functions small and focused\n- Name things descriptively\n- Avoid premature abstraction\n  - Wait for the third repetition\n  - Even then, question it\n    - Sometimes three lines are better\n    - Than one clever abstraction\n\n## Code Examples\n\nInline code like `def hello` or `mix phx.server` should render nicely.\n\nHere is a block of code:\n\n```elixir\ndefmodule Blog do\n  def list_articles do\n    Repo.all(Article)\n  end\nend\n```\n\n## Formatting\n\nThis paragraph has **bold text**, *italic text*, and ***bold italic*** together. Also ~~strikethrough~~ for deleted content.\n\n> This is a blockquote. It should be indented and styled differently.\n> Multiple lines in the same quote.\n\n## Lists Galore\n\nSimple list:\n\n- First item\n- Second item\n- Third item\n\nNested list:\n\n- Languages I use\n  - Elixir\n  - Rust\n  - Go\n- Tools I love\n  - Neovim\n  - tmux\n  - Git\n\nDeep nesting:\n\n- Level 1\n  - Level 2\n    - Level 3\n      - Level 4\n\nOrdered-ish content (markdown unordered):\n\n- Step 1: Install dependencies\n- Step 2: Configure the database\n- Step 3: Run migrations\n\n## Links and References\n\nCheck out [my blog](https://leandronsp.com) for more articles.\n\n## Horizontal Rules\n\nAbove the line.\n\n---\n\nBelow the line.\n\n## Final Thoughts\n\nThe best code is the code you **don't write**. Every line must justify its existence. *Less is more*.\n\n- Remove before adding\n- Simplify before optimizing\n- Understand before changing\n";

// Frontmatter

#[test]
fn frontmatter_title_rendered_as_header_at_top() {
    let md = "---\ntitle: Hello World\n---\n\nBody.";
    let (lines, _) = render_with_offsets(md, None);
    assert_eq!(line_text(&lines[0]), "Hello World");
    assert_eq!(line_text(&lines[1]), "");
}

#[test]
fn offset_map_indexed_by_original_content_lines_with_frontmatter() {
    let md = "---\ntitle: Hello\n---\n\nBody paragraph";
    let (_, offsets) = render_with_offsets(md, None);
    assert!(offsets.len() >= 6, "offset map too short: {}", offsets.len());
    assert_eq!(offsets[1], 0, "frontmatter line maps to header");
    assert!(offsets[4] >= 2, "body line must skip header: {}", offsets[4]);
}

#[test]
fn header_author_from_param_rendered_above_title() {
    let md = "---\ntitle: Hello\n---\n\nBody.";
    let (lines, _) = render_with_offsets(md, Some("Leandro"));
    assert_eq!(line_text(&lines[0]), "Leandro");
    assert_eq!(line_text(&lines[1]), "Hello");
    assert_eq!(line_text(&lines[2]), "");
}

#[test]
fn header_author_from_frontmatter_overrides_param() {
    let md = "---\ntitle: Hello\nauthor: Jane\n---\n\nBody.";
    let (lines, _) = render_with_offsets(md, Some("Bob"));
    assert_eq!(line_text(&lines[0]), "Jane");
    assert_eq!(line_text(&lines[1]), "Hello");
}

#[test]
fn header_date_falls_back_to_date_field() {
    let md = "---\ntitle: Hello\ndate: 2024-03-05\n---\n\nBody.";
    let (lines, _) = render_with_offsets(md, None);
    assert_eq!(line_text(&lines[0]), "Hello");
    assert_eq!(line_text(&lines[1]), "2024-03-05");
}

#[test]
fn header_language_appended_to_date_line() {
    let md = "---\ntitle: Hello\npublished_at: 2024-01-02\nlanguage: en\n---\n\nBody.";
    let (lines, _) = render_with_offsets(md, None);
    assert_eq!(line_text(&lines[1]), "2024-01-02 · EN");
}

#[test]
fn header_language_alone_renders_as_its_own_line() {
    let md = "---\ntitle: Hello\nlanguage: pt\n---\n\nBody.";
    let (lines, _) = render_with_offsets(md, None);
    assert_eq!(line_text(&lines[0]), "Hello");
    assert_eq!(line_text(&lines[1]), "PT");
}

#[test]
fn header_full_order_author_title_date() {
    let md = "---\ntitle: Hello\npublished_at: \"2022-07-12\"\n---\n\nBody.";
    let (lines, _) = render_with_offsets(md, Some("Leandro"));
    assert_eq!(line_text(&lines[0]), "Leandro");
    assert_eq!(line_text(&lines[1]), "Hello");
    assert_eq!(line_text(&lines[2]), "2022-07-12");
    assert_eq!(line_text(&lines[3]), "");
}

#[test]
fn frontmatter_published_at_rendered_as_date_under_title() {
    let md = "---\ntitle: Hello\npublished_at: \"2022-07-12 06:11:29Z\"\n---\n\nBody.";
    let (lines, _) = render_with_offsets(md, None);
    assert_eq!(line_text(&lines[0]), "Hello");
    assert_eq!(line_text(&lines[1]), "2022-07-12");
    assert_eq!(line_text(&lines[2]), "");
}

#[test]
fn frontmatter_title_quoted_value_is_unquoted() {
    let md = "---\ntitle: \"Hello World\"\n---\n\nBody.";
    let (lines, _) = render_with_offsets(md, None);
    assert_eq!(line_text(&lines[0]), "Hello World");
}

#[test]
fn no_title_header_when_no_frontmatter() {
    let md = "Just a plain body.";
    let (lines, _) = render_with_offsets(md, None);
    assert_eq!(line_text(&lines[0]), "Just a plain body.");
}

#[test]
fn frontmatter_block_is_not_rendered_as_body() {
    let md = "---\ntitle: Hello\nsubtitle: World\n---\n\nReal body paragraph.";
    let (lines, _) = render_with_offsets(md, None);
    let combined: String = all_text(&lines).join("\n");
    assert!(!combined.contains("title: Hello"), "frontmatter leaked: {}", combined);
    assert!(!combined.contains("subtitle: World"), "subtitle leaked: {}", combined);
    assert!(combined.contains("Real body paragraph"));
}

// Empty / minimal

#[test]
fn preview_empty_content_shows_placeholder() {
    let (lines, _) = render_with_offsets("", None);
    assert_eq!(line_text(&lines[0]), "Start typing...");
}

#[test]
fn preview_plain_text_renders_as_paragraph() {
    let (lines, _) = render_with_offsets("Hello world", None);
    assert_eq!(line_text(&lines[0]), "Hello world");
}

// Headings

#[test]
fn preview_heading_h1() {
    let (lines, _) = render_with_offsets("# Title", None);
    let text = line_text(&lines[0]);
    assert!(text.contains("# "), "H1 prefix");
    assert!(text.contains("Title"));
    assert_eq!(line_text(&lines[1]), "", "blank line after heading");
}

#[test]
fn preview_heading_h2() {
    let (lines, _) = render_with_offsets("## Subtitle", None);
    assert!(line_text(&lines[0]).contains("## "));
}

#[test]
fn preview_heading_h3() {
    let (lines, _) = render_with_offsets("### Section", None);
    assert!(line_text(&lines[0]).contains("### "));
}

#[test]
fn preview_heading_h4() {
    let (lines, _) = render_with_offsets("#### Deep", None);
    assert!(line_text(&lines[0]).contains("#### "));
}

// Inline formatting

#[test]
fn preview_bold_text() {
    let (lines, _) = render_with_offsets("Some **bold** here", None);
    let text = line_text(&lines[0]);
    assert!(text.contains("bold"));
}

#[test]
fn preview_italic_text() {
    let (lines, _) = render_with_offsets("Some *italic* here", None);
    let text = line_text(&lines[0]);
    assert!(text.contains("italic"));
}

#[test]
fn preview_strikethrough_text() {
    let (lines, _) = render_with_offsets("Some ~~deleted~~ here", None);
    let text = line_text(&lines[0]);
    assert!(text.contains("deleted"));
}

#[test]
fn preview_inline_code() {
    let (lines, _) = render_with_offsets("Use `mix test` to run", None);
    let text = line_text(&lines[0]);
    assert!(text.contains("`mix test`"));
}

#[test]
fn preview_mixed_formatting() {
    let (lines, _) = render_with_offsets("**bold** and *italic* and `code`", None);
    let text = line_text(&lines[0]);
    assert!(text.contains("bold"));
    assert!(text.contains("italic"));
    assert!(text.contains("`code`"));
}

// Lists

#[test]
fn preview_simple_list() {
    let (lines, _) = render_with_offsets("- One\n- Two\n- Three", None);
    let texts = all_text(&lines);
    assert!(texts[0].contains("- ") && texts[0].contains("One"));
    assert!(texts[1].contains("- ") && texts[1].contains("Two"));
    assert!(texts[2].contains("- ") && texts[2].contains("Three"));
}

#[test]
fn preview_nested_list_two_levels() {
    let (lines, _) = render_with_offsets("- Parent\n  - Child A\n  - Child B", None);
    let texts = all_text(&lines);
    assert!(texts[0].contains("Parent"), "parent item");
    assert!(texts[1].contains("Child A"), "first child");
    assert!(texts[2].contains("Child B"), "second child");
    let parent_indent = texts[0].find('-').unwrap();
    let child_indent = texts[1].find('-').unwrap();
    assert!(child_indent > parent_indent, "child should be more indented");
}

#[test]
fn preview_nested_list_three_levels() {
    let md = "- L1\n  - L2\n    - L3";
    let (lines, _) = render_with_offsets(md, None);
    let texts = all_text(&lines);
    assert!(texts[0].contains("L1"));
    assert!(texts[1].contains("L2"));
    assert!(texts[2].contains("L3"));
    let i1 = texts[0].find('-').unwrap();
    let i2 = texts[1].find('-').unwrap();
    let i3 = texts[2].find('-').unwrap();
    assert!(i3 > i2 && i2 > i1, "progressive indentation");
}

#[test]
fn preview_list_items_each_on_own_line() {
    let md = "- Alpha\n- Beta\n  - Gamma\n  - Delta\n- Epsilon";
    let (lines, _) = render_with_offsets(md, None);
    let texts = all_text(&lines);
    for text in &texts {
        let dash_count = text.matches("- ").count();
        assert!(dash_count <= 1, "Line has multiple items: |{}|", text);
    }
}

#[test]
fn nested_list_no_consecutive_blanks() {
    let md = "- Parent\n  - Child A\n  - Child B\n- Another\n  - Sub";
    let (lines, _) = render_with_offsets(md, None);
    let texts = all_text(&lines);
    for i in 1..texts.len() {
        if texts[i].is_empty() && texts[i - 1].is_empty() {
            panic!("consecutive blank lines at index {}", i);
        }
    }
}

// Blockquotes

#[test]
fn preview_blockquote_single_line() {
    let (lines, _) = render_with_offsets("> Hello", None);
    let text = line_text(&lines[0]);
    assert!(text.contains(">"), "quote marker");
    assert!(text.contains("Hello"));
}

#[test]
fn preview_blockquote_multiline() {
    let (lines, _) = render_with_offsets("> Line one\n> Line two", None);
    let texts = all_text(&lines);
    assert!(texts[0].contains(">") && texts[0].contains("Line one"));
    assert!(texts[1].contains(">") && texts[1].contains("Line two"));
    // Text spans should carry blockquote style (DarkGray + Italic)
    let expected_style = Style {
        fg: Some(Color::DarkGray),
        bold: false,
        italic: true,
        underlined: false,
        crossed_out: false,
    };
    let text_span = lines[0].spans.iter().find(|s| s.content.contains("Line one"));
    assert_eq!(text_span.unwrap().style, expected_style, "blockquote text style");
}

// Code blocks

#[test]
fn preview_fenced_code_block() {
    let md = "```\nlet x = 1;\nlet y = 2;\n```";
    let (lines, _) = render_with_offsets(md, None);
    let texts = all_text(&lines);
    assert!(texts.iter().any(|t| t == "let x = 1;"), "x on own line");
    assert!(texts.iter().any(|t| t == "let y = 2;"), "y on own line");
}

#[test]
fn preview_code_block_with_language() {
    let md = "```rust\nfn main() {}\n```";
    let (lines, _) = render_with_offsets(md, None);
    let combined: String = all_text(&lines).join("\n");
    assert!(combined.contains("fn main()"));
}

// Horizontal rule

#[test]
fn preview_horizontal_rule() {
    let md = "Above\n\n---\n\nBelow";
    let (lines, _) = render_with_offsets(md, None);
    let combined: String = all_text(&lines).join("\n");
    assert!(combined.contains("────"), "rule line");
    assert!(combined.contains("Above"));
    assert!(combined.contains("Below"));
}

// Links

#[test]
fn preview_inline_link() {
    let md = "Visit [my site](https://example.com) today";
    let (lines, _) = render_with_offsets(md, None);
    let text = line_text(&lines[0]);
    assert!(text.contains("["), "link opening bracket");
    assert!(text.contains("my site"));
    assert!(text.contains("]"), "link closing bracket");
}

// Paragraphs

#[test]
fn preserves_multiple_blank_lines_between_paragraphs() {
    let md = "First\n\n\n\nSecond";
    let (lines, _) = render_with_offsets(md, None);
    let texts = all_text(&lines);
    assert!(texts[0].contains("First"));
    assert_eq!(texts[1], "");
    assert_eq!(texts[2], "");
    assert_eq!(texts[3], "");
    assert!(texts[4].contains("Second"));
}

#[test]
fn preview_paragraphs_separated_by_blank_line() {
    let md = "First paragraph.\n\nSecond paragraph.";
    let (lines, _) = render_with_offsets(md, None);
    let texts = all_text(&lines);
    assert!(texts[0].contains("First"));
    assert_eq!(texts[1], "", "blank separator");
    assert!(texts[2].contains("Second"));
}

// Source-to-rendered offset mapping

#[test]
fn preview_offset_mapping_plain_lines() {
    let md = "line one\nline two\nline three";
    let (_, offsets) = render_with_offsets(md, None);
    assert_eq!(offsets[0], 0);
}

#[test]
fn preview_offset_mapping_with_heading() {
    let md = "# Title\n\nParagraph here";
    let (lines, offsets) = render_with_offsets(md, None);
    assert!(offsets[2] >= 2, "paragraph offset after heading: {}", offsets[2]);
    let texts = all_text(&lines);
    assert!(texts[0].contains("Title"));
}

// Full article integration

#[test]
fn preview_full_article_renders_all_sections() {
    let md = TEST_ARTICLE;
    let (lines, offsets) = render_with_offsets(md, None);
    let combined: String = all_text(&lines).join("\n");

    assert!(combined.contains("# The Art of Writing Clean Code"));
    assert!(combined.contains("## Principles That Matter"));
    assert!(combined.contains("## Code Examples"));
    assert!(combined.contains("## Formatting"));
    assert!(combined.contains("## Lists Galore"));
    assert!(combined.contains("## Final Thoughts"));

    assert!(combined.contains("communication"));
    assert!(combined.contains("bold italic"));
    assert!(combined.contains("strikethrough"));

    assert!(combined.contains("Keep functions small"));
    assert!(combined.contains("Elixir"));
    assert!(combined.contains("Level 4"));

    assert!(combined.contains("defmodule Blog"));

    assert!(combined.contains(">"));

    assert!(combined.contains("────"));

    for i in 1..offsets.len() {
        assert!(offsets[i] >= offsets[i - 1], "offsets not monotonic at {}", i);
    }

    assert!(lines.len() > 50, "full article should have many rendered lines");
}

#[test]
fn subtitle_rendered_below_title() {
    let md = "---\ntitle: Hello\nsubtitle: A short tagline\n---\n\nBody.";
    let (lines, _) = render_with_offsets(md, None);
    assert_eq!(line_text(&lines[0]), "Hello");
    assert_eq!(line_text(&lines[1]), "A short tagline");
    assert_eq!(line_text(&lines[2]), "");
}

#[test]
fn no_subtitle_no_extra_line() {
    let md = "---\ntitle: Hello\n---\n\nBody.";
    let (lines, _) = render_with_offsets(md, None);
    assert_eq!(line_text(&lines[0]), "Hello");
    assert_eq!(line_text(&lines[1]), "");
    assert_eq!(line_text(&lines[2]), "Body.");
}

// --- further checks of the renderer ---

#[test]
fn heading_style_is_bold_cyan_with_prefix_span() {
    let (lines, offsets) = render_with_offsets("## Two", None);
    let bold_cyan = Style { fg: Some(Color::Cyan), bold: true, italic: false, underlined: false, crossed_out: false };
    assert_eq!(lines[0].spans[0].content, "## ");
    assert_eq!(lines[0].spans[0].style, bold_cyan);
    assert_eq!(lines[0].spans[1].style, bold_cyan);
    assert!(lines[1].spans.is_empty());
    assert_eq!(offsets, vec![0, 2]);
}

#[test]
fn short_date_gives_no_date_line() {
    let md = "---\ntitle: Hello\ndate: 2024\n---\n\nBody.";
    let (lines, _) = render_with_offsets(md, None);
    assert_eq!(line_text(&lines[0]), "Hello");
    assert_eq!(line_text(&lines[1]), "");
}

#[test]
fn offsets_cover_every_content_line() {
    let md = "---\ntitle: T\n---\n\nA\n\nB";
    let (lines, offsets) = render_with_offsets(md, Some("Me"));
    // 7 content lines, one entry more
    assert_eq!(offsets.len(), 8);
    assert_eq!(&offsets[..3], &[0, 0, 0]);
    assert!(offsets.windows(2).all(|w| w[0] <= w[1]));
    assert_eq!(*offsets.last().unwrap() as usize, lines.len());
}

#[test]
fn subtitle_only_frontmatter_offsets_count_an_undrawn_header() {
    // The offsets count a subtitle line even though no header is drawn
    // without an author, a title or a date.
    let md = "---\nsubtitle: x\n---\n\nHello";
    let (lines, offsets) = render_with_offsets(md, None);
    assert_eq!(line_text(&lines[0]), "Hello");
    assert_eq!(offsets, vec![0, 0, 0, 1, 0, 2]);
}
