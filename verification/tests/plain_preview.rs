use devtui::editor::preview::Line;
use devtui::preview::render_with_offsets;

fn line_text(line: &Line) -> String {
    line.spans.iter().map(|s| s.content.as_str()).collect()
}

fn all_text(lines: &[Line]) -> Vec<String> {
    lines.iter().map(line_text).collect()
}

#[test]
fn plain_empty_content_shows_placeholder() {
    let (lines, offsets) = render_with_offsets("");
    assert_eq!(all_text(&lines), vec!["Start typing...".to_string()]);
    assert_eq!(offsets, vec![0, 0]);
}

#[test]
fn plain_heading_and_paragraph() {
    let (lines, offsets) = render_with_offsets("# Title\n\nParagraph here");
    assert_eq!(all_text(&lines), vec!["# Title", "", "Paragraph here", ""]);
    assert_eq!(offsets, vec![0, 2, 2, 4]);
}

#[test]
fn plain_list_items_and_nesting() {
    let (lines, _) = render_with_offsets("- One\n  - Two");
    let texts = all_text(&lines);
    assert!(texts[0].starts_with("  - ") && texts[0].contains("One"));
    assert!(texts[1].starts_with("    - ") && texts[1].contains("Two"));
}

#[test]
fn plain_blockquote_and_rule() {
    let (lines, _) = render_with_offsets("> Quote\n\n---\n\nAfter");
    let texts = all_text(&lines);
    assert_eq!(texts[0], "  > Quote");
    assert!(texts.iter().any(|t| t == "────────────────────────────────"));
    assert!(texts.iter().any(|t| t == "After"));
}

#[test]
fn plain_code_block_keeps_code_text() {
    let (lines, _) = render_with_offsets("```\nlet x = 1;\nlet y = 2;\n```");
    let combined = all_text(&lines).join("");
    assert!(combined.contains("let x = 1;"));
    assert!(combined.contains("let y = 2;"));
}
