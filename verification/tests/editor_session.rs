use devtui::editor::vim::{
    key_to_bytes, max_scroll, mode_label, next_layout, offset_target, pane_width_for, parse_title,
    parse_usize, scroll_for_target, title_message, vim_size, visual_line_count, EditorControls,
    EditorEffect, SplitLayout, TermKey, VimMode, VimState,
};

fn chars(s: &str) -> Vec<char> {
    s.chars().collect()
}

#[test]
fn key_to_bytes_maps_control_characters() {
    assert_eq!(key_to_bytes(TermKey::Char('c'), true), Some(vec![3]));
    assert_eq!(key_to_bytes(TermKey::Char('['), true), Some(vec![27]));
    assert_eq!(key_to_bytes(TermKey::Enter, true), None);
}

#[test]
fn key_to_bytes_encodes_utf8_and_escapes() {
    assert_eq!(key_to_bytes(TermKey::Char('a'), false), Some(vec![b'a']));
    assert_eq!(key_to_bytes(TermKey::Char('é'), false), Some("é".as_bytes().to_vec()));
    assert_eq!(key_to_bytes(TermKey::Char('€'), false), Some("€".as_bytes().to_vec()));
    assert_eq!(key_to_bytes(TermKey::Char('😀'), false), Some("😀".as_bytes().to_vec()));
    assert_eq!(key_to_bytes(TermKey::Enter, false), Some(vec![b'\r']));
    assert_eq!(key_to_bytes(TermKey::Backspace, false), Some(vec![127]));
    assert_eq!(key_to_bytes(TermKey::Up, false), Some(vec![27, 91, 65]));
    assert_eq!(key_to_bytes(TermKey::PageDown, false), Some(vec![27, 91, 54, 126]));
    assert_eq!(key_to_bytes(TermKey::F(1), false), Some(vec![27, 79, 80]));
    assert_eq!(key_to_bytes(TermKey::F(12), false), Some(vec![27, 91, 50, 52, 126]));
    assert_eq!(key_to_bytes(TermKey::F(13), false), None);
    assert_eq!(key_to_bytes(TermKey::Other, false), None);
}

#[test]
fn parse_usize_follows_std() {
    for s in ["0", "42", "+7", "007", "18446744073709551615", "18446744073709551616", "", "+", "-1", "1a", " 1"] {
        assert_eq!(parse_usize(&chars(s)), s.parse::<usize>().ok(), "input {s:?}");
    }
}

#[test]
fn parse_title_reads_vim_state() {
    assert_eq!(
        parse_title(" 12:40:200:i:1 "),
        VimState { first_visible_line: 12, cursor_line: 40, total_lines: 200, mode: VimMode::Insert, modified: true }
    );
    assert_eq!(parse_title("1:2:3:\u{16}:0").mode, VimMode::Visual);
    assert_eq!(parse_title("1:2:3:R:0").mode, VimMode::Replace);
    assert_eq!(parse_title("1:2:3:c:0").mode, VimMode::Command);
    assert_eq!(parse_title("x:2:3:n:0").first_visible_line, 1);
    assert_eq!(
        parse_title("vim"),
        VimState { first_visible_line: 1, cursor_line: 1, total_lines: 1, mode: VimMode::Normal, modified: false }
    );
    assert_eq!(mode_label(VimMode::Insert), " INSERT ");
}

#[test]
fn title_message_prefers_flash() {
    assert_eq!(title_message(Some("saved"), true), "saved");
    assert_eq!(title_message(None, true), "[+]");
    assert_eq!(title_message(None, false), "");
}

#[test]
fn layout_cycles_and_sizes() {
    assert_eq!(next_layout(SplitLayout::Vertical), SplitLayout::Scribe);
    assert_eq!(next_layout(SplitLayout::Scribe), SplitLayout::Chat);
    assert_eq!(next_layout(SplitLayout::Chat), SplitLayout::EditorOnly);
    assert_eq!(next_layout(SplitLayout::EditorOnly), SplitLayout::Vertical);
    assert_eq!(vim_size(SplitLayout::Vertical, 100, 40), (48, 37));
    assert_eq!(vim_size(SplitLayout::EditorOnly, 100, 40), (98, 37));
    assert_eq!(vim_size(SplitLayout::Chat, 3, 2), (0, 0));
    assert_eq!(pane_width_for(SplitLayout::Scribe, 100), 48);
    assert_eq!(pane_width_for(SplitLayout::EditorOnly, 100), 1);
}

#[test]
fn scroll_counts_wrapped_rows() {
    let widths = [0, 10, 11, 25];
    assert_eq!(visual_line_count(&widths, 10), 1 + 1 + 2 + 3);
    assert_eq!(max_scroll(&widths, 10, 4), 3);
    assert_eq!(max_scroll(&widths, 10, 40), 0);
    // cursor on source line 2 maps to rendered line 3: rows of the first three lines
    assert_eq!(offset_target(2, &widths, &[0, 1, 3, 4], 10), 4);
    assert_eq!(offset_target(99, &widths, &[0, 1, 3, 9], 10), 7);
    assert_eq!(scroll_for_target(10, 100, 8), 6);
    assert_eq!(scroll_for_target(2, 100, 8), 0);
    assert_eq!(scroll_for_target(50, 20, 8), 20);
}

#[test]
fn controls_cycle_layout_and_render_preview() {
    let mut c = EditorControls::new();
    let mut effects = vec![];
    for _ in 0..4 {
        c.dispatch_key(TermKey::Char('g'), true, false, 0, &mut effects);
    }
    assert_eq!(c.split_layout, SplitLayout::Vertical);
    assert!(matches!(
        effects.as_slice(),
        [EditorEffect::Resize, EditorEffect::Resize, EditorEffect::Resize, EditorEffect::Resize, EditorEffect::RenderPreview]
    ));
}

#[test]
fn controls_chat_takes_keys() {
    let mut c = EditorControls::new();
    let mut effects = vec![];
    c.dispatch_key(TermKey::Char('y'), true, true, 0, &mut effects);
    assert_eq!(c.split_layout, SplitLayout::Chat);
    assert!(c.chat_focused);
    c.dispatch_key(TermKey::Char('h'), false, true, 0, &mut effects);
    c.dispatch_key(TermKey::Char('i'), false, true, 0, &mut effects);
    c.dispatch_key(TermKey::Char('x'), true, true, 0, &mut effects);
    c.dispatch_key(TermKey::Char('!'), false, true, 0, &mut effects);
    c.dispatch_key(TermKey::Backspace, false, true, 0, &mut effects);
    assert_eq!(c.chat_input, "hi");
    c.dispatch_key(TermKey::Enter, false, true, 0, &mut effects);
    assert!(c.chat_pending);
    assert_eq!(c.chat_input, "");
    match effects.as_slice() {
        [EditorEffect::Resize, EditorEffect::SendChat(q)] => assert_eq!(q, "hi"),
        _ => panic!("unexpected effects"),
    }
    c.dispatch_key(TermKey::Esc, false, true, 0, &mut effects);
    assert!(!c.chat_focused);
}

#[test]
fn controls_scroll_and_forward() {
    let mut c = EditorControls::new();
    let mut effects = vec![];
    c.dispatch_key(TermKey::Char('j'), true, true, 5, &mut effects);
    assert_eq!(c.preview_scroll, 3);
    c.dispatch_key(TermKey::Char('j'), true, true, 5, &mut effects);
    assert_eq!(c.preview_scroll, 5);
    c.dispatch_key(TermKey::Char('k'), true, true, 5, &mut effects);
    assert_eq!(c.preview_scroll, 2);
    c.dispatch_key(TermKey::Char('k'), true, true, 5, &mut effects);
    assert_eq!(c.preview_scroll, 0);
    assert!(effects.is_empty());
    c.dispatch_key(TermKey::Char('x'), false, true, 5, &mut effects);
    c.dispatch_key(TermKey::Char('t'), true, true, 5, &mut effects);
    assert_eq!(c.split_layout, SplitLayout::Scribe);
    // Ctrl+J outside the preview goes to the editor
    c.dispatch_key(TermKey::Char('j'), true, true, 5, &mut effects);
    match effects.as_slice() {
        [EditorEffect::Forward(a), EditorEffect::Resize, EditorEffect::CheckNow, EditorEffect::Forward(b)] => {
            assert_eq!(a, &vec![b'x']);
            assert_eq!(b, &vec![10]);
        }
        other => panic!("unexpected effects {other:?}"),
    }
}

#[test]
fn status_bar_lists_the_keys_of_the_layout() {
    assert_eq!(
        devtui::editor::vim::status_bar_text(SplitLayout::Vertical, true),
        " DevTUI [|] ^G:layout ^T:check ^Y:chat ^O:browser ^F:follow-cursor ^J/^K:scroll"
    );
    assert_eq!(devtui::editor::vim::status_bar_text(SplitLayout::EditorOnly, false), " DevTUI [[]] ^G:layout ^T:check ^Y:chat");
}

#[test]
fn drafts_are_recognised_ignoring_case() {
    assert!(devtui::editor::vim::is_draft("---\ntitle: A\nstatus: Draft\n---\n\nBody"));
    assert!(devtui::editor::vim::is_draft("---\nstatus: \"draft\"\n---\n"));
    assert!(!devtui::editor::vim::is_draft("---\nstatus: published\n---\n"));
    assert!(!devtui::editor::vim::is_draft("No frontmatter"));
}
