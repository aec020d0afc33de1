use devtui::buffer::Buffer;
use devtui::editor::kitty::{max_rows, transmit_bytes, KittyImage};
use devtui::editor::upload::{RawEntry, UploadState};
use devtui::vim::{Action, Key, Mode, Vim};
use std::path::PathBuf;

fn buffer(text: &str) -> Buffer {
    Buffer {
        chars: text.chars().collect(),
        cursor: 0,
        scroll_offset: 0,
        file_path: PathBuf::from("post.md"),
        dirty: false,
        undo_stack: Vec::new(),
        redo_stack: Vec::new(),
    }
}

fn keys(vim: &mut Vim, buf: &mut Buffer, text: &str) -> Action {
    let mut last = Action::Continue;
    for c in text.chars() {
        let key = match c {
            '\u{1b}' => Key::Esc,
            '\n' => Key::Enter,
            other => Key::Char(other),
        };
        last = vim.handle_key(key, false, buf);
    }
    last
}

fn text(buf: &Buffer) -> String {
    buf.chars.iter().collect()
}

#[test]
fn vim_dd_then_p_moves_a_line_down() {
    let mut vim = Vim::new();
    let mut buf = buffer("one\ntwo\nthree");
    keys(&mut vim, &mut buf, "ddp");
    assert_eq!(text(&buf), "two\none\nthree");
    assert_eq!(vim.register, "one\n".chars().collect::<Vec<_>>());
}

#[test]
fn vim_count_repeats_motion_and_x() {
    let mut vim = Vim::new();
    let mut buf = buffer("abcdef");
    keys(&mut vim, &mut buf, "2l3x");
    assert_eq!(text(&buf), "abf");
    assert_eq!(vim.mode, Mode::Normal);
}

#[test]
fn vim_insert_and_escape() {
    let mut vim = Vim::new();
    let mut buf = buffer("ac");
    keys(&mut vim, &mut buf, "lib\u{1b}");
    assert_eq!(text(&buf), "abc");
    assert_eq!(vim.mode, Mode::Normal);
    assert_eq!(buf.cursor, 1);
}

#[test]
fn vim_visual_yank_and_undo() {
    let mut vim = Vim::new();
    let mut buf = buffer("hello world");
    keys(&mut vim, &mut buf, "vey");
    assert_eq!(vim.register, "hello".chars().collect::<Vec<_>>());
    assert_eq!(vim.status_msg, "yanked");
    keys(&mut vim, &mut buf, "dwu");
    assert_eq!(text(&buf), "hello world");
    assert_eq!(vim.status_msg, "Undo");
}

#[test]
fn vim_visual_block_delete() {
    let mut vim = Vim::new();
    let mut buf = buffer("abc\ndef\nghi");
    keys(&mut vim, &mut buf, "l");
    vim.handle_key(Key::Char('v'), true, &mut buf);
    assert_eq!(vim.mode, Mode::VisualBlock);
    keys(&mut vim, &mut buf, "jld");
    assert_eq!(text(&buf), "a\nd\nghi");
    assert_eq!(vim.register, "bc\nef\n".chars().collect::<Vec<_>>());
}

#[test]
fn vim_commands_ask_to_save_or_quit() {
    let mut vim = Vim::new();
    let mut buf = buffer("x");
    assert_eq!(keys(&mut vim, &mut buf, ":w\n"), Action::Save);
    assert_eq!(vim.save_done(Ok("post.md".to_string()), false), Action::Continue);
    assert_eq!(vim.status_msg, "\"post.md\" written");
    assert_eq!(keys(&mut vim, &mut buf, ":wq\n"), Action::SaveAndQuit);
    assert_eq!(vim.save_done(Err("denied".to_string()), true), Action::Continue);
    assert_eq!(vim.status_msg, "Error: denied");
    buf.dirty = true;
    assert_eq!(keys(&mut vim, &mut buf, ":q\n"), Action::Continue);
    assert_eq!(vim.status_msg, "No write since last change (add ! to override)");
    assert_eq!(keys(&mut vim, &mut buf, ":q!\n"), Action::Quit);
    assert_eq!(keys(&mut vim, &mut buf, ":zz\n"), Action::Continue);
    assert_eq!(vim.status_msg, "Not a command: zz");
    assert_eq!(vim.handle_key(Key::Char('c'), true, &mut buf), Action::Quit);
}

#[test]
fn vim_find_and_till() {
    let mut vim = Vim::new();
    let mut buf = buffer("a-b-c\nz-");
    keys(&mut vim, &mut buf, "f-");
    assert_eq!(buf.cursor, 1);
    keys(&mut vim, &mut buf, ";");
    keys(&mut vim, &mut buf, "t-");
    assert_eq!(buf.cursor, 2);
    keys(&mut vim, &mut buf, "$F-");
    assert_eq!(buf.cursor, 3);
}

#[test]
fn kitty_limits_and_scrolling() {
    assert_eq!(max_rows(), 285);
    let mut img = KittyImage::transmitted(100, 200);
    assert_eq!(img.id_color, "\x1b[38;2;0;0;31m");
    img.set_max_rows(40);
    assert_eq!(img.max_rows(), 40);
    img.scroll_down(50, 10);
    assert_eq!(img.scroll_row, 30);
    img.scroll_up(7);
    assert_eq!(img.scroll_row, 23);
    img.scroll_up(100);
    assert_eq!(img.scroll_row, 0);
}

#[test]
fn kitty_placeholder_row_text() {
    let img = KittyImage::transmitted(10, 10);
    let row = img.placeholder_row(0, 2, 3, 3, 4, false).unwrap();
    assert_eq!(
        row,
        "\x1b[s\x1b[38;2;0;0;31m\u{10EEEE}\u{305}\u{305}\u{305}\u{10EEEE}\u{10EEEE}\x1b[u\x1b[2C\x1b[3B"
    );
    let tmux = img.placeholder_row(1, 2, 3, 1, 4, true).unwrap();
    assert_eq!(
        tmux,
        "\x1bPtmux;\x1b\x1b[5;3H\x1b\x1b[38;2;0;0;31m\u{10EEEE}\u{30D}\u{305}\u{305}\x1b\\"
    );
    let mut far = KittyImage::transmitted(10, 10);
    far.scroll_row = 285;
    assert!(far.placeholder_row(0, 0, 0, 1, 1, false).is_none());
}

#[test]
fn kitty_transmit_chunks_base64() {
    let bytes = transmit_bytes(&[1, 2, 3], false);
    assert_eq!(
        String::from_utf8(bytes).unwrap(),
        "\x1b_Ga=d,d=I,i=31,q=2\x1b\\\x1b_Gi=31,a=T,U=1,f=100,t=d,m=0,q=2;AQID\x1b\\"
    );
    let big = vec![0u8; 3100 * 2];
    let text = String::from_utf8(transmit_bytes(&big, false)).unwrap();
    assert!(text.contains("m=1,q=2;"));
    assert!(text.contains("\x1b_Gm=0;"));
}

#[test]
fn kitty_place_direct_text() {
    let img = KittyImage::transmitted(100, 50);
    assert_eq!(
        img.place_direct_text(1, 2, 10, 5, 8, 16, false),
        "\x1b[3;2H\x1b_Ga=p,i=31,x=0,y=0,w=80,h=50,c=10,r=5,C=1,q=2\x1b\\"
    );
}

fn raw(name: &str, is_dir: bool, mtime: u64, ext: Option<&str>) -> RawEntry {
    RawEntry {
        name: name.to_string(),
        path: PathBuf::from(name),
        is_dir,
        mtime,
        extension: ext.map(|e| e.to_string()),
    }
}

#[test]
fn upload_listing_is_filtered_and_sorted() {
    let listing = vec![
        raw("old.png", false, 1, Some("png")),
        raw("Zeta", true, 0, None),
        raw(".hidden", true, 0, None),
        raw("notes.txt", false, 9, Some("txt")),
        raw("alpha", true, 0, None),
        raw("new.JPG", false, 5, Some("JPG")),
    ];
    let state = UploadState::open_at(PathBuf::from("/pics"), Some(PathBuf::from("/")), listing);
    let names: Vec<&str> = state.visible.iter().map(|&i| state.entries[i].name.as_str()).collect();
    assert_eq!(names, vec!["..", "alpha", "Zeta", "new.JPG", "old.png"]);
    assert_eq!(state.entries[0].path, PathBuf::from("/"));
}

#[test]
fn upload_query_filters_case_insensitively() {
    let listing = vec![raw("Screenshot.png", false, 2, Some("png")), raw("logo.png", false, 1, Some("png"))];
    let mut state = UploadState::open_at(PathBuf::from("/d"), None, listing);
    state.push_query('s');
    state.push_query('C');
    let names: Vec<&str> = state.visible.iter().map(|&i| state.entries[i].name.as_str()).collect();
    assert_eq!(names, vec!["..", "Screenshot.png"]);
    assert!(state.pop_query());
    assert!(state.pop_query());
    assert!(!state.pop_query());
    assert_eq!(state.visible.len(), 3);
    state.move_down();
    state.move_down();
    state.move_down();
    assert_eq!(state.selected, 2);
    assert_eq!(state.enter(no_listing), Some(PathBuf::from("logo.png")));
    state.move_up();
    state.move_up();
    state.move_up();
    assert_eq!(state.selected, 0);
    assert_eq!(state.entries[0].path, PathBuf::from("/d"));
}

// --- editor pane cells ---

use devtui::ui::{editor_lines, CellStyle};

fn styles_of(line: &[(char, CellStyle)]) -> Vec<CellStyle> {
    line.iter().map(|c| c.1).collect()
}

#[test]
fn editor_lines_marks_cursor_in_normal_mode() {
    let vim = Vim::new();
    let mut buf = buffer("ab\ncd");
    buf.cursor = 4;
    let lines = editor_lines(&buf, &vim);
    assert_eq!(lines.len(), 2);
    assert_eq!(styles_of(&lines[0]), vec![CellStyle::Plain, CellStyle::Plain]);
    assert_eq!(styles_of(&lines[1]), vec![CellStyle::Plain, CellStyle::Cursor]);
    buf.cursor = 5;
    let lines = editor_lines(&buf, &vim);
    assert_eq!(lines[1], vec![('c', CellStyle::Plain), ('d', CellStyle::Plain), (' ', CellStyle::Cursor)]);
}

#[test]
fn editor_lines_marks_visual_selection() {
    let mut vim = Vim::new();
    let mut buf = buffer("abc\ndef");
    keys(&mut vim, &mut buf, "vj");
    let lines = editor_lines(&buf, &vim);
    assert_eq!(styles_of(&lines[0]), vec![CellStyle::Selected; 3]);
    assert_eq!(styles_of(&lines[1]), vec![CellStyle::Cursor, CellStyle::Plain, CellStyle::Plain]);
}

#[test]
fn editor_lines_marks_visual_block_columns() {
    let mut vim = Vim::new();
    let mut buf = buffer("abcd\nefgh\nij");
    buf.cursor = 1;
    vim.handle_key(Key::Char('v'), true, &mut buf);
    keys(&mut vim, &mut buf, "lj");
    assert_eq!(vim.mode, Mode::VisualBlock);
    let lines = editor_lines(&buf, &vim);
    assert_eq!(
        styles_of(&lines[0]),
        vec![CellStyle::Plain, CellStyle::Selected, CellStyle::Selected, CellStyle::Plain]
    );
    assert_eq!(
        styles_of(&lines[1]),
        vec![CellStyle::Plain, CellStyle::Selected, CellStyle::Cursor, CellStyle::Plain]
    );
    assert_eq!(styles_of(&lines[2]), vec![CellStyle::Plain, CellStyle::Plain]);
}

#[test]
fn adjust_scroll_keeps_cursor_row_in_view() {
    let mut buf = buffer("a\nb\nc\nd\ne\nf");
    buf.cursor = 10; // row 5
    buf.adjust_scroll(3);
    assert_eq!(buf.scroll_offset, 3);
    buf.cursor = 2; // row 1
    buf.adjust_scroll(3);
    assert_eq!(buf.scroll_offset, 1);
    buf.adjust_scroll(3);
    assert_eq!(buf.scroll_offset, 1);
}

#[test]
fn upload_selected_entry_and_navigate_up() {
    let listing = vec![raw("a.png", false, 1, Some("png"))];
    let mut state = UploadState::open_at(PathBuf::from("/d/e"), Some(PathBuf::from("/d")), listing);
    assert_eq!(state.selected_entry().map(|e| e.name.clone()), Some("..".to_string()));
    state.move_down();
    assert_eq!(state.selected_entry().map(|e| e.name.clone()), Some("a.png".to_string()));
    assert!(state.navigate_up(Some(PathBuf::from("/d")), |_| (Some(PathBuf::from("/")), vec![raw("e", true, 0, None)])));
    assert_eq!(state.current_dir, PathBuf::from("/d"));
    assert_eq!(state.entries.len(), 2);
    assert_eq!(state.entries[0].path, PathBuf::from("/"));
    assert_eq!(state.selected, 1);
    assert!(!state.navigate_up(None, no_listing));
    assert_eq!(state.current_dir, PathBuf::from("/d"));
}

#[test]
fn escape_returns_to_normal_from_every_mode() {
    for entry in ["i", "v", "V", ":", "d", "3", "f"] {
        let mut vim = Vim::new();
        let mut buf = buffer("abc\ndef");
        keys(&mut vim, &mut buf, entry);
        assert_eq!(vim.handle_key(Key::Esc, false, &mut buf), Action::Continue);
        assert_eq!(vim.mode, Mode::Normal, "after {entry:?}");
    }
    let mut vim = Vim::new();
    let mut buf = buffer("abc");
    vim.handle_key(Key::Char('v'), true, &mut buf);
    assert_eq!(vim.mode, Mode::VisualBlock);
    vim.handle_key(Key::Esc, false, &mut buf);
    assert_eq!(vim.mode, Mode::Normal);
}

#[test]
fn undo_right_after_an_edit_gives_back_the_text() {
    for edit in ["3x", "D", "~", "J", "P"] {
        let mut vim = Vim::new();
        let mut buf = buffer("hello world\nsecond line");
        vim.register = "XY".chars().collect();
        keys(&mut vim, &mut buf, edit);
        assert_ne!(text(&buf), "hello world\nsecond line", "{edit:?} changed nothing");
        keys(&mut vim, &mut buf, "u");
        assert_eq!(text(&buf), "hello world\nsecond line", "after {edit:?}u");
        assert_eq!(vim.mode, Mode::Normal);
    }
}

#[test]
fn control_c_quits_without_change() {
    let mut vim = Vim::new();
    let mut buf = buffer("abc");
    keys(&mut vim, &mut buf, "i");
    assert_eq!(vim.handle_key(Key::Char('c'), true, &mut buf), Action::Quit);
    assert_eq!(vim.mode, Mode::Insert);
    assert_eq!(text(&buf), "abc");
}

#[test]
fn counted_motions_repeat() {
    let mut vim = Vim::new();
    let mut buf = buffer("one two three four");
    keys(&mut vim, &mut buf, "2w");
    assert_eq!(buf.cursor, 8);
    keys(&mut vim, &mut buf, "3l");
    assert_eq!(buf.cursor, 11);
    keys(&mut vim, &mut buf, "2x");
    assert_eq!(text(&buf), "one two thr four");
    assert_eq!(vim.register, vec!['e']);
}

#[test]
fn undo_after_a_run_of_edits_and_moves_restores_the_snapshot() {
    let mut buf = buffer("abc\ndef");
    buf.cursor = 1;
    buf.snapshot();
    buf.insert_char('X');
    buf.move_right();
    buf.delete_char_backward();
    buf.open_line_below();
    buf.insert_char('Z');
    buf.move_to_top();
    let edited = buf.content();
    assert_ne!(edited, "abc\ndef");
    assert!(buf.undo());
    assert_eq!(buf.content(), "abc\ndef");
    assert_eq!(buf.cursor, 1);
    assert!(buf.redo());
    assert_eq!(buf.content(), edited);
}

#[test]
fn redo_after_a_snapshot_does_nothing() {
    let mut buf = buffer("abc");
    buf.snapshot();
    buf.insert_char('X');
    assert!(buf.undo());
    buf.snapshot();
    assert!(!buf.redo());
    assert_eq!(buf.content(), "abc");
}

fn no_listing(_: &PathBuf) -> (Option<PathBuf>, Vec<RawEntry>) {
    (None, Vec::new())
}

#[test]
fn upload_enter_directory_lists_it_and_clears_the_query() {
    let listing = vec![raw("pics", true, 0, None), raw("a.png", false, 1, Some("png"))];
    let mut state = UploadState::open_at(PathBuf::from("/d"), None, listing);
    state.push_query('p');
    state.move_down();
    assert_eq!(state.selected_entry().map(|e| e.name.clone()), Some("pics".to_string()));
    let picked = state.enter(|dir| {
        assert_eq!(dir, &PathBuf::from("pics"));
        (Some(PathBuf::from("/d")), vec![raw("x.jpg", false, 5, Some("JPG")), raw("notes.txt", false, 6, Some("txt"))])
    });
    assert_eq!(picked, None);
    assert_eq!(state.current_dir, PathBuf::from("pics"));
    assert_eq!(state.query, "");
    assert_eq!(state.message, None);
    let names: Vec<&str> = state.entries.iter().map(|e| e.name.as_str()).collect();
    assert_eq!(names, vec!["..", "x.jpg"]);
    assert_eq!(state.entries[0].path, PathBuf::from("/d"));
    assert_eq!(state.visible, vec![0, 1]);
    assert_eq!(state.selected, 1);
}

#[test]
fn delete_char_at_cursor_past_the_end_changes_nothing() {
    let mut buf = buffer("ab");
    buf.cursor = 5;
    assert_eq!(buf.delete_char_at_cursor(), None);
    assert_eq!(text(&buf), "ab");
    assert_eq!(buf.cursor, 5);
    assert!(!buf.dirty);
    buf.cursor = 1;
    assert_eq!(buf.delete_char_at_cursor(), Some('b'));
    assert_eq!(text(&buf), "a");
    assert_eq!(buf.cursor, 0);
}

#[test]
fn buffer_from_text_starts_clean_at_the_top() {
    let buf = Buffer::from_text(PathBuf::from("post.md"), "héllo\nworld");
    assert_eq!(text(&buf), "héllo\nworld");
    assert_eq!(buf.cursor, 0);
    assert_eq!(buf.scroll_offset, 0);
    assert_eq!(buf.file_path, PathBuf::from("post.md"));
    assert!(!buf.dirty);
    assert!(buf.undo_stack.is_empty() && buf.redo_stack.is_empty());
}
