use vstd::prelude::*;
use crate::engine::config::{frontmatter, frontmatter_of, BlogConfig};
use crate::engine::minify::{css_inlined, inline_css, minified_css, minify_css};
use crate::engine::pages::{preview_vars, render_preview_html};
use crate::engine::template::rendered;
use crate::text::{chars_of, push_str, split_chars, split_on, string_of, trim, trim_ws};
use crate::editor::preview::{fm_field, frontmatter_field};
use crate::trusted::ascii_lower;

verus! {

/// How an editing session ended.
#[derive(Debug, Clone, Copy, PartialEq, Eq, Structural)]
pub enum EditorResult {
    Quit,
}

/// What the HTML preview of an article needs: the site's stylesheet, the
/// article template and the site configuration.
pub struct HtmlPreviewConfig {
    pub css: String,
    pub article_tpl: String,
    pub blog_config: BlogConfig,
}

/// What stands beside the editor.
#[derive(Debug, Clone, Copy, PartialEq, Eq, Structural)]
pub enum SplitLayout {
    /// Editor left, preview right.
    Vertical,
    /// Editor left, writing companion right.
    Scribe,
    /// Editor left, chat right.
    Chat,
    /// The editor alone.
    EditorOnly,
}

/// The layout Ctrl+G moves to: preview, companion, chat, editor alone, and round.
pub open spec fn next_layout_spec(l: SplitLayout) -> SplitLayout {
    match l {
        SplitLayout::Vertical => SplitLayout::Scribe,
        SplitLayout::Scribe => SplitLayout::Chat,
        SplitLayout::Chat => SplitLayout::EditorOnly,
        SplitLayout::EditorOnly => SplitLayout::Vertical,
    }
}

/// The layout after `l` in the Ctrl+G cycle.
pub fn next_layout(l: SplitLayout) -> (r: SplitLayout)
    ensures
        r == next_layout_spec(l),
{
    match l {
        SplitLayout::Vertical => SplitLayout::Scribe,
        SplitLayout::Scribe => SplitLayout::Chat,
        SplitLayout::Chat => SplitLayout::EditorOnly,
        SplitLayout::EditorOnly => SplitLayout::Vertical,
    }
}

/// Columns and rows of the embedded editor for a layout and a terminal
/// size: half the width beside a panel, the full width alone, less the
/// borders and the status bar.
pub fn vim_size(layout: SplitLayout, width: u16, height: u16) -> (r: (u16, u16))
    ensures
        r.1 == (if height >= 3 {
            height - 3
        } else {
            0
        }),
        r.0 == (if layout == SplitLayout::EditorOnly {
            if width >= 2 {
                width - 2
            } else {
                0
            }
        } else if width / 2 >= 2 {
            width / 2 - 2
        } else {
            0
        }),
{
    let rows = if height >= 3 {
        height - 3
    } else {
        0
    };
    let half = width / 2;
    match layout {
        SplitLayout::EditorOnly => (
            if width >= 2 {
                width - 2
            } else {
                0
            },
            rows,
        ),
        _ => (
            if half >= 2 {
                half - 2
            } else {
                0
            },
            rows,
        ),
    }
}

/// A key of the terminal, as it is forwarded to the embedded editor.
#[derive(Debug, Clone, Copy, PartialEq, Eq, Structural)]
pub enum TermKey {
    Char(char),
    Enter,
    Backspace,
    Tab,
    BackTab,
    Esc,
    Up,
    Down,
    Right,
    Left,
    Home,
    End,
    PageUp,
    PageDown,
    Delete,
    Insert,
    F(u8),
    Other,
}

/// The UTF-8 encoding of a character.
pub open spec fn utf8_encode(c: char) -> Seq<u8> {
    let v = c as u32;
    if v < 0x80 {
        seq![v as u8]
    } else if v < 0x800 {
        seq![(0xC0 + v / 64) as u8, (0x80 + v % 64) as u8]
    } else if v < 0x10000 {
        seq![(0xE0 + v / 4096) as u8, (0x80 + (v / 64) % 64) as u8, (0x80 + v % 64) as u8]
    } else {
        seq![
            (0xF0 + v / 262144) as u8,
            (0x80 + (v / 4096) % 64) as u8,
            (0x80 + (v / 64) % 64) as u8,
            (0x80 + v % 64) as u8,
        ]
    }
}

/// The escape sequence of a function key, for F1 to F12.
pub open spec fn function_key_bytes(n: u8) -> Option<Seq<u8>> {
    if n == 1 {
        Some(seq![27u8, 79, 80])
    } else if n == 2 {
        Some(seq![27u8, 79, 81])
    } else if n == 3 {
        Some(seq![27u8, 79, 82])
    } else if n == 4 {
        Some(seq![27u8, 79, 83])
    } else if n == 5 {
        Some(seq![27u8, 91, 49, 53, 126])
    } else if n == 6 {
        Some(seq![27u8, 91, 49, 55, 126])
    } else if n == 7 {
        Some(seq![27u8, 91, 49, 56, 126])
    } else if n == 8 {
        Some(seq![27u8, 91, 49, 57, 126])
    } else if n == 9 {
        Some(seq![27u8, 91, 50, 48, 126])
    } else if n == 10 {
        Some(seq![27u8, 91, 50, 49, 126])
    } else if n == 11 {
        Some(seq![27u8, 91, 50, 51, 126])
    } else if n == 12 {
        Some(seq![27u8, 91, 50, 52, 126])
    } else {
        None
    }
}

/// The bytes a terminal sends for a key: with Ctrl, a character becomes
/// its control code (its low five bits) and other keys send nothing; a
/// plain character is sent as UTF-8; the others as VT escape sequences.
pub open spec fn key_bytes(key: TermKey, control: bool) -> Option<Seq<u8>> {
    if control {
        match key {
            TermKey::Char(c) => Some(seq![((c as u32) % 32) as u8]),
            _ => None,
        }
    } else {
        match key {
            TermKey::Char(c) => Some(utf8_encode(c)),
            TermKey::Enter => Some(seq![13u8]),
            TermKey::Backspace => Some(seq![127u8]),
            TermKey::Tab => Some(seq![9u8]),
            TermKey::BackTab => Some(seq![27u8, 91, 90]),
            TermKey::Esc => Some(seq![27u8]),
            TermKey::Up => Some(seq![27u8, 91, 65]),
            TermKey::Down => Some(seq![27u8, 91, 66]),
            TermKey::Right => Some(seq![27u8, 91, 67]),
            TermKey::Left => Some(seq![27u8, 91, 68]),
            TermKey::Home => Some(seq![27u8, 91, 72]),
            TermKey::End => Some(seq![27u8, 91, 70]),
            TermKey::PageUp => Some(seq![27u8, 91, 53, 126]),
            TermKey::PageDown => Some(seq![27u8, 91, 54, 126]),
            TermKey::Delete => Some(seq![27u8, 91, 51, 126]),
            TermKey::Insert => Some(seq![27u8, 91, 50, 126]),
            TermKey::F(n) => function_key_bytes(n),
            TermKey::Other => None,
        }
    }
}

/// The view of optional bytes.
pub open spec fn opt_bytes(o: Option<Vec<u8>>) -> Option<Seq<u8>> {
    match o {
        Some(v) => Some(v@),
        None => None,
    }
}

/// The UTF-8 bytes of `c`.
fn encode_char(c: char) -> (r: Vec<u8>)
    ensures
        r@ == utf8_encode(c),
{
    let v = c as u32;
    if v < 0x80 {
        vec![v as u8]
    } else if v < 0x800 {
        vec![(0xC0 + v / 64) as u8, (0x80 + v % 64) as u8]
    } else if v < 0x10000 {
        vec![(0xE0 + v / 4096) as u8, (0x80 + (v / 64) % 64) as u8, (0x80 + v % 64) as u8]
    } else {
        assert(v < 0x110000);
        vec![
            (0xF0 + v / 262144) as u8,
            (0x80 + (v / 4096) % 64) as u8,
            (0x80 + (v / 64) % 64) as u8,
            (0x80 + v % 64) as u8,
        ]
    }
}

/// The escape sequence of a function key.
fn function_key(n: u8) -> (r: Option<Vec<u8>>)
    ensures
        opt_bytes(r) == function_key_bytes(n),
{
    let v: Vec<u8> = if n == 1 {
        vec![27, 79, 80]
    } else if n == 2 {
        vec![27, 79, 81]
    } else if n == 3 {
        vec![27, 79, 82]
    } else if n == 4 {
        vec![27, 79, 83]
    } else if n == 5 {
        vec![27, 91, 49, 53, 126]
    } else if n == 6 {
        vec![27, 91, 49, 55, 126]
    } else if n == 7 {
        vec![27, 91, 49, 56, 126]
    } else if n == 8 {
        vec![27, 91, 49, 57, 126]
    } else if n == 9 {
        vec![27, 91, 50, 48, 126]
    } else if n == 10 {
        vec![27, 91, 50, 49, 126]
    } else if n == 11 {
        vec![27, 91, 50, 51, 126]
    } else if n == 12 {
        vec![27, 91, 50, 52, 126]
    } else {
        return None;
    };
    Some(v)
}

/// The bytes to write to the embedded editor for a key, if it sends any.
pub fn key_to_bytes(key: TermKey, control: bool) -> (r: Option<Vec<u8>>)
    ensures
        opt_bytes(r) == key_bytes(key, control),
{
    if control {
        return match key {
            TermKey::Char(c) => Some(vec![((c as u32) % 32) as u8]),
            _ => None,
        };
    }
    match key {
        TermKey::Char(c) => Some(encode_char(c)),
        TermKey::Enter => Some(vec![13]),
        TermKey::Backspace => Some(vec![127]),
        TermKey::Tab => Some(vec![9]),
        TermKey::BackTab => Some(vec![27, 91, 90]),
        TermKey::Esc => Some(vec![27]),
        TermKey::Up => Some(vec![27, 91, 65]),
        TermKey::Down => Some(vec![27, 91, 66]),
        TermKey::Right => Some(vec![27, 91, 67]),
        TermKey::Left => Some(vec![27, 91, 68]),
        TermKey::Home => Some(vec![27, 91, 72]),
        TermKey::End => Some(vec![27, 91, 70]),
        TermKey::PageUp => Some(vec![27, 91, 53, 126]),
        TermKey::PageDown => Some(vec![27, 91, 54, 126]),
        TermKey::Delete => Some(vec![27, 91, 51, 126]),
        TermKey::Insert => Some(vec![27, 91, 50, 126]),
        TermKey::F(n) => function_key(n),
        TermKey::Other => None,
    }
}

/// Whether `c` is an ASCII digit.
pub open spec fn is_digit(c: char) -> bool {
    '0' <= c && c <= '9'
}

/// The number written by the decimal digits `s`.
pub open spec fn digits_value(s: Seq<char>) -> nat
    decreases s.len(),
{
    if s.len() == 0 {
        0
    } else {
        digits_value(s.drop_last()) * 10 + (s.last() as nat - '0' as nat) as nat
    }
}

/// The digits of a number, after an optional `+`.
pub open spec fn unsigned_digits(s: Seq<char>) -> Seq<char> {
    if s.len() > 0 && s[0] == '+' {
        s.drop_first()
    } else {
        s
    }
}

/// Whether every character of `d` is a decimal digit.
pub open spec fn all_digits(d: Seq<char>) -> bool {
    forall|i: int| 0 <= i < d.len() ==> is_digit(#[trigger] d[i])
}

/// What `usize::from_str` gives: an optional `+`, then one or more
/// decimal digits whose number fits.
pub open spec fn parsed_usize(s: Seq<char>) -> Option<usize> {
    let d = unsigned_digits(s);
    if d.len() > 0 && all_digits(d) && digits_value(d) <= usize::MAX {
        Some(digits_value(d) as usize)
    } else {
        None
    }
}

/// A prefix of digits never writes a larger number.
proof fn lemma_digits_prefix(s: Seq<char>, k: int)
    requires
        0 <= k <= s.len(),
        forall|i: int| 0 <= i < s.len() ==> is_digit(#[trigger] s[i]),
    ensures
        digits_value(s.take(k)) <= digits_value(s),
    decreases s.len(),
{
    if k < s.len() {
        assert(s.drop_last().take(k) =~= s.take(k));
        assert forall|i: int| 0 <= i < s.drop_last().len() implies is_digit(#[trigger] s.drop_last()[i]) by {
            assert(s.drop_last()[i] == s[i]);
        }
        lemma_digits_prefix(s.drop_last(), k);
    } else {
        assert(s.take(k) =~= s);
    }
}

/// Reads a `usize` as `str::parse` does.
pub fn parse_usize(s: &[char]) -> (r: Option<usize>)
    ensures
        r == parsed_usize(s@),
{
    let start: usize = if s.len() > 0 && s[0] == '+' {
        1
    } else {
        0
    };
    let ghost d = unsigned_digits(s@);
    assert(d =~= s@.skip(start as int));
    if start == s.len() {
        return None;
    }
    let mut acc: usize = 0;
    let mut i: usize = start;
    while i < s.len()
        invariant
            start <= i <= s.len(),
            start < s.len(),
            d == s@.skip(start as int),
            d == unsigned_digits(s@),
            forall|j: int| 0 <= j < i - start ==> is_digit(#[trigger] d[j]),
            acc == digits_value(d.take(i - start)),
        decreases s.len() - i,
    {
        let c = s[i];
        if !('0' <= c && c <= '9') {
            assert(d[i - start] == s@[i as int]);
            assert(!is_digit(d[i - start]));
            assert(!all_digits(d));
            return None;
        }
        let dig = (c as u32 - '0' as u32) as usize;
        assert(d.take(i + 1 - start).drop_last() =~= d.take(i - start));
        assert(d[i - start] == s@[i as int]);
        assert(d.take(i + 1 - start).last() == c);
        assert(digits_value(d.take(i + 1 - start)) == acc * 10 + dig);
        match acc.checked_mul(10) {
            None => {
                proof {
                    assert(digits_value(d.take(i + 1 - start)) > usize::MAX);
                    if all_digits(d) {
                        lemma_digits_prefix(d, i + 1 - start);
                    }
                }
                return None;
            },
            Some(m) => match m.checked_add(dig) {
                None => {
                    proof {
                        assert(digits_value(d.take(i + 1 - start)) > usize::MAX);
                        if all_digits(d) {
                            lemma_digits_prefix(d, i + 1 - start);
                        }
                    }
                    return None;
                },
                Some(v) => {
                    acc = v;
                },
            },
        }
        i += 1;
    }
    assert(d.take(i - start) =~= d);
    Some(acc)
}

/// The mode the embedded editor reports.
#[derive(Debug, Clone, Copy, PartialEq, Eq, Structural)]
pub enum VimMode {
    Normal,
    Insert,
    Visual,
    Replace,
    Command,
}

/// What the embedded editor reports in its window title
/// (`w0:cursor:total:mode:modified`).
#[derive(Debug, Clone, Copy, PartialEq, Eq, Structural)]
pub struct VimState {
    pub first_visible_line: usize,
    pub cursor_line: usize,
    pub total_lines: usize,
    pub mode: VimMode,
    pub modified: bool,
}

/// The mode named by the mode field of the title.
pub open spec fn mode_of(p: Seq<char>) -> VimMode {
    if p == seq!['i'] {
        VimMode::Insert
    } else if p == seq!['v'] || p == seq!['V'] || p == seq!['\x16'] {
        VimMode::Visual
    } else if p == seq!['R'] {
        VimMode::Replace
    } else if p == seq!['c'] {
        VimMode::Command
    } else {
        VimMode::Normal
    }
}

/// A number field of the title, 1 where it does not read.
pub open spec fn field_or_one(p: Seq<char>) -> usize {
    match parsed_usize(p) {
        Some(n) => n,
        None => 1,
    }
}

/// The state a title reports; a title with fewer than five fields reports
/// line 1 of 1 in normal mode, unmodified.
pub open spec fn parsed_title(title: Seq<char>) -> VimState {
    let parts = split_on(trim_ws(title), ':');
    if parts.len() >= 5 {
        VimState {
            first_visible_line: field_or_one(parts[0]),
            cursor_line: field_or_one(parts[1]),
            total_lines: field_or_one(parts[2]),
            mode: mode_of(parts[3]),
            modified: parts[4] == seq!['1'],
        }
    } else {
        VimState { first_visible_line: 1, cursor_line: 1, total_lines: 1, mode: VimMode::Normal, modified: false }
    }
}

/// Whether `p` is exactly the one character `c`.
fn is_one(p: &Vec<char>, c: char) -> (r: bool)
    ensures
        r == (p@ == seq![c]),
{
    if p.len() == 1 && p[0] == c {
        assert(p@ =~= seq![c]);
        true
    } else {
        false
    }
}

/// Reads the state the embedded editor puts in its window title.
pub fn parse_title(title: &str) -> (r: VimState)
    ensures
        r == parsed_title(title@),
{
    let cs = chars_of(title);
    let t = trim(&cs);
    let parts = split_chars(&t, ':');
    if parts.len() >= 5 {
        let f0 = parse_usize(&parts[0]);
        let f1 = parse_usize(&parts[1]);
        let f2 = parse_usize(&parts[2]);
        let mode = if is_one(&parts[3], 'i') {
            VimMode::Insert
        } else if is_one(&parts[3], 'v') || is_one(&parts[3], 'V') || is_one(&parts[3], '\x16') {
            VimMode::Visual
        } else if is_one(&parts[3], 'R') {
            VimMode::Replace
        } else if is_one(&parts[3], 'c') {
            VimMode::Command
        } else {
            VimMode::Normal
        };
        let modified = is_one(&parts[4], '1');
        VimState {
            first_visible_line: match f0 {
                Some(n) => n,
                None => 1,
            },
            cursor_line: match f1 {
                Some(n) => n,
                None => 1,
            },
            total_lines: match f2 {
                Some(n) => n,
                None => 1,
            },
            mode,
            modified,
        }
    } else {
        VimState { first_visible_line: 1, cursor_line: 1, total_lines: 1, mode: VimMode::Normal, modified: false }
    }
}

/// The label of a mode in the editor's title bar.
pub fn mode_label(mode: VimMode) -> (r: &'static str)
    ensures
        r@ == match mode {
            VimMode::Insert => " INSERT "@,
            VimMode::Visual => " VISUAL "@,
            VimMode::Command => " COMMAND "@,
            VimMode::Replace => " REPLACE "@,
            VimMode::Normal => " NORMAL "@,
        },
{
    match mode {
        VimMode::Insert => " INSERT ",
        VimMode::Visual => " VISUAL ",
        VimMode::Command => " COMMAND ",
        VimMode::Replace => " REPLACE ",
        VimMode::Normal => " NORMAL ",
    }
}

/// The text of the editor's title bar: a flash message, else `[+]` for
/// unsaved changes, else nothing.
pub fn title_message(flash: Option<&str>, modified: bool) -> (r: String)
    ensures
        r@ == match flash {
            Some(m) => m@,
            None => if modified {
                "[+]"@
            } else {
                Seq::empty()
            },
        },
{
    match flash {
        Some(m) => String::from_str(m),
        None => if modified {
            String::from_str("[+]")
        } else {
            String::new()
        },
    }
}

/// Rows a rendered line of display width `w` takes in a pane `pane`
/// columns wide (an empty line still takes one).
pub open spec fn rows_of_width(w: nat, pane: nat) -> nat {
    if w == 0 {
        1
    } else {
        ((w - 1) as nat / pane + 1) as nat
    }
}

/// Rows all the rendered lines take.
pub open spec fn visual_rows(ws: Seq<usize>, pane: nat) -> nat
    decreases ws.len(),
{
    if ws.len() == 0 {
        0
    } else {
        visual_rows(ws.drop_last(), pane) + rows_of_width(ws.last() as nat, pane)
    }
}

/// Whether a pane can lay the lines out: it has columns, or no line has width.
pub open spec fn pane_fits(ws: Seq<usize>, pane: nat) -> bool {
    pane > 0 || forall|i: int| 0 <= i < ws.len() ==> ws[i] == 0
}

/// Rows the rendered lines of widths `widths` take in a pane.
pub fn visual_line_count(widths: &[usize], pane_width: usize) -> (r: usize)
    requires
        pane_fits(widths@, pane_width as nat),
        visual_rows(widths@, pane_width as nat) <= usize::MAX,
    ensures
        r == visual_rows(widths@, pane_width as nat),
{
    let mut total: usize = 0;
    let mut i: usize = 0;
    while i < widths.len()
        invariant
            i <= widths.len(),
            pane_fits(widths@, pane_width as nat),
            visual_rows(widths@, pane_width as nat) <= usize::MAX,
            total == visual_rows(widths@.take(i as int), pane_width as nat),
        decreases widths.len() - i,
    {
        assert(widths@.take(i + 1).drop_last() =~= widths@.take(i as int));
        proof {
            lemma_visual_rows_prefix(widths@, i + 1, pane_width as nat);
        }
        let w = widths[i];
        let rows = if w == 0 {
            1
        } else {
            assert(pane_width > 0);
            (w - 1) / pane_width + 1
        };
        total = total + rows;
        i += 1;
    }
    assert(widths@.take(i as int) =~= widths@);
    total
}

/// A prefix of the lines never takes more rows than all of them.
proof fn lemma_visual_rows_prefix(ws: Seq<usize>, k: int, pane: nat)
    requires
        0 <= k <= ws.len(),
    ensures
        visual_rows(ws.take(k), pane) <= visual_rows(ws, pane),
    decreases ws.len(),
{
    if k < ws.len() {
        assert(ws.drop_last().take(k) =~= ws.take(k));
        lemma_visual_rows_prefix(ws.drop_last(), k, pane);
    } else {
        assert(ws.take(k) =~= ws);
    }
}

/// How far the preview can scroll: the rows beyond one screen, cut to 16 bits.
pub open spec fn max_scroll_of(visual: nat, visible: nat) -> u16 {
    (if visual >= visible {
        visual - visible
    } else {
        0
    }) as u16
}

/// Columns of the preview pane: half the terminal beside the editor, or
/// one column when the editor stands alone.
pub fn pane_width_for(layout: SplitLayout, term_width: u16) -> (r: usize)
    ensures
        r == (if layout == SplitLayout::EditorOnly {
            1
        } else if term_width / 2 >= 2 {
            term_width / 2 - 2
        } else {
            0
        }),
{
    match layout {
        SplitLayout::EditorOnly => 1,
        _ => {
            let half = term_width / 2;
            if half >= 2 {
                (half - 2) as usize
            } else {
                0
            }
        },
    }
}

/// The furthest the preview scrolls for lines of widths `widths`.
pub fn max_scroll(widths: &[usize], pane_width: usize, visible_rows: usize) -> (r: u16)
    requires
        pane_fits(widths@, pane_width as nat),
        visual_rows(widths@, pane_width as nat) <= usize::MAX,
    ensures
        r == max_scroll_of(visual_rows(widths@, pane_width as nat), visible_rows as nat),
{
    let visual = visual_line_count(widths, pane_width);
    let beyond = if visual >= visible_rows {
        visual - visible_rows
    } else {
        0
    };
    beyond as u16
}

/// Rows taken by the rendered lines before a rendered line, each line's
/// share cut to 16 bits.
pub open spec fn target_rows(ws: Seq<usize>, pane: nat) -> nat
    decreases ws.len(),
{
    if ws.len() == 0 {
        0
    } else {
        target_rows(ws.drop_last(), pane) + (rows_of_width(ws.last() as nat, pane) as u16) as nat
    }
}

/// The rendered line that stands for a source line, by the offsets.
pub open spec fn offset_for(cursor_line: nat, offsets: Seq<u16>) -> nat
    recommends
        offsets.len() > 0,
{
    offsets[if cursor_line < offsets.len() - 1 {
        cursor_line as int
    } else {
        offsets.len() - 1
    }] as nat
}

/// The lines before the rendered line the cursor's source line maps to.
pub open spec fn lines_before_cursor(cursor_line: nat, widths: Seq<usize>, offsets: Seq<u16>) -> Seq<usize>
    recommends
        offsets.len() > 0,
{
    let rendered = offset_for(cursor_line, offsets);
    widths.take(
        if rendered < widths.len() {
            rendered as int
        } else {
            widths.len() as int
        },
    )
}

/// The preview row where the cursor's source line was rendered, found
/// through the offsets (source line to rendered line).
pub fn offset_target(cursor_line: usize, widths: &[usize], offsets: &[u16], pane_width: usize) -> (r: u16)
    requires
        offsets.len() > 0,
        pane_fits(widths@, pane_width as nat),
        target_rows(lines_before_cursor(cursor_line as nat, widths@, offsets@), pane_width as nat) <= u16::MAX,
    ensures
        r == target_rows(lines_before_cursor(cursor_line as nat, widths@, offsets@), pane_width as nat),
{
    let last = offsets.len() - 1;
    let idx = if cursor_line < last {
        cursor_line
    } else {
        last
    };
    let rendered = offsets[idx] as usize;
    let n = if rendered < widths.len() {
        rendered
    } else {
        widths.len()
    };
    let ghost ws = widths@.take(n as int);
    assert(ws == lines_before_cursor(cursor_line as nat, widths@, offsets@));
    let mut total: u16 = 0;
    let mut i: usize = 0;
    while i < n
        invariant
            i <= n <= widths.len(),
            ws == widths@.take(n as int),
            pane_fits(widths@, pane_width as nat),
            target_rows(ws, pane_width as nat) <= u16::MAX,
            total == target_rows(ws.take(i as int), pane_width as nat),
        decreases n - i,
    {
        assert(ws.take(i + 1).drop_last() =~= ws.take(i as int));
        proof {
            lemma_target_rows_prefix(ws, i + 1, pane_width as nat);
        }
        let w = widths[i];
        assert(ws[i as int] == w);
        let rows: u16 = if w == 0 {
            1
        } else {
            assert(pane_width > 0);
            ((w - 1) / pane_width + 1) as u16
        };
        total = total + rows;
        i += 1;
    }
    assert(ws.take(i as int) =~= ws);
    total
}

/// A prefix of the lines never counts more rows.
proof fn lemma_target_rows_prefix(ws: Seq<usize>, k: int, pane: nat)
    requires
        0 <= k <= ws.len(),
    ensures
        target_rows(ws.take(k), pane) <= target_rows(ws, pane),
    decreases ws.len(),
{
    if k < ws.len() {
        assert(ws.drop_last().take(k) =~= ws.take(k));
        lemma_target_rows_prefix(ws.drop_last(), k, pane);
    } else {
        assert(ws.take(k) =~= ws);
    }
}

/// The scroll that puts a target row in the middle of the screen, held to
/// what the preview can scroll.
pub fn scroll_for_target(target: u16, max_scroll: u16, visible_rows: usize) -> (r: u16)
    ensures
        r == ({
            let half = (visible_rows as u16) / 2;
            let up: int = if target >= half {
                target - half
            } else {
                0
            };
            if up < max_scroll {
                up
            } else {
                max_scroll as int
            }
        }),
{
    let half = (visible_rows as u16) / 2;
    let up = if target >= half {
        target - half
    } else {
        0
    };
    if up < max_scroll {
        up
    } else {
        max_scroll
    }
}

/// The editing session's own controls: the layout, the chat input and the
/// preview's scroll. The embedded editor, the terminal and the worker
/// threads belong to the host, which performs the `EditorEffect`s.
pub struct EditorControls {
    pub split_layout: SplitLayout,
    pub chat_focused: bool,
    pub chat_input: String,
    pub chat_pending: bool,
    pub preview_scroll: u16,
}

/// Outside work a key asks of the host, in order.
#[derive(Debug, Clone)]
pub enum EditorEffect {
    /// Resize the embedded editor to the layout.
    Resize,
    /// Render the preview of the current content.
    RenderPreview,
    /// Send this question to the chat in the background.
    SendChat(String),
    /// Run the writing companion's check now.
    CheckNow,
    /// Scroll the preview to the editor's cursor.
    FollowCursor,
    /// Open the HTML preview in a browser.
    OpenBrowser,
    /// Write these bytes to the embedded editor.
    Forward(Vec<u8>),
}

/// The plain value of an editor effect.
pub ghost enum EditorEffectV {
    Resize,
    RenderPreview,
    SendChat(Seq<char>),
    CheckNow,
    FollowCursor,
    OpenBrowser,
    Forward(Seq<u8>),
}

pub open spec fn editor_effect_view(e: EditorEffect) -> EditorEffectV {
    match e {
        EditorEffect::Resize => EditorEffectV::Resize,
        EditorEffect::RenderPreview => EditorEffectV::RenderPreview,
        EditorEffect::SendChat(q) => EditorEffectV::SendChat(q@),
        EditorEffect::CheckNow => EditorEffectV::CheckNow,
        EditorEffect::FollowCursor => EditorEffectV::FollowCursor,
        EditorEffect::OpenBrowser => EditorEffectV::OpenBrowser,
        EditorEffect::Forward(b) => EditorEffectV::Forward(b@),
    }
}

/// The plain values of editor effects.
pub open spec fn editor_effects_view(v: Seq<EditorEffect>) -> Seq<EditorEffectV> {
    v.map_values(|e: EditorEffect| editor_effect_view(e))
}

/// What the controls are.
pub ghost struct ControlsModel {
    pub layout: SplitLayout,
    pub chat_focused: bool,
    pub chat_input: Seq<char>,
    pub chat_pending: bool,
    pub preview_scroll: u16,
}

impl View for EditorControls {
    type V = ControlsModel;

    open spec fn view(&self) -> ControlsModel {
        ControlsModel {
            layout: self.split_layout,
            chat_focused: self.chat_focused,
            chat_input: self.chat_input@,
            chat_pending: self.chat_pending,
            preview_scroll: self.preview_scroll,
        }
    }
}

/// Switch to a layout, resizing the editor when it changes.
pub open spec fn switch_to(m: ControlsModel, l: SplitLayout) -> (ControlsModel, Seq<EditorEffectV>) {
    if m.layout == l {
        (m, seq![])
    } else {
        (ControlsModel { layout: l, ..m }, seq![EditorEffectV::Resize])
    }
}

/// A key while the chat has the focus: Esc gives it back, Enter sends a
/// non-empty question unless one is pending, Backspace and characters edit
/// the input (characters with Ctrl are dropped).
pub open spec fn chat_key_m(m: ControlsModel, key: TermKey, control: bool) -> (ControlsModel, Seq<EditorEffectV>) {
    match key {
        TermKey::Esc => (ControlsModel { chat_focused: false, ..m }, seq![]),
        TermKey::Enter => if m.chat_input.len() > 0 && !m.chat_pending {
            (
                ControlsModel { chat_input: Seq::empty(), chat_pending: true, ..m },
                seq![EditorEffectV::SendChat(m.chat_input)],
            )
        } else {
            (m, seq![])
        },
        TermKey::Backspace => (
            ControlsModel {
                chat_input: if m.chat_input.len() > 0 {
                    m.chat_input.drop_last()
                } else {
                    m.chat_input
                },
                ..m
            },
            seq![],
        ),
        TermKey::Char(c) => if !control {
            (ControlsModel { chat_input: m.chat_input.push(c), ..m }, seq![])
        } else {
            (m, seq![])
        },
        _ => (m, seq![]),
    }
}

/// One key of the editing session. Ctrl+G cycles the layout (rendering the
/// preview when it comes back with nothing cached); with the chat focused
/// every key goes to the chat; Ctrl+T opens the companion and checks now;
/// Ctrl+Y focuses the chat; with the preview shown, Ctrl+F follows the
/// cursor and Ctrl+J/Ctrl+K scroll by three rows (down to `max_scroll`);
/// Ctrl+O opens the browser; anything else goes to the editor as bytes.
pub open spec fn editor_key_m(
    m: ControlsModel,
    key: TermKey,
    control: bool,
    preview_cached: bool,
    max_scroll: u16,
) -> (ControlsModel, Seq<EditorEffectV>) {
    if key == TermKey::Char('g') && control {
        let l = next_layout_spec(m.layout);
        let m1 = ControlsModel { layout: l, ..m };
        if l == SplitLayout::Vertical && !preview_cached {
            (m1, seq![EditorEffectV::Resize, EditorEffectV::RenderPreview])
        } else {
            (m1, seq![EditorEffectV::Resize])
        }
    } else if m.layout == SplitLayout::Chat && m.chat_focused {
        chat_key_m(m, key, control)
    } else if key == TermKey::Char('t') && control {
        (switch_to(m, SplitLayout::Scribe).0, switch_to(m, SplitLayout::Scribe).1.push(EditorEffectV::CheckNow))
    } else if key == TermKey::Char('y') && control {
        (ControlsModel { chat_focused: true, ..switch_to(m, SplitLayout::Chat).0 }, switch_to(m, SplitLayout::Chat).1)
    } else if key == TermKey::Char('f') && control && m.layout == SplitLayout::Vertical {
        (m, seq![EditorEffectV::FollowCursor])
    } else if key == TermKey::Char('o') && control {
        (m, seq![EditorEffectV::OpenBrowser])
    } else if key == TermKey::Char('j') && control && m.layout == SplitLayout::Vertical {
        let down: int = if m.preview_scroll + 3 <= u16::MAX {
            m.preview_scroll + 3
        } else {
            u16::MAX as int
        };
        (ControlsModel { preview_scroll: (if down < max_scroll { down } else { max_scroll as int }) as u16, ..m }, seq![])
    } else if key == TermKey::Char('k') && control && m.layout == SplitLayout::Vertical {
        (ControlsModel { preview_scroll: (if m.preview_scroll >= 3 { m.preview_scroll - 3 } else { 0 }) as u16, ..m }, seq![])
    } else {
        match key_bytes(key, control) {
            Some(b) => (m, seq![EditorEffectV::Forward(b)]),
            None => (m, seq![]),
        }
    }
}

/// Appends an editor effect.
fn emit_editor(effects: &mut Vec<EditorEffect>, e: EditorEffect)
    ensures
        editor_effects_view(final(effects)@) == editor_effects_view(old(effects)@) + seq![editor_effect_view(e)],
{
    proof {
        assert(editor_effects_view(effects@.push(e)) =~= editor_effects_view(effects@) + seq![editor_effect_view(e)]);
    }
    effects.push(e);
}

impl EditorControls {
    /// The controls of a new session: preview beside the editor, chat idle.
    pub fn new() -> (r: EditorControls)
        ensures
            r@ == (ControlsModel {
                layout: SplitLayout::Vertical,
                chat_focused: false,
                chat_input: Seq::empty(),
                chat_pending: false,
                preview_scroll: 0,
            }),
    {
        EditorControls {
            split_layout: SplitLayout::Vertical,
            chat_focused: false,
            chat_input: String::new(),
            chat_pending: false,
            preview_scroll: 0,
        }
    }

    /// Switch to a layout, resizing the editor when it changes.
    fn switch_layout(&mut self, l: SplitLayout, effects: &mut Vec<EditorEffect>)
        ensures
            final(self)@ == switch_to(old(self)@, l).0,
            editor_effects_view(final(effects)@) == editor_effects_view(old(effects)@) + switch_to(old(self)@, l).1,
    {
        if self.split_layout != l {
            self.split_layout = l;
            emit_editor(effects, EditorEffect::Resize);
        } else {
            assert(editor_effects_view(effects@) =~= editor_effects_view(effects@) + Seq::<EditorEffectV>::empty());
        }
    }

    /// A key while the chat has the focus.
    fn chat_key(&mut self, key: TermKey, control: bool, effects: &mut Vec<EditorEffect>)
        ensures
            final(self)@ == chat_key_m(old(self)@, key, control).0,
            editor_effects_view(final(effects)@) == editor_effects_view(old(effects)@) + chat_key_m(
                old(self)@,
                key,
                control,
            ).1,
    {
        let ghost e0 = editor_effects_view(effects@);
        match key {
            TermKey::Esc => {
                self.chat_focused = false;
            },
            TermKey::Enter => {
                let input = chars_of(self.chat_input.as_str());
                if input.len() > 0 && !self.chat_pending {
                    let question = string_of(&input);
                    self.chat_input = String::new();
                    self.chat_pending = true;
                    emit_editor(effects, EditorEffect::SendChat(question));
                    return;
                }
            },
            TermKey::Backspace => {
                let mut input = chars_of(self.chat_input.as_str());
                if input.len() > 0 {
                    input.pop();
                }
                self.chat_input = string_of(&input);
            },
            TermKey::Char(c) => {
                if !control {
                    let mut input = chars_of(self.chat_input.as_str());
                    input.push(c);
                    self.chat_input = string_of(&input);
                }
            },
            _ => {},
        }
        assert(editor_effects_view(effects@) =~= e0 + Seq::<EditorEffectV>::empty());
    }

    /// One key of the editing session; `preview_cached` tells whether a
    /// rendered preview is at hand, `max_scroll` how far it scrolls.
    pub fn dispatch_key(
        &mut self,
        key: TermKey,
        control: bool,
        preview_cached: bool,
        max_scroll: u16,
        effects: &mut Vec<EditorEffect>,
    )
        ensures
            final(self)@ == editor_key_m(old(self)@, key, control, preview_cached, max_scroll).0,
            editor_effects_view(final(effects)@) == editor_effects_view(old(effects)@) + editor_key_m(
                old(self)@,
                key,
                control,
                preview_cached,
                max_scroll,
            ).1,
    {
        let ghost e0 = editor_effects_view(effects@);
        if key == TermKey::Char('g') && control {
            self.split_layout = next_layout(self.split_layout);
            emit_editor(effects, EditorEffect::Resize);
            if self.split_layout == SplitLayout::Vertical && !preview_cached {
                emit_editor(effects, EditorEffect::RenderPreview);
                assert(editor_effects_view(effects@) =~= e0 + seq![EditorEffectV::Resize, EditorEffectV::RenderPreview]);
            }
            return;
        }
        if self.split_layout == SplitLayout::Chat && self.chat_focused {
            self.chat_key(key, control, effects);
            return;
        }
        if key == TermKey::Char('t') && control {
            self.switch_layout(SplitLayout::Scribe, effects);
            let ghost e1 = editor_effects_view(effects@);
            emit_editor(effects, EditorEffect::CheckNow);
            assert(editor_effects_view(effects@) =~= e0 + switch_to(old(self)@, SplitLayout::Scribe).1.push(
                EditorEffectV::CheckNow,
            ));
            return;
        }
        if key == TermKey::Char('y') && control {
            self.switch_layout(SplitLayout::Chat, effects);
            self.chat_focused = true;
            return;
        }
        if key == TermKey::Char('f') && control && self.split_layout == SplitLayout::Vertical {
            emit_editor(effects, EditorEffect::FollowCursor);
            return;
        }
        if key == TermKey::Char('o') && control {
            emit_editor(effects, EditorEffect::OpenBrowser);
            return;
        }
        if key == TermKey::Char('j') && control && self.split_layout == SplitLayout::Vertical {
            let down: u16 = if self.preview_scroll <= u16::MAX - 3 {
                self.preview_scroll + 3
            } else {
                u16::MAX
            };
            self.preview_scroll = if down < max_scroll {
                down
            } else {
                max_scroll
            };
            assert(editor_effects_view(effects@) =~= e0 + Seq::<EditorEffectV>::empty());
            return;
        }
        if key == TermKey::Char('k') && control && self.split_layout == SplitLayout::Vertical {
            self.preview_scroll = if self.preview_scroll >= 3 {
                self.preview_scroll - 3
            } else {
                0
            };
            assert(editor_effects_view(effects@) =~= e0 + Seq::<EditorEffectV>::empty());
            return;
        }
        match key_to_bytes(key, control) {
            Some(b) => emit_editor(effects, EditorEffect::Forward(b)),
            None => {
                assert(editor_effects_view(effects@) =~= e0 + Seq::<EditorEffectV>::empty());
            },
        }
    }
}

/// The title of the HTML preview: the frontmatter's, else "Untitled".
pub open spec fn preview_title(content: Seq<char>) -> Seq<char> {
    match frontmatter_of("title"@, content) {
        Some(t) => t,
        None => "Untitled"@,
    }
}

/// The standalone HTML preview of an article: the article page rendered
/// from its template with `html_body` as the body, and the site's
/// stylesheet, minified, inlined in place of its link.
pub fn render_html_preview(content: &str, config: &HtmlPreviewConfig, html_body: &str) -> (r: String)
    ensures
        r@ == css_inlined(
            rendered(
                config.article_tpl@,
                preview_vars(content@, preview_title(content@), config.blog_config, html_body@),
            ),
            minified_css(config.css@),
        ),
{
    let title = match frontmatter("title", content) {
        Some(t) => t,
        None => String::from_str("Untitled"),
    };
    let html = render_preview_html(content, title.as_str(), &config.blog_config, config.article_tpl.as_str(), html_body);
    let css = minify_css(config.css.as_str());
    inline_css(html.as_str(), css.as_str())
}

/// The short name of a layout in the status bar.
pub open spec fn layout_label_text(l: SplitLayout) -> Seq<char> {
    match l {
        SplitLayout::Vertical => "|"@,
        SplitLayout::Scribe => "S"@,
        SplitLayout::Chat => "C"@,
        SplitLayout::EditorOnly => "[]"@,
    }
}

/// The status bar of a session: the layout and the keys that work in it
/// (`^O` only with a browser preview, scrolling only beside the preview).
pub open spec fn status_bar(l: SplitLayout, has_browser: bool) -> Seq<char> {
    " DevTUI ["@ + layout_label_text(l) + "] ^G:layout ^T:check ^Y:chat"@ + (if has_browser {
        " ^O:browser"@
    } else {
        Seq::empty()
    }) + (if l == SplitLayout::Vertical {
        " ^F:follow-cursor ^J/^K:scroll"@
    } else {
        Seq::empty()
    })
}

/// The status bar text of a session.
pub fn status_bar_text(layout: SplitLayout, has_browser: bool) -> (r: String)
    ensures
        r@ == status_bar(layout, has_browser),
{
    let mut out = chars_of(" DevTUI [");
    let label = match layout {
        SplitLayout::Vertical => "|",
        SplitLayout::Scribe => "S",
        SplitLayout::Chat => "C",
        SplitLayout::EditorOnly => "[]",
    };
    push_str(&mut out, label);
    push_str(&mut out, "] ^G:layout ^T:check ^Y:chat");
    let ghost head = out@;
    if has_browser {
        push_str(&mut out, " ^O:browser");
    } else {
        assert(out@ =~= head + Seq::<char>::empty());
    }
    let ghost mid = out@;
    if layout == SplitLayout::Vertical {
        push_str(&mut out, " ^F:follow-cursor ^J/^K:scroll");
    } else {
        assert(out@ =~= mid + Seq::<char>::empty());
    }
    string_of(&out)
}

/// Whether a post is a draft: its `status` frontmatter field reads `draft`,
/// ignoring ASCII case.
pub open spec fn is_draft_post(content: Seq<char>) -> bool {
    match fm_field(content, "status"@) {
        Some(v) => v.map_values(|c: char| ascii_lower(c)) == "draft"@,
        None => false,
    }
}

/// Whether the post `content` is a draft.
pub fn is_draft(content: &str) -> (r: bool)
    ensures
        r == is_draft_post(content@),
{
    proof {
        reveal_strlit("draft");
    }
    match frontmatter_field(content, "status") {
        None => false,
        Some(v) => {
            let cs = chars_of(v.as_str());
            let target = chars_of("draft");
            if cs.len() != target.len() {
                assert(cs@.map_values(|c: char| ascii_lower(c)).len() != "draft"@.len());
                return false;
            }
            assert(target@ =~= seq!['d', 'r', 'a', 'f', 't']);
            let mut i: usize = 0;
            while i < cs.len()
                invariant
                    i <= cs@.len() == target@.len(),
                    target@ == "draft"@,
                    target@ == seq!['d', 'r', 'a', 'f', 't'],
                    fm_field(content@, "status"@) == Some(cs@),
                    forall|k: int| 0 <= k < i ==> ascii_lower(cs@[k]) == target@[k],
                decreases cs@.len() - i,
            {
                let c = cs[i];
                let t = target[i];
                assert('a' <= t <= 'z');
                let same = c == t || c as u32 == (t as u32) - 32;
                assert(same == (ascii_lower(c) == t));
                if !same {
                    assert(cs@.map_values(|c: char| ascii_lower(c))[i as int] != "draft"@[i as int]);
                    return false;
                }
                i += 1;
            }
            assert(cs@.map_values(|c: char| ascii_lower(c)) =~= "draft"@);
            true
        },
    }
}

} // verus!
