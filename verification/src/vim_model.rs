use vstd::prelude::*;
use crate::buffer::{
    last_nl_before, line_end_of, line_len_of, line_span_end, line_start_of, nl_count, row_of, col_of,
    skip_blank_back, skip_blank_fwd, skip_spaces_fwd, skip_word_back, skip_word_fwd, toggled, undo_of, redo_of,
    word_last_fwd, HistState,
};
use crate::trusted::unicode_alphabetic;
use crate::vim::{
    block_rows, block_text, block_yank, case_switched, clamped_sel, command_action, command_message, count_of, counts,
    first_in, last_in, line_sel, plain_mode, plain_pending, strip_ranges, Action, Key, Mode, Pending,
};

verus! {

/// The editing state as plain values.
pub ghost struct VimView {
    pub mode: Mode,
    pub register: Seq<char>,
    pub visual_anchor: usize,
    pub command: Seq<char>,
    pub status: Seq<char>,
    pub pending: Option<Pending>,
    pub count: Seq<char>,
}

/// A buffer as the keys see it: text, cursor and undo and redo stacks,
/// with the modified flag.
pub type BufState = (HistState, bool);

/// The text of a buffer state.
pub open spec fn text(b: BufState) -> Seq<char> {
    b.0.0
}

/// The cursor of a buffer state.
pub open spec fn cur(b: BufState) -> int {
    b.0.1 as int
}

/// `b` with the cursor at `c`.
pub open spec fn moved_to(b: BufState, c: int) -> BufState {
    ((b.0.0, c as usize, b.0.2, b.0.3), b.1)
}

/// `b` changed to text `t` and cursor `c` in place (no undo point).
pub open spec fn changed_to(b: BufState, t: Seq<char>, c: int) -> BufState {
    ((t, c as usize, b.0.2, b.0.3), true)
}

/// `b` with an undo point for its text and cursor, then changed to text `t`
/// and cursor `c`; `changed` tells whether that marks the buffer modified.
pub open spec fn edited_to(b: BufState, t: Seq<char>, c: int, changed: bool) -> BufState {
    ((t, c as usize, b.0.2.push((b.0.0, b.0.1)), Seq::empty()), b.1 || changed)
}

/// `b` with an undo point and nothing else changed.
pub open spec fn snapped(b: BufState) -> BufState {
    edited_to(b, text(b), cur(b), false)
}

/// `b` after going back to its last undo point.
pub open spec fn undone(b: BufState) -> BufState {
    (undo_of(b.0), b.1 || b.0.2.len() > 0)
}

/// `b` after going forward to its last undone state.
pub open spec fn redone(b: BufState) -> BufState {
    (redo_of(b.0), b.1 || b.0.3.len() > 0)
}

// ---- cursor motions ----

/// The start of the line holding `c`.
pub open spec fn home_pos(s: Seq<char>, c: int) -> int {
    line_start_of(s, row_of(s, c))
}

/// The end (the newline, or the end of the text) of the line holding `c`.
pub open spec fn eol_pos(s: Seq<char>, c: int) -> int {
    line_end_of(s, row_of(s, c))
}

/// The last character of the line holding `c` (its start when empty).
pub open spec fn last_col_pos(s: Seq<char>, c: int) -> int {
    let row = row_of(s, c);
    if line_len_of(s, row) > 0 {
        line_end_of(s, row) - 1
    } else {
        line_end_of(s, row)
    }
}

/// The start of the last line.
pub open spec fn bottom_pos(s: Seq<char>) -> int {
    line_start_of(s, nl_count(s))
}

/// The same column `delta` rows away (clamped to the line's length); the
/// cursor stays when that row does not exist.
pub open spec fn rows_pos(s: Seq<char>, c: int, delta: int) -> int {
    let target = if row_of(s, c) + delta < 0 { 0 } else { row_of(s, c) + delta };
    if target >= nl_count(s) + 1 {
        c
    } else if col_of(s, c) <= line_len_of(s, target as nat) {
        line_start_of(s, target as nat) + col_of(s, c)
    } else {
        line_start_of(s, target as nat) + line_len_of(s, target as nat)
    }
}

/// A motion of normal and visual mode.
#[derive(PartialEq, Eq, Clone, Copy, Debug, Structural)]
pub enum Motion {
    Left,
    Right,
    Down,
    Up,
    WordForward,
    WordBackward,
    WordEnd,
}

/// Where one `m` moves the cursor from `c`.
pub open spec fn motion_pos(m: Motion, s: Seq<char>, c: int) -> int {
    match m {
        Motion::Left => if c > 0 && s[c - 1] != '\n' { c - 1 } else { c },
        Motion::Right => if c < s.len() && s[c] != '\n' { c + 1 } else { c },
        Motion::Down => rows_pos(s, c, 1),
        Motion::Up => rows_pos(s, c, -1),
        Motion::WordForward => skip_blank_fwd(s, skip_word_fwd(s, c)),
        Motion::WordBackward => {
            let p0 = if c > 0 { c - 1 } else { c };
            skip_word_back(s, skip_blank_back(s, p0))
        },
        Motion::WordEnd => {
            let p0 = if c < s.len() { c + 1 } else { c };
            let p = word_last_fwd(s, skip_blank_fwd(s, p0));
            if p < s.len() - 1 {
                p
            } else if s.len() > 0 {
                s.len() - 1
            } else {
                0
            }
        },
    }
}

/// Where `n` of `m` move the cursor from `c`.
pub open spec fn motion_n(m: Motion, s: Seq<char>, c: int, n: nat) -> int
    decreases n,
{
    if n == 0 {
        c
    } else {
        motion_pos(m, s, motion_n(m, s, c, (n - 1) as nat))
    }
}

/// Where `f`/`F`/`t`/`T` for `target` move the cursor: to the next (or,
/// backward, the previous) `target` on the line, before (after) it for
/// `t` (`T`); nowhere when there is none.
pub open spec fn find_pos(s: Seq<char>, c: int, target: char, forward: bool, til: bool) -> int {
    if forward {
        match first_in(s, target, c + 1, eol_pos(s, c)) {
            Some(p) => if til { p - 1 } else { p },
            None => c,
        }
    } else {
        match last_in(s, target, home_pos(s, c), c) {
            Some(p) => if til { p + 1 } else { p },
            None => c,
        }
    }
}

// ---- edits ----

/// The cursor after the character at `c` was removed, leaving `t`.
pub open spec fn after_removal(c: int, t: Seq<char>) -> int {
    if c >= t.len() && c > 0 { c - 1 } else { c }
}

/// An edit that a count repeats.
#[derive(PartialEq, Eq, Clone, Copy, Debug, Structural)]
pub enum Repeat {
    DeleteChar,
    ToggleCase,
    JoinLine,
}

/// One `e` at `c`: the new text and cursor, and whether the text changed.
pub open spec fn repeat_step(e: Repeat, s: Seq<char>, c: int) -> (Seq<char>, int, bool) {
    match e {
        Repeat::DeleteChar => if c < s.len() {
            let t = s.remove(c);
            (t, after_removal(c, t), true)
        } else {
            (s, c, false)
        },
        Repeat::ToggleCase => if c < s.len() {
            let t = if unicode_alphabetic(s[c]) { s.update(c, toggled(s[c])) } else { s };
            (t, if t[c] != '\n' { c + 1 } else { c }, unicode_alphabetic(s[c]))
        } else {
            (s, c, false)
        },
        Repeat::JoinLine => {
            let e = eol_pos(s, c);
            if e < s.len() {
                (s.take(e).push(' ') + s.skip(skip_spaces_fwd(s, e + 1)), e, true)
            } else {
                (s, c, false)
            }
        },
    }
}

/// `n` of `e` from `c`: the text and cursor, and whether any changed the text.
pub open spec fn repeat_n(e: Repeat, s: Seq<char>, c: int, n: nat) -> (Seq<char>, int, bool)
    decreases n,
{
    if n == 0 {
        (s, c, false)
    } else {
        let p = repeat_n(e, s, c, (n - 1) as nat);
        let q = repeat_step(e, p.0, p.1);
        (q.0, q.1, p.2 || q.2)
    }
}

/// The last character that `n` of `x` remove, if any does.
pub open spec fn x_last(s: Seq<char>, c: int, n: nat) -> Option<char>
    decreases n,
{
    if n == 0 {
        None
    } else {
        let p = repeat_n(Repeat::DeleteChar, s, c, (n - 1) as nat);
        if p.1 < p.0.len() {
            Some(p.0[p.1])
        } else {
            x_last(s, c, (n - 1) as nat)
        }
    }
}

/// The whole line holding `c` cut: the text, the cursor, what was cut.
pub open spec fn delete_line_m(s: Seq<char>, c: int) -> (Seq<char>, int, Seq<char>) {
    let st = home_pos(s, c);
    let en = line_span_end(s, c);
    let t = s.take(st) + s.skip(en);
    let c2 = if t.len() == 0 {
        0
    } else {
        let c1 = if st < t.len() - 1 { st } else { t.len() - 1 };
        last_nl_before(t, c1) + 1
    };
    (t, c2, s.subrange(st, en))
}

/// The characters `start..=end` cut (`end` clamped to the last one).
pub open spec fn delete_range_m(s: Seq<char>, start: int, end: int) -> (Seq<char>, int, Seq<char>) {
    let e = if end < s.len() - 1 { end } else { s.len() - 1 };
    let t = s.take(start) + s.skip(e + 1);
    let c2 = if t.len() == 0 {
        0
    } else if start < t.len() - 1 {
        start
    } else {
        t.len() - 1
    };
    (t, c2, s.subrange(start, e + 1))
}

/// `s` with its characters `from..to` removed.
pub open spec fn cut(s: Seq<char>, from: int, to: int) -> Seq<char> {
    s.take(from) + s.skip(to)
}

/// Where `p` puts `reg` and the cursor after it.
pub open spec fn paste_after_m(s: Seq<char>, c: int, reg: Seq<char>) -> (Seq<char>, int) {
    if reg.len() == 0 {
        (s, c)
    } else if reg.contains('\n') {
        let e = eol_pos(s, c);
        if e < s.len() {
            (s.take(e + 1) + reg + s.skip(e + 1), e + 1)
        } else {
            (s.push('\n') + reg, s.len() + 1int)
        }
    } else {
        let p = if c + 1 < s.len() { c + 1 } else { s.len() as int };
        (s.take(p) + reg + s.skip(p), p + reg.len() - 1)
    }
}

/// Where `P` puts `reg` and the cursor after it.
pub open spec fn paste_before_m(s: Seq<char>, c: int, reg: Seq<char>) -> (Seq<char>, int) {
    if reg.len() == 0 {
        (s, c)
    } else if reg.contains('\n') {
        let st = home_pos(s, c);
        (s.take(st) + reg + s.skip(st), st)
    } else {
        (s.take(c) + reg + s.skip(c), c + reg.len() - 1)
    }
}

// ---- normal mode ----

/// A normal-mode key that is neither part of a count nor completes a
/// pending command, repeated as the count says where it repeats.
pub open spec fn normal_command_m(v: VimView, b: BufState, key: Key) -> (VimView, BufState) {
    let n = count_of(v.count);
    let s = text(b);
    let c = cur(b);
    let v1 = VimView { count: Seq::empty(), mode: plain_mode(key), pending: plain_pending(key), ..v };
    match key {
        Key::Char('a') => (v1, moved_to(b, if c < s.len() && s[c] != '\n' { c + 1 } else { c })),
        Key::Char('A') => (v1, moved_to(b, eol_pos(s, c))),
        Key::Char('I') | Key::Char('0') | Key::Char('^') => (v1, moved_to(b, home_pos(s, c))),
        Key::Char('o') => (v1, edited_to(b, s.insert(eol_pos(s, c), '\n'), eol_pos(s, c) + 1, true)),
        Key::Char('O') => (v1, edited_to(b, s.insert(home_pos(s, c), '\n'), home_pos(s, c), true)),
        Key::Char('s') => if c < s.len() {
            let t = s.remove(c);
            (VimView { register: seq![s[c]], ..v1 }, edited_to(b, t, after_removal(c, t), true))
        } else {
            (v1, snapped(b))
        },
        Key::Char('S') => (
            VimView { register: s.subrange(home_pos(s, c), eol_pos(s, c)), ..v1 },
            edited_to(b, cut(s, home_pos(s, c), eol_pos(s, c)), home_pos(s, c), true),
        ),
        Key::Char('v') | Key::Char('V') => (VimView { visual_anchor: c as usize, ..v1 }, b),
        Key::Char(':') => (VimView { command: Seq::empty(), ..v1 }, b),
        Key::Char('h') | Key::Left => (v1, moved_to(b, motion_n(Motion::Left, s, c, n))),
        Key::Char('l') | Key::Right => (v1, moved_to(b, motion_n(Motion::Right, s, c, n))),
        Key::Char('j') | Key::Down => (v1, moved_to(b, motion_n(Motion::Down, s, c, n))),
        Key::Char('k') | Key::Up => (v1, moved_to(b, motion_n(Motion::Up, s, c, n))),
        Key::Char('w') => (v1, moved_to(b, motion_n(Motion::WordForward, s, c, n))),
        Key::Char('b') => (v1, moved_to(b, motion_n(Motion::WordBackward, s, c, n))),
        Key::Char('e') => (v1, moved_to(b, motion_n(Motion::WordEnd, s, c, n))),
        Key::Char('$') => (v1, moved_to(b, last_col_pos(s, c))),
        Key::Char('G') => (v1, moved_to(b, bottom_pos(s))),
        Key::Char('D') => if c >= eol_pos(s, c) {
            (VimView { register: Seq::empty(), ..v1 }, snapped(b))
        } else {
            let t = cut(s, c, eol_pos(s, c));
            (VimView { register: s.subrange(c, eol_pos(s, c)), ..v1 }, edited_to(b, t, if c > 0 && c >= t.len() { c - 1 } else { c }, true))
        },
        Key::Char('C') => if c >= eol_pos(s, c) {
            (VimView { register: Seq::empty(), ..v1 }, snapped(b))
        } else {
            (VimView { register: s.subrange(c, eol_pos(s, c)), ..v1 }, edited_to(b, cut(s, c, eol_pos(s, c)), c, true))
        },
        Key::Char('x') => {
            let r = repeat_n(Repeat::DeleteChar, s, c, n);
            let reg = match x_last(s, c, n) {
                Some(ch) => seq![ch],
                None => v.register,
            };
            (VimView { register: reg, ..v1 }, edited_to(b, r.0, r.1, r.2))
        },
        Key::Char('~') => {
            let r = repeat_n(Repeat::ToggleCase, s, c, n);
            (v1, edited_to(b, r.0, r.1, r.2))
        },
        Key::Char('J') => {
            let r = repeat_n(Repeat::JoinLine, s, c, n);
            (v1, edited_to(b, r.0, r.1, r.2))
        },
        Key::Char('p') => {
            let r = paste_after_m(s, c, v.register);
            (v1, edited_to(b, r.0, r.1, v.register.len() > 0))
        },
        Key::Char('P') => {
            let r = paste_before_m(s, c, v.register);
            (v1, edited_to(b, r.0, r.1, v.register.len() > 0))
        },
        Key::Char('u') => (
            VimView {
                status: if b.0.2.len() > 0 { "Undo"@ } else { "Already at oldest change"@ },
                ..v1
            },
            undone(b),
        ),
        _ => (v1, b),
    }
}

/// The mode an operator's change leaves: insert for `c`.
pub open spec fn op_mode(v: VimView, op: char) -> Mode {
    if op == 'c' { Mode::Insert } else { v.mode }
}

/// An operator (`op`) followed by its motion (`key`); the buffer gets an
/// undo point first, which an unknown motion takes back.
pub open spec fn operator_m(v: VimView, b: BufState, op: char, key: Key) -> (VimView, BufState) {
    let s = text(b);
    let c = cur(b);
    if op == 'd' && key == Key::Char('d') {
        let r = delete_line_m(s, c);
        (VimView { register: r.2, ..v }, edited_to(b, r.0, r.1, true))
    } else if op == 'c' && key == Key::Char('c') {
        (
            VimView { register: s.subrange(home_pos(s, c), eol_pos(s, c)), mode: Mode::Insert, ..v },
            edited_to(b, cut(s, home_pos(s, c), eol_pos(s, c)), home_pos(s, c), true),
        )
    } else if op == 'y' && key == Key::Char('y') {
        (
            VimView { register: s.subrange(home_pos(s, c), line_span_end(s, c)), status: "1 line yanked"@, ..v },
            snapped(b),
        )
    } else {
        match key {
            Key::Char('w') => if op == 'c' {
                let e = skip_word_fwd(s, c);
                if c >= e {
                    (VimView { register: Seq::empty(), mode: Mode::Insert, ..v }, snapped(b))
                } else {
                    (VimView { register: s.subrange(c, e), mode: Mode::Insert, ..v }, edited_to(b, cut(s, c, e), c, true))
                }
            } else {
                let e = skip_spaces_fwd(s, skip_word_fwd(s, c));
                let t = cut(s, c, e);
                let removed = if c >= e { Seq::<char>::empty() } else { s.subrange(c, e) };
                let after = if c >= e { snapped(b) } else { edited_to(b, t, after_removal(c, t), true) };
                if op == 'y' {
                    (VimView { register: removed, status: "yanked"@, ..v }, undone(after))
                } else {
                    (VimView { register: removed, ..v }, after)
                }
            },
            Key::Char('e') => {
                let end = motion_pos(Motion::WordEnd, s, c);
                if end < c {
                    (v, snapped(b))
                } else if op == 'y' {
                    (VimView { register: s.subrange(c, end + 1), status: "yanked"@, ..v }, snapped(b))
                } else {
                    let r = delete_range_m(s, c, end);
                    (VimView { register: r.2, mode: op_mode(v, op), ..v }, edited_to(b, r.0, r.1, true))
                }
            },
            Key::Char('$') => {
                let e = eol_pos(s, c);
                if op == 'y' {
                    (VimView { register: if c < e { s.subrange(c, e) } else { v.register }, status: "yanked"@, ..v }, snapped(b))
                } else if c >= e {
                    (VimView { register: Seq::empty(), mode: op_mode(v, op), ..v }, snapped(b))
                } else if op == 'c' {
                    (VimView { register: s.subrange(c, e), mode: Mode::Insert, ..v }, edited_to(b, cut(s, c, e), c, true))
                } else {
                    let t = cut(s, c, e);
                    (VimView { register: s.subrange(c, e), ..v }, edited_to(b, t, if c > 0 && c >= t.len() { c - 1 } else { c }, true))
                }
            },
            Key::Char('0') => {
                let st = home_pos(s, c);
                if op == 'y' {
                    (VimView { register: if st < c { s.subrange(st, c) } else { v.register }, status: "yanked"@, ..v }, snapped(b))
                } else if c <= st {
                    (VimView { register: Seq::empty(), mode: op_mode(v, op), ..v }, snapped(b))
                } else {
                    (VimView { register: s.subrange(st, c), mode: op_mode(v, op), ..v }, edited_to(b, cut(s, st, c), st, true))
                }
            },
            Key::Char('b') => {
                let start = motion_pos(Motion::WordBackward, s, c);
                if start >= c {
                    (v, moved_to(snapped(b), start))
                } else if op == 'y' {
                    (VimView { register: s.subrange(start, c), status: "yanked"@, ..v }, snapped(b))
                } else {
                    let r = delete_range_m(s, start, c - 1);
                    (VimView { register: r.2, mode: op_mode(v, op), ..v }, edited_to(b, r.0, r.1, true))
                }
            },
            Key::Char('G') => {
                let st = home_pos(s, c);
                if op == 'y' {
                    (VimView { register: s.subrange(st, s.len() as int), status: "yanked"@, ..v }, snapped(b))
                } else {
                    let r = delete_range_m(s, st, s.len() - 1);
                    (VimView { register: r.2, mode: op_mode(v, op), ..v }, edited_to(b, r.0, r.1, true))
                }
            },
            Key::Char('g') => {
                let e = eol_pos(s, c);
                let end = if e < s.len() { e } else { s.len() - 1 };
                if op == 'y' {
                    (VimView { register: s.subrange(0, end + 1), status: "yanked"@, ..v }, snapped(b))
                } else {
                    let r = delete_range_m(s, 0, end);
                    (VimView { register: r.2, mode: op_mode(v, op), ..v }, edited_to(b, r.0, r.1, true))
                }
            },
            _ => (v, undone(snapped(b))),
        }
    }
}

/// The key that completes a pending command.
pub open spec fn pending_m(v: VimView, b: BufState, p: Pending, key: Key) -> (VimView, BufState) {
    let s = text(b);
    let c = cur(b);
    match p {
        Pending::Operator(op) => operator_m(v, b, op, key),
        Pending::G => if key == Key::Char('g') { (v, moved_to(b, 0)) } else { (v, b) },
        Pending::Replace => match key {
            Key::Char(ch) => if c < s.len() && s[c] != '\n' {
                (v, edited_to(b, s.update(c, ch), c, true))
            } else {
                (v, snapped(b))
            },
            _ => (v, b),
        },
        Pending::FindForward => match key {
            Key::Char(t) => (v, moved_to(b, find_pos(s, c, t, true, false))),
            _ => (v, b),
        },
        Pending::FindBackward => match key {
            Key::Char(t) => (v, moved_to(b, find_pos(s, c, t, false, false))),
            _ => (v, b),
        },
        Pending::TilForward => match key {
            Key::Char(t) => (v, moved_to(b, find_pos(s, c, t, true, true))),
            _ => (v, b),
        },
        Pending::TilBackward => match key {
            Key::Char(t) => (v, moved_to(b, find_pos(s, c, t, false, true))),
            _ => (v, b),
        },
    }
}

/// A key in normal mode, `control` telling whether Ctrl was held: Ctrl+D
/// and Ctrl+U move ten rows, Ctrl+R redoes, Ctrl+V starts a block
/// selection; otherwise the key completes a pending command, adds to the
/// count, or is a command of its own.
pub open spec fn normal_key_m(v: VimView, b: BufState, key: Key, control: bool) -> (VimView, BufState) {
    let s = text(b);
    let c = cur(b);
    if control {
        match key {
            Key::Char('d') => (VimView { pending: None, ..v }, moved_to(b, motion_n(Motion::Down, s, c, 10))),
            Key::Char('u') => (VimView { pending: None, ..v }, moved_to(b, motion_n(Motion::Up, s, c, 10))),
            Key::Char('r') => (
                VimView { status: if b.0.3.len() > 0 { "Redo"@ } else { v.status }, ..v },
                redone(b),
            ),
            Key::Char('v') => (VimView { mode: Mode::VisualBlock, visual_anchor: c as usize, ..v }, b),
            _ => (v, b),
        }
    } else {
        match v.pending {
            Some(p) => pending_m(VimView { pending: None, ..v }, b, p, key),
            None => if counts(key, v.count) {
                (VimView { count: v.count.push(key->Char_0), ..v }, b)
            } else {
                normal_command_m(v, b, key)
            },
        }
    }
}

// ---- insert, visual and command modes ----

/// Leaving insert mode: the cursor one left unless at the start of a line.
pub open spec fn to_normal_m(v: VimView, b: BufState) -> (VimView, BufState) {
    (
        VimView { mode: Mode::Normal, pending: None, count: Seq::empty(), ..v },
        moved_to(b, motion_pos(Motion::Left, text(b), cur(b))),
    )
}

/// Esc (or Ctrl+[) in any mode.
pub open spec fn escape_m(v: VimView, b: BufState) -> (VimView, BufState) {
    match v.mode {
        Mode::Insert => to_normal_m(v, b),
        Mode::Normal => (VimView { pending: None, count: Seq::empty(), ..v }, b),
        _ => (VimView { mode: Mode::Normal, command: Seq::empty(), pending: None, count: Seq::empty(), ..v }, b),
    }
}

/// A key in insert mode.
pub open spec fn insert_m(v: VimView, b: BufState, key: Key) -> (VimView, BufState) {
    let s = text(b);
    let c = cur(b);
    match key {
        Key::Esc => to_normal_m(v, b),
        Key::Char(ch) => (v, changed_to(b, s.insert(c, ch), c + 1)),
        Key::Enter => (v, changed_to(b, s.insert(c, '\n'), c + 1)),
        Key::Backspace => if c > 0 { (v, changed_to(b, s.remove(c - 1), c - 1)) } else { (v, b) },
        Key::Left => (v, moved_to(b, if c > 0 { c - 1 } else { 0 })),
        Key::Right => (v, moved_to(b, if c < s.len() { c + 1 } else { c })),
        Key::Up => (v, moved_to(b, rows_pos(s, c, -1))),
        Key::Down => (v, moved_to(b, rows_pos(s, c, 1))),
        Key::Other => (v, b),
    }
}

/// Ctrl+D and Ctrl+U in the visual modes; other Ctrl keys do nothing there.
pub open spec fn visual_control_m(v: VimView, b: BufState, key: Key) -> (VimView, BufState) {
    if key == Key::Char('d') {
        (v, moved_to(b, motion_n(Motion::Down, text(b), cur(b), 10)))
    } else if key == Key::Char('u') {
        (v, moved_to(b, motion_n(Motion::Up, text(b), cur(b), 10)))
    } else {
        (v, b)
    }
}

/// A key in visual mode: motions move the cursor (extending the
/// selection); `d`/`x`/`c` cut the selection, `y` copies it, `~` switches
/// its case and `J` joins its first line with the next.
pub open spec fn visual_m(v: VimView, b: BufState, key: Key, control: bool) -> (VimView, BufState) {
    let s = text(b);
    let c = cur(b);
    let a = v.visual_anchor as int;
    let start = if a < c { a } else { c };
    let end = if a < c { c } else { a };
    let sel = clamped_sel(a, c, s.len() as int);
    let normal = VimView { mode: Mode::Normal, ..v };
    if control {
        visual_control_m(v, b, key)
    } else {
        match key {
            Key::Esc => (normal, b),
            Key::Char('h') | Key::Left => (v, moved_to(b, motion_pos(Motion::Left, s, c))),
            Key::Char('l') | Key::Right => (v, moved_to(b, motion_pos(Motion::Right, s, c))),
            Key::Char('j') | Key::Down => (v, moved_to(b, motion_pos(Motion::Down, s, c))),
            Key::Char('k') | Key::Up => (v, moved_to(b, motion_pos(Motion::Up, s, c))),
            Key::Char('w') => (v, moved_to(b, motion_pos(Motion::WordForward, s, c))),
            Key::Char('b') => (v, moved_to(b, motion_pos(Motion::WordBackward, s, c))),
            Key::Char('e') => (v, moved_to(b, motion_pos(Motion::WordEnd, s, c))),
            Key::Char('0') => (v, moved_to(b, home_pos(s, c))),
            Key::Char('$') => (v, moved_to(b, last_col_pos(s, c))),
            Key::Char('G') => (v, moved_to(b, bottom_pos(s))),
            Key::Char('g') => (v, moved_to(b, 0)),
            Key::Char('d') | Key::Char('x') | Key::Char('c') => {
                let r = delete_range_m(s, start, end);
                (
                    VimView { register: r.2, mode: if key == Key::Char('c') { Mode::Insert } else { Mode::Normal }, ..v },
                    edited_to(b, r.0, r.1, true),
                )
            },
            Key::Char('y') => (
                VimView { register: s.subrange(sel.0, sel.1 + 1), status: "yanked"@, ..normal },
                moved_to(b, sel.0),
            ),
            Key::Char('~') => (normal, edited_to(b, case_switched(s, sel.0, sel.1), sel.0, true)),
            Key::Char('J') => {
                let r = repeat_step(Repeat::JoinLine, s, start);
                (normal, edited_to(b, r.0, r.1, r.2))
            },
            _ => (v, b),
        }
    }
}

/// A key in visual line mode: `j`/`k`/`G`/`g` move the cursor; `d`/`x`/`c`
/// cut the selected lines, `y` copies them.
pub open spec fn visual_line_m(v: VimView, b: BufState, key: Key, control: bool) -> (VimView, BufState) {
    let s = text(b);
    let c = cur(b);
    let sel = line_sel(s, v.visual_anchor as int, c);
    let stop = if sel.1 < s.len() - 1 { sel.1 } else { s.len() - 1 };
    if control {
        visual_control_m(v, b, key)
    } else {
        match key {
            Key::Esc => (VimView { mode: Mode::Normal, ..v }, b),
            Key::Char('j') | Key::Down => (v, moved_to(b, motion_pos(Motion::Down, s, c))),
            Key::Char('k') | Key::Up => (v, moved_to(b, motion_pos(Motion::Up, s, c))),
            Key::Char('G') => (v, moved_to(b, bottom_pos(s))),
            Key::Char('g') => (v, moved_to(b, 0)),
            Key::Char('d') | Key::Char('x') | Key::Char('c') => {
                let r = delete_range_m(s, sel.0, sel.1);
                (
                    VimView { register: r.2, mode: if key == Key::Char('c') { Mode::Insert } else { Mode::Normal }, ..v },
                    edited_to(b, r.0, r.1, true),
                )
            },
            Key::Char('y') => (
                VimView { register: s.subrange(sel.0, stop + 1), status: "yanked"@, mode: Mode::Normal, ..v },
                moved_to(b, sel.0),
            ),
            _ => (v, b),
        }
    }
}

/// The rows of the block between the anchor `a` and the cursor `c`.
pub open spec fn block_of(s: Seq<char>, a: int, c: int) -> Seq<(usize, usize)> {
    let ar = row_of(s, a) as int;
    let cr = row_of(s, c) as int;
    let ac = col_of(s, a);
    let cc = col_of(s, c);
    block_rows(
        s,
        if ar < cr { ar } else { cr },
        if ar < cr { cr } else { ar },
        if ac < cc { ac } else { cc },
        if ac < cc { cc } else { ac },
    )
}

/// A key in visual block mode: `h`/`j`/`k`/`l` move the cursor; `d`/`x`
/// cut the block, `y` copies it.
pub open spec fn visual_block_m(v: VimView, b: BufState, key: Key, control: bool) -> (VimView, BufState) {
    let s = text(b);
    let c = cur(b);
    let ranges = block_of(s, v.visual_anchor as int, c);
    if control {
        visual_control_m(v, b, key)
    } else {
        match key {
            Key::Esc => (VimView { mode: Mode::Normal, ..v }, b),
            Key::Char('h') | Key::Left => (v, moved_to(b, motion_pos(Motion::Left, s, c))),
            Key::Char('l') | Key::Right => (v, moved_to(b, motion_pos(Motion::Right, s, c))),
            Key::Char('j') | Key::Down => (v, moved_to(b, motion_pos(Motion::Down, s, c))),
            Key::Char('k') | Key::Up => (v, moved_to(b, motion_pos(Motion::Up, s, c))),
            Key::Char('d') | Key::Char('x') => {
                let t = strip_ranges(s, ranges, 0);
                let cap = if t.len() > 0 { t.len() - 1 } else { 0 };
                (
                    VimView { register: block_text(s, ranges, 0), mode: Mode::Normal, ..v },
                    edited_to(b, t, if c > cap { cap } else { c }, true),
                )
            },
            Key::Char('y') => (
                VimView { register: block_yank(s, ranges, 0), status: "block yanked"@, mode: Mode::Normal, ..v },
                b,
            ),
            _ => (v, b),
        }
    }
}

/// A key in command mode, and what the caller is asked to do.
pub open spec fn command_m(v: VimView, dirty: bool, key: Key) -> (VimView, Action) {
    match key {
        Key::Esc => (VimView { mode: Mode::Normal, command: Seq::empty(), ..v }, Action::Continue),
        Key::Enter => (
            VimView {
                mode: Mode::Normal,
                command: Seq::empty(),
                status: match command_message(v.command, dirty) {
                    Some(m) => m,
                    None => v.status,
                },
                ..v
            },
            command_action(v.command, dirty),
        ),
        Key::Backspace => if v.command.len() == 0 {
            (VimView { mode: Mode::Normal, ..v }, Action::Continue)
        } else {
            (VimView { command: v.command.drop_last(), ..v }, Action::Continue)
        },
        Key::Char(ch) => (VimView { command: v.command.push(ch), ..v }, Action::Continue),
        _ => (v, Action::Continue),
    }
}

/// One key, `control` telling whether Ctrl (and nothing else) was held:
/// the editing state and buffer it leaves, and what the caller is asked to
/// do. Ctrl+C quits and Ctrl+[ acts as Esc in every mode.
pub open spec fn key_m(v: VimView, b: BufState, key: Key, control: bool) -> (VimView, BufState, Action) {
    if control && key == Key::Char('c') {
        (v, b, Action::Quit)
    } else if control && key == Key::Char('[') {
        let r = escape_m(v, b);
        (r.0, r.1, Action::Continue)
    } else {
        match v.mode {
            Mode::Normal => {
                let r = normal_key_m(v, b, key, control);
                (r.0, r.1, Action::Continue)
            },
            Mode::Insert => {
                let r = insert_m(v, b, key);
                (r.0, r.1, Action::Continue)
            },
            Mode::Visual => {
                let r = visual_m(v, b, key, control);
                (r.0, r.1, Action::Continue)
            },
            Mode::VisualLine => {
                let r = visual_line_m(v, b, key, control);
                (r.0, r.1, Action::Continue)
            },
            Mode::VisualBlock => {
                let r = visual_block_m(v, b, key, control);
                (r.0, r.1, Action::Continue)
            },
            Mode::Command => {
                let r = command_m(v, b.1, key);
                (r.0, b, r.1)
            },
        }
    }
}

/// The word-back motion (`b`, and the range `db` deletes) ends at the start
/// of a word: the first position, or one that follows a space or newline
/// and holds neither; before the cursor unless the cursor is at the start,
/// with no word starting in between.
pub proof fn law_word_back_motion_lands_on_word_start(s: Seq<char>, c: int)
    requires
        0 <= c <= s.len(),
    ensures
        ({
            let p = motion_pos(Motion::WordBackward, s, c);
            &&& 0 <= p <= c
            &&& c > 0 ==> p < c
            &&& p > 0 ==> crate::buffer::is_blank(s[p - 1]) && !crate::buffer::is_blank(s[p])
            &&& forall|j: int| p < j < c ==> !(crate::buffer::is_blank(s[j - 1]) && !crate::buffer::is_blank(#[trigger] s[j]))
        }),
{
    crate::buffer::law_word_backward_lands_on_previous_word_start(s, c);
}

/// Esc, in every mode and state, leaves the editor in normal mode.
pub proof fn law_escape_returns_to_normal(v: VimView, b: BufState)
    ensures
        key_m(v, b, Key::Esc, false).0.mode == Mode::Normal,
        key_m(v, b, Key::Esc, false).2 == Action::Continue,
{
}

/// Ctrl+C quits and changes nothing, in every mode and state.
pub proof fn law_control_c_quits(v: VimView, b: BufState)
    ensures
        key_m(v, b, Key::Char('c'), true) == (v, b, Action::Quit),
{
}

/// In normal mode with nothing pending, `u` right after `x`, `D`, `~`,
/// `J`, `p` or `P` gives back the text as it was before that command.
pub proof fn law_undo_after_edit(v: VimView, b: BufState, key: Key)
    requires
        v.mode == Mode::Normal,
        v.pending is None,
        key == Key::Char('x') || key == Key::Char('D') || key == Key::Char('~') || key == Key::Char('J')
            || key == Key::Char('p') || key == Key::Char('P'),
    ensures
        ({
            let after = key_m(v, b, key, false);
            let undone = key_m(after.0, after.1, Key::Char('u'), false);
            &&& after.0.mode == Mode::Normal
            &&& text(undone.1) == text(b)
            &&& undone.0.mode == Mode::Normal
        }),
{
    let after = key_m(v, b, key, false);
    assert(!counts(key, v.count));
    assert(after.0.pending is None && after.0.count.len() == 0);
    assert(!counts(Key::Char('u'), after.0.count));
    assert(after.1.0.2.len() > 0);
}

/// Copying the selection in visual mode (`y`) leaves the text as it is.
pub proof fn law_visual_yank_keeps_text(v: VimView, b: BufState)
    requires
        v.mode == Mode::Visual || v.mode == Mode::VisualLine || v.mode == Mode::VisualBlock,
    ensures
        text(key_m(v, b, Key::Char('y'), false).1) == text(b),
        key_m(v, b, Key::Char('y'), false).0.mode == Mode::Normal,
{
}

} // verus!
