use vstd::prelude::*;
use crate::buffer::{
    col_of, line_end_of, line_len_of, line_start_of, moved_only, nl_count, row_of, same_history, take_range,
    Buffer,
};
use crate::text::{chars_of, string_of, push_str, trim, trim_ws};
use crate::vim_model::{
    command_m, escape_m, insert_m, key_m, motion_n, motion_pos, normal_command_m, normal_key_m, operator_m,
    repeat_n, rows_pos, to_normal_m, visual_block_m, visual_line_m, visual_m, x_last, BufState, Motion, Repeat,
    VimView,
};
use crate::trusted::{
    is_lowercase, is_uppercase, lowercase_head, to_lowercase_head, to_uppercase_head, unicode_lowercase,
    unicode_uppercase, uppercase_head,
};

verus! {

/// Editing mode.
#[derive(PartialEq, Eq, Clone, Copy, Debug, Structural)]
pub enum Mode {
    Normal,
    Insert,
    Visual,
    VisualLine,
    VisualBlock,
    Command,
}

/// What the caller does after a key: go on, quit, or save the buffer (and
/// then quit when asked) and report the outcome through `save_done`.
#[derive(PartialEq, Eq, Clone, Copy, Debug, Structural)]
pub enum Action {
    Continue,
    Quit,
    Save,
    SaveAndQuit,
}

/// A key as the editor reads it.
#[derive(PartialEq, Eq, Clone, Copy, Debug, Structural)]
pub enum Key {
    Char(char),
    Esc,
    Enter,
    Backspace,
    Left,
    Right,
    Up,
    Down,
    Other,
}

/// A command waiting for its next key.
#[derive(PartialEq, Eq, Clone, Copy, Debug, Structural)]
pub enum Pending {
    /// `d`, `c` or `y` waiting for a motion.
    Operator(char),
    /// `g` waiting for the second `g`.
    G,
    /// `r` waiting for the replacement.
    Replace,
    /// `f` waiting for a character.
    FindForward,
    /// `F` waiting for a character.
    FindBackward,
    /// `t` waiting for a character.
    TilForward,
    /// `T` waiting for a character.
    TilBackward,
}

/// The modal editing state.
pub struct Vim {
    pub mode: Mode,
    pub register: Vec<char>,
    pub visual_anchor: usize,
    pub command_buf: String,
    pub status_msg: String,
    pub pending: Option<Pending>,
    pub count_buf: String,
}

impl View for Vim {
    type V = VimView;

    open spec fn view(&self) -> VimView {
        VimView {
            mode: self.mode,
            register: self.register@,
            visual_anchor: self.visual_anchor,
            command: self.command_buf@,
            status: self.status_msg@,
            pending: self.pending,
            count: self.count_buf@,
        }
    }
}

/// A buffer as the keys see it.
pub open spec fn buf_state(b: Buffer) -> BufState {
    (b.hist(), b.dirty)
}

/// What a key leaves of the buffer besides text, cursor, history and the
/// modified flag: scroll position and path.
pub open spec fn same_frame(a: Buffer, b: Buffer) -> bool {
    a.scroll_offset == b.scroll_offset && a.file_path == b.file_path
}

/// The largest text, and register, the editor works on: `i32::MAX - 1`
/// characters. This is a machine limit: rows are moved as `i32` (the row
/// number is converted to `i32` and a row added or taken), so the row
/// numbers of the text and one row further must fit in an `i32`.
pub open spec fn size_limit() -> int {
    0x7fff_fffe
}

/// Whether `m` is one of the visual modes.
pub open spec fn is_visual(m: Mode) -> bool {
    m == Mode::Visual || m == Mode::VisualLine || m == Mode::VisualBlock
}

/// Whether every character of `s` is a decimal digit.
pub open spec fn all_digits(s: Seq<char>) -> bool {
    forall|i: int| 0 <= i < s.len() ==> '0' <= #[trigger] s[i] <= '9'
}

/// The value of the decimal digits `s`.
pub open spec fn digits_value(s: Seq<char>) -> nat
    decreases s.len(),
{
    if s.len() == 0 {
        0
    } else {
        digits_value(s.drop_last()) * 10 + ((s.last() as u32) - ('0' as u32)) as nat
    }
}

/// The repeat count typed before a command: 1 when none was typed or the
/// number does not fit in a machine word.
pub open spec fn count_of(s: Seq<char>) -> nat {
    if s.len() == 0 || digits_value(s) > usize::MAX {
        1
    } else {
        digits_value(s)
    }
}

/// The state a key may be handled in: the cursor and the visual anchor lie
/// in the text, text and register are below the size limit, and the count
/// holds digits only.
pub open spec fn ready(v: Vim, b: Buffer) -> bool {
    &&& b.cursor <= b.chars@.len()
    &&& b.chars@.len() <= size_limit()
    &&& v.register@.len() <= size_limit()
    &&& (is_visual(v.mode) ==> v.visual_anchor <= b.chars@.len())
    &&& all_digits(v.count_buf@)
}

/// What a key leaves behind: the cursor and the visual anchor lie in the
/// text and the count holds digits only.
pub open spec fn settled(v: Vim, b: Buffer) -> bool {
    &&& b.cursor <= b.chars@.len()
    &&& (is_visual(v.mode) ==> v.visual_anchor <= b.chars@.len())
    &&& all_digits(v.count_buf@)
}

impl Vim {
    pub fn new() -> (r: Self)
        ensures
            r.mode == Mode::Normal,
            r.register@.len() == 0,
            r.visual_anchor == 0,
            r.command_buf@.len() == 0,
            r.status_msg@.len() == 0,
            r.pending is None,
            r.count_buf@.len() == 0,
    {
        Vim {
            mode: Mode::Normal,
            register: Vec::new(),
            visual_anchor: 0,
            command_buf: String::new(),
            status_msg: String::new(),
            pending: None,
            count_buf: String::new(),
        }
    }

    /// The typed count (1 when none), which is then cleared.
    fn take_count(&mut self) -> (n: usize)
        requires
            all_digits(old(self).count_buf@),
        ensures
            n == count_of(old(self).count_buf@),
            final(self).count_buf@.len() == 0,
            final(self).mode == old(self).mode,
            final(self).register == old(self).register,
            final(self).visual_anchor == old(self).visual_anchor,
            final(self).pending == old(self).pending,
            final(self).status_msg == old(self).status_msg,
            final(self).command_buf == old(self).command_buf,
    {
        let ds = chars_of(self.count_buf.as_str());
        let mut value: usize = 0;
        let mut overflow = false;
        let mut i: usize = 0;
        while i < ds.len()
            invariant
                i <= ds@.len(),
                ds@ == self.count_buf@,
                all_digits(ds@),
                !overflow ==> value == digits_value(ds@.take(i as int)),
                overflow ==> digits_value(ds@.take(i as int)) > usize::MAX,
            decreases ds@.len() - i,
        {
            assert(ds@.take(i + 1).drop_last() =~= ds@.take(i as int));
            let d = (ds[i] as u32 - '0' as u32) as usize;
            proof {
                assert('0' <= ds@[i as int] <= '9');
            }
            if !overflow {
                match value.checked_mul(10) {
                    Some(t) => match t.checked_add(d) {
                        Some(u) => {
                            value = u;
                        },
                        None => {
                            overflow = true;
                        },
                    },
                    None => {
                        overflow = true;
                    },
                }
            } else {
                proof {
                    let p = digits_value(ds@.take(i as int));
                    assert(p * 10 >= p) by (nonlinear_arith)
                        requires
                            p >= 0,
                    ;
                }
            }
            i += 1;
        }
        assert(ds@.take(i as int) =~= ds@);
        self.count_buf = String::new();
        if overflow || ds.len() == 0 {
            1
        } else {
            value
        }
    }

    /// Leaves insert mode: back to normal mode, with the cursor moved one
    /// left unless it is at the start of a line.
    fn to_normal(&mut self, buf: &mut Buffer)
        requires
            old(buf).cursor <= old(buf).chars@.len(),
        ensures
            (final(self)@, buf_state(*final(buf))) == to_normal_m(old(self)@, buf_state(*old(buf))),
            moved_only(*old(buf), *final(buf)),
            final(buf).cursor <= final(buf).chars@.len(),
    {
        self.mode = Mode::Normal;
        self.pending = None;
        self.count_buf = String::new();
        if buf.cursor > 0 && buf.char_at(buf.cursor - 1) != Some('\n') {
            buf.cursor -= 1;
        }
    }

    /// Esc: leaves insert mode as `to_normal` does; leaves visual and command
    /// modes, dropping the command line; drops a pending command and count.
    fn escape(&mut self, buf: &mut Buffer)
        requires
            old(buf).cursor <= old(buf).chars@.len(),
        ensures
            (final(self)@, buf_state(*final(buf))) == escape_m(old(self)@, buf_state(*old(buf))),
            same_frame(*old(buf), *final(buf)),
            final(buf).cursor <= final(buf).chars@.len(),
    {
        match self.mode {
            Mode::Insert => self.to_normal(buf),
            Mode::Visual | Mode::VisualLine | Mode::VisualBlock | Mode::Command => {
                self.mode = Mode::Normal;
                self.command_buf = String::new();
                self.pending = None;
                self.count_buf = String::new();
            },
            Mode::Normal => {
                self.pending = None;
                self.count_buf = String::new();
            },
        }
    }

    /// `f`/`t`: jumps to the next `target` on the cursor's line (`t`: to the
    /// position before it); stays when there is none.
    fn find_char_forward(&self, target: char, buf: &mut Buffer, til: bool)
        requires
            old(buf).cursor <= old(buf).chars@.len() <= size_limit(),
        ensures
            moved_only(*old(buf), *final(buf)),
            final(buf).cursor <= final(buf).chars@.len(),
            ({
                let s = old(buf).chars@;
                let c = old(buf).cursor as int;
                let end = line_end_of(s, row_of(s, c));
                match first_in(s, target, c + 1, end) {
                    Some(p) => final(buf).cursor == if til { p - 1 } else { p },
                    None => final(buf).cursor == c,
                }
            }),
    {
        let ghost s = buf.chars@;
        let row = buf.cursor_row();
        proof {
            crate::buffer::lemma_line_bounds(s, row as nat);
        }
        let n = buf.chars.len();
        let ls = buf.line_start(row);
        let ll = buf.line_len(row);
        assert(ls + ll <= n);
        let line_end = ls + ll;
        let mut pos = buf.cursor + 1;
        while pos < line_end
            invariant
                buf.chars@ == s,
                *buf == *old(buf),
                old(buf).cursor + 1 <= pos,
                line_end <= s.len(),
                line_end == line_end_of(s, row_of(s, old(buf).cursor as int)),
                first_in(s, target, pos as int, line_end as int) == first_in(s, target, old(buf).cursor + 1, line_end as int),
            decreases line_end - pos,
        {
            if buf.chars[pos] == target {
                buf.cursor = if til { pos - 1 } else { pos };
                return;
            }
            pos += 1;
        }
    }

    /// `F`/`T`: jumps to the previous `target` on the cursor's line (`T`: to
    /// the position after it); stays when there is none.
    fn find_char_backward(&self, target: char, buf: &mut Buffer, til: bool)
        requires
            old(buf).cursor <= old(buf).chars@.len(),
        ensures
            moved_only(*old(buf), *final(buf)),
            final(buf).cursor <= final(buf).chars@.len(),
            ({
                let s = old(buf).chars@;
                let c = old(buf).cursor as int;
                let start = line_start_of(s, row_of(s, c));
                match last_in(s, target, start, c) {
                    Some(p) => final(buf).cursor == if til { p + 1 } else { p },
                    None => final(buf).cursor == c,
                }
            }),
    {
        let ghost s = buf.chars@;
        let row = buf.cursor_row();
        proof {
            crate::buffer::lemma_pos_in_row(s, buf.cursor as int);
        }
        let line_start = buf.line_start(row);
        if buf.cursor <= line_start {
            return;
        }
        let mut pos = buf.cursor;
        while pos > line_start
            invariant
                buf.chars@ == s,
                *buf == *old(buf),
                line_start <= pos <= old(buf).cursor <= s.len(),
                line_start == line_start_of(s, row_of(s, old(buf).cursor as int)),
                last_in(s, target, line_start as int, pos as int) == last_in(s, target, line_start as int, old(buf).cursor as int),
            decreases pos,
        {
            if buf.chars[pos - 1] == target {
                buf.cursor = if til { pos } else { pos - 1 };
                return;
            }
            pos -= 1;
        }
    }
}

impl Vim {
    /// Insert mode: characters and Enter are inserted, Backspace deletes,
    /// arrows move, Esc goes back to normal mode.
    fn handle_insert(&mut self, key: Key, buf: &mut Buffer)
        requires
            old(buf).cursor <= old(buf).chars@.len() <= size_limit(),
        ensures
            final(buf).cursor <= final(buf).chars@.len(),
            (final(self)@, buf_state(*final(buf))) == insert_m(old(self)@, buf_state(*old(buf)), key),
            same_frame(*old(buf), *final(buf)),
    {
        match key {
            Key::Esc => self.to_normal(buf),
            Key::Char(c) => buf.insert_char(c),
            Key::Enter => buf.insert_char('\n'),
            Key::Backspace => buf.delete_char_backward(),
            Key::Left => {
                if buf.cursor > 0 {
                    buf.cursor -= 1;
                }
            },
            Key::Right => {
                if buf.cursor < buf.chars.len() {
                    buf.cursor += 1;
                }
            },
            Key::Up => move_rows(buf, -1),
            Key::Down => move_rows(buf, 1),
            Key::Other => {},
        }
    }

    /// The selection of visual mode: from the smaller to the larger of the
    /// anchor and the cursor (both included).
    pub fn visual_range(&self, buf: &Buffer) -> (r: (usize, usize))
        ensures
            r.0 == if self.visual_anchor < buf.cursor { self.visual_anchor } else { buf.cursor },
            r.1 == if self.visual_anchor < buf.cursor { buf.cursor } else { self.visual_anchor },
    {
        let start = if self.visual_anchor < buf.cursor { self.visual_anchor } else { buf.cursor };
        let end = if self.visual_anchor < buf.cursor { buf.cursor } else { self.visual_anchor };
        (start, end)
    }

    /// The selection of visual line mode: the whole lines from the anchor's
    /// to the cursor's, with the newline after the last one, as an inclusive
    /// range.
    pub fn visual_line_range(&self, buf: &Buffer) -> (r: (usize, usize))
        requires
            self.visual_anchor <= buf.chars@.len(),
            buf.cursor <= buf.chars@.len(),
        ensures
            ({
                let s = buf.chars@;
                let ar = row_of(s, self.visual_anchor as int);
                let cr = row_of(s, buf.cursor as int);
                let first = if ar < cr { ar } else { cr };
                let last = if ar < cr { cr } else { ar };
                let e = line_end_of(s, last);
                let end = if e < s.len() { e + 1 } else { e };
                &&& r.0 == line_start_of(s, first)
                &&& r.1 == if end > 0 { end - 1 } else { 0 }
            }),
            r.0 <= r.1 + 1,
            r.1 <= buf.chars@.len(),
    {
        let ghost s = buf.chars@;
        let anchor_row = count_newlines(&buf.chars, self.visual_anchor);
        let cursor_row = buf.cursor_row();
        let first_row = if anchor_row < cursor_row { anchor_row } else { cursor_row };
        let last_row = if anchor_row < cursor_row { cursor_row } else { anchor_row };
        proof {
            crate::buffer::lemma_line_bounds(s, last_row as nat);
            crate::buffer::lemma_line_bounds(s, first_row as nat);
            lemma_line_start_mono(s, first_row as nat, last_row as nat);
        }
        let start = buf.line_start(first_row);
        let ls = buf.line_start(last_row);
        let ll = buf.line_len(last_row);
        let n = buf.chars.len();
        assert(ls + ll <= n);
        let mut end = ls + ll;
        if end < buf.chars.len() && buf.chars[end] == '\n' {
            end += 1;
        }
        proof {
            crate::buffer::lemma_line_bounds(s, last_row as nat);
        }
        (start, end.saturating_sub(1))
    }
}

/// The pieces of rows `row..=last` covered by columns `left..=right`: on
/// each row long enough to reach column `left`, from there to column `right`
/// or the row's last character.
pub open spec fn block_rows(s: Seq<char>, row: int, last: int, left: int, right: int) -> Seq<(usize, usize)>
    decreases last + 1 - row,
{
    if row > last || row < 0 {
        Seq::empty()
    } else {
        let ls = line_start_of(s, row as nat);
        let ll = line_len_of(s, row as nat);
        let here = if left < ll {
            seq![((ls + left) as usize, (ls + if right < ll - 1 { right } else { ll - 1 }) as usize)]
        } else {
            Seq::empty()
        };
        here + block_rows(s, row + 1, last, left, right)
    }
}

/// Ranges that lie in a text of length `len`, each one before the next.
pub open spec fn ordered_ranges(r: Seq<(usize, usize)>, len: int) -> bool {
    &&& forall|i: int| 0 <= i < r.len() ==> (#[trigger] r[i]).0 <= r[i].1 < len
    &&& forall|i: int, j: int| 0 <= i < j < r.len() ==> (#[trigger] r[i]).1 < (#[trigger] r[j]).0
}

proof fn lemma_next_line_start(s: Seq<char>, row: nat)
    ensures
        line_end_of(s, row) < s.len() ==> line_start_of(s, row + 1) == line_end_of(s, row) + 1,
        line_end_of(s, row) >= s.len() ==> line_start_of(s, row + 1) == s.len(),
{
    crate::buffer::lemma_line_bounds(s, row);
}

proof fn lemma_block_rows(s: Seq<char>, row: int, last: int, left: int, right: int)
    requires
        0 <= row,
        0 <= left <= right,
        s.len() <= usize::MAX,
    ensures
        ordered_ranges(block_rows(s, row, last, left, right), s.len() as int),
        forall|i: int|
            0 <= i < block_rows(s, row, last, left, right).len() ==> (#[trigger] block_rows(s, row, last, left, right)[i]).0
                >= line_start_of(s, row as nat),
    decreases last + 1 - row,
{
    if row <= last {
        let b = block_rows(s, row, last, left, right);
        let rest = block_rows(s, row + 1, last, left, right);
        lemma_block_rows(s, row + 1, last, left, right);
        crate::buffer::lemma_line_bounds(s, row as nat);
        lemma_next_line_start(s, row as nat);
        lemma_line_start_mono(s, row as nat, (row + 1) as nat);
        let ls = line_start_of(s, row as nat);
        let ll = line_len_of(s, row as nat);
        if left < ll {
            let here = seq![((ls + left) as usize, (ls + if right < ll - 1 { right } else { ll - 1 }) as usize)];
            assert(b =~= here + rest);
            if line_end_of(s, row as nat) >= s.len() {
                // Past the last line no row reaches column `left`.
                lemma_rows_past_end_empty(s, row + 1, last, left, right);
                assert(rest.len() == 0);
            }
            assert forall|i: int, j: int| 0 <= i < j < b.len() implies (#[trigger] b[i]).1 < (#[trigger] b[j]).0 by {
                if i == 0 {
                    assert(b[j] == rest[j - 1]);
                } else {
                    assert(b[i] == rest[i - 1] && b[j] == rest[j - 1]);
                }
            }
            assert(b[0] == here[0]);
            assert(here[0].0 == ls + left);
            assert forall|i: int| 0 <= i < b.len() implies (#[trigger] b[i]).0 <= b[i].1 < s.len() by {
                if i > 0 {
                    assert(b[i] == rest[i - 1]);
                }
            }
            assert forall|i: int| 0 <= i < b.len() implies (#[trigger] b[i]).0 >= line_start_of(s, row as nat) by {
                if i > 0 {
                    assert(b[i] == rest[i - 1]);
                }
            }
        } else {
            assert(b =~= rest);
        }
    }
}

proof fn lemma_rows_past_end_empty(s: Seq<char>, row: int, last: int, left: int, right: int)
    requires
        0 < row,
        0 <= left,
        line_start_of(s, row as nat) == s.len(),
    ensures
        block_rows(s, row, last, left, right).len() == 0,
    decreases last + 1 - row,
{
    if row <= last {
        crate::buffer::lemma_line_bounds(s, row as nat);
        lemma_next_line_start(s, row as nat);
        lemma_rows_past_end_empty(s, row + 1, last, left, right);
    }
}

impl Vim {
    /// The selection of visual block mode: for each row between the anchor's
    /// and the cursor's, the columns between theirs (rows too short to reach
    /// the left column are left out).
    pub fn visual_block_ranges(&self, buf: &Buffer) -> (r: Vec<(usize, usize)>)
        requires
            self.visual_anchor <= buf.chars@.len() <= size_limit(),
            buf.cursor <= buf.chars@.len(),
        ensures
            ({
                let s = buf.chars@;
                let ar = row_of(s, self.visual_anchor as int) as int;
                let cr = row_of(s, buf.cursor as int) as int;
                let ac = col_of(s, self.visual_anchor as int);
                let cc = col_of(s, buf.cursor as int);
                r@ == block_rows(
                    s,
                    if ar < cr { ar } else { cr },
                    if ar < cr { cr } else { ar },
                    if ac < cc { ac } else { cc },
                    if ac < cc { cc } else { ac },
                )
            }),
            ordered_ranges(r@, buf.chars@.len() as int),
    {
        let ghost s = buf.chars@;
        let anchor_row = count_newlines(&buf.chars, self.visual_anchor);
        let anchor_col = column_at(&buf.chars, self.visual_anchor);
        let cursor_row = buf.cursor_row();
        let cursor_col = buf.cursor_col();
        proof {
            crate::buffer::lemma_nl_count_le(s.take(self.visual_anchor as int));
            crate::buffer::lemma_nl_count_le(s.take(buf.cursor as int));
            crate::buffer::lemma_pos_in_row(s, self.visual_anchor as int);
            crate::buffer::lemma_pos_in_row(s, buf.cursor as int);
        }
        let first_row = if anchor_row < cursor_row { anchor_row } else { cursor_row };
        let last_row = if anchor_row < cursor_row { cursor_row } else { anchor_row };
        let left_col = if anchor_col < cursor_col { anchor_col } else { cursor_col };
        let right_col = if anchor_col < cursor_col { cursor_col } else { anchor_col };
        let ghost want = block_rows(s, first_row as int, last_row as int, left_col as int, right_col as int);
        let mut ranges: Vec<(usize, usize)> = Vec::new();
        let mut row = first_row;
        while row <= last_row
            invariant
                first_row <= row <= last_row + 1,
                last_row <= s.len() <= size_limit(),
                s == buf.chars@,
                left_col <= right_col,
                want == block_rows(s, first_row as int, last_row as int, left_col as int, right_col as int),
                ranges@ + block_rows(s, row as int, last_row as int, left_col as int, right_col as int) == want,
            decreases last_row + 1 - row,
        {
            let ls = buf.line_start(row);
            let ll = buf.line_len(row);
            proof {
                crate::buffer::lemma_line_bounds(s, row as nat);
            }
            let ghost before = ranges@;
            if left_col < ll {
                let stop = if right_col < ll - 1 { right_col } else { ll - 1 };
                ranges.push((ls + left_col, ls + stop));
                assert(ranges@ + block_rows(s, row + 1, last_row as int, left_col as int, right_col as int) =~= before
                    + block_rows(s, row as int, last_row as int, left_col as int, right_col as int));
            } else {
                assert(block_rows(s, row as int, last_row as int, left_col as int, right_col as int) =~= block_rows(
                    s,
                    row + 1,
                    last_row as int,
                    left_col as int,
                    right_col as int,
                ));
            }
            row += 1;
        }
        assert(ranges@ =~= want);
        proof {
            lemma_block_rows(s, first_row as int, last_row as int, left_col as int, right_col as int);
        }
        ranges
    }
}

/// The column of position `pos` in `v`.
fn column_at(v: &Vec<char>, pos: usize) -> (r: usize)
    requires
        pos <= v@.len(),
    ensures
        r == col_of(v@, pos as int),
{
    let mut j: usize = pos;
    while j > 0 && v[j - 1] != '\n'
        invariant
            j <= pos <= v@.len(),
            crate::buffer::last_nl_before(v@, j as int) == crate::buffer::last_nl_before(v@, pos as int),
        decreases j,
    {
        j -= 1;
    }
    proof {
        crate::buffer::lemma_last_nl_before_props(v@, pos as int);
    }
    pos - j
}

/// One row up (`delta` -1) or down (1), as `Buffer::move_vertical` does.
fn move_rows(buf: &mut Buffer, delta: i32)
    requires
        old(buf).cursor <= old(buf).chars@.len() <= size_limit(),
        delta == -1 || delta == 1,
    ensures
        moved_only(*old(buf), *final(buf)),
        final(buf).cursor == rows_pos(old(buf).chars@, old(buf).cursor as int, delta as int),
        final(buf).cursor <= final(buf).chars@.len(),
{
    proof {
        crate::buffer::lemma_nl_count_le(buf.chars@.take(buf.cursor as int));
    }
    buf.move_vertical(delta);
}

/// Number of newlines among the first `upto` characters of `v`.
fn count_newlines(v: &Vec<char>, upto: usize) -> (r: usize)
    requires
        upto <= v@.len(),
    ensures
        r == nl_count(v@.take(upto as int)),
{
    let mut count: usize = 0;
    let mut i: usize = 0;
    while i < upto
        invariant
            i <= upto <= v@.len(),
            count <= i,
            count == nl_count(v@.take(i as int)),
        decreases upto - i,
    {
        if v[i] == '\n' {
            count += 1;
        }
        i += 1;
        assert(v@.take(i as int).drop_last() =~= v@.take(i - 1));
    }
    count
}

/// Later lines start no earlier.
pub proof fn lemma_line_start_mono(s: Seq<char>, a: nat, b: nat)
    requires
        a <= b,
    ensures
        line_start_of(s, a) <= line_start_of(s, b),
    decreases b - a,
{
    if a < b {
        lemma_line_start_mono(s, a, (b - 1) as nat);
        crate::buffer::lemma_line_start_bounds(s, (b - 1) as nat);
        crate::buffer::lemma_first_nl_from_bounds(s, line_start_of(s, (b - 1) as nat));
    }
}

/// The text left when the ranges `r[k..]` are cut out of `t`, the last one first.
pub open spec fn strip_ranges(t: Seq<char>, r: Seq<(usize, usize)>, k: int) -> Seq<char>
    decreases r.len() - k,
{
    if k < 0 || k >= r.len() {
        t
    } else {
        let t2 = strip_ranges(t, r, k + 1);
        t2.take(r[k].0 as int) + t2.skip(r[k].1 + 1)
    }
}

/// The pieces that cutting the ranges `r[k..]` out of `t` removes, top to
/// bottom, each followed by a newline.
pub open spec fn block_text(t: Seq<char>, r: Seq<(usize, usize)>, k: int) -> Seq<char>
    decreases r.len() - k,
{
    if k < 0 || k >= r.len() {
        Seq::empty()
    } else {
        strip_ranges(t, r, k + 1).subrange(r[k].0 as int, r[k].1 + 1) + seq!['\n'] + block_text(t, r, k + 1)
    }
}

/// The pieces the ranges cover, joined by newlines.
pub open spec fn block_yank(t: Seq<char>, r: Seq<(usize, usize)>, k: int) -> Seq<char>
    decreases r.len() - k,
{
    if k < 0 || k >= r.len() {
        Seq::empty()
    } else if k == r.len() - 1 {
        t.subrange(r[k].0 as int, r[k].1 + 1)
    } else {
        t.subrange(r[k].0 as int, r[k].1 + 1) + seq!['\n'] + block_yank(t, r, k + 1)
    }
}

proof fn lemma_strip_prefix(t: Seq<char>, r: Seq<(usize, usize)>, k: int)
    requires
        ordered_ranges(r, t.len() as int),
        0 <= k <= r.len(),
    ensures
        ({
            let lo = if k < r.len() { r[k].0 as int } else { t.len() as int };
            &&& strip_ranges(t, r, k).len() >= lo
            &&& strip_ranges(t, r, k).take(lo) == t.take(lo)
        }),
    decreases r.len() - k,
{
    if k < r.len() {
        lemma_strip_prefix(t, r, k + 1);
        let t2 = strip_ranges(t, r, k + 1);
        let hi = if k + 1 < r.len() { r[k + 1].0 as int } else { t.len() as int };
        assert(r[k].0 <= r[k].1 < t.len());
        if k + 1 < r.len() {
            assert(r[k].1 < r[k + 1].0);
        }
        assert(t2.take(hi).take(r[k].0 as int) =~= t2.take(r[k].0 as int));
        assert(t.take(hi).take(r[k].0 as int) =~= t.take(r[k].0 as int));
        assert(strip_ranges(t, r, k).take(r[k].0 as int) =~= t2.take(r[k].0 as int));
    } else {
        assert(strip_ranges(t, r, k) == t);
    }
}

/// The visual selection clamped to the text: from its start to its end or
/// the last character, whichever comes first.
pub open spec fn clamped_sel(anchor: int, cursor: int, len: int) -> (int, int) {
    let start = if anchor < cursor { anchor } else { cursor };
    let end = if anchor < cursor { cursor } else { anchor };
    (start, if end < len - 1 { end } else { len - 1 })
}

/// `s` with the characters in `from..=to` switched between upper and lower
/// case (as the visual `~` does).
pub open spec fn case_switched(s: Seq<char>, from: int, to: int) -> Seq<char> {
    Seq::new(s.len(), |i: int| if from <= i <= to { switched(s[i]) } else { s[i] })
}

/// An uppercase character made lowercase, a lowercase one uppercase.
pub open spec fn switched(c: char) -> char {
    if unicode_uppercase(c) {
        match lowercase_head(c) {
            Some(x) => x,
            None => c,
        }
    } else if unicode_lowercase(c) {
        match uppercase_head(c) {
            Some(x) => x,
            None => c,
        }
    } else {
        c
    }
}

fn switch_case(c: char) -> (r: char)
    ensures
        r == switched(c),
{
    if is_uppercase(c) {
        match to_lowercase_head(c) {
            Some(x) => x,
            None => c,
        }
    } else if is_lowercase(c) {
        match to_uppercase_head(c) {
            Some(x) => x,
            None => c,
        }
    } else {
        c
    }
}

/// One `m` from the cursor.
fn move_once(buf: &mut Buffer, m: Motion)
    requires
        old(buf).cursor <= old(buf).chars@.len() <= size_limit(),
    ensures
        moved_only(*old(buf), *final(buf)),
        final(buf).cursor == motion_pos(m, old(buf).chars@, old(buf).cursor as int),
        final(buf).cursor <= final(buf).chars@.len(),
{
    match m {
        Motion::Left => buf.move_left(),
        Motion::Right => buf.move_right(),
        Motion::Down => move_rows(buf, 1),
        Motion::Up => move_rows(buf, -1),
        Motion::WordForward => buf.word_forward(),
        Motion::WordBackward => buf.word_backward(),
        Motion::WordEnd => buf.word_end(),
    }
}

/// `count` of `m` from the cursor.
fn move_times(buf: &mut Buffer, m: Motion, count: usize)
    requires
        old(buf).cursor <= old(buf).chars@.len() <= size_limit(),
    ensures
        moved_only(*old(buf), *final(buf)),
        final(buf).cursor == motion_n(m, old(buf).chars@, old(buf).cursor as int, count as nat),
        final(buf).cursor <= final(buf).chars@.len(),
{
    let mut k: usize = 0;
    while k < count
        invariant
            k <= count,
            moved_only(*old(buf), *buf),
            buf.cursor <= buf.chars@.len() <= size_limit(),
            buf.cursor == motion_n(m, old(buf).chars@, old(buf).cursor as int, k as nat),
        decreases count - k,
    {
        move_once(buf, m);
        k += 1;
    }
}

/// `count` of `e` from the cursor; gives the last character removed when
/// `e` deletes characters.
fn repeat_edit(buf: &mut Buffer, e: Repeat, count: usize) -> (last: Option<char>)
    requires
        old(buf).cursor <= old(buf).chars@.len() <= size_limit(),
    ensures
        same_history(*old(buf), *final(buf)),
        ({
            let r = repeat_n(e, old(buf).chars@, old(buf).cursor as int, count as nat);
            &&& final(buf).chars@ == r.0
            &&& final(buf).cursor == r.1
            &&& final(buf).dirty == (old(buf).dirty || r.2)
        }),
        e == Repeat::DeleteChar ==> last == x_last(old(buf).chars@, old(buf).cursor as int, count as nat),
        final(buf).cursor <= final(buf).chars@.len() <= size_limit(),
{
    let ghost s0 = buf.chars@;
    let ghost c0 = buf.cursor as int;
    let mut last: Option<char> = None;
    let mut k: usize = 0;
    while k < count
        invariant
            k <= count,
            same_history(*old(buf), *buf),
            s0 == old(buf).chars@,
            c0 == old(buf).cursor,
            buf.cursor <= buf.chars@.len() <= size_limit(),
            ({
                let r = repeat_n(e, s0, c0, k as nat);
                &&& buf.chars@ == r.0
                &&& buf.cursor == r.1
                &&& buf.dirty == (old(buf).dirty || r.2)
            }),
            e == Repeat::DeleteChar ==> last == x_last(s0, c0, k as nat),
        decreases count - k,
    {
        match e {
            Repeat::DeleteChar => {
                let removed = buf.delete_char_at_cursor();
                if removed.is_some() {
                    last = removed;
                }
            },
            Repeat::ToggleCase => buf.toggle_case(),
            Repeat::JoinLine => buf.join_line(),
        }
        k += 1;
    }
    last
}

impl Vim {
    /// Visual mode: motions extend the selection; `d`/`x`, `c`, `y`, `~` and
    /// `J` act on it and leave visual mode.
    fn handle_visual(&mut self, key: Key, control: bool, buf: &mut Buffer)
        requires
            ready(*old(self), *old(buf)),
            old(self).mode == Mode::Visual,
            !control && old(buf).chars@.len() == 0 ==> key != Key::Char('d') && key != Key::Char('x')
                && key != Key::Char('c') && key != Key::Char('y') && key != Key::Char('~'),
        ensures
            settled(*final(self), *final(buf)),
            (final(self)@, buf_state(*final(buf))) == visual_m(old(self)@, buf_state(*old(buf)), key, control),
            same_frame(*old(buf), *final(buf)),
    {
        let ghost v0 = self@;
        let ghost b0 = *buf;
        proof {
            reveal_strlit("yanked");
        }
        if control {
            if key == Key::Char('d') {
                move_times(buf, Motion::Down, 10);
            } else if key == Key::Char('u') {
                move_times(buf, Motion::Up, 10);
            }
            return;
        }
        match key {
            Key::Esc => {
                self.mode = Mode::Normal;
            },
            Key::Char('h') | Key::Left => buf.move_left(),
            Key::Char('l') | Key::Right => buf.move_right(),
            Key::Char('j') | Key::Down => move_rows(buf, 1),
            Key::Char('k') | Key::Up => move_rows(buf, -1),
            Key::Char('w') => buf.word_forward(),
            Key::Char('b') => buf.word_backward(),
            Key::Char('e') => buf.word_end(),
            Key::Char('0') => buf.move_to_line_start(),
            Key::Char('$') => buf.move_to_line_end(),
            Key::Char('G') => buf.move_to_bottom(),
            Key::Char('g') => buf.move_to_top(),
            Key::Char('d') | Key::Char('x') | Key::Char('c') => {
                buf.snapshot();
                let (start, end) = self.visual_range(buf);
                self.register = buf.delete_range(start, end);
                self.mode = if key == Key::Char('c') { Mode::Insert } else { Mode::Normal };
            },
            Key::Char('y') => {
                let (start, end) = self.visual_range(buf);
                let last = buf.chars.len() - 1;
                let stop = if end < last { end } else { last };
                self.register = crate::text::slice_copy(&buf.chars, start, stop + 1);
                buf.cursor = start;
                self.mode = Mode::Normal;
                self.status_msg = String::from_str("yanked");
            },
            Key::Char('~') => {
                buf.snapshot();
                let (start, end) = self.visual_range(buf);
                let last = buf.chars.len() - 1;
                let stop = if end < last { end } else { last };
                let ghost s = buf.chars@;
                let ghost b1 = *buf;
                let mut i = start;
                while i <= stop
                    invariant
                        start <= i <= stop + 1,
                        stop < s.len() <= size_limit(),
                        same_history(b1, *buf),
                        buf.dirty == b1.dirty,
                        buf.cursor == b1.cursor,
                        buf.chars@.len() == s.len(),
                        forall|k: int| 0 <= k < s.len() ==> #[trigger] buf.chars@[k] == if start <= k < i { switched(s[k]) } else { s[k] },
                    decreases stop + 1 - i,
                {
                    let ch = buf.chars[i];
                    buf.chars.set(i, switch_case(ch));
                    i += 1;
                }
                assert(buf.chars@ =~= case_switched(s, start as int, stop as int));
                buf.dirty = true;
                buf.cursor = start;
                self.mode = Mode::Normal;
            },
            Key::Char('J') => {
                buf.snapshot();
                let (start, _end) = self.visual_range(buf);
                buf.cursor = start;
                buf.join_line();
                self.mode = Mode::Normal;
            },
            _ => {},
        }
        assert(self@.register =~= visual_m(v0, buf_state(b0), key, control).0.register);
        assert(self@.status =~= visual_m(v0, buf_state(b0), key, control).0.status);
        assert(buf.hist() =~= visual_m(v0, buf_state(b0), key, control).1.0);
    }
}

/// The line selection as `visual_line_range` computes it.
pub open spec fn line_sel(s: Seq<char>, anchor: int, cursor: int) -> (int, int) {
    let ar = row_of(s, anchor);
    let cr = row_of(s, cursor);
    let first = if ar < cr { ar } else { cr };
    let last = if ar < cr { cr } else { ar };
    let e = line_end_of(s, last);
    let end = if e < s.len() { e + 1 } else { e };
    (line_start_of(s, first), if end > 0 { end - 1 } else { 0 })
}

impl Vim {
    /// Visual line mode: `j`/`k`/`G`/`g` extend the selection; `d`/`x`, `c`
    /// and `y` act on the whole lines and leave the mode.
    fn handle_visual_line(&mut self, key: Key, control: bool, buf: &mut Buffer)
        requires
            ready(*old(self), *old(buf)),
            old(self).mode == Mode::VisualLine,
            !control && old(buf).chars@.len() == 0 ==> key != Key::Char('d') && key != Key::Char('x')
                && key != Key::Char('c') && key != Key::Char('y'),
        ensures
            settled(*final(self), *final(buf)),
            (final(self)@, buf_state(*final(buf))) == visual_line_m(old(self)@, buf_state(*old(buf)), key, control),
            same_frame(*old(buf), *final(buf)),
    {
        if control {
            if key == Key::Char('d') {
                move_times(buf, Motion::Down, 10);
            } else if key == Key::Char('u') {
                move_times(buf, Motion::Up, 10);
            }
            return;
        }
        match key {
            Key::Esc => {
                self.mode = Mode::Normal;
            },
            Key::Char('j') | Key::Down => move_rows(buf, 1),
            Key::Char('k') | Key::Up => move_rows(buf, -1),
            Key::Char('G') => buf.move_to_bottom(),
            Key::Char('g') => buf.move_to_top(),
            Key::Char('d') | Key::Char('x') | Key::Char('c') => {
                buf.snapshot();
                let (start, end) = self.visual_line_range(buf);
                self.register = buf.delete_range(start, end);
                self.mode = if key == Key::Char('c') { Mode::Insert } else { Mode::Normal };
            },
            Key::Char('y') => {
                let (start, end) = self.visual_line_range(buf);
                let last = buf.chars.len() - 1;
                let stop = if end < last { end } else { last };
                self.register = crate::text::slice_copy(&buf.chars, start, stop + 1);
                buf.cursor = start;
                self.mode = Mode::Normal;
                self.status_msg = String::from_str("yanked");
            },
            _ => {},
        }
    }

    /// Visual block mode: motions extend the block; `d`/`x` cuts it (each
    /// piece followed by a newline in the register), `y` copies it (pieces
    /// joined by newlines).
    fn handle_visual_block(&mut self, key: Key, control: bool, buf: &mut Buffer)
        requires
            ready(*old(self), *old(buf)),
            old(self).mode == Mode::VisualBlock,
        ensures
            settled(*final(self), *final(buf)),
            (final(self)@, buf_state(*final(buf))) == visual_block_m(old(self)@, buf_state(*old(buf)), key, control),
            same_frame(*old(buf), *final(buf)),
    {
        let ghost v0 = self@;
        let ghost b0 = *buf;
        proof {
            reveal_strlit("block yanked");
        }
        if control {
            if key == Key::Char('d') {
                move_times(buf, Motion::Down, 10);
            } else if key == Key::Char('u') {
                move_times(buf, Motion::Up, 10);
            }
            return;
        }
        match key {
            Key::Esc => {
                self.mode = Mode::Normal;
            },
            Key::Char('h') | Key::Left => buf.move_left(),
            Key::Char('l') | Key::Right => buf.move_right(),
            Key::Char('j') | Key::Down => move_rows(buf, 1),
            Key::Char('k') | Key::Up => move_rows(buf, -1),
            Key::Char('d') | Key::Char('x') => {
                buf.snapshot();
                let ranges = self.visual_block_ranges(buf);
                let ghost s = buf.chars@;
                let ghost r = ranges@;
                let ghost b1 = *buf;
                let mut removed: Vec<char> = Vec::new();
                let mut k = ranges.len();
                while k > 0
                    invariant
                        k <= r.len(),
                        same_history(b1, *buf),
                        buf.dirty == b1.dirty,
                        buf.cursor == b1.cursor,
                        r == ranges@,
                        ordered_ranges(r, s.len() as int),
                        s.len() <= size_limit(),
                        buf.chars@ == strip_ranges(s, r, k as int),
                        removed@ == block_text(s, r, k as int),
                    decreases k,
                {
                    proof {
                        lemma_strip_prefix(s, r, k as int);
                        if k < r.len() {
                            assert(r[k - 1].1 < r[k as int].0);
                        }
                    }
                    let (start, end) = ranges[k - 1];
                    let mut chunk = take_range(&mut buf.chars, start, end + 1);
                    chunk.push('\n');
                    crate::text::push_all(&mut chunk, &removed);
                    removed = chunk;
                    k -= 1;
                }
                self.register = removed;
                let n = buf.chars.len();
                let cap = if n > 0 { n - 1 } else { 0 };
                if buf.cursor > cap {
                    buf.cursor = cap;
                }
                buf.dirty = true;
                self.mode = Mode::Normal;
            },
            Key::Char('y') => {
                let ranges = self.visual_block_ranges(buf);
                let ghost s = buf.chars@;
                let ghost r = ranges@;
                let mut yanked: Vec<char> = Vec::new();
                let mut i: usize = 0;
                let n = ranges.len();
                while i < n
                    invariant
                        i <= n == r.len(),
                        r == ranges@,
                        s == buf.chars@,
                        ordered_ranges(r, s.len() as int),
                        s.len() <= size_limit(),
                        yanked@ + block_yank(s, r, i as int) == block_yank(s, r, 0),
                    decreases n - i,
                {
                    let (start, end) = ranges[i];
                    let piece = crate::text::slice_copy(&buf.chars, start, end + 1);
                    let ghost before = yanked@;
                    crate::text::push_all(&mut yanked, &piece);
                    if i < n - 1 {
                        yanked.push('\n');
                    }
                    i += 1;
                    assert(yanked@ + block_yank(s, r, i as int) =~= before + block_yank(s, r, i - 1));
                }
                assert(yanked@ + Seq::<char>::empty() =~= yanked@);
                self.register = yanked;
                self.mode = Mode::Normal;
                self.status_msg = String::from_str("block yanked");
            },
            _ => {},
        }
        assert(self@.register =~= visual_block_m(v0, buf_state(b0), key, control).0.register);
        assert(self@.status =~= visual_block_m(v0, buf_state(b0), key, control).0.status);
        assert(buf.hist() =~= visual_block_m(v0, buf_state(b0), key, control).1.0);
    }
}

/// What an entered command line asks for.
pub open spec fn command_action(cmd: Seq<char>, dirty: bool) -> Action {
    let c = trim_ws(cmd);
    if c == "w"@ {
        Action::Save
    } else if c == "q"@ {
        if dirty { Action::Continue } else { Action::Quit }
    } else if c == "q!"@ {
        Action::Quit
    } else if c == "wq"@ || c == "x"@ {
        Action::SaveAndQuit
    } else {
        Action::Continue
    }
}

/// The status message an entered command line leaves (`None`: unchanged).
pub open spec fn command_message(cmd: Seq<char>, dirty: bool) -> Option<Seq<char>> {
    let c = trim_ws(cmd);
    if c == "w"@ || c == "q!"@ || c == "wq"@ || c == "x"@ {
        None
    } else if c == "q"@ {
        if dirty { Some("No write since last change (add ! to override)"@) } else { None }
    } else {
        Some("Not a command: "@ + cmd)
    }
}

impl Vim {
    /// Runs an entered command line: `w` saves, `q` quits unless there are
    /// unsaved changes, `q!` quits, `wq` and `x` save and quit.
    fn execute_command(&mut self, cmd: &String, buf: &Buffer) -> (r: Action)
        ensures
            r == command_action(cmd@, buf.dirty),
            match command_message(cmd@, buf.dirty) {
                Some(m) => final(self).status_msg@ == m,
                None => final(self).status_msg == old(self).status_msg,
            },
            final(self).mode == old(self).mode,
            final(self).register == old(self).register,
            final(self).visual_anchor == old(self).visual_anchor,
            final(self).pending == old(self).pending,
            final(self).count_buf == old(self).count_buf,
            final(self).command_buf == old(self).command_buf,
    {
        let cs = chars_of(cmd.as_str());
        let c = trim(&cs);
        proof {
            reveal_strlit("w");
            reveal_strlit("q");
            reveal_strlit("q!");
            reveal_strlit("wq");
            reveal_strlit("x");
            assert("w"@.len() == 1 && "q"@.len() == 1 && "x"@.len() == 1 && "q!"@.len() == 2 && "wq"@.len() == 2);
            assert("w"@[0] == 'w' && "q"@[0] == 'q' && "x"@[0] == 'x' && "q!"@[0] == 'q' && "wq"@[0] == 'w');
        }
        if crate::text::equals_str(&c, "w") {
            Action::Save
        } else if crate::text::equals_str(&c, "q") {
            if buf.dirty {
                self.status_msg = String::from_str("No write since last change (add ! to override)");
                Action::Continue
            } else {
                Action::Quit
            }
        } else if crate::text::equals_str(&c, "q!") {
            Action::Quit
        } else if crate::text::equals_str(&c, "wq") || crate::text::equals_str(&c, "x") {
            Action::SaveAndQuit
        } else {
            let mut m = chars_of("Not a command: ");
            push_str(&mut m, cmd.as_str());
            self.status_msg = string_of(&m);
            Action::Continue
        }
    }

    /// Reports a save asked for by `Action::Save` or `Action::SaveAndQuit`:
    /// `outcome` is the saved file's name or the error. A save that worked
    /// quits when asked to; otherwise the editor goes on.
    pub fn save_done(&mut self, outcome: Result<String, String>, then_quit: bool) -> (r: Action)
        ensures
            match outcome {
                Ok(name) => if then_quit {
                    r == Action::Quit && final(self).status_msg == old(self).status_msg
                } else {
                    r == Action::Continue && final(self).status_msg@ == seq!['"'] + name@ + "\" written"@
                },
                Err(e) => r == Action::Continue && final(self).status_msg@ == "Error: "@ + e@,
            },
            final(self).mode == old(self).mode,
            final(self).register == old(self).register,
            final(self).pending == old(self).pending,
    {
        match outcome {
            Ok(name) => {
                if then_quit {
                    Action::Quit
                } else {
                    let mut m: Vec<char> = Vec::new();
                    m.push('"');
                    push_str(&mut m, name.as_str());
                    push_str(&mut m, "\" written");
                    self.status_msg = string_of(&m);
                    Action::Continue
                }
            },
            Err(e) => {
                let mut m = chars_of("Error: ");
                push_str(&mut m, e.as_str());
                self.status_msg = string_of(&m);
                Action::Continue
            },
        }
    }

    /// Command mode: characters extend the command line, Backspace shortens
    /// it (leaving the mode when it is empty), Enter runs it, Esc drops it.
    fn handle_command(&mut self, key: Key, buf: &Buffer) -> (r: Action)
        requires
            old(self).mode == Mode::Command,
        ensures
            (final(self)@, r) == command_m(old(self)@, buf.dirty, key),
    {
        match key {
            Key::Esc => {
                self.mode = Mode::Normal;
                self.command_buf = String::new();
            },
            Key::Enter => {
                let cmd = self.command_buf.clone();
                self.mode = Mode::Normal;
                self.command_buf = String::new();
                return self.execute_command(&cmd, buf);
            },
            Key::Backspace => {
                let cs = chars_of(self.command_buf.as_str());
                if cs.len() == 0 {
                    self.mode = Mode::Normal;
                } else {
                    let kept = crate::text::slice_copy(&cs, 0, cs.len() - 1);
                    assert(kept@ =~= cs@.drop_last());
                    self.command_buf = string_of(&kept);
                }
            },
            Key::Char(c) => self.command_buf.push(c),
            _ => {},
        }
        Action::Continue
    }
}

impl Vim {
    /// An operator (`d`, `c` or `y`) followed by its motion: the line itself
    /// (`dd`, `cc`, `yy`), a word (`w`, `e`, `b`), the end or start of the
    /// line (`$`, `0`), or the end or start of the text (`G`, `gg`). An
    /// unknown motion takes back the undo point.
    fn handle_operator_motion(&mut self, op: char, key: Key, buf: &mut Buffer)
        requires
            ready(*old(self), *old(buf)),
            old(self).mode == Mode::Normal,
            old(buf).chars@.len() == 0 ==> key != Key::Char('e') && key != Key::Char('G') && key != Key::Char('g'),
        ensures
            settled(*final(self), *final(buf)),
            (final(self)@, buf_state(*final(buf))) == operator_m(old(self)@, buf_state(*old(buf)), op, key),
            same_frame(*old(buf), *final(buf)),
    {
        let ghost v0 = self@;
        let ghost b0 = *buf;
        buf.snapshot();
        match (op, key) {
            ('d', Key::Char('d')) => {
                self.register = buf.delete_line();
            },
            ('c', Key::Char('c')) => {
                self.register = buf.change_line();
                self.mode = Mode::Insert;
            },
            ('y', Key::Char('y')) => {
                self.register = buf.yank_line();
                self.status_msg = String::from_str("1 line yanked");
            },
            (op, Key::Char('w')) => {
                if op == 'c' {
                    self.register = buf.change_word_forward();
                    self.mode = Mode::Insert;
                } else {
                    let removed = buf.delete_word_forward();
                    if op == 'y' {
                        buf.undo();
                        self.register = removed;
                        self.status_msg = String::from_str("yanked");
                    } else {
                        self.register = removed;
                    }
                }
            },
            (op, Key::Char('e')) => {
                let start = buf.cursor;
                buf.word_end();
                let end = buf.cursor;
                buf.cursor = start;
                if end >= start {
                    if op == 'y' {
                        self.register = crate::text::slice_copy(&buf.chars, start, end + 1);
                        self.status_msg = String::from_str("yanked");
                    } else {
                        self.register = buf.delete_range(start, end);
                        if op == 'c' {
                            self.mode = Mode::Insert;
                        }
                    }
                }
            },
            (op, Key::Char('$')) => {
                if op == 'c' {
                    self.register = buf.change_to_end_of_line();
                    self.mode = Mode::Insert;
                } else if op == 'y' {
                    let end = buf.line_end_pos();
                    if buf.cursor < end {
                        self.register = crate::text::slice_copy(&buf.chars, buf.cursor, end);
                    }
                    self.status_msg = String::from_str("yanked");
                } else {
                    self.register = buf.delete_to_end_of_line();
                }
            },
            (op, Key::Char('0')) => {
                if op == 'y' {
                    let row = buf.cursor_row();
                    proof {
                        crate::buffer::lemma_pos_in_row(buf.chars@, buf.cursor as int);
                    }
                    let start = buf.line_start(row);
                    if start < buf.cursor {
                        self.register = crate::text::slice_copy(&buf.chars, start, buf.cursor);
                    }
                    self.status_msg = String::from_str("yanked");
                } else {
                    self.register = buf.delete_to_start_of_line();
                    if op == 'c' {
                        self.mode = Mode::Insert;
                    }
                }
            },
            (op, Key::Char('b')) => {
                let end = buf.cursor;
                buf.word_backward();
                let start = buf.cursor;
                if start < end {
                    if op == 'y' {
                        self.register = crate::text::slice_copy(&buf.chars, start, end);
                        buf.cursor = end;
                        self.status_msg = String::from_str("yanked");
                    } else {
                        self.register = buf.delete_range(start, end - 1);
                        if op == 'c' {
                            self.mode = Mode::Insert;
                        }
                    }
                }
            },
            (op, Key::Char('G')) => {
                let row = buf.cursor_row();
                proof {
                    crate::buffer::lemma_pos_in_row(buf.chars@, buf.cursor as int);
                }
                let start = buf.line_start(row);
                let end = buf.chars.len() - 1;
                if op == 'y' {
                    self.register = crate::text::slice_copy(&buf.chars, start, end + 1);
                    self.status_msg = String::from_str("yanked");
                } else {
                    self.register = buf.delete_range(start, end);
                    if op == 'c' {
                        self.mode = Mode::Insert;
                    }
                }
            },
            (op, Key::Char('g')) => {
                let end_row = buf.cursor_row();
                proof {
                    crate::buffer::lemma_pos_in_row(buf.chars@, buf.cursor as int);
                    crate::buffer::lemma_line_bounds(buf.chars@, end_row as nat);
                }
                let ls = buf.line_start(end_row);
                let ll = buf.line_len(end_row);
                let n = buf.chars.len();
                assert(ls + ll <= n);
                let e = ls + ll;
                let end = if e < n { e } else { n - 1 };
                if op == 'y' {
                    self.register = crate::text::slice_copy(&buf.chars, 0, end + 1);
                    self.status_msg = String::from_str("yanked");
                } else {
                    self.register = buf.delete_range(0, end);
                    if op == 'c' {
                        self.mode = Mode::Insert;
                    }
                }
            },
            _ => {
                buf.undo();
            },
        }
        proof {
            reveal_strlit("yanked");
            reveal_strlit("1 line yanked");
        }
        assert(self@.register =~= operator_m(v0, buf_state(b0), op, key).0.register);
        assert(self@.status =~= operator_m(v0, buf_state(b0), op, key).0.status);
        assert(buf.hist() =~= operator_m(v0, buf_state(b0), op, key).1.0);
    }
}

/// The mode a normal-mode key leads to when no command is pending.
pub open spec fn plain_mode(key: Key) -> Mode {
    match key {
        Key::Char(c) => if c == 'i' || c == 'a' || c == 'A' || c == 'I' || c == 'o' || c == 'O' || c == 's' || c
            == 'S' || c == 'C' {
            Mode::Insert
        } else if c == 'v' {
            Mode::Visual
        } else if c == 'V' {
            Mode::VisualLine
        } else if c == ':' {
            Mode::Command
        } else {
            Mode::Normal
        },
        _ => Mode::Normal,
    }
}

/// The command a normal-mode key leaves pending.
pub open spec fn plain_pending(key: Key) -> Option<Pending> {
    match key {
        Key::Char(c) => if c == 'g' {
            Some(Pending::G)
        } else if c == 'f' {
            Some(Pending::FindForward)
        } else if c == 'F' {
            Some(Pending::FindBackward)
        } else if c == 't' {
            Some(Pending::TilForward)
        } else if c == 'T' {
            Some(Pending::TilBackward)
        } else if c == 'd' || c == 'c' || c == 'y' {
            Some(Pending::Operator(c))
        } else if c == 'r' {
            Some(Pending::Replace)
        } else {
            None
        },
        _ => None,
    }
}

/// Whether a normal-mode key adds a digit to the count.
pub open spec fn counts(key: Key, count: Seq<char>) -> bool {
    match key {
        Key::Char(c) => ('1' <= c <= '9') || (c == '0' && count.len() > 0),
        _ => false,
    }
}

impl Vim {
    /// Normal mode: counts, motions, operators waiting for a motion, edits,
    /// paste, undo and redo, and the ways into the other modes.
    fn handle_normal(&mut self, key: Key, control: bool, buf: &mut Buffer)
        requires
            ready(*old(self), *old(buf)),
            old(self).mode == Mode::Normal,
            (!control && old(buf).chars@.len() == 0 && old(self).pending is Some && old(self).pending->0 is Operator)
                ==> key != Key::Char('e') && key != Key::Char('G') && key != Key::Char('g'),
        ensures
            settled(*final(self), *final(buf)),
            (final(self)@, buf_state(*final(buf))) == normal_key_m(old(self)@, buf_state(*old(buf)), key, control),
            same_frame(*old(buf), *final(buf)),
    {
        let ghost v0 = self@;
        let ghost b0 = *buf;
        proof {
            reveal_strlit("Redo");
        }
        if control {
            match key {
                Key::Char('d') => {
                    self.pending = None;
                    move_times(buf, Motion::Down, 10);
                },
                Key::Char('u') => {
                    self.pending = None;
                    move_times(buf, Motion::Up, 10);
                },
                Key::Char('r') => {
                    if buf.redo() {
                        self.status_msg = String::from_str("Redo");
                    }
                },
                Key::Char('v') => {
                    self.visual_anchor = buf.cursor;
                    self.mode = Mode::VisualBlock;
                },
                _ => {},
            }
            return;
        }
        match self.pending {
            Some(pending) => {
                self.pending = None;
                match pending {
                    Pending::Operator(op) => {
                        self.handle_operator_motion(op, key, buf);
                    },
                    Pending::G => {
                        if key == Key::Char('g') {
                            buf.move_to_top();
                        }
                    },
                    Pending::Replace => {
                        if let Key::Char(c) = key {
                            buf.snapshot();
                            buf.replace_char(c);
                        }
                    },
                    Pending::FindForward => {
                        if let Key::Char(c) = key {
                            self.find_char_forward(c, buf, false);
                        }
                    },
                    Pending::FindBackward => {
                        if let Key::Char(c) = key {
                            self.find_char_backward(c, buf, false);
                        }
                    },
                    Pending::TilForward => {
                        if let Key::Char(c) = key {
                            self.find_char_forward(c, buf, true);
                        }
                    },
                    Pending::TilBackward => {
                        if let Key::Char(c) = key {
                            self.find_char_backward(c, buf, true);
                        }
                    },
                }
                return;
            },
            None => {},
        }
        if let Key::Char(c) = key {
            if ('1' <= c && c <= '9') || (c == '0' && !self.count_buf.as_str().is_empty()) {
                self.count_buf.push(c);
                return;
            }
        }
        self.normal_command(key, buf);
    }
}

impl Vim {
    /// A normal-mode key that is neither part of a count nor completes a
    /// pending command; it uses up the count.
    fn normal_command(&mut self, key: Key, buf: &mut Buffer)
        requires
            ready(*old(self), *old(buf)),
            old(self).mode == Mode::Normal,
            old(self).pending is None,
        ensures
            settled(*final(self), *final(buf)),
            (final(self)@, buf_state(*final(buf))) == normal_command_m(old(self)@, buf_state(*old(buf)), key),
            same_frame(*old(buf), *final(buf)),
    {
        let ghost v0 = self@;
        let ghost b0 = *buf;
        let ghost s0 = buf.chars@;
        let ghost c0 = buf.cursor as int;
        let count = self.take_count();
        let ghost v1 = VimView { count: Seq::empty(), mode: plain_mode(key), pending: plain_pending(key), ..v0 };
        assert(self@.count =~= Seq::<char>::empty());
        assert(self@ == (VimView { count: Seq::empty(), ..v0 }));
        match key {
            Key::Char('i') => {
                self.mode = Mode::Insert;
            },
            Key::Char('a') => {
                if let Some(ch) = buf.char_at(buf.cursor) {
                    if ch != '\n' {
                        buf.cursor += 1;
                    }
                }
                self.mode = Mode::Insert;
            },
            Key::Char('A') => {
                let row = buf.cursor_row();
                proof {
                    crate::buffer::lemma_line_bounds(buf.chars@, row as nat);
                }
                let ls = buf.line_start(row);
                let ll = buf.line_len(row);
                let n = buf.chars.len();
                assert(ls + ll <= n);
                buf.cursor = ls + ll;
                self.mode = Mode::Insert;
            },
            Key::Char('I') => {
                buf.move_to_line_start();
                self.mode = Mode::Insert;
            },
            Key::Char('o') => {
                buf.snapshot();
                buf.open_line_below();
                self.mode = Mode::Insert;
            },
            Key::Char('O') => {
                buf.snapshot();
                buf.open_line_above();
                self.mode = Mode::Insert;
            },
            Key::Char('s') => {
                buf.snapshot();
                if let Some(ch) = buf.delete_char_at_cursor() {
                    let mut r: Vec<char> = Vec::new();
                    r.push(ch);
                    self.register = r;
                }
                self.mode = Mode::Insert;
            },
            Key::Char('S') => {
                buf.snapshot();
                self.register = buf.change_line();
                self.mode = Mode::Insert;
            },
            Key::Char('v') => {
                self.visual_anchor = buf.cursor;
                self.mode = Mode::Visual;
            },
            Key::Char('V') => {
                self.visual_anchor = buf.cursor;
                self.mode = Mode::VisualLine;
            },
            Key::Char(':') => {
                self.command_buf = String::new();
                self.mode = Mode::Command;
            },
            Key::Char('h') | Key::Left => move_times(buf, Motion::Left, count),
            Key::Char('l') | Key::Right => move_times(buf, Motion::Right, count),
            Key::Char('j') | Key::Down => move_times(buf, Motion::Down, count),
            Key::Char('k') | Key::Up => move_times(buf, Motion::Up, count),
            Key::Char('w') => move_times(buf, Motion::WordForward, count),
            Key::Char('b') => move_times(buf, Motion::WordBackward, count),
            Key::Char('e') => move_times(buf, Motion::WordEnd, count),
            Key::Char('0') | Key::Char('^') => buf.move_to_line_start(),
            Key::Char('$') => buf.move_to_line_end(),
            Key::Char('G') => buf.move_to_bottom(),
            Key::Char('g') => {
                self.pending = Some(Pending::G);
            },
            Key::Char('f') => {
                self.pending = Some(Pending::FindForward);
            },
            Key::Char('F') => {
                self.pending = Some(Pending::FindBackward);
            },
            Key::Char('t') => {
                self.pending = Some(Pending::TilForward);
            },
            Key::Char('T') => {
                self.pending = Some(Pending::TilBackward);
            },
            Key::Char('d') => {
                self.pending = Some(Pending::Operator('d'));
            },
            Key::Char('c') => {
                self.pending = Some(Pending::Operator('c'));
            },
            Key::Char('y') => {
                self.pending = Some(Pending::Operator('y'));
            },
            Key::Char('D') => {
                buf.snapshot();
                self.register = buf.delete_to_end_of_line();
            },
            Key::Char('C') => {
                buf.snapshot();
                self.register = buf.change_to_end_of_line();
                self.mode = Mode::Insert;
            },
            Key::Char('x') => {
                buf.snapshot();
                if let Some(ch) = repeat_edit(buf, Repeat::DeleteChar, count) {
                    let mut r: Vec<char> = Vec::new();
                    r.push(ch);
                    self.register = r;
                    assert(self.register@ =~= seq![ch]);
                }
            },
            Key::Char('r') => {
                self.pending = Some(Pending::Replace);
            },
            Key::Char('~') => {
                buf.snapshot();
                repeat_edit(buf, Repeat::ToggleCase, count);
            },
            Key::Char('J') => {
                buf.snapshot();
                repeat_edit(buf, Repeat::JoinLine, count);
            },
            Key::Char('p') => {
                buf.snapshot();
                buf.paste_after(&self.register);
            },
            Key::Char('P') => {
                buf.snapshot();
                buf.paste_before(&self.register);
            },
            Key::Char('u') => {
                if buf.undo() {
                    self.status_msg = String::from_str("Undo");
                } else {
                    self.status_msg = String::from_str("Already at oldest change");
                }
            },
            _ => {},
        }
        proof {
            reveal_strlit("Undo");
            reveal_strlit("Already at oldest change");
        }
        assert(self@.register =~= normal_command_m(v0, buf_state(b0), key).0.register);
        assert(buf.hist() =~= normal_command_m(v0, buf_state(b0), key).1.0);
    }
}

/// The keys on which the editor would index past the end of an empty text:
/// cutting, copying or switching the case of a visual selection, and an
/// operator with `e`, `G` or `gg`.
pub open spec fn fails_on_empty(v: Vim, key: Key, control: bool) -> bool {
    !control && match key {
        Key::Char(c) => {
            ||| v.mode == Mode::Visual && (c == 'd' || c == 'x' || c == 'c' || c == 'y' || c == '~')
            ||| v.mode == Mode::VisualLine && (c == 'd' || c == 'x' || c == 'c' || c == 'y')
            ||| v.mode == Mode::Normal && v.pending is Some && v.pending->0 is Operator && (c == 'e' || c == 'G'
                || c == 'g')
        },
        _ => false,
    }
}

impl Vim {
    /// Handles one key, `control` telling whether Ctrl (and nothing else)
    /// was held. Ctrl+C quits, Ctrl+[ acts as Esc; other keys go to the
    /// current mode. In command mode Enter may ask the caller to save.
    pub fn handle_key(&mut self, key: Key, control: bool, buf: &mut Buffer) -> (r: Action)
        requires
            ready(*old(self), *old(buf)),
            old(buf).chars@.len() == 0 ==> !fails_on_empty(*old(self), key, control),
        ensures
            settled(*final(self), *final(buf)),
            (final(self)@, buf_state(*final(buf)), r) == key_m(old(self)@, buf_state(*old(buf)), key, control),
            same_frame(*old(buf), *final(buf)),
    {
        if key == Key::Char('c') && control {
            return Action::Quit;
        }
        if key == Key::Char('[') && control {
            self.escape(buf);
            return Action::Continue;
        }
        match self.mode {
            Mode::Normal => self.handle_normal(key, control, buf),
            Mode::Insert => self.handle_insert(key, buf),
            Mode::Visual => self.handle_visual(key, control, buf),
            Mode::VisualLine => self.handle_visual_line(key, control, buf),
            Mode::VisualBlock => self.handle_visual_block(key, control, buf),
            Mode::Command => {
                return self.handle_command(key, buf);
            },
        }
        Action::Continue
    }
}

/// The first position in `from..to` holding `c`.
pub open spec fn first_in(s: Seq<char>, c: char, from: int, to: int) -> Option<int>
    decreases to - from,
{
    if from >= to {
        None
    } else if s[from] == c {
        Some(from)
    } else {
        first_in(s, c, from + 1, to)
    }
}

/// The last position in `from..to` holding `c`.
pub open spec fn last_in(s: Seq<char>, c: char, from: int, to: int) -> Option<int>
    decreases to - from,
{
    if from >= to {
        None
    } else if s[to - 1] == c {
        Some(to - 1)
    } else {
        last_in(s, c, from, to - 1)
    }
}

} // verus!
