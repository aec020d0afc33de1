use vstd::prelude::*;
use crate::buffer::{col_of, line_end_of, line_start_of, row_of, split_lines, Buffer};
use crate::vim::{block_rows, size_limit, Mode, Vim};

verus! {

/// How a character of the editor pane is drawn.
#[derive(Debug, Clone, Copy, PartialEq, Eq, Structural)]
pub enum CellStyle {
    Plain,
    Cursor,
    Selected,
}

/// Where line `i` of `lines` starts in the text they were cut from.
pub open spec fn line_offset(lines: Seq<Seq<char>>, i: int) -> int
    decreases i,
{
    if i <= 0 {
        0
    } else {
        line_offset(lines, i - 1) + lines[i - 1].len() + 1
    }
}

/// The stretches of text the current visual mode selects (both ends
/// included): the character range, the whole lines, or the block's piece
/// of each row; none outside the visual modes.
pub open spec fn selection(vim: Vim, buf: Buffer) -> Seq<(usize, usize)> {
    let s = buf.chars@;
    let a = vim.visual_anchor as int;
    let c = buf.cursor as int;
    match vim.mode {
        Mode::Visual => seq![(if a < c { a } else { c } as usize, if a < c { c } else { a } as usize)],
        Mode::VisualLine => {
            let ar = row_of(s, a);
            let cr = row_of(s, c);
            let first = if ar < cr { ar } else { cr };
            let last = if ar < cr { cr } else { ar };
            let e = line_end_of(s, last);
            let end = if e < s.len() { e + 1 } else { e };
            seq![(line_start_of(s, first) as usize, (if end > 0 { end - 1 } else { 0 }) as usize)]
        },
        Mode::VisualBlock => {
            let ar = row_of(s, a) as int;
            let cr = row_of(s, c) as int;
            let ac = col_of(s, a);
            let cc = col_of(s, c);
            block_rows(
                s,
                if ar < cr { ar } else { cr },
                if ar < cr { cr } else { ar },
                if ac < cc { ac } else { cc },
                if ac < cc { cc } else { ac },
            )
        },
        _ => Seq::empty(),
    }
}

/// Whether text position `p` lies in one of the stretches.
pub open spec fn selected(ranges: Seq<(usize, usize)>, p: int) -> bool {
    exists|k: int| 0 <= k < ranges.len() && (#[trigger] ranges[k]).0 <= p <= ranges[k].1
}

/// The cells of line `i` of the editor pane: each character, the cursor's
/// highlighted, selected ones marked; and a highlighted blank after the
/// text when the cursor stands past the end of its line.
pub open spec fn line_cells(vim: Vim, buf: Buffer, i: int) -> Seq<(char, CellStyle)> {
    let s = buf.chars@;
    let lines = split_lines(s);
    let cr = row_of(s, buf.cursor as int) as int;
    let cc = col_of(s, buf.cursor as int);
    let l = lines[i];
    let cells = Seq::new(
        l.len(),
        |j: int|
            (
                l[j],
                if i == cr && j == cc {
                    CellStyle::Cursor
                } else if selected(selection(vim, buf), line_offset(lines, i) + j) {
                    CellStyle::Selected
                } else {
                    CellStyle::Plain
                },
            ),
    );
    if i == cr && cc >= l.len() {
        cells.push((' ', CellStyle::Cursor))
    } else {
        cells
    }
}

/// The cells of the editor pane, line by line.
pub fn editor_lines(buf: &Buffer, vim: &Vim) -> (r: Vec<Vec<(char, CellStyle)>>)
    requires
        buf.cursor <= buf.chars@.len() <= size_limit(),
        vim.visual_anchor <= buf.chars@.len(),
    ensures
        r@.len() == split_lines(buf.chars@).len(),
        forall|i: int| 0 <= i < r@.len() ==> (#[trigger] r@[i])@ == line_cells(*vim, *buf, i),
{
    let lines = buf.lines();
    let ghost ls = split_lines(buf.chars@);
    let cursor_row = buf.cursor_row();
    let cursor_col = buf.cursor_col();
    let ranges: Vec<(usize, usize)> = match vim.mode {
        Mode::Visual => {
            let (a, b) = vim.visual_range(buf);
            vec![(a, b)]
        },
        Mode::VisualLine => {
            let (a, b) = vim.visual_line_range(buf);
            vec![(a, b)]
        },
        Mode::VisualBlock => vim.visual_block_ranges(buf),
        _ => Vec::new(),
    };
    assert(ranges@ =~= selection(*vim, *buf));
    let mut out: Vec<Vec<(char, CellStyle)>> = Vec::new();
    let mut offset: u128 = 0;
    let mut i: usize = 0;
    while i < lines.len()
        invariant
            i <= lines@.len(),
            lines@.map_values(|v: Vec<char>| v@) == ls,
            ls == split_lines(buf.chars@),
            ranges@ == selection(*vim, *buf),
            cursor_row == row_of(buf.chars@, buf.cursor as int),
            cursor_col == col_of(buf.chars@, buf.cursor as int),
            offset == line_offset(ls, i as int),
            offset <= i * 0x1_0000_0000_0000_0000,
            out@.len() == i,
            forall|k: int| 0 <= k < i ==> (#[trigger] out@[k])@ == line_cells(*vim, *buf, k),
        decreases lines@.len() - i,
    {
        let line = &lines[i];
        assert(line@ == ls[i as int]);
        let mut cells: Vec<(char, CellStyle)> = Vec::new();
        let mut j: usize = 0;
        while j < line.len()
            invariant
                j <= line@.len(),
                line@ == ls[i as int],
                ranges@ == selection(*vim, *buf),
                i < lines@.len(),
                lines@.map_values(|v: Vec<char>| v@) == ls,
                ls == split_lines(buf.chars@),
                cursor_row == row_of(buf.chars@, buf.cursor as int),
                cursor_col == col_of(buf.chars@, buf.cursor as int),
                offset == line_offset(ls, i as int),
                offset <= i * 0x1_0000_0000_0000_0000,
                cells@ =~= line_cells(*vim, *buf, i as int).take(j as int),
            decreases line@.len() - j,
        {
            let p: u128 = offset + j as u128;
            let mut in_sel = false;
            let mut k: usize = 0;
            while k < ranges.len()
                invariant
                    k <= ranges@.len(),
                    in_sel == exists|q: int| 0 <= q < k && (#[trigger] ranges@[q]).0 <= p <= ranges@[q].1,
                decreases ranges@.len() - k,
            {
                if ranges[k].0 as u128 <= p && p <= ranges[k].1 as u128 {
                    in_sel = true;
                }
                k += 1;
            }
            assert(in_sel == selected(ranges@, p as int));
            let style = if i == cursor_row && j == cursor_col {
                CellStyle::Cursor
            } else if in_sel {
                CellStyle::Selected
            } else {
                CellStyle::Plain
            };
            let ghost want = line_cells(*vim, *buf, i as int);
            assert(want[j as int] == (line@[j as int], style));
            cells.push((line[j], style));
            j += 1;
        }
        if i == cursor_row && cursor_col >= line.len() {
            cells.push((' ', CellStyle::Cursor));
        }
        assert(cells@ =~= line_cells(*vim, *buf, i as int));
        out.push(cells);
        assert(offset + line@.len() + 1 <= (i + 1) * 0x1_0000_0000_0000_0000) by (nonlinear_arith)
            requires
                offset <= i * 0x1_0000_0000_0000_0000,
                line@.len() <= 0xffff_ffff_ffff_ffff,
        ;
        offset = offset + line.len() as u128 + 1;
        i += 1;
    }
    out
}

} // verus!
