use vstd::prelude::*;
use std::path::PathBuf;
use crate::text::{chars_of, string_of};
use crate::trusted::{
    is_alphabetic, is_uppercase, lowercase_head, to_lowercase_head, to_uppercase_head, unicode_alphabetic,
    unicode_uppercase, uppercase_head,
};

verus! {

/// Number of newline characters in `s`.
pub open spec fn nl_count(s: Seq<char>) -> nat
    decreases s.len(),
{
    if s.len() == 0 {
        0
    } else {
        nl_count(s.drop_last()) + if s.last() == '\n' { 1nat } else { 0nat }
    }
}

/// Index of the last newline strictly before position `i`, or -1 when there is none.
pub open spec fn last_nl_before(s: Seq<char>, i: int) -> int
    decreases i,
{
    if i <= 0 {
        -1
    } else if s[i - 1] == '\n' {
        i - 1
    } else {
        last_nl_before(s, i - 1)
    }
}

/// Index of the first newline at or after `i`, or `s.len()` when there is none.
pub open spec fn first_nl_from(s: Seq<char>, i: int) -> int
    decreases s.len() - i,
{
    if i >= s.len() {
        s.len() as int
    } else if s[i] == '\n' {
        i
    } else {
        first_nl_from(s, i + 1)
    }
}

/// Position of the first character of line `row` (0-based); `s.len()` when the
/// text has fewer lines.
pub open spec fn line_start_of(s: Seq<char>, row: nat) -> int
    decreases row,
{
    if row == 0 {
        0
    } else {
        let prev = line_start_of(s, (row - 1) as nat);
        let e = first_nl_from(s, prev);
        if e < s.len() {
            e + 1
        } else {
            s.len() as int
        }
    }
}

/// Position just past the last character of line `row` (its newline, or the end).
pub open spec fn line_end_of(s: Seq<char>, row: nat) -> int {
    first_nl_from(s, line_start_of(s, row))
}

/// Number of characters on line `row`, newline excluded; 0 past the last line.
pub open spec fn line_len_of(s: Seq<char>, row: nat) -> int {
    line_end_of(s, row) - line_start_of(s, row)
}

/// The text cut at every newline (newlines dropped); always at least one line.
pub open spec fn split_lines(s: Seq<char>) -> Seq<Seq<char>>
    decreases s.len(),
{
    if s.len() == 0 {
        seq![Seq::<char>::empty()]
    } else {
        let prev = split_lines(s.drop_last());
        if s.last() == '\n' {
            prev.push(Seq::<char>::empty())
        } else {
            prev.update(prev.len() - 1, prev.last().push(s.last()))
        }
    }
}

pub proof fn lemma_split_lines_len(s: Seq<char>)
    ensures
        split_lines(s).len() == nl_count(s) + 1,
    decreases s.len(),
{
    if s.len() > 0 {
        lemma_split_lines_len(s.drop_last());
    }
}

pub proof fn lemma_nl_count_le(s: Seq<char>)
    ensures
        nl_count(s) <= s.len(),
    decreases s.len(),
{
    if s.len() > 0 {
        lemma_nl_count_le(s.drop_last());
    }
}

pub proof fn lemma_first_nl_from_bounds(s: Seq<char>, i: int)
    requires
        0 <= i,
    ensures
        i <= s.len() ==> i <= first_nl_from(s, i) <= s.len(),
        i > s.len() ==> first_nl_from(s, i) == s.len(),
        first_nl_from(s, i) < s.len() ==> s[first_nl_from(s, i)] == '\n',
        forall|k: int| i <= k < first_nl_from(s, i) ==> s[k] != '\n',
    decreases s.len() - i,
{
    if i < s.len() && s[i] != '\n' {
        lemma_first_nl_from_bounds(s, i + 1);
    }
}

pub proof fn lemma_line_start_bounds(s: Seq<char>, row: nat)
    ensures
        0 <= line_start_of(s, row) <= s.len(),
        line_start_of(s, row) > 0 ==> s[line_start_of(s, row) - 1] == '\n' || line_start_of(s, row) == s.len(),
    decreases row,
{
    if row > 0 {
        lemma_line_start_bounds(s, (row - 1) as nat);
        lemma_first_nl_from_bounds(s, line_start_of(s, (row - 1) as nat));
    }
}

pub proof fn lemma_line_bounds(s: Seq<char>, row: nat)
    ensures
        0 <= line_start_of(s, row) <= line_end_of(s, row) <= s.len(),
        line_end_of(s, row) < s.len() ==> s[line_end_of(s, row)] == '\n',
        forall|k: int| line_start_of(s, row) <= k < line_end_of(s, row) ==> s[k] != '\n',
{
    lemma_line_start_bounds(s, row);
    lemma_first_nl_from_bounds(s, line_start_of(s, row));
}

pub struct Buffer {
    pub chars: Vec<char>,
    pub cursor: usize,
    pub scroll_offset: u16,
    pub file_path: PathBuf,
    pub dirty: bool,
    pub undo_stack: Vec<(Vec<char>, usize)>,
    pub redo_stack: Vec<(Vec<char>, usize)>,
}

impl Buffer {
    /// A buffer holding `text` for the file at `file_path`: cursor at the
    /// start, not scrolled, unmodified, with no undo or redo history.
    pub fn from_text(file_path: PathBuf, text: &str) -> (r: Buffer)
        ensures
            r.chars@ == text@,
            r.cursor == 0,
            r.scroll_offset == 0,
            r.file_path == file_path,
            !r.dirty,
            r.undo_stack@.len() == 0,
            r.redo_stack@.len() == 0,
    {
        Buffer {
            chars: chars_of(text),
            cursor: 0,
            scroll_offset: 0,
            file_path,
            dirty: false,
            undo_stack: Vec::new(),
            redo_stack: Vec::new(),
        }
    }

    pub fn cursor_row(&self) -> (r: usize)
        requires
            self.cursor <= self.chars@.len(),
        ensures
            r == nl_count(self.chars@.take(self.cursor as int)),
    {
        let ghost s = self.chars@;
        let mut count: usize = 0;
        let mut i: usize = 0;
        while i < self.cursor
            invariant
                i <= self.cursor <= s.len(),
                s == self.chars@,
                count <= i,
                count == nl_count(s.take(i as int)),
            decreases self.cursor - i,
        {
            if self.chars[i] == '\n' {
                count = count + 1;
            }
            i = i + 1;
            assert(s.take(i as int).drop_last() =~= s.take(i - 1));
        }
        count
    }

    pub fn cursor_col(&self) -> (r: usize)
        requires
            self.cursor <= self.chars@.len(),
        ensures
            r == self.cursor - 1 - last_nl_before(self.chars@, self.cursor as int),
    {
        let mut j: usize = self.cursor;
        while j > 0 && self.chars[j - 1] != '\n'
            invariant
                j <= self.cursor <= self.chars@.len(),
                last_nl_before(self.chars@, j as int) == last_nl_before(self.chars@, self.cursor as int),
            decreases j,
        {
            j = j - 1;
        }
        self.cursor - j
    }

    pub fn total_lines(&self) -> (r: usize)
        requires
            self.chars@.len() < usize::MAX,
        ensures
            r == nl_count(self.chars@) + 1,
    {
        let ghost s = self.chars@;
        let len = self.chars.len();
        let mut count: usize = 0;
        let mut i: usize = 0;
        while i < len
            invariant
                i <= len == s.len() < usize::MAX,
                s == self.chars@,
                count <= i,
                count == nl_count(s.take(i as int)),
            decreases len - i,
        {
            if self.chars[i] == '\n' {
                count = count + 1;
            }
            i = i + 1;
            assert(s.take(i as int).drop_last() =~= s.take(i - 1));
        }
        assert(s.take(len as int) =~= s);
        count + 1
    }

    pub fn line_len(&self, row: usize) -> (r: usize)
        ensures
            r == line_len_of(self.chars@, row as nat),
    {
        let start = self.line_start(row);
        proof {
            lemma_line_bounds(self.chars@, row as nat);
        }
        let end = self.find_nl_from(start);
        end - start
    }

    pub fn lines(&self) -> (r: Vec<Vec<char>>)
        ensures
            r@.map_values(|v: Vec<char>| v@) == split_lines(self.chars@),
    {
        let ghost s = self.chars@;
        let len = self.chars.len();
        let mut done: Vec<Vec<char>> = Vec::new();
        let mut cur: Vec<char> = Vec::new();
        let mut i: usize = 0;
        while i < len
            invariant
                i <= len == s.len(),
                s == self.chars@,
                done@.map_values(|v: Vec<char>| v@).push(cur@) == split_lines(s.take(i as int)),
            decreases len - i,
        {
            let ch = self.chars[i];
            let ghost before = done@.map_values(|v: Vec<char>| v@).push(cur@);
            assert(s.take(i + 1).drop_last() =~= s.take(i as int));
            if ch == '\n' {
                done.push(cur);
                cur = Vec::new();
                assert(done@.map_values(|v: Vec<char>| v@).push(cur@) =~= before.push(Seq::<char>::empty()));
            } else {
                cur.push(ch);
                assert(done@.map_values(|v: Vec<char>| v@).push(cur@) =~= before.update(before.len() - 1, before.last().push(ch)));
            }
            i = i + 1;
        }
        assert(s.take(len as int) =~= s);
        done.push(cur);
        assert(done@.map_values(|v: Vec<char>| v@) =~= split_lines(s));
        done
    }

    pub fn char_at(&self, pos: usize) -> (r: Option<char>)
        ensures
            pos < self.chars@.len() ==> r == Some(self.chars@[pos as int]),
            pos >= self.chars@.len() ==> r.is_none(),
    {
        if pos < self.chars.len() {
            Some(self.chars[pos])
        } else {
            None
        }
    }

    /// First newline at or after `from`, or the length of the text.
    fn find_nl_from(&self, from: usize) -> (r: usize)
        requires
            from <= self.chars@.len(),
        ensures
            r == first_nl_from(self.chars@, from as int),
    {
        let len = self.chars.len();
        let mut i = from;
        while i < len
            invariant
                from <= i <= len,
                len == self.chars@.len(),
                first_nl_from(self.chars@, i as int) == first_nl_from(self.chars@, from as int),
            decreases len - i,
        {
            if self.chars[i] == '\n' {
                return i;
            }
            i = i + 1;
        }
        i
    }

    pub fn line_start(&self, row: usize) -> (r: usize)
        ensures
            r == line_start_of(self.chars@, row as nat),
    {
        let ghost s = self.chars@;
        let len = self.chars.len();
        let mut start: usize = 0;
        let mut r: usize = 0;
        while r < row
            invariant
                r <= row,
                len == s.len(),
                s == self.chars@,
                start == line_start_of(s, r as nat),
                start < len || (start == len && r == 0),
            decreases row - r,
        {
            proof {
                lemma_line_start_bounds(s, r as nat);
            }
            let e = self.find_nl_from(start);
            proof {
                lemma_first_nl_from_bounds(s, start as int);
            }
            if e < len {
                start = e + 1;
                r = r + 1;
                if start == len {
                    proof {
                        lemma_line_start_saturates(s, r as nat, row as nat);
                    }
                    return start;
                }
            } else {
                proof {
                    lemma_line_start_saturates(s, (r + 1) as nat, row as nat);
                }
                return len;
            }
        }
        start
    }
}

/// Once a line start reaches the end of the text it stays there.
pub proof fn lemma_line_start_saturates(s: Seq<char>, r: nat, r2: nat)
    requires
        r <= r2,
        line_start_of(s, r) == s.len(),
    ensures
        line_start_of(s, r2) == s.len(),
    decreases r2 - r,
{
    if r < r2 {
        lemma_line_start_saturates(s, r, (r2 - 1) as nat);
        lemma_first_nl_from_bounds(s, s.len() as int);
    }
}

} // verus!

verus! {

pub proof fn lemma_last_nl_before_props(s: Seq<char>, i: int)
    requires
        0 <= i <= s.len(),
    ensures
        -1 <= last_nl_before(s, i) < i,
        last_nl_before(s, i) >= 0 ==> s[last_nl_before(s, i)] == '\n',
        forall|j: int| last_nl_before(s, i) < j < i ==> s[j] != '\n',
    decreases i,
{
    if i > 0 && s[i - 1] != '\n' {
        lemma_last_nl_before_props(s, i - 1);
    }
}

pub proof fn lemma_first_nl_from_exact(s: Seq<char>, p: int, q: int)
    requires
        0 <= p <= q < s.len(),
        s[q] == '\n',
        forall|j: int| p <= j < q ==> s[j] != '\n',
    ensures
        first_nl_from(s, p) == q,
    decreases q - p,
{
    if p < q {
        lemma_first_nl_from_exact(s, p + 1, q);
    }
}

/// The line holding position `c` starts just after the last newline before `c`.
pub proof fn lemma_row_start(s: Seq<char>, c: int)
    requires
        0 <= c <= s.len(),
    ensures
        line_start_of(s, nl_count(s.take(c))) == last_nl_before(s, c) + 1,
    decreases c,
{
    if c > 0 {
        assert(s.take(c).drop_last() =~= s.take(c - 1));
        lemma_row_start(s, c - 1);
        if s[c - 1] == '\n' {
            let k = nl_count(s.take(c - 1));
            lemma_last_nl_before_props(s, c - 1);
            lemma_first_nl_from_exact(s, last_nl_before(s, c - 1) + 1, c - 1);
            assert(nl_count(s.take(c)) == k + 1);
        }
    }
}

} // verus!

verus! {

pub open spec fn is_blank(c: char) -> bool {
    c == ' ' || c == '\n'
}

/// First position at or after `i` holding a blank (space or newline), or the end.
pub open spec fn skip_word_fwd(s: Seq<char>, i: int) -> int
    decreases s.len() - i,
{
    if i >= s.len() || is_blank(s[i]) {
        i
    } else {
        skip_word_fwd(s, i + 1)
    }
}

/// First position at or after `i` not holding a blank, or the end.
pub open spec fn skip_blank_fwd(s: Seq<char>, i: int) -> int
    decreases s.len() - i,
{
    if i >= s.len() || !is_blank(s[i]) {
        i
    } else {
        skip_blank_fwd(s, i + 1)
    }
}

/// First position at or after `i` not holding a space, or the end.
pub open spec fn skip_spaces_fwd(s: Seq<char>, i: int) -> int
    decreases s.len() - i,
{
    if i >= s.len() || s[i] != ' ' {
        i
    } else {
        skip_spaces_fwd(s, i + 1)
    }
}

/// Walking back from `i` over blanks (stopping at 0).
pub open spec fn skip_blank_back(s: Seq<char>, i: int) -> int
    decreases i,
{
    if i <= 0 || !is_blank(s[i]) {
        i
    } else {
        skip_blank_back(s, i - 1)
    }
}

/// Walking back from `i` while the previous character is not a blank.
pub open spec fn skip_word_back(s: Seq<char>, i: int) -> int
    decreases i,
{
    if i <= 0 || is_blank(s[i - 1]) {
        i
    } else {
        skip_word_back(s, i - 1)
    }
}

/// Walking forward from `i` while the next character is not a blank: the last
/// character of the word that holds `i`.
pub open spec fn word_last_fwd(s: Seq<char>, i: int) -> int
    decreases s.len() - i,
{
    if i + 1 < s.len() && !is_blank(s[i + 1]) {
        word_last_fwd(s, i + 1)
    } else {
        i
    }
}

/// Row (0-based) of position `c`.
pub open spec fn row_of(s: Seq<char>, c: int) -> nat {
    nl_count(s.take(c))
}

/// Column of position `c` within its row.
pub open spec fn col_of(s: Seq<char>, c: int) -> int {
    c - 1 - last_nl_before(s, c)
}

/// Nothing but the cursor may have changed.
pub open spec fn moved_only(a: Buffer, b: Buffer) -> bool {
    &&& a.chars@ == b.chars@
    &&& a.dirty == b.dirty
    &&& same_history(a, b)
}

/// Scroll position, path and undo history are unchanged.
pub open spec fn same_history(a: Buffer, b: Buffer) -> bool {
    &&& a.scroll_offset == b.scroll_offset
    &&& a.file_path == b.file_path
    &&& a.undo_stack@ == b.undo_stack@
    &&& a.redo_stack@ == b.redo_stack@
}

/// `v` with the characters in `start..end` removed.
pub fn take_range(v: &mut Vec<char>, start: usize, end: usize) -> (removed: Vec<char>)
    requires
        start <= end <= old(v)@.len(),
    ensures
        removed@ == old(v)@.subrange(start as int, end as int),
        final(v)@ == old(v)@.take(start as int) + old(v)@.skip(end as int),
{
    let ghost s = v@;
    let len = v.len();
    let mut kept: Vec<char> = Vec::new();
    let mut removed: Vec<char> = Vec::new();
    let mut i: usize = 0;
    while i < start
        invariant
            i <= start <= end <= len == s.len(),
            s == v@,
            kept@ == s.take(i as int),
        decreases start - i,
    {
        kept.push(v[i]);
        i = i + 1;
        assert(s.take(i as int) =~= s.take(i - 1).push(s[i - 1]));
    }
    while i < end
        invariant
            start <= i <= end <= len == s.len(),
            s == v@,
            kept@ == s.take(start as int),
            removed@ == s.subrange(start as int, i as int),
        decreases end - i,
    {
        removed.push(v[i]);
        i = i + 1;
        assert(s.subrange(start as int, i as int) =~= s.subrange(start as int, i - 1).push(s[i - 1]));
    }
    while i < len
        invariant
            end <= i <= len == s.len(),
            s == v@,
            kept@ == s.take(start as int) + s.subrange(end as int, i as int),
        decreases len - i,
    {
        kept.push(v[i]);
        i = i + 1;
        assert(s.subrange(end as int, i as int) =~= s.subrange(end as int, i - 1).push(s[i - 1]));
    }
    assert(s.subrange(end as int, len as int) =~= s.skip(end as int));
    *v = kept;
    removed
}

/// `v` with `items` inserted at `pos`.
pub fn insert_all(v: &mut Vec<char>, pos: usize, items: &[char])
    requires
        pos <= old(v)@.len(),
    ensures
        final(v)@ == old(v)@.take(pos as int) + items@ + old(v)@.skip(pos as int),
{
    let ghost s = v@;
    let len = v.len();
    let mut out: Vec<char> = Vec::new();
    let mut i: usize = 0;
    while i < pos
        invariant
            i <= pos <= len == s.len(),
            s == v@,
            out@ == s.take(i as int),
        decreases pos - i,
    {
        out.push(v[i]);
        i = i + 1;
        assert(s.take(i as int) =~= s.take(i - 1).push(s[i - 1]));
    }
    let mut j: usize = 0;
    while j < items.len()
        invariant
            j <= items@.len(),
            out@ == s.take(pos as int) + items@.take(j as int),
        decreases items@.len() - j,
    {
        out.push(items[j]);
        j = j + 1;
        assert(items@.take(j as int) =~= items@.take(j - 1).push(items@[j - 1]));
    }
    assert(items@.take(items@.len() as int) =~= items@);
    let mut k: usize = pos;
    while k < len
        invariant
            pos <= k <= len == s.len(),
            s == v@,
            out@ == s.take(pos as int) + items@ + s.subrange(pos as int, k as int),
        decreases len - k,
    {
        out.push(v[k]);
        k = k + 1;
        assert(s.subrange(pos as int, k as int) =~= s.subrange(pos as int, k - 1).push(s[k - 1]));
    }
    assert(s.subrange(pos as int, len as int) =~= s.skip(pos as int));
    assert(out@ =~= s.take(pos as int) + items@ + s.skip(pos as int));
    *v = out;
}

} // verus!

verus! {

/// A position never lies past the end of its own line.
pub proof fn lemma_pos_in_row(s: Seq<char>, c: int)
    requires
        0 <= c <= s.len(),
    ensures
        line_start_of(s, row_of(s, c)) <= c <= line_end_of(s, row_of(s, c)),
        line_start_of(s, row_of(s, c)) + col_of(s, c) == c,
{
    lemma_row_start(s, c);
    lemma_last_nl_before_props(s, c);
    lemma_first_nl_from_ge(s, last_nl_before(s, c) + 1, c);
}

pub proof fn lemma_first_nl_from_ge(s: Seq<char>, p: int, c: int)
    requires
        0 <= p <= c <= s.len(),
        forall|j: int| p <= j < c ==> s[j] != '\n',
    ensures
        first_nl_from(s, p) >= c,
    decreases c - p,
{
    if p < c {
        lemma_first_nl_from_ge(s, p + 1, c);
    } else {
        lemma_first_nl_from_bounds(s, c);
    }
}

impl Buffer {
    pub fn move_left(&mut self)
        requires
            old(self).cursor <= old(self).chars@.len(),
        ensures
            moved_only(*old(self), *final(self)),
            final(self).cursor == if old(self).cursor > 0 && old(self).chars@[old(self).cursor - 1] != '\n' {
                old(self).cursor - 1
            } else {
                old(self).cursor as int
            },
            final(self).cursor <= final(self).chars@.len(),
    {
        if self.cursor > 0 && self.char_at(self.cursor - 1) != Some('\n') {
            self.cursor -= 1;
        }
    }

    pub fn move_right(&mut self)
        requires
            old(self).cursor <= old(self).chars@.len(),
        ensures
            moved_only(*old(self), *final(self)),
            final(self).cursor == if old(self).cursor < old(self).chars@.len() && old(self).chars@[old(self).cursor as int] != '\n' {
                old(self).cursor + 1
            } else {
                old(self).cursor as int
            },
            final(self).cursor <= final(self).chars@.len(),
    {
        if self.cursor < self.chars.len() && self.char_at(self.cursor) != Some('\n') {
            self.cursor += 1;
        }
    }

    /// Moves `delta` rows up or down, keeping the column where the target row
    /// is long enough; does nothing when the target row does not exist.
    pub fn move_vertical(&mut self, delta: i32)
        requires
            old(self).cursor <= old(self).chars@.len() <= i32::MAX,
            row_of(old(self).chars@, old(self).cursor as int) + delta <= i32::MAX,
        ensures
            moved_only(*old(self), *final(self)),
            ({
                let s = old(self).chars@;
                let c = old(self).cursor as int;
                let target = if row_of(s, c) + delta < 0 { 0 } else { row_of(s, c) + delta };
                final(self).cursor == if target >= nl_count(s) + 1 {
                    c
                } else if col_of(s, c) <= line_len_of(s, target as nat) {
                    line_start_of(s, target as nat) + col_of(s, c)
                } else {
                    line_start_of(s, target as nat) + line_len_of(s, target as nat)
                }
            }),
            final(self).cursor <= final(self).chars@.len(),
    {
        let ghost s = self.chars@;
        proof {
            lemma_nl_count_le(s.take(self.cursor as int));
            lemma_pos_in_row(s, self.cursor as int);
        }
        let row = self.cursor_row() as i32;
        let col = self.cursor_col();
        let sum = row + delta;
        let new_row: usize = if sum < 0 { 0 } else { sum as usize };
        if new_row >= self.total_lines() {
            return;
        }
        let ll = self.line_len(new_row);
        let new_col = if col < ll { col } else { ll };
        proof {
            lemma_line_bounds(s, new_row as nat);
        }
        self.cursor = self.line_start(new_row) + new_col;
    }

    pub fn move_to_line_start(&mut self)
        requires
            old(self).cursor <= old(self).chars@.len(),
        ensures
            moved_only(*old(self), *final(self)),
            final(self).cursor == line_start_of(old(self).chars@, row_of(old(self).chars@, old(self).cursor as int)),
            final(self).cursor <= old(self).cursor,
            final(self).cursor <= final(self).chars@.len(),
    {
        proof {
            lemma_pos_in_row(self.chars@, self.cursor as int);
        }
        let row = self.cursor_row();
        self.cursor = self.line_start(row);
    }

    /// Moves onto the last character of the current line (or its start when empty).
    pub fn move_to_line_end(&mut self)
        requires
            old(self).cursor <= old(self).chars@.len(),
        ensures
            moved_only(*old(self), *final(self)),
            ({
                let s = old(self).chars@;
                let row = row_of(s, old(self).cursor as int);
                final(self).cursor == if line_len_of(s, row) > 0 {
                    line_end_of(s, row) - 1
                } else {
                    line_end_of(s, row)
                }
            }),
            final(self).cursor <= final(self).chars@.len(),
    {
        let row = self.cursor_row();
        proof {
            lemma_line_bounds(self.chars@, row as nat);
        }
        let start = self.line_start(row);
        let end = self.find_nl_from(start);
        self.cursor = if end > start { end - 1 } else { end };
    }

    pub fn move_to_top(&mut self)
        ensures
            moved_only(*old(self), *final(self)),
            final(self).cursor == 0,
            final(self).cursor <= final(self).chars@.len(),
    {
        self.cursor = 0;
    }

    /// Moves to the start of the last line.
    pub fn move_to_bottom(&mut self)
        requires
            old(self).chars@.len() < usize::MAX,
        ensures
            moved_only(*old(self), *final(self)),
            final(self).cursor == line_start_of(old(self).chars@, nl_count(old(self).chars@)),
            final(self).cursor <= final(self).chars@.len(),
    {
        let last = self.total_lines() - 1;
        proof {
            lemma_line_start_bounds(self.chars@, last as nat);
        }
        self.cursor = self.line_start(last);
    }

    /// Past the rest of the current word, then past the blanks after it.
    pub fn word_forward(&mut self)
        requires
            old(self).cursor <= old(self).chars@.len(),
        ensures
            moved_only(*old(self), *final(self)),
            final(self).cursor == skip_blank_fwd(old(self).chars@, skip_word_fwd(old(self).chars@, old(self).cursor as int)),
            final(self).cursor <= final(self).chars@.len(),
    {
        let ghost s = self.chars@;
        let ghost c = self.cursor as int;
        let len = self.chars.len();
        let mut pos = self.cursor;
        while pos < len && self.chars[pos] != ' ' && self.chars[pos] != '\n'
            invariant
                c <= pos <= len == s.len(),
                s == self.chars@,
                skip_word_fwd(s, pos as int) == skip_word_fwd(s, c),
            decreases len - pos,
        {
            pos += 1;
        }
        let ghost p1 = pos as int;
        while pos < len && (self.chars[pos] == ' ' || self.chars[pos] == '\n')
            invariant
                p1 <= pos <= len == s.len(),
                s == self.chars@,
                p1 == skip_word_fwd(s, c),
                skip_blank_fwd(s, pos as int) == skip_blank_fwd(s, p1),
            decreases len - pos,
        {
            pos += 1;
        }
        self.cursor = pos;
    }

    /// Back over the blanks before the cursor, then to the start of that word.
    pub fn word_backward(&mut self)
        requires
            old(self).cursor <= old(self).chars@.len(),
        ensures
            moved_only(*old(self), *final(self)),
            ({
                let s = old(self).chars@;
                let c = old(self).cursor as int;
                let p0 = if c > 0 { c - 1 } else { c };
                final(self).cursor == skip_word_back(s, skip_blank_back(s, p0))
            }),
            final(self).cursor <= old(self).cursor,
            final(self).cursor <= final(self).chars@.len(),
    {
        let ghost s = self.chars@;
        let mut pos = self.cursor;
        if pos > 0 {
            pos -= 1;
        }
        let ghost p0 = pos as int;
        while pos > 0 && (self.chars[pos] == ' ' || self.chars[pos] == '\n')
            invariant
                pos <= p0,
                p0 < s.len() || p0 == 0,
                s == self.chars@,
                skip_blank_back(s, pos as int) == skip_blank_back(s, p0),
            decreases pos,
        {
            pos -= 1;
        }
        let ghost p1 = pos as int;
        while pos > 0 && self.chars[pos - 1] != ' ' && self.chars[pos - 1] != '\n'
            invariant
                pos <= p1 <= p0,
                p0 < s.len() || p0 == 0,
                s == self.chars@,
                p1 == skip_blank_back(s, p0),
                skip_word_back(s, pos as int) == skip_word_back(s, p1),
            decreases pos,
        {
            pos -= 1;
        }
        self.cursor = pos;
    }

    /// Keeps the cursor row inside a viewport of `viewport_height` rows that
    /// starts at `scroll_offset` (rows are counted modulo 2^16).
    pub fn adjust_scroll(&mut self, viewport_height: u16)
        requires
            old(self).cursor <= old(self).chars@.len(),
            ({
                let row = row_of(old(self).chars@, old(self).cursor as int) as u16;
                row >= old(self).scroll_offset ==> old(self).scroll_offset + viewport_height <= u16::MAX
                    && (row >= old(self).scroll_offset + viewport_height ==> row - viewport_height + 1 <= u16::MAX)
            }),
        ensures
            final(self).chars@ == old(self).chars@,
            final(self).cursor == old(self).cursor,
            final(self).dirty == old(self).dirty,
            final(self).file_path == old(self).file_path,
            final(self).undo_stack@ == old(self).undo_stack@,
            final(self).redo_stack@ == old(self).redo_stack@,
            ({
                let row = row_of(old(self).chars@, old(self).cursor as int) as u16;
                let top = old(self).scroll_offset;
                final(self).scroll_offset == if row < top {
                    row as int
                } else if row >= top + viewport_height {
                    row - viewport_height + 1
                } else {
                    top as int
                }
            }),
            final(self).cursor <= final(self).chars@.len(),
    {
        let row = self.cursor_row() as u16;
        if row < self.scroll_offset {
            self.scroll_offset = row;
        } else if row >= self.scroll_offset + viewport_height {
            self.scroll_offset = row - viewport_height + 1;
        }
    }
}

} // verus!

verus! {

/// `b` is `a` after a change of text: the history is kept and the buffer is marked dirty.
pub open spec fn edited(a: Buffer, b: Buffer) -> bool {
    same_history(a, b) && b.dirty
}

/// Start and (exclusive) end of the whole line holding position `c`,
/// its trailing newline included when there is one.
pub open spec fn line_span_end(s: Seq<char>, c: int) -> int {
    let e = line_end_of(s, row_of(s, c));
    if e < s.len() {
        e + 1
    } else {
        e
    }
}

impl Buffer {
    pub fn insert_char(&mut self, c: char)
        requires
            old(self).cursor <= old(self).chars@.len() < usize::MAX,
        ensures
            edited(*old(self), *final(self)),
            final(self).chars@ == old(self).chars@.insert(old(self).cursor as int, c),
            final(self).cursor == old(self).cursor + 1,
            final(self).cursor <= final(self).chars@.len(),
    {
        self.chars.insert(self.cursor, c);
        self.cursor += 1;
        self.dirty = true;
    }

    pub fn delete_char_backward(&mut self)
        requires
            old(self).cursor <= old(self).chars@.len(),
        ensures
            old(self).cursor == 0 ==> *final(self) == *old(self),
            old(self).cursor > 0 ==> edited(*old(self), *final(self))
                && final(self).chars@ == old(self).chars@.remove(old(self).cursor - 1)
                && final(self).cursor == old(self).cursor - 1,
            final(self).cursor <= final(self).chars@.len(),
    {
        if self.cursor > 0 {
            self.cursor -= 1;
            self.chars.remove(self.cursor);
            self.dirty = true;
        }
    }

    pub fn delete_char_at_cursor(&mut self) -> (r: Option<char>)
        ensures
            old(self).cursor >= old(self).chars@.len() ==> r.is_none() && *final(self) == *old(self),
            old(self).cursor < old(self).chars@.len() ==> {
                &&& r == Some(old(self).chars@[old(self).cursor as int])
                &&& edited(*old(self), *final(self))
                &&& final(self).chars@ == old(self).chars@.remove(old(self).cursor as int)
                &&& final(self).cursor == if old(self).cursor >= final(self).chars@.len() && old(self).cursor > 0 {
                    old(self).cursor - 1
                } else {
                    old(self).cursor as int
                }
            },
            old(self).cursor <= old(self).chars@.len() ==> final(self).cursor <= final(self).chars@.len(),
    {
        if self.cursor < self.chars.len() {
            let ch = self.chars.remove(self.cursor);
            if self.cursor >= self.chars.len() && self.cursor > 0 {
                self.cursor -= 1;
            }
            self.dirty = true;
            Some(ch)
        } else {
            None
        }
    }

    /// Inserts a newline at the end of the current line and moves onto the new line.
    pub fn open_line_below(&mut self)
        requires
            old(self).cursor <= old(self).chars@.len() < usize::MAX,
        ensures
            edited(*old(self), *final(self)),
            ({
                let s = old(self).chars@;
                let e = line_end_of(s, row_of(s, old(self).cursor as int));
                &&& final(self).chars@ == s.insert(e, '\n')
                &&& final(self).cursor == e + 1
            }),
            final(self).cursor <= final(self).chars@.len(),
    {
        let row = self.cursor_row();
        proof {
            lemma_line_bounds(self.chars@, row as nat);
        }
        let start = self.line_start(row);
        let end = self.find_nl_from(start);
        self.chars.insert(end, '\n');
        self.cursor = end + 1;
        self.dirty = true;
    }

    /// Inserts a newline at the start of the current line and stays on the new empty line.
    pub fn open_line_above(&mut self)
        requires
            old(self).cursor <= old(self).chars@.len() < usize::MAX,
        ensures
            edited(*old(self), *final(self)),
            ({
                let s = old(self).chars@;
                let st = line_start_of(s, row_of(s, old(self).cursor as int));
                &&& final(self).chars@ == s.insert(st, '\n')
                &&& final(self).cursor == st
            }),
            final(self).cursor <= final(self).chars@.len(),
    {
        let row = self.cursor_row();
        proof {
            lemma_line_bounds(self.chars@, row as nat);
        }
        let start = self.line_start(row);
        self.chars.insert(start, '\n');
        self.cursor = start;
        self.dirty = true;
    }

    /// The current line with its newline, as `yank_line` and `delete_line` see it.
    fn line_span(&self) -> (r: (usize, usize))
        requires
            self.cursor <= self.chars@.len(),
        ensures
            r.0 == line_start_of(self.chars@, row_of(self.chars@, self.cursor as int)),
            r.1 == line_span_end(self.chars@, self.cursor as int),
            r.0 <= r.1 <= self.chars@.len(),
    {
        let row = self.cursor_row();
        proof {
            lemma_line_bounds(self.chars@, row as nat);
        }
        let start = self.line_start(row);
        let mut end = self.find_nl_from(start);
        if end < self.chars.len() && self.chars[end] == '\n' {
            end += 1;
        }
        (start, end)
    }

    /// Removes the current line (with its newline) and returns it; the cursor
    /// goes to the start of the line that then holds the old line start.
    pub fn delete_line(&mut self) -> (r: Vec<char>)
        requires
            old(self).cursor <= old(self).chars@.len(),
        ensures
            edited(*old(self), *final(self)),
            ({
                let s = old(self).chars@;
                let c = old(self).cursor as int;
                let st = line_start_of(s, row_of(s, c));
                let en = line_span_end(s, c);
                let t = final(self).chars@;
                &&& r@ == s.subrange(st, en)
                &&& t == s.take(st) + s.skip(en)
                &&& final(self).cursor == if t.len() == 0 {
                    0
                } else {
                    let c1 = if st < t.len() - 1 { st } else { t.len() - 1 };
                    last_nl_before(t, c1) + 1
                }
            }),
            final(self).cursor <= final(self).chars@.len(),
    {
        let (start, end) = self.line_span();
        let removed = take_range(&mut self.chars, start, end);
        self.dirty = true;
        if self.chars.len() == 0 {
            self.cursor = 0;
        } else {
            self.cursor = if start < self.chars.len() - 1 { start } else { self.chars.len() - 1 };
            proof {
                lemma_pos_in_row(self.chars@, self.cursor as int);
            }
            let new_row = self.cursor_row();
            self.cursor = self.line_start(new_row);
        }
        removed
    }

    /// A copy of the current line with its newline.
    pub fn yank_line(&self) -> (r: Vec<char>)
        requires
            self.cursor <= self.chars@.len(),
        ensures
            r@ == self.chars@.subrange(
                line_start_of(self.chars@, row_of(self.chars@, self.cursor as int)),
                line_span_end(self.chars@, self.cursor as int),
            ),
    {
        let (start, end) = self.line_span();
        let mut out: Vec<char> = Vec::new();
        let mut i = start;
        while i < end
            invariant
                start <= i <= end <= self.chars@.len(),
                out@ == self.chars@.subrange(start as int, i as int),
            decreases end - i,
        {
            out.push(self.chars[i]);
            i += 1;
            assert(self.chars@.subrange(start as int, i as int) =~= self.chars@.subrange(start as int, i - 1).push(self.chars@[i - 1]));
        }
        out
    }

    /// Removes positions `start..=end` (with `end` clamped to the last character).
    pub fn delete_range(&mut self, start: usize, end: usize) -> (r: Vec<char>)
        requires
            old(self).chars@.len() > 0,
            start <= (if end < old(self).chars@.len() - 1 { end as int } else { old(self).chars@.len() - 1 }) + 1,
        ensures
            edited(*old(self), *final(self)),
            ({
                let s = old(self).chars@;
                let e = if end < s.len() - 1 { end as int } else { s.len() - 1 };
                let t = final(self).chars@;
                &&& r@ == s.subrange(start as int, e + 1)
                &&& t == s.take(start as int) + s.skip(e + 1)
                &&& final(self).cursor == if t.len() == 0 {
                    0
                } else if start < t.len() - 1 {
                    start as int
                } else {
                    t.len() - 1
                }
            }),
            final(self).cursor <= final(self).chars@.len(),
    {
        let last = self.chars.len() - 1;
        let e = if end < last { end } else { last };
        let removed = take_range(&mut self.chars, start, e + 1);
        let n = self.chars.len();
        self.cursor = if n == 0 { 0 } else if start < n - 1 { start } else { n - 1 };
        self.dirty = true;
        removed
    }

    /// Puts `register` after the cursor; a register holding a newline goes in
    /// as whole lines below the current one.
    pub fn paste_after(&mut self, register: &[char])
        requires
            old(self).cursor <= old(self).chars@.len(),
            old(self).chars@.len() + register@.len() + 1 < usize::MAX,
        ensures
            register@.len() == 0 ==> *final(self) == *old(self),
            register@.len() > 0 ==> edited(*old(self), *final(self)),
            register@.len() > 0 && register@.contains('\n') ==> ({
                let s = old(self).chars@;
                let e = line_end_of(s, row_of(s, old(self).cursor as int));
                if e < s.len() {
                    &&& final(self).chars@ == s.take(e + 1) + register@ + s.skip(e + 1)
                    &&& final(self).cursor == e + 1
                } else {
                    &&& final(self).chars@ == s.push('\n') + register@
                    &&& final(self).cursor == s.len() + 1
                }
            }),
            register@.len() > 0 && !register@.contains('\n') ==> ({
                let s = old(self).chars@;
                let p = if old(self).cursor + 1 < s.len() { old(self).cursor + 1 } else { s.len() as int };
                &&& final(self).chars@ == s.take(p) + register@ + s.skip(p)
                &&& final(self).cursor == p + register@.len() - 1
            }),
            final(self).cursor <= final(self).chars@.len(),
    {
        if register.len() == 0 {
            return;
        }
        let has_newline = contains_char(register, '\n');
        if has_newline {
            let row = self.cursor_row();
            proof {
                lemma_line_bounds(self.chars@, row as nat);
            }
            let start = self.line_start(row);
            let end = self.find_nl_from(start);
            let insert_pos = if end < self.chars.len() {
                end + 1
            } else {
                self.chars.push('\n');
                self.chars.len()
            };
            insert_all(&mut self.chars, insert_pos, register);
            self.cursor = insert_pos;
            proof {
                let s = old(self).chars@;
                if end >= s.len() {
                    assert(s.push('\n').take(insert_pos as int) =~= s.push('\n'));
                    assert(s.push('\n').skip(insert_pos as int) =~= Seq::<char>::empty());
                    assert(self.chars@ =~= s.push('\n') + register@);
                }
            }
        } else {
            let insert_pos = if self.cursor + 1 < self.chars.len() { self.cursor + 1 } else { self.chars.len() };
            insert_all(&mut self.chars, insert_pos, register);
            self.cursor = insert_pos + register.len() - 1;
        }
        self.dirty = true;
    }
}

/// Whether `c` occurs in `v`.
pub fn contains_char(v: &[char], c: char) -> (r: bool)
    ensures
        r == v@.contains(c),
{
    let mut i: usize = 0;
    while i < v.len()
        invariant
            i <= v@.len(),
            forall|j: int| 0 <= j < i ==> v@[j] != c,
        decreases v@.len() - i,
    {
        if v[i] == c {
            return true;
        }
        i += 1;
    }
    false
}

} // verus!

verus! {

/// The character that case toggling puts in place of `ch`.
pub open spec fn toggled(ch: char) -> char {
    let m = if unicode_uppercase(ch) { lowercase_head(ch) } else { uppercase_head(ch) };
    match m {
        Some(x) => x,
        None => ch,
    }
}

impl Buffer {
    /// Forward to the last character of the next word.
    pub fn word_end(&mut self)
        requires
            old(self).cursor <= old(self).chars@.len(),
        ensures
            moved_only(*old(self), *final(self)),
            ({
                let s = old(self).chars@;
                let c = old(self).cursor as int;
                let p0 = if c < s.len() { c + 1 } else { c };
                let p = word_last_fwd(s, skip_blank_fwd(s, p0));
                final(self).cursor == if p < s.len() - 1 { p } else if s.len() > 0 { s.len() - 1 } else { 0 }
            }),
            final(self).cursor <= final(self).chars@.len(),
    {
        let ghost s = self.chars@;
        let len = self.chars.len();
        let mut pos = self.cursor;
        if pos < len {
            pos += 1;
        }
        let ghost p0 = pos as int;
        while pos < len && (self.chars[pos] == ' ' || self.chars[pos] == '\n')
            invariant
                p0 <= pos <= len == s.len(),
                s == self.chars@,
                skip_blank_fwd(s, pos as int) == skip_blank_fwd(s, p0),
            decreases len - pos,
        {
            pos += 1;
        }
        let ghost p1 = pos as int;
        while pos < len && pos + 1 < len && self.chars[pos + 1] != ' ' && self.chars[pos + 1] != '\n'
            invariant
                p1 <= pos <= len == s.len(),
                s == self.chars@,
                p1 == skip_blank_fwd(s, p0),
                word_last_fwd(s, pos as int) == word_last_fwd(s, p1),
            decreases len - pos,
        {
            pos += 1;
        }
        let last = if len > 0 { len - 1 } else { 0 };
        self.cursor = if pos < last { pos } else { last };
    }

    /// Position after the rest of the current word (exclusive end for an operator).
    pub fn word_end_pos(&self) -> (r: usize)
        requires
            self.cursor <= self.chars@.len(),
        ensures
            r == skip_word_fwd(self.chars@, self.cursor as int),
            self.cursor <= r <= self.chars@.len(),
    {
        let ghost s = self.chars@;
        let len = self.chars.len();
        let mut pos = self.cursor;
        while pos < len && self.chars[pos] != ' ' && self.chars[pos] != '\n'
            invariant
                self.cursor <= pos <= len == s.len(),
                s == self.chars@,
                skip_word_fwd(s, pos as int) == skip_word_fwd(s, self.cursor as int),
            decreases len - pos,
        {
            pos += 1;
        }
        pos
    }

    /// Position just past the last character of the current line.
    pub fn line_end_pos(&self) -> (r: usize)
        requires
            self.cursor <= self.chars@.len(),
        ensures
            r == line_end_of(self.chars@, row_of(self.chars@, self.cursor as int)),
            self.cursor <= r <= self.chars@.len(),
    {
        proof {
            lemma_pos_in_row(self.chars@, self.cursor as int);
            lemma_line_bounds(self.chars@, row_of(self.chars@, self.cursor as int));
        }
        let row = self.cursor_row();
        let start = self.line_start(row);
        self.find_nl_from(start)
    }

    pub fn replace_char(&mut self, c: char)
        requires
            old(self).cursor <= old(self).chars@.len(),
        ensures
            ({
                let s = old(self).chars@;
                let k = old(self).cursor as int;
                if k < s.len() && s[k] != '\n' {
                    edited(*old(self), *final(self)) && final(self).chars@ == s.update(k, c)
                        && final(self).cursor == old(self).cursor
                } else {
                    *final(self) == *old(self)
                }
            }),
            final(self).cursor <= final(self).chars@.len(),
    {
        if self.cursor < self.chars.len() && self.chars[self.cursor] != '\n' {
            self.chars.set(self.cursor, c);
            self.dirty = true;
        }
    }

    pub fn delete_to_end_of_line(&mut self) -> (r: Vec<char>)
        requires
            old(self).cursor <= old(self).chars@.len(),
        ensures
            ({
                let s = old(self).chars@;
                let c = old(self).cursor as int;
                let e = line_end_of(s, row_of(s, c));
                if c >= e {
                    r@.len() == 0 && *final(self) == *old(self)
                } else {
                    &&& edited(*old(self), *final(self))
                    &&& r@ == s.subrange(c, e)
                    &&& final(self).chars@ == s.take(c) + s.skip(e)
                    &&& final(self).cursor == if c > 0 && c >= final(self).chars@.len() { c - 1 } else { c }
                }
            }),
            final(self).cursor <= final(self).chars@.len(),
    {
        let end = self.line_end_pos();
        if self.cursor >= end {
            return Vec::new();
        }
        let removed = take_range(&mut self.chars, self.cursor, end);
        self.dirty = true;
        if self.cursor > 0 && self.cursor >= self.chars.len() {
            self.cursor -= 1;
        }
        removed
    }

    pub fn delete_to_start_of_line(&mut self) -> (r: Vec<char>)
        requires
            old(self).cursor <= old(self).chars@.len(),
        ensures
            ({
                let s = old(self).chars@;
                let c = old(self).cursor as int;
                let st = line_start_of(s, row_of(s, c));
                if c <= st {
                    r@.len() == 0 && *final(self) == *old(self)
                } else {
                    &&& edited(*old(self), *final(self))
                    &&& r@ == s.subrange(st, c)
                    &&& final(self).chars@ == s.take(st) + s.skip(c)
                    &&& final(self).cursor == st
                }
            }),
            final(self).cursor <= final(self).chars@.len(),
    {
        proof {
            lemma_pos_in_row(self.chars@, self.cursor as int);
        }
        let row = self.cursor_row();
        let start = self.line_start(row);
        if self.cursor <= start {
            return Vec::new();
        }
        let removed = take_range(&mut self.chars, start, self.cursor);
        self.cursor = start;
        self.dirty = true;
        removed
    }

    /// Deletes the rest of the word and the spaces after it.
    pub fn delete_word_forward(&mut self) -> (r: Vec<char>)
        requires
            old(self).cursor <= old(self).chars@.len(),
        ensures
            ({
                let s = old(self).chars@;
                let c = old(self).cursor as int;
                let e = skip_spaces_fwd(s, skip_word_fwd(s, c));
                if c >= e {
                    r@.len() == 0 && *final(self) == *old(self)
                } else {
                    &&& edited(*old(self), *final(self))
                    &&& r@ == s.subrange(c, e)
                    &&& final(self).chars@ == s.take(c) + s.skip(e)
                    &&& final(self).cursor == if c >= final(self).chars@.len() && c > 0 { c - 1 } else { c }
                }
            }),
            final(self).cursor <= final(self).chars@.len(),
    {
        let ghost s = self.chars@;
        let end = self.word_end_pos();
        let mut actual_end = end;
        while actual_end < self.chars.len() && self.chars[actual_end] == ' '
            invariant
                end <= actual_end <= s.len(),
                s == self.chars@,
                skip_spaces_fwd(s, actual_end as int) == skip_spaces_fwd(s, end as int),
            decreases s.len() - actual_end,
        {
            actual_end += 1;
        }
        if self.cursor >= actual_end {
            return Vec::new();
        }
        let removed = take_range(&mut self.chars, self.cursor, actual_end);
        self.dirty = true;
        if self.cursor >= self.chars.len() && self.cursor > 0 {
            self.cursor -= 1;
        }
        removed
    }

    /// Deletes the rest of the word (not the spaces after it); the cursor stays.
    pub fn change_word_forward(&mut self) -> (r: Vec<char>)
        requires
            old(self).cursor <= old(self).chars@.len(),
        ensures
            ({
                let s = old(self).chars@;
                let c = old(self).cursor as int;
                let e = skip_word_fwd(s, c);
                if c >= e {
                    r@.len() == 0 && *final(self) == *old(self)
                } else {
                    &&& edited(*old(self), *final(self))
                    &&& r@ == s.subrange(c, e)
                    &&& final(self).chars@ == s.take(c) + s.skip(e)
                    &&& final(self).cursor == c
                }
            }),
            final(self).cursor <= final(self).chars@.len(),
    {
        let end = self.word_end_pos();
        if self.cursor >= end {
            return Vec::new();
        }
        let removed = take_range(&mut self.chars, self.cursor, end);
        self.dirty = true;
        removed
    }

    /// Deletes to the end of the line; the cursor stays.
    pub fn change_to_end_of_line(&mut self) -> (r: Vec<char>)
        requires
            old(self).cursor <= old(self).chars@.len(),
        ensures
            ({
                let s = old(self).chars@;
                let c = old(self).cursor as int;
                let e = line_end_of(s, row_of(s, c));
                if c >= e {
                    r@.len() == 0 && *final(self) == *old(self)
                } else {
                    &&& edited(*old(self), *final(self))
                    &&& r@ == s.subrange(c, e)
                    &&& final(self).chars@ == s.take(c) + s.skip(e)
                    &&& final(self).cursor == c
                }
            }),
            final(self).cursor <= final(self).chars@.len(),
    {
        let end = self.line_end_pos();
        if self.cursor >= end {
            return Vec::new();
        }
        let removed = take_range(&mut self.chars, self.cursor, end);
        self.dirty = true;
        removed
    }

    /// Empties the current line (its newline stays) and puts the cursor at its start.
    pub fn change_line(&mut self) -> (r: Vec<char>)
        requires
            old(self).cursor <= old(self).chars@.len(),
        ensures
            edited(*old(self), *final(self)),
            ({
                let s = old(self).chars@;
                let row = row_of(s, old(self).cursor as int);
                let st = line_start_of(s, row);
                let e = line_end_of(s, row);
                &&& r@ == s.subrange(st, e)
                &&& final(self).chars@ == s.take(st) + s.skip(e)
                &&& final(self).cursor == st
            }),
            final(self).cursor <= final(self).chars@.len(),
    {
        let row = self.cursor_row();
        proof {
            lemma_line_bounds(self.chars@, row as nat);
        }
        let start = self.line_start(row);
        let end = self.find_nl_from(start);
        let removed = take_range(&mut self.chars, start, end);
        self.cursor = start;
        self.dirty = true;
        removed
    }

    /// Joins the next line onto the current one with a single space.
    pub fn join_line(&mut self)
        requires
            old(self).cursor <= old(self).chars@.len(),
        ensures
            ({
                let s = old(self).chars@;
                let e = line_end_of(s, row_of(s, old(self).cursor as int));
                if e < s.len() {
                    &&& edited(*old(self), *final(self))
                    &&& final(self).chars@ == s.take(e).push(' ') + s.skip(skip_spaces_fwd(s, e + 1))
                    &&& final(self).cursor == e
                } else {
                    *final(self) == *old(self)
                }
            }),
            final(self).cursor <= final(self).chars@.len(),
            final(self).chars@.len() <= old(self).chars@.len(),
    {
        let ghost s = self.chars@;
        let row = self.cursor_row();
        proof {
            lemma_line_bounds(s, row as nat);
        }
        let start = self.line_start(row);
        let end = self.find_nl_from(start);
        if end < self.chars.len() && self.chars[end] == '\n' {
            let mut k = end + 1;
            while k < self.chars.len() && self.chars[k] == ' '
                invariant
                    end + 1 <= k <= s.len(),
                    s == self.chars@,
                    skip_spaces_fwd(s, k as int) == skip_spaces_fwd(s, end + 1),
                decreases s.len() - k,
            {
                k += 1;
            }
            take_range(&mut self.chars, end + 1, k);
            self.chars.set(end, ' ');
            assert(self.chars@ =~= s.take(end as int).push(' ') + s.skip(k as int));
            self.cursor = end;
            self.dirty = true;
        }
    }

    /// Switches the case of the character under the cursor (letters only),
    /// then moves right as `move_right` does.
    pub fn toggle_case(&mut self)
        requires
            old(self).cursor <= old(self).chars@.len(),
        ensures
            ({
                let s = old(self).chars@;
                let c = old(self).cursor as int;
                if c < s.len() {
                    let t = if unicode_alphabetic(s[c]) { s.update(c, toggled(s[c])) } else { s };
                    &&& same_history(*old(self), *final(self))
                    &&& final(self).chars@ == t
                    &&& final(self).dirty == (old(self).dirty || unicode_alphabetic(s[c]))
                    &&& final(self).cursor == if t[c] != '\n' { c + 1 } else { c }
                } else {
                    *final(self) == *old(self)
                }
            }),
            final(self).cursor <= final(self).chars@.len(),
    {
        if self.cursor < self.chars.len() {
            let ch = self.chars[self.cursor];
            if is_alphabetic(ch) {
                let mapped = if is_uppercase(ch) { to_lowercase_head(ch) } else { to_uppercase_head(ch) };
                let nc = match mapped {
                    Some(x) => x,
                    None => ch,
                };
                self.chars.set(self.cursor, nc);
                self.dirty = true;
            }
            self.move_right();
        }
    }

    /// Puts `register` before the cursor; a register holding a newline goes in
    /// as whole lines above the current one.
    pub fn paste_before(&mut self, register: &[char])
        requires
            old(self).cursor <= old(self).chars@.len(),
            old(self).chars@.len() + register@.len() < usize::MAX,
        ensures
            register@.len() == 0 ==> *final(self) == *old(self),
            register@.len() > 0 ==> edited(*old(self), *final(self)),
            register@.len() > 0 && register@.contains('\n') ==> ({
                let s = old(self).chars@;
                let st = line_start_of(s, row_of(s, old(self).cursor as int));
                &&& final(self).chars@ == s.take(st) + register@ + s.skip(st)
                &&& final(self).cursor == st
            }),
            register@.len() > 0 && !register@.contains('\n') ==> ({
                let s = old(self).chars@;
                let c = old(self).cursor as int;
                &&& final(self).chars@ == s.take(c) + register@ + s.skip(c)
                &&& final(self).cursor == c + register@.len() - 1
            }),
            final(self).cursor <= final(self).chars@.len(),
    {
        if register.len() == 0 {
            return;
        }
        let has_newline = contains_char(register, '\n');
        if has_newline {
            let row = self.cursor_row();
            proof {
                lemma_line_bounds(self.chars@, row as nat);
            }
            let insert_pos = self.line_start(row);
            insert_all(&mut self.chars, insert_pos, register);
            self.cursor = insert_pos;
        } else {
            insert_all(&mut self.chars, self.cursor, register);
            self.cursor += register.len() - 1;
        }
        self.dirty = true;
    }
}

} // verus!

verus! {

/// Text, cursor, undo stack and redo stack of a buffer, as values.
pub type HistState = (Seq<char>, usize, Seq<(Seq<char>, usize)>, Seq<(Seq<char>, usize)>);

pub open spec fn stack_view(st: Seq<(Vec<char>, usize)>) -> Seq<(Seq<char>, usize)> {
    st.map_values(|e: (Vec<char>, usize)| (e.0@, e.1))
}

/// `c` moved onto the last character of a text of length `len` when past it.
pub open spec fn clamp_cursor(c: usize, len: nat) -> usize {
    if len == 0 {
        0
    } else if c < len - 1 {
        c
    } else {
        (len - 1) as usize
    }
}

/// Recording the current text and cursor as an undo point; redo history is dropped.
pub open spec fn snapshot_of(h: HistState) -> HistState {
    (h.0, h.1, h.2.push((h.0, h.1)), Seq::empty())
}

/// Going back to the last undo point, keeping the current state for redo.
pub open spec fn undo_of(h: HistState) -> HistState {
    if h.2.len() == 0 {
        h
    } else {
        let top = h.2.last();
        (top.0, clamp_cursor(top.1, top.0.len()), h.2.drop_last(), h.3.push((h.0, h.1)))
    }
}

/// Going forward to the last redo point, keeping the current state for undo.
pub open spec fn redo_of(h: HistState) -> HistState {
    if h.3.len() == 0 {
        h
    } else {
        let top = h.3.last();
        (top.0, clamp_cursor(top.1, top.0.len()), h.2.push((h.0, h.1)), h.3.drop_last())
    }
}

impl Buffer {
    pub open spec fn hist(&self) -> HistState {
        (self.chars@, self.cursor, stack_view(self.undo_stack@), stack_view(self.redo_stack@))
    }

    /// The text as a string.
    pub fn content(&self) -> (r: String)
        ensures
            r@ == self.chars@,
    {
        string_of(&self.chars)
    }

    /// Records an undo point.
    pub fn snapshot(&mut self)
        ensures
            final(self).hist() == snapshot_of(old(self).hist()),
            final(self).dirty == old(self).dirty,
            final(self).scroll_offset == old(self).scroll_offset,
            final(self).file_path == old(self).file_path,
    {
        let saved = (copy_chars(&self.chars), self.cursor);
        self.undo_stack.push(saved);
        self.redo_stack = Vec::new();
        assert(stack_view(self.undo_stack@) =~= stack_view(old(self).undo_stack@).push((old(self).chars@, old(self).cursor)));
        assert(stack_view(self.redo_stack@) =~= Seq::<(Seq<char>, usize)>::empty());
    }

    /// Restores the last undo point; false when there is none.
    pub fn undo(&mut self) -> (r: bool)
        ensures
            r == (old(self).undo_stack@.len() > 0),
            final(self).hist() == undo_of(old(self).hist()),
            final(self).dirty == (old(self).dirty || r),
            final(self).scroll_offset == old(self).scroll_offset,
            final(self).file_path == old(self).file_path,
            r ==> final(self).cursor <= final(self).chars@.len(),
    {
        match self.undo_stack.pop() {
            Some(entry) => {
                let (chars, cursor) = entry;
                let saved = (copy_chars(&self.chars), self.cursor);
                self.redo_stack.push(saved);
                self.chars = chars;
                let len = self.chars.len();
                self.cursor = if len == 0 { 0 } else if cursor < len - 1 { cursor } else { len - 1 };
                self.dirty = true;
                assert(stack_view(self.undo_stack@) =~= stack_view(old(self).undo_stack@).drop_last());
                assert(stack_view(self.redo_stack@) =~= stack_view(old(self).redo_stack@).push((old(self).chars@, old(self).cursor)));
                true
            },
            None => false,
        }
    }

    /// Restores the last redo point; false when there is none.
    pub fn redo(&mut self) -> (r: bool)
        ensures
            r == (old(self).redo_stack@.len() > 0),
            final(self).hist() == redo_of(old(self).hist()),
            final(self).dirty == (old(self).dirty || r),
            final(self).scroll_offset == old(self).scroll_offset,
            final(self).file_path == old(self).file_path,
            r ==> final(self).cursor <= final(self).chars@.len(),
    {
        match self.redo_stack.pop() {
            Some(entry) => {
                let (chars, cursor) = entry;
                let saved = (copy_chars(&self.chars), self.cursor);
                self.undo_stack.push(saved);
                self.chars = chars;
                let len = self.chars.len();
                self.cursor = if len == 0 { 0 } else if cursor < len - 1 { cursor } else { len - 1 };
                self.dirty = true;
                assert(stack_view(self.redo_stack@) =~= stack_view(old(self).redo_stack@).drop_last());
                assert(stack_view(self.undo_stack@) =~= stack_view(old(self).undo_stack@).push((old(self).chars@, old(self).cursor)));
                true
            },
            None => false,
        }
    }
}

/// A copy of `v`.
pub fn copy_chars(v: &Vec<char>) -> (r: Vec<char>)
    ensures
        r@ == v@,
{
    let mut out: Vec<char> = Vec::new();
    let mut i: usize = 0;
    while i < v.len()
        invariant
            i <= v@.len(),
            out@ == v@.take(i as int),
        decreases v@.len() - i,
    {
        out.push(v[i]);
        i += 1;
        assert(v@.take(i as int) =~= v@.take(i - 1).push(v@[i - 1]));
    }
    assert(v@.take(v@.len() as int) =~= v@);
    out
}

/// Undo after a snapshot brings back the text of the snapshot, whatever edits
/// were made in between, and offers those edits for redo.
pub proof fn law_undo_reverts_to_snapshot(h: HistState, text: Seq<char>, cursor: usize)
    ensures
        ({
            let s = snapshot_of(h);
            let u = undo_of((text, cursor, s.2, s.3));
            u == (h.0, clamp_cursor(h.1, h.0.len()), h.2, seq![(text, cursor)])
        }),
{
    let s = snapshot_of(h);
    assert(s.2.drop_last() =~= h.2);
    assert(Seq::<(Seq<char>, usize)>::empty().push((text, cursor)) =~= seq![(text, cursor)]);
}

proof fn lemma_run_keeps_history(run: Seq<Buffer>)
    requires
        run.len() > 0,
        forall|i: int| 0 <= i < run.len() - 1 ==> same_history(#[trigger] run[i], run[i + 1]),
    ensures
        same_history(run[0], run.last()),
    decreases run.len(),
{
    if run.len() > 1 {
        let front = run.drop_last();
        assert forall|i: int| 0 <= i < front.len() - 1 implies same_history(#[trigger] front[i], front[i + 1]) by {
            assert(front[i] == run[i] && front[i + 1] == run[i + 1]);
        }
        lemma_run_keeps_history(front);
        assert(same_history(run[run.len() - 2], run[run.len() - 1]));
    }
}

/// Undo after a snapshot and any run of edits and cursor moves in between
/// (each step keeps the undo and redo history, as every edit and every move
/// does) brings back the text of the snapshot, and offers the last state
/// for redo.
pub proof fn law_undo_after_edit_run(h: HistState, run: Seq<Buffer>)
    requires
        run.len() > 0,
        run[0].hist() == snapshot_of(h),
        forall|i: int| 0 <= i < run.len() - 1 ==> same_history(#[trigger] run[i], run[i + 1]),
    ensures
        undo_of(run.last().hist()) == (h.0, clamp_cursor(h.1, h.0.len()), h.2, seq![(run.last().chars@, run.last().cursor)]),
{
    lemma_run_keeps_history(run);
    let last = run.last();
    assert(last.hist() == (last.chars@, last.cursor, snapshot_of(h).2, snapshot_of(h).3));
    law_undo_reverts_to_snapshot(h, last.chars@, last.cursor);
}

proof fn lemma_skip_blank_back(s: Seq<char>, i: int)
    requires
        0 <= i < s.len() || i == 0,
    ensures
        0 <= skip_blank_back(s, i) <= i,
        forall|k: int| skip_blank_back(s, i) < k <= i ==> is_blank(#[trigger] s[k]),
        skip_blank_back(s, i) == 0 || !is_blank(s[skip_blank_back(s, i)]),
    decreases i,
{
    if i > 0 && is_blank(s[i]) {
        lemma_skip_blank_back(s, i - 1);
    }
}

proof fn lemma_skip_word_back(s: Seq<char>, i: int)
    requires
        0 <= i <= s.len(),
    ensures
        0 <= skip_word_back(s, i) <= i,
        forall|k: int| skip_word_back(s, i) <= k < i ==> !is_blank(#[trigger] s[k]),
        skip_word_back(s, i) == 0 || is_blank(s[skip_word_back(s, i) - 1]),
    decreases i,
{
    if i > 0 && !is_blank(s[i - 1]) {
        lemma_skip_word_back(s, i - 1);
    }
}

/// Moving a word back (`b`) lands on the start of a word: the first
/// position, or one that follows a space or newline and holds neither. It
/// lies before the cursor (unless the cursor is at the start), and no word
/// starts between it and the cursor.
pub proof fn law_word_backward_lands_on_previous_word_start(s: Seq<char>, c: int)
    requires
        0 <= c <= s.len(),
    ensures
        ({
            let p = skip_word_back(s, skip_blank_back(s, if c > 0 { c - 1 } else { c }));
            &&& 0 <= p <= c
            &&& c > 0 ==> p < c
            &&& p > 0 ==> is_blank(s[p - 1]) && !is_blank(s[p])
            &&& forall|j: int| p < j < c ==> !(is_blank(s[j - 1]) && !is_blank(#[trigger] s[j]))
        }),
{
    let p0 = if c > 0 { c - 1 } else { c };
    lemma_skip_blank_back(s, p0);
    let p1 = skip_blank_back(s, p0);
    lemma_skip_word_back(s, p1);
    let p = skip_word_back(s, p1);
    if p > 0 && p == p1 {
        assert(!is_blank(s[p1]));
    }
    assert forall|j: int| p < j < c implies !(is_blank(s[j - 1]) && !is_blank(#[trigger] s[j])) by {
        if j <= p1 {
            assert(!is_blank(s[j - 1]));
        } else {
            assert(is_blank(s[j]));
        }
    }
}

/// After a snapshot there is nothing to redo: redo changes nothing.
pub proof fn law_snapshot_clears_redo(h: HistState)
    ensures
        snapshot_of(h).3.len() == 0,
        redo_of(snapshot_of(h)) == snapshot_of(h),
{
}

/// Redo right after an undo brings the text and the redo history back.
pub proof fn law_redo_after_undo(h: HistState)
    requires
        h.2.len() > 0,
    ensures
        redo_of(undo_of(h)).0 == h.0,
        redo_of(undo_of(h)).1 == clamp_cursor(h.1, h.0.len()),
        redo_of(undo_of(h)).3 == h.3,
        redo_of(undo_of(h)).2.len() == h.2.len(),
        forall|i: int| 0 <= i < h.2.len() ==> (#[trigger] redo_of(undo_of(h)).2[i]).0 == h.2[i].0,
{
    let u = undo_of(h);
    assert(u.3.drop_last() =~= h.3);
    let r = redo_of(u);
    assert forall|i: int| 0 <= i < h.2.len() implies (#[trigger] r.2[i]).0 == h.2[i].0 by {
        if i < h.2.len() - 1 {
            assert(r.2[i] == h.2.drop_last()[i]);
        }
    }
}

/// Undo right after a redo brings the text and the undo history back.
pub proof fn law_undo_after_redo(h: HistState)
    requires
        h.3.len() > 0,
    ensures
        undo_of(redo_of(h)).0 == h.0,
        undo_of(redo_of(h)).1 == clamp_cursor(h.1, h.0.len()),
        undo_of(redo_of(h)).2 == h.2,
        undo_of(redo_of(h)).3.len() == h.3.len(),
        forall|i: int| 0 <= i < h.3.len() ==> (#[trigger] undo_of(redo_of(h)).3[i]).0 == h.3[i].0,
{
    let r = redo_of(h);
    assert(r.2.drop_last() =~= h.2);
    let u = undo_of(r);
    assert forall|i: int| 0 <= i < h.3.len() implies (#[trigger] u.3[i]).0 == h.3[i].0 by {
        if i < h.3.len() - 1 {
            assert(u.3[i] == h.3.drop_last()[i]);
        }
    }
}

/// Typing a character and deleting it backward gives back the text and the cursor.
pub proof fn law_insert_then_backspace(s: Seq<char>, k: int, ch: char)
    requires
        0 <= k <= s.len(),
    ensures
        s.insert(k, ch).remove(k) == s,
        (k + 1) - 1 == k,
{
    assert(s.insert(k, ch).remove(k) =~= s);
}

/// A position is its line start plus its column, and lies within its line.
pub proof fn law_cursor_decomposes(s: Seq<char>, c: int)
    requires
        0 <= c <= s.len(),
    ensures
        line_start_of(s, row_of(s, c)) + col_of(s, c) == c,
        col_of(s, c) <= line_len_of(s, row_of(s, c)),
{
    lemma_pos_in_row(s, c);
}

/// There is one more line than there are newlines.
pub proof fn law_line_count(s: Seq<char>)
    ensures
        split_lines(s).len() == nl_count(s) + 1,
{
    lemma_split_lines_len(s);
}

} // verus!
