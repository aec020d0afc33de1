use vstd::prelude::*;

verus! {

/// The characters of `s`, in order.
pub fn chars_of(s: &str) -> (r: Vec<char>)
    ensures
        r@ == s@,
{
    let mut out: Vec<char> = Vec::new();
    for c in it: s.chars()
        invariant
            out@ == it.seq().take(it.index() as int),
    {
        out.push(c);
    }
    out
}

/// A string made of the characters of `v`.
pub fn string_of(v: &[char]) -> (r: String)
    ensures
        r@ == v@,
{
    let mut out = String::new();
    let mut i: usize = 0;
    while i < v.len()
        invariant
            i <= v@.len(),
            out@ == v@.take(i as int),
        decreases v@.len() - i,
    {
        out.push(v[i]);
        i = i + 1;
        assert(v@.take(i as int) =~= v@.take(i - 1).push(v@[i - 1]));
    }
    assert(v@.take(v@.len() as int) =~= v@);
    out
}

} // verus!

verus! {

use crate::trusted::{is_whitespace, whitespace};

/// Whether `p` occurs in `s` at position `i`.
pub open spec fn occurs_at(s: Seq<char>, p: Seq<char>, i: int) -> bool {
    0 <= i && i + p.len() <= s.len() && s.subrange(i, i + p.len()) == p
}

/// First position at or after `from` where `p` occurs in `s`, or -1.
pub open spec fn find_from(s: Seq<char>, p: Seq<char>, from: int) -> int
    decreases s.len() - from,
{
    if from < 0 || from + p.len() > s.len() {
        -1
    } else if occurs_at(s, p, from) {
        from
    } else if from >= s.len() {
        -1
    } else {
        find_from(s, p, from + 1)
    }
}

/// `s` with every occurrence of the non-empty `p` replaced by `r`, scanning
/// left to right without overlaps (as `str::replace` does).
pub open spec fn replace_all(s: Seq<char>, p: Seq<char>, r: Seq<char>) -> Seq<char>
    decreases s.len(),
{
    if p.len() == 0 || s.len() < p.len() {
        s
    } else if s.take(p.len() as int) == p {
        r + replace_all(s.skip(p.len() as int), p, r)
    } else {
        seq![s[0]] + replace_all(s.drop_first(), p, r)
    }
}

/// Whether `s` begins with `p`.
pub open spec fn starts_with(s: Seq<char>, p: Seq<char>) -> bool {
    p.len() <= s.len() && s.take(p.len() as int) == p
}

/// `s` without leading Unicode whitespace.
pub open spec fn trim_start_ws(s: Seq<char>) -> Seq<char>
    decreases s.len(),
{
    if s.len() > 0 && whitespace(s[0]) {
        trim_start_ws(s.drop_first())
    } else {
        s
    }
}

/// `s` without trailing Unicode whitespace.
pub open spec fn trim_end_ws(s: Seq<char>) -> Seq<char>
    decreases s.len(),
{
    if s.len() > 0 && whitespace(s.last()) {
        trim_end_ws(s.drop_last())
    } else {
        s
    }
}

/// `s` without leading and trailing Unicode whitespace (as `str::trim` does).
pub open spec fn trim_ws(s: Seq<char>) -> Seq<char> {
    trim_end_ws(trim_start_ws(s))
}

/// `s` cut at every newline, with the empty piece after a final newline
/// dropped and one trailing carriage return removed from each piece (as
/// `str::lines` does).
pub open spec fn std_lines(s: Seq<char>) -> Seq<Seq<char>> {
    let pieces = crate::buffer::split_lines(s);
    let kept = if pieces.last().len() == 0 { pieces.drop_last() } else { pieces };
    kept.map_values(|l: Seq<char>| strip_cr(l))
}

/// `l` without one trailing carriage return.
pub open spec fn strip_cr(l: Seq<char>) -> Seq<char> {
    if l.len() > 0 && l.last() == '\r' {
        l.drop_last()
    } else {
        l
    }
}

/// Whether `p` occurs in `s` at position `i`.
pub fn matches_at(s: &[char], p: &[char], i: usize) -> (r: bool)
    ensures
        r == occurs_at(s@, p@, i as int),
{
    if i > s.len() || p.len() > s.len() - i {
        return false;
    }
    let mut k: usize = 0;
    while k < p.len()
        invariant
            k <= p@.len(),
            i <= s@.len() == s.len(),
            i + p@.len() <= s@.len(),
            forall|j: int| 0 <= j < k ==> s@[i + j] == p@[j],
        decreases p@.len() - k,
    {
        assert(i + k < s@.len());
        let idx: usize = i + k;
        if s[idx] != p[k] {
            assert(s@.subrange(i as int, i + p@.len())[k as int] != p@[k as int]);
            return false;
        }
        k += 1;
    }
    assert(s@.subrange(i as int, i + p@.len()) =~= p@);
    true
}

/// First position at or after `from` where `p` occurs in `s`.
pub fn find_chars(s: &[char], p: &[char], from: usize) -> (r: Option<usize>)
    ensures
        match r {
            Some(i) => i as int == find_from(s@, p@, from as int),
            None => find_from(s@, p@, from as int) == -1,
        },
{
    let mut i = from;
    if i > s.len() || p.len() > s.len() - i {
        return None;
    }
    let last = s.len() - p.len();
    loop
        invariant
            from <= i <= last,
            last == s@.len() - p@.len(),
            find_from(s@, p@, i as int) == find_from(s@, p@, from as int),
        decreases last - i,
    {
        if matches_at(s, p, i) {
            return Some(i);
        }
        if i >= last {
            assert(find_from(s@, p@, i + 1) == -1);
            return None;
        }
        i += 1;
    }
}

/// `s` with every occurrence of the non-empty `p` replaced by `r`.
pub fn replace_chars(s: &[char], p: &[char], r: &[char]) -> (out: Vec<char>)
    requires
        p@.len() > 0,
    ensures
        out@ == replace_all(s@, p@, r@),
{
    let mut out: Vec<char> = Vec::new();
    let mut i: usize = 0;
    assert(s@.skip(0) =~= s@);
    while i < s.len()
        invariant
            i <= s@.len(),
            p@.len() > 0,
            out@ + replace_all(s@.skip(i as int), p@, r@) == replace_all(s@, p@, r@),
        decreases s@.len() - i,
    {
        let ghost rest = s@.skip(i as int);
        if matches_at(s, p, i) {
            assert(rest.take(p@.len() as int) =~= s@.subrange(i as int, i + p@.len()));
            assert(rest.skip(p@.len() as int) =~= s@.skip(i + p@.len()));
            push_all(&mut out, r);
            i += p.len();
            assert(out@ + replace_all(s@.skip(i as int), p@, r@) =~= replace_all(s@, p@, r@));
        } else {
            proof {
                if rest.len() >= p@.len() {
                    assert(rest.take(p@.len() as int) =~= s@.subrange(i as int, i + p@.len()));
                }
                assert(rest.drop_first() =~= s@.skip(i + 1));
                if rest.len() < p@.len() {
                    assert(replace_all(rest, p@, r@) == rest);
                    assert(replace_all(rest.drop_first(), p@, r@) == rest.drop_first());
                }
            }
            out.push(s[i]);
            i += 1;
            assert(out@ + replace_all(s@.skip(i as int), p@, r@) =~= replace_all(s@, p@, r@));
        }
    }
    assert(s@.skip(i as int) =~= Seq::<char>::empty());
    out
}

/// Appends all of `items` to `v`.
pub fn push_all(v: &mut Vec<char>, items: &[char])
    ensures
        final(v)@ == old(v)@ + items@,
{
    let mut j: usize = 0;
    while j < items.len()
        invariant
            j <= items@.len(),
            v@ == old(v)@ + items@.take(j as int),
        decreases items@.len() - j,
    {
        v.push(items[j]);
        j += 1;
        assert(items@.take(j as int) =~= items@.take(j - 1).push(items@[j - 1]));
    }
    assert(items@.take(items@.len() as int) =~= items@);
}

/// Appends the characters of `s` to `v`.
pub fn push_str(v: &mut Vec<char>, s: &str)
    ensures
        final(v)@ == old(v)@ + s@,
{
    let cs = chars_of(s);
    push_all(v, &cs);
}

/// `s` without leading and trailing Unicode whitespace.
pub fn trim(s: &[char]) -> (r: Vec<char>)
    ensures
        r@ == trim_ws(s@),
{
    let mut a: usize = 0;
    assert(s@.skip(0) =~= s@);
    while a < s.len() && is_whitespace(s[a])
        invariant
            a <= s@.len(),
            trim_start_ws(s@.skip(a as int)) == trim_start_ws(s@),
        decreases s@.len() - a,
    {
        assert(s@.skip(a as int).drop_first() =~= s@.skip(a + 1));
        a += 1;
    }
    assert(trim_start_ws(s@) =~= s@.skip(a as int));
    let mut b: usize = s.len();
    while b > a && is_whitespace(s[b - 1])
        invariant
            a <= b <= s@.len(),
            trim_start_ws(s@) == s@.skip(a as int),
            trim_end_ws(s@.subrange(a as int, b as int)) == trim_ws(s@),
        decreases b,
    {
        assert(s@.subrange(a as int, b as int).drop_last() =~= s@.subrange(a as int, b - 1));
        b -= 1;
    }
    assert(s@.skip(a as int) =~= s@.subrange(a as int, s@.len() as int));
    slice_copy(s, a, b)
}

/// A copy of `s[from..to]`.
pub fn slice_copy(s: &[char], from: usize, to: usize) -> (r: Vec<char>)
    requires
        from <= to <= s@.len(),
    ensures
        r@ == s@.subrange(from as int, to as int),
{
    let mut out: Vec<char> = Vec::new();
    let mut i = from;
    while i < to
        invariant
            from <= i <= to <= s@.len(),
            out@ == s@.subrange(from as int, i as int),
        decreases to - i,
    {
        out.push(s[i]);
        i += 1;
        assert(s@.subrange(from as int, i as int) =~= s@.subrange(from as int, i - 1).push(s@[i - 1]));
    }
    out
}

/// Whether `s` begins with `p`.
pub fn has_prefix(s: &[char], p: &[char]) -> (r: bool)
    ensures
        r == starts_with(s@, p@),
{
    let r = matches_at(s, p, 0);
    proof {
        if p@.len() <= s@.len() {
            assert(s@.subrange(0, p@.len() as int) =~= s@.take(p@.len() as int));
        }
    }
    r
}

/// The lines of `s`, as `str::lines` yields them.
pub fn lines_of(s: &[char]) -> (r: Vec<Vec<char>>)
    ensures
        r@.map_values(|v: Vec<char>| v@) == std_lines(s@),
{
    let ghost sq = s@;
    let len = s.len();
    let mut done: Vec<Vec<char>> = Vec::new();
    let mut cur: Vec<char> = Vec::new();
    let mut i: usize = 0;
    while i < len
        invariant
            i <= len == sq.len(),
            sq == s@,
            done@.map_values(|v: Vec<char>| v@).push(cur@) == crate::buffer::split_lines(sq.take(i as int)),
        decreases len - i,
    {
        let ch = s[i];
        let ghost before = done@.map_values(|v: Vec<char>| v@).push(cur@);
        assert(sq.take(i + 1).drop_last() =~= sq.take(i as int));
        if ch == '\n' {
            done.push(cur);
            cur = Vec::new();
            assert(done@.map_values(|v: Vec<char>| v@).push(cur@) =~= before.push(Seq::<char>::empty()));
        } else {
            cur.push(ch);
            assert(done@.map_values(|v: Vec<char>| v@).push(cur@) =~= before.update(before.len() - 1, before.last().push(ch)));
        }
        i = i + 1;
    }
    assert(sq.take(len as int) =~= sq);
    let ghost pieces = crate::buffer::split_lines(sq);
    if cur.len() > 0 {
        done.push(cur);
        assert(done@.map_values(|v: Vec<char>| v@) =~= pieces);
    } else {
        assert(done@.map_values(|v: Vec<char>| v@) =~= pieces.drop_last());
    }
    let mut out: Vec<Vec<char>> = Vec::new();
    let mut k: usize = 0;
    let ghost kept = done@.map_values(|v: Vec<char>| v@);
    while k < done.len()
        invariant
            k <= done@.len(),
            kept == done@.map_values(|v: Vec<char>| v@),
            out@.map_values(|v: Vec<char>| v@) == kept.take(k as int).map_values(|l: Seq<char>| strip_cr(l)),
        decreases done@.len() - k,
    {
        let line = &done[k];
        let n = line.len();
        let piece = if n > 0 && line[n - 1] == '\r' {
            let p = slice_copy(line, 0, n - 1);
            assert(p@ =~= line@.drop_last());
            p
        } else {
            let p = slice_copy(line, 0, n);
            assert(p@ =~= line@);
            p
        };
        assert(piece@ == strip_cr(kept[k as int]));
        let ghost prev = out@;
        out.push(piece);
        assert(out@.map_values(|v: Vec<char>| v@) =~= prev.map_values(|v: Vec<char>| v@).push(piece@));
        k += 1;
        assert(kept.take(k as int) =~= kept.take(k - 1).push(kept[k - 1]));
        assert(out@.map_values(|v: Vec<char>| v@) =~= kept.take(k as int).map_values(|l: Seq<char>| strip_cr(l)));
    }
    assert(kept.take(kept.len() as int) =~= kept);
    out
}

} // verus!

verus! {

/// `s` cut at every `sep` (separators dropped; empty pieces kept, as `str::split` does).
pub open spec fn split_on(s: Seq<char>, sep: char) -> Seq<Seq<char>>
    decreases s.len(),
{
    if s.len() == 0 {
        seq![Seq::<char>::empty()]
    } else {
        let prev = split_on(s.drop_last(), sep);
        if s.last() == sep {
            prev.push(Seq::<char>::empty())
        } else {
            prev.update(prev.len() - 1, prev.last().push(s.last()))
        }
    }
}

/// The pieces of `parts` joined with `sep` between them.
pub open spec fn join_with(parts: Seq<Seq<char>>, sep: Seq<char>) -> Seq<char>
    decreases parts.len(),
{
    if parts.len() == 0 {
        Seq::empty()
    } else if parts.len() == 1 {
        parts[0]
    } else {
        join_with(parts.drop_last(), sep) + sep + parts.last()
    }
}

/// The view of an optional string.
pub open spec fn opt_view(o: Option<String>) -> Option<Seq<char>> {
    match o {
        Some(s) => Some(s@),
        None => None,
    }
}

/// The views of a vector of strings.
pub open spec fn strings_view(v: Seq<String>) -> Seq<Seq<char>> {
    v.map_values(|s: String| s@)
}

/// The views of a vector of character vectors.
pub open spec fn vecs_view(v: Seq<Vec<char>>) -> Seq<Seq<char>> {
    v.map_values(|s: Vec<char>| s@)
}

pub proof fn lemma_split_on_nonempty(s: Seq<char>, sep: char)
    ensures
        split_on(s, sep).len() >= 1,
    decreases s.len(),
{
    if s.len() > 0 {
        lemma_split_on_nonempty(s.drop_last(), sep);
    }
}

/// Whether `a` and `b` hold the same characters.
pub fn same_chars(a: &[char], b: &[char]) -> (r: bool)
    ensures
        r == (a@ == b@),
{
    if a.len() != b.len() {
        return false;
    }
    let mut i: usize = 0;
    while i < a.len()
        invariant
            i <= a@.len() == b@.len(),
            forall|j: int| 0 <= j < i ==> a@[j] == b@[j],
        decreases a@.len() - i,
    {
        if a[i] != b[i] {
            return false;
        }
        i += 1;
    }
    assert(a@ =~= b@);
    true
}

/// Whether `a` holds exactly the characters of `b`.
pub fn equals_str(a: &[char], b: &str) -> (r: bool)
    ensures
        r == (a@ == b@),
{
    let bc = chars_of(b);
    same_chars(a, &bc)
}

/// Whether `a` begins with the characters of `b`.
pub fn has_prefix_str(a: &[char], b: &str) -> (r: bool)
    ensures
        r == starts_with(a@, b@),
{
    let bc = chars_of(b);
    has_prefix(a, &bc)
}

/// `s` cut at every `sep`.
pub fn split_chars(s: &[char], sep: char) -> (r: Vec<Vec<char>>)
    ensures
        vecs_view(r@) == split_on(s@, sep),
{
    let ghost sq = s@;
    let len = s.len();
    let mut done: Vec<Vec<char>> = Vec::new();
    let mut cur: Vec<char> = Vec::new();
    let mut i: usize = 0;
    while i < len
        invariant
            i <= len == sq.len(),
            sq == s@,
            vecs_view(done@).push(cur@) == split_on(sq.take(i as int), sep),
        decreases len - i,
    {
        let ch = s[i];
        let ghost before = vecs_view(done@).push(cur@);
        assert(sq.take(i + 1).drop_last() =~= sq.take(i as int));
        if ch == sep {
            done.push(cur);
            cur = Vec::new();
            assert(vecs_view(done@).push(cur@) =~= before.push(Seq::<char>::empty()));
        } else {
            cur.push(ch);
            assert(vecs_view(done@).push(cur@) =~= before.update(before.len() - 1, before.last().push(ch)));
        }
        i = i + 1;
    }
    assert(sq.take(len as int) =~= sq);
    let ghost prev = done@;
    done.push(cur);
    assert(vecs_view(done@) =~= vecs_view(prev).push(cur@));
    done
}

/// The pieces of `parts` joined with `sep`.
pub fn join_chars(parts: &Vec<Vec<char>>, sep: &str) -> (r: Vec<char>)
    ensures
        r@ == join_with(vecs_view(parts@), sep@),
{
    let mut out: Vec<char> = Vec::new();
    let mut i: usize = 0;
    while i < parts.len()
        invariant
            i <= parts@.len(),
            out@ == join_with(vecs_view(parts@).take(i as int), sep@),
        decreases parts@.len() - i,
    {
        let ghost pv = vecs_view(parts@);
        assert(pv.take(i + 1).drop_last() =~= pv.take(i as int));
        if i > 0 {
            push_str(&mut out, sep);
        }
        push_all(&mut out, &parts[i]);
        i += 1;
        assert(pv.take(i as int).last() == parts@[i - 1]@);
        if i == 1 {
            assert(join_with(pv.take(1), sep@) == pv.take(1)[0]);
        }
    }
    assert(vecs_view(parts@).take(parts@.len() as int) =~= vecs_view(parts@));
    out
}

} // verus!

verus! {

pub proof fn lemma_find_from_props(s: Seq<char>, p: Seq<char>, from: int)
    ensures
        find_from(s, p, from) == -1 || (from <= find_from(s, p, from) && occurs_at(s, p, find_from(s, p, from))),
        find_from(s, p, from) != -1 ==> find_from(s, p, from) + p.len() <= s.len(),
    decreases s.len() - from,
{
    if !(from < 0 || from + p.len() > s.len()) && !occurs_at(s, p, from) && from < s.len() {
        lemma_find_from_props(s, p, from + 1);
    }
}

} // verus!

verus! {

/// The decimal digit for `d` (below 10).
pub open spec fn digit(d: int) -> char {
    if d == 0 {
        '0'
    } else if d == 1 {
        '1'
    } else if d == 2 {
        '2'
    } else if d == 3 {
        '3'
    } else if d == 4 {
        '4'
    } else if d == 5 {
        '5'
    } else if d == 6 {
        '6'
    } else if d == 7 {
        '7'
    } else if d == 8 {
        '8'
    } else {
        '9'
    }
}

/// `n` written in decimal.
pub open spec fn decimal(n: nat) -> Seq<char>
    decreases n,
{
    if n < 10 {
        seq![digit(n as int)]
    } else {
        decimal(n / 10) + seq![digit((n % 10) as int)]
    }
}

/// Number of occurrences of `c` in `s`.
pub open spec fn count_char(s: Seq<char>, c: char) -> nat
    decreases s.len(),
{
    if s.len() == 0 {
        0
    } else {
        count_char(s.drop_last(), c) + if s.last() == c { 1nat } else { 0nat }
    }
}

pub proof fn lemma_count_concat(a: Seq<char>, b: Seq<char>, c: char)
    ensures
        count_char(a + b, c) == count_char(a, c) + count_char(b, c),
    decreases b.len(),
{
    if b.len() > 0 {
        assert((a + b).drop_last() =~= a + b.drop_last());
        lemma_count_concat(a, b.drop_last(), c);
    } else {
        assert(a + b =~= a);
    }
}

proof fn lemma_count_single(x: char, c: char)
    ensures
        count_char(seq![x], c) == if x == c { 1nat } else { 0nat },
{
    assert(seq![x].drop_last() =~= Seq::<char>::empty());
    assert(count_char(Seq::<char>::empty(), c) == 0);
    assert(seq![x].last() == x);
}

pub proof fn lemma_count_first(s: Seq<char>, c: char)
    requires
        s.len() > 0,
    ensures
        count_char(s, c) == count_char(s.drop_first(), c) + if s[0] == c { 1nat } else { 0nat },
{
    lemma_count_concat(seq![s[0]], s.drop_first(), c);
    assert(seq![s[0]] + s.drop_first() =~= s);
    lemma_count_single(s[0], c);
}

/// A piece cut out of `s` and replaced by text without `c`: when the piece
/// held a `c`, fewer `c` remain.
pub proof fn lemma_count_cut(s: Seq<char>, start: int, end: int, ins: Seq<char>, c: char)
    requires
        0 <= start < end <= s.len(),
        s[start] == c,
        count_char(ins, c) == 0,
    ensures
        count_char(s.take(start) + ins + s.skip(end), c) < count_char(s, c),
{
    let mid = s.subrange(start, end);
    assert(s =~= s.take(start) + mid + s.skip(end));
    lemma_count_concat(s.take(start) + mid, s.skip(end), c);
    lemma_count_concat(s.take(start), mid, c);
    lemma_count_concat(s.take(start) + ins, s.skip(end), c);
    lemma_count_concat(s.take(start), ins, c);
    lemma_count_first(mid, c);
}

/// A sequence none of whose items is `c` holds no `c`.
pub proof fn lemma_count_absent(s: Seq<char>, c: char)
    requires
        forall|i: int| 0 <= i < s.len() ==> s[i] != c,
    ensures
        count_char(s, c) == 0,
    decreases s.len(),
{
    if s.len() > 0 {
        lemma_count_absent(s.drop_last(), c);
    }
}

pub proof fn lemma_decimal_digits(n: nat)
    ensures
        count_char(decimal(n), '<') == 0,
        decimal(n).len() >= 1,
    decreases n,
{
    if n >= 10 {
        lemma_decimal_digits(n / 10);
        lemma_count_concat(decimal(n / 10), seq![digit((n % 10) as int)], '<');
        lemma_count_single(digit((n % 10) as int), '<');
    } else {
        lemma_count_single(digit(n as int), '<');
    }
}

fn digit_exec(d: usize) -> (r: char)
    requires
        d < 10,
    ensures
        r == digit(d as int),
{
    if d == 0 {
        '0'
    } else if d == 1 {
        '1'
    } else if d == 2 {
        '2'
    } else if d == 3 {
        '3'
    } else if d == 4 {
        '4'
    } else if d == 5 {
        '5'
    } else if d == 6 {
        '6'
    } else if d == 7 {
        '7'
    } else if d == 8 {
        '8'
    } else {
        '9'
    }
}

/// `n` written in decimal.
pub fn decimal_of(n: usize) -> (r: Vec<char>)
    ensures
        r@ == decimal(n as nat),
    decreases n,
{
    if n < 10 {
        let mut v: Vec<char> = Vec::new();
        v.push(digit_exec(n));
        assert(v@ =~= seq![digit(n as int)]);
        v
    } else {
        let mut v = decimal_of(n / 10);
        v.push(digit_exec(n % 10));
        v
    }
}

/// `n` written in decimal.
pub fn decimal_of_wide(n: u128) -> (r: Vec<char>)
    ensures
        r@ == decimal(n as nat),
    decreases n,
{
    if n < 10 {
        let mut v: Vec<char> = Vec::new();
        v.push(digit_exec(n as usize));
        assert(v@ =~= seq![digit(n as int)]);
        v
    } else {
        let mut v = decimal_of_wide(n / 10);
        v.push(digit_exec((n % 10) as usize));
        v
    }
}

/// Whether `a` comes before or equals `b`, comparing character by character
/// (UTF-8 keeps the order of code points, so this is the order of `String`).
pub open spec fn lex_le(a: Seq<char>, b: Seq<char>) -> bool
    decreases a.len(),
{
    if a.len() == 0 {
        true
    } else if b.len() == 0 {
        false
    } else if a[0] != b[0] {
        (a[0] as u32) < (b[0] as u32)
    } else {
        lex_le(a.drop_first(), b.drop_first())
    }
}

/// Whether `a` comes before or equals `b` in character order.
pub fn lex_le_exec(a: &Vec<char>, b: &Vec<char>) -> (r: bool)
    ensures
        r == lex_le(a@, b@),
{
    let mut i: usize = 0;
    assert(a@.skip(0) =~= a@ && b@.skip(0) =~= b@);
    while i < a.len() && i < b.len() && a[i] == b[i]
        invariant
            i <= a@.len(),
            i <= b@.len(),
            lex_le(a@.skip(i as int), b@.skip(i as int)) == lex_le(a@, b@),
        decreases a@.len() - i,
    {
        assert(a@.skip(i as int).drop_first() =~= a@.skip(i + 1));
        assert(b@.skip(i as int).drop_first() =~= b@.skip(i + 1));
        i += 1;
    }
    if i == a.len() {
        true
    } else if i == b.len() {
        false
    } else {
        (a[i] as u32) < (b[i] as u32)
    }
}

} // verus!
