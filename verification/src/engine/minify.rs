use vstd::prelude::*;
use crate::trusted::{is_whitespace, whitespace};
use crate::text::occurs_at;
use crate::text::{
    chars_of, count_char, decimal, decimal_of, find_chars, find_from, lemma_count_absent,
    lemma_count_concat, lemma_count_cut, lemma_decimal_digits, lemma_find_from_props, push_all,
    push_str, replace_all, replace_chars, slice_copy, string_of, trim, trim_ws, vecs_view,
};

verus! {

/// Where a `/*` comment whose body starts at `i` ends: the first `j >= i` with
/// `*/` at `j`, or the last position when there is none.
pub open spec fn comment_close(s: Seq<char>, i: int) -> int
    decreases s.len() - i,
{
    if i + 1 >= s.len() || (s[i] == '*' && s[i + 1] == '/') {
        i
    } else {
        comment_close(s, i + 1)
    }
}

/// `s` without `/* ... */` comments; an unclosed comment runs to the end.
pub open spec fn css_no_comments(s: Seq<char>) -> Seq<char>
    decreases s.len(),
{
    if s.len() == 0 {
        Seq::empty()
    } else if s.len() >= 2 && s[0] == '/' && s[1] == '*' {
        let k = comment_close(s, 2);
        if k + 2 >= s.len() {
            Seq::empty()
        } else {
            proof {
                lemma_comment_close_bounds(s, 2);
            }
            css_no_comments(s.skip(k + 2))
        }
    } else {
        seq![s[0]] + css_no_comments(s.drop_first())
    }
}

pub proof fn lemma_comment_close_bounds(s: Seq<char>, i: int)
    ensures
        comment_close(s, i) >= i,
    decreases s.len() - i,
{
    if !(i + 1 >= s.len() || (s[i] == '*' && s[i + 1] == '/')) {
        lemma_comment_close_bounds(s, i + 1);
    }
}

/// Every run of whitespace turned into one space; `in_run` tells whether the
/// text before `s` ended inside such a run.
pub open spec fn collapse_ws(s: Seq<char>, in_run: bool) -> Seq<char>
    decreases s.len(),
{
    if s.len() == 0 {
        Seq::empty()
    } else if whitespace(s[0]) {
        (if in_run { Seq::empty() } else { seq![' '] }) + collapse_ws(s.drop_first(), true)
    } else {
        seq![s[0]] + collapse_ws(s.drop_first(), false)
    }
}

/// The CSS characters around which spaces are dropped, in the order they are handled.
pub open spec fn css_op(k: int) -> char {
    if k == 0 {
        '{'
    } else if k == 1 {
        '}'
    } else if k == 2 {
        ':'
    } else if k == 3 {
        ';'
    } else if k == 4 {
        ','
    } else if k == 5 {
        '>'
    } else if k == 6 {
        '~'
    } else {
        '+'
    }
}

/// Spaces before and after the first `n` operators removed, one operator at a time.
pub open spec fn strip_op_spaces(s: Seq<char>, n: int) -> Seq<char>
    decreases n,
{
    if n <= 0 {
        s
    } else {
        let prev = strip_op_spaces(s, n - 1);
        let op = css_op(n - 1);
        replace_all(replace_all(prev, seq![' ', op], seq![op]), seq![op, ' '], seq![op])
    }
}

/// Minified CSS: comments removed, whitespace runs collapsed, spaces around
/// operators and a `;` before `}` dropped, then trimmed.
pub open spec fn minified_css(css: Seq<char>) -> Seq<char> {
    let a = collapse_ws(css_no_comments(css), false);
    trim_ws(replace_all(strip_op_spaces(a, 8), ";}"@, "}"@))
}

/// The characters around which minified CSS has no spaces.
pub open spec fn css_operator(c: char) -> bool {
    c == '{' || c == '}' || c == ':' || c == ';' || c == ',' || c == '>' || c == '~' || c == '+'
}

/// CSS in minified form: no comment opener, no whitespace but single
/// spaces, none next to an operator or at either end, and no `;` before `}`.
pub open spec fn already_minified(s: Seq<char>) -> bool {
    &&& forall|i: int| 0 <= i < s.len() && whitespace(#[trigger] s[i]) ==> s[i] == ' '
    &&& forall|i: int| 0 <= i < s.len() - 1 ==> !(#[trigger] s[i] == '/' && s[i + 1] == '*')
    &&& forall|i: int| 0 <= i < s.len() - 1 && #[trigger] s[i] == ' ' ==> s[i + 1] != ' ' && !css_operator(s[i + 1])
    &&& forall|i: int| 0 <= i < s.len() - 1 && css_operator(#[trigger] s[i]) ==> s[i + 1] != ' '
    &&& forall|i: int| 0 <= i < s.len() - 1 ==> !(#[trigger] s[i] == ';' && s[i + 1] == '}')
    &&& s.len() == 0 || (s[0] != ' ' && s.last() != ' ')
}

proof fn lemma_no_comments_kept(s: Seq<char>)
    requires
        forall|i: int| 0 <= i < s.len() - 1 ==> !(#[trigger] s[i] == '/' && s[i + 1] == '*'),
    ensures
        css_no_comments(s) == s,
    decreases s.len(),
{
    if s.len() > 0 {
        let t = s.drop_first();
        assert forall|i: int| 0 <= i < t.len() - 1 implies !(#[trigger] t[i] == '/' && t[i + 1] == '*') by {
            assert(t[i] == s[i + 1] && t[i + 1] == s[i + 2]);
        }
        lemma_no_comments_kept(t);
        if s.len() >= 2 {
            assert(!(s[0] == '/' && s[1] == '*'));
        }
        assert(seq![s[0]] + t =~= s);
    }
}

proof fn lemma_collapse_kept(s: Seq<char>, in_run: bool)
    requires
        forall|i: int| 0 <= i < s.len() && whitespace(#[trigger] s[i]) ==> s[i] == ' ',
        forall|i: int| 0 <= i < s.len() - 1 && #[trigger] s[i] == ' ' ==> s[i + 1] != ' ',
        in_run ==> s.len() == 0 || s[0] != ' ',
    ensures
        collapse_ws(s, in_run) == s,
    decreases s.len(),
{
    if s.len() > 0 {
        let t = s.drop_first();
        assert forall|i: int| 0 <= i < t.len() && whitespace(#[trigger] t[i]) implies t[i] == ' ' by {
            assert(t[i] == s[i + 1]);
        }
        assert forall|i: int| 0 <= i < t.len() - 1 && #[trigger] t[i] == ' ' implies t[i + 1] != ' ' by {
            assert(t[i] == s[i + 1] && t[i + 1] == s[i + 2]);
        }
        if whitespace(s[0]) {
            assert(s[0] == ' ');
            if t.len() > 0 {
                assert(t[0] == s[1]);
            }
            lemma_collapse_kept(t, true);
        } else {
            lemma_collapse_kept(t, false);
        }
        assert(seq![s[0]] + t =~= s);
    }
}

proof fn lemma_replace_absent(s: Seq<char>, p: Seq<char>, r: Seq<char>)
    requires
        p.len() > 0,
        forall|i: int| !occurs_at(s, p, i),
    ensures
        replace_all(s, p, r) == s,
    decreases s.len(),
{
    if s.len() >= p.len() {
        assert(!occurs_at(s, p, 0));
        assert(s.take(p.len() as int) =~= s.subrange(0, p.len() as int));
        let t = s.drop_first();
        assert forall|i: int| !occurs_at(t, p, i) by {
            if occurs_at(t, p, i) {
                assert(t.subrange(i, i + p.len()) =~= s.subrange(i + 1, i + 1 + p.len()));
                assert(occurs_at(s, p, i + 1));
            }
        }
        lemma_replace_absent(t, p, r);
        assert(seq![s[0]] + t =~= s);
    }
}

/// A two-character pattern that never stands in `s` is absent from it.
proof fn lemma_pair_absent(s: Seq<char>, a: char, b: char)
    requires
        forall|i: int| 0 <= i < s.len() - 1 ==> !(#[trigger] s[i] == a && s[i + 1] == b),
    ensures
        forall|i: int| !occurs_at(s, seq![a, b], i),
{
    assert forall|i: int| !occurs_at(s, seq![a, b], i) by {
        if occurs_at(s, seq![a, b], i) {
            let w = s.subrange(i, i + 2);
            assert(w[0] == s[i] && w[1] == s[i + 1]);
        }
    }
}

proof fn lemma_op_spaces_kept(s: Seq<char>, n: int)
    requires
        0 <= n <= 8,
        already_minified(s),
    ensures
        strip_op_spaces(s, n) == s,
    decreases n,
{
    if n > 0 {
        lemma_op_spaces_kept(s, n - 1);
        let op = css_op(n - 1);
        assert(css_operator(op));
        assert forall|i: int| 0 <= i < s.len() - 1 implies !(#[trigger] s[i] == ' ' && s[i + 1] == op) by {
            if s[i] == ' ' {
                assert(!css_operator(s[i + 1]));
            }
        }
        assert forall|i: int| 0 <= i < s.len() - 1 implies !(#[trigger] s[i] == op && s[i + 1] == ' ') by {
            if s[i] == op {
                assert(css_operator(s[i]));
            }
        }
        lemma_pair_absent(s, ' ', op);
        lemma_pair_absent(s, op, ' ');
        lemma_replace_absent(s, seq![' ', op], seq![op]);
        lemma_replace_absent(s, seq![op, ' '], seq![op]);
    }
}

/// Minifying CSS that is already in minified form changes nothing: in
/// particular a single space between two characters that are not
/// operators stays (as between a selector's parts or a property's values).
pub proof fn law_minify_css_keeps_minified(css: Seq<char>)
    requires
        already_minified(css),
    ensures
        minified_css(css) == css,
{
    lemma_no_comments_kept(css);
    lemma_collapse_kept(css, false);
    lemma_op_spaces_kept(css, 8);
    reveal_strlit(";}");
    reveal_strlit("}");
    assert(";}"@ =~= seq![';', '}']);
    lemma_pair_absent(css, ';', '}');
    lemma_replace_absent(css, ";}"@, "}"@);
    if css.len() > 0 {
        assert(!whitespace(css[0]));
        assert(!whitespace(css.last()));
    }
}

/// Whether the text ends inside a whitespace run, given whether it started in one.
pub open spec fn ends_in_run(a: Seq<char>, in_run: bool) -> bool {
    if a.len() == 0 {
        in_run
    } else {
        whitespace(a.last())
    }
}

proof fn lemma_collapse_concat(a: Seq<char>, b: Seq<char>, in_run: bool)
    ensures
        collapse_ws(a + b, in_run) == collapse_ws(a, in_run) + collapse_ws(b, ends_in_run(a, in_run)),
    decreases a.len(),
{
    if a.len() == 0 {
        assert(a + b =~= b);
        assert(collapse_ws(a, in_run) + collapse_ws(b, in_run) =~= collapse_ws(b, in_run));
    } else {
        assert((a + b).drop_first() =~= a.drop_first() + b);
        assert((a + b)[0] == a[0]);
        let r2 = whitespace(a[0]);
        lemma_collapse_concat(a.drop_first(), b, r2);
        if a.len() > 1 {
            assert(a.drop_first().last() == a.last());
        }
        let head: Seq<char> = if whitespace(a[0]) {
            if in_run { Seq::empty() } else { seq![' '] }
        } else {
            seq![a[0]]
        };
        assert(head + (collapse_ws(a.drop_first(), r2) + collapse_ws(b, ends_in_run(a, in_run)))
            =~= (head + collapse_ws(a.drop_first(), r2)) + collapse_ws(b, ends_in_run(a, in_run)));
    }
}

proof fn lemma_collapse_run(w: Seq<char>, in_run: bool)
    requires
        forall|i: int| 0 <= i < w.len() ==> whitespace(#[trigger] w[i]),
    ensures
        collapse_ws(w, in_run) == (if in_run || w.len() == 0 { Seq::<char>::empty() } else { seq![' '] }),
    decreases w.len(),
{
    if w.len() > 0 {
        let t = w.drop_first();
        assert forall|i: int| 0 <= i < t.len() implies whitespace(#[trigger] t[i]) by {
            assert(t[i] == w[i + 1]);
        }
        lemma_collapse_run(t, true);
        assert(whitespace(w[0]));
    }
}

/// A run of whitespace between two characters that are not operators
/// becomes exactly one space: for minified pieces `x` and `y`, `x`, any
/// whitespace, then `y` minify to `x`, one space, `y` (as the parts of a
/// selector or the values of a property keep their separation).
pub proof fn law_minify_css_keeps_one_space_between_words(x: Seq<char>, w: Seq<char>, y: Seq<char>)
    requires
        already_minified(x),
        already_minified(y),
        x.len() > 0,
        y.len() > 0,
        !css_operator(x.last()),
        !css_operator(y[0]),
        w.len() > 0,
        forall|i: int| 0 <= i < w.len() ==> whitespace(#[trigger] w[i]),
    ensures
        minified_css(x + w + y) == x + seq![' '] + y,
{
    let s = x + w + y;
    let m = x + seq![' '] + y;
    assert(!whitespace(x.last()));
    assert(!whitespace(y[0]));
    assert forall|i: int| 0 <= i < s.len() - 1 implies !(#[trigger] s[i] == '/' && s[i + 1] == '*') by {
        if i < x.len() - 1 {
            assert(s[i] == x[i] && s[i + 1] == x[i + 1]);
        } else if i == x.len() - 1 {
            assert(s[i + 1] == w[0]);
        } else if i < x.len() + w.len() - 1 {
            assert(s[i + 1] == w[i + 1 - x.len()]);
        } else if i == x.len() + w.len() - 1 {
            assert(s[i] == w[w.len() - 1]);
        } else {
            assert(s[i] == y[i - x.len() - w.len()] && s[i + 1] == y[i + 1 - x.len() - w.len()]);
        }
    }
    lemma_no_comments_kept(s);
    lemma_collapse_concat(x + w, y, false);
    lemma_collapse_concat(x, w, false);
    lemma_collapse_kept(x, false);
    lemma_collapse_run(w, false);
    assert(ends_in_run(x, false) == false);
    assert(ends_in_run(x + w, false) == true) by {
        assert((x + w).last() == w.last());
    }
    lemma_collapse_kept(y, true);
    assert(collapse_ws(s, false) == m);
    assert(already_minified(m)) by {
        let n = x.len() as int;
        assert(m[n] == ' ');
        assert forall|i: int| 0 <= i < m.len() && whitespace(#[trigger] m[i]) implies m[i] == ' ' by {
            if i < n {
                assert(m[i] == x[i]);
            } else if i > n {
                assert(m[i] == y[i - n - 1]);
            }
        }
        assert forall|i: int| 0 <= i < m.len() - 1 implies !(#[trigger] m[i] == '/' && m[i + 1] == '*') by {
            if i < n - 1 {
                assert(m[i] == x[i] && m[i + 1] == x[i + 1]);
            } else if i > n {
                assert(m[i] == y[i - n - 1] && m[i + 1] == y[i - n]);
            } else if i == n {
                assert(m[i + 1] == y[0]);
            }
        }
        assert forall|i: int| 0 <= i < m.len() - 1 && #[trigger] m[i] == ' ' implies m[i + 1] != ' ' && !css_operator(m[i + 1]) by {
            if i < n - 1 {
                assert(m[i] == x[i] && m[i + 1] == x[i + 1]);
            } else if i == n - 1 {
                assert(m[i] == x.last());
            } else if i == n {
                assert(m[i + 1] == y[0]);
            } else {
                assert(m[i] == y[i - n - 1] && m[i + 1] == y[i - n]);
            }
        }
        assert forall|i: int| 0 <= i < m.len() - 1 && css_operator(#[trigger] m[i]) implies m[i + 1] != ' ' by {
            if i < n - 1 {
                assert(m[i] == x[i] && m[i + 1] == x[i + 1]);
            } else if i == n - 1 {
                assert(m[i] == x.last());
            } else if i > n {
                assert(m[i] == y[i - n - 1] && m[i + 1] == y[i - n]);
            }
        }
        assert forall|i: int| 0 <= i < m.len() - 1 implies !(#[trigger] m[i] == ';' && m[i + 1] == '}') by {
            if i < n - 1 {
                assert(m[i] == x[i] && m[i + 1] == x[i + 1]);
            } else if i > n {
                assert(m[i] == y[i - n - 1] && m[i + 1] == y[i - n]);
            } else if i == n {
                assert(m[i + 1] == y[0]);
            }
        }
        assert(m[0] == x[0]);
        assert(m.last() == y.last());
    }
    law_minify_css_keeps_minified(m);
    lemma_no_comments_kept(m);
    lemma_collapse_kept(m, false);
}

/// Minify CSS: strip comments, collapse whitespace, remove unnecessary characters.
pub fn minify_css(css: &str) -> (r: String)
    ensures
        r@ == minified_css(css@),
{
    let cs = chars_of(css);
    let no_comments = strip_css_comments(&cs);
    let collapsed = collapse_whitespace_runs(&no_comments);
    let out = strip_css_whitespace_around_operators(&collapsed);
    string_of(&out)
}

fn strip_css_comments(s: &[char]) -> (r: Vec<char>)
    ensures
        r@ == css_no_comments(s@),
{
    let len = s.len();
    let mut out: Vec<char> = Vec::new();
    let mut idx: usize = 0;
    assert(s@.skip(0) =~= s@);
    while idx < len
        invariant
            idx <= len == s@.len(),
            len == s.len(),
            out@ + css_no_comments(s@.skip(idx as int)) == css_no_comments(s@),
        decreases len - idx,
    {
        let ghost rest = s@.skip(idx as int);
        if idx + 1 < len && s[idx] == '/' && s[idx + 1] == '*' {
            let mut j = idx + 2;
            while j < len - 1 && !(s[j] == '*' && s[j + 1] == '/')
                invariant
                    idx + 2 <= j <= len,
                    len == s@.len(),
                    len == s.len(),
                    rest == s@.skip(idx as int),
                    comment_close(rest, (j - idx) as int) == comment_close(rest, 2),
                decreases len - j,
            {
                j += 1;
            }
            proof {
                lemma_comment_close_bounds(rest, 2);
            }
            if j >= len - 2 {
                assert(css_no_comments(rest) == Seq::<char>::empty());
                idx = len;
                assert(s@.skip(idx as int) =~= Seq::<char>::empty());
            } else {
                assert(rest.skip(j - idx + 2) =~= s@.skip(j + 2));
                idx = j + 2;
            }
        } else {
            out.push(s[idx]);
            assert(rest.drop_first() =~= s@.skip(idx + 1));
            idx += 1;
        }
    }
    assert(s@.skip(idx as int) =~= Seq::<char>::empty());
    assert(out@ + Seq::<char>::empty() =~= out@);
    out
}

fn collapse_whitespace_runs(s: &[char]) -> (r: Vec<char>)
    ensures
        r@ == collapse_ws(s@, false),
{
    let mut out: Vec<char> = Vec::new();
    let mut prev_ws = false;
    let mut i: usize = 0;
    assert(s@.skip(0) =~= s@);
    while i < s.len()
        invariant
            i <= s@.len(),
            out@ + collapse_ws(s@.skip(i as int), prev_ws) == collapse_ws(s@, false),
        decreases s@.len() - i,
    {
        let ch = s[i];
        assert(s@.skip(i as int).drop_first() =~= s@.skip(i + 1));
        if is_whitespace(ch) {
            if !prev_ws {
                out.push(' ');
            }
            prev_ws = true;
        } else {
            out.push(ch);
            prev_ws = false;
        }
        i += 1;
    }
    assert(s@.skip(i as int) =~= Seq::<char>::empty());
    assert(out@ + Seq::<char>::empty() =~= out@);
    out
}

fn css_op_exec(k: usize) -> (r: char)
    ensures
        r == css_op(k as int),
{
    if k == 0 {
        '{'
    } else if k == 1 {
        '}'
    } else if k == 2 {
        ':'
    } else if k == 3 {
        ';'
    } else if k == 4 {
        ','
    } else if k == 5 {
        '>'
    } else if k == 6 {
        '~'
    } else {
        '+'
    }
}

fn strip_css_whitespace_around_operators(css: &[char]) -> (r: Vec<char>)
    ensures
        r@ == trim_ws(replace_all(strip_op_spaces(css@, 8), ";}"@, "}"@)),
{
    let mut result = slice_copy(css, 0, css.len());
    assert(css@.subrange(0, css@.len() as int) =~= css@);
    let mut k: usize = 0;
    while k < 8
        invariant
            k <= 8,
            result@ == strip_op_spaces(css@, k as int),
        decreases 8 - k,
    {
        let op = css_op_exec(k);
        let mut before: Vec<char> = Vec::new();
        before.push(' ');
        before.push(op);
        let mut after: Vec<char> = Vec::new();
        after.push(op);
        after.push(' ');
        let mut single: Vec<char> = Vec::new();
        single.push(op);
        assert(before@ =~= seq![' ', op]);
        assert(after@ =~= seq![op, ' ']);
        assert(single@ =~= seq![op]);
        result = replace_chars(&result, &before, &single);
        result = replace_chars(&result, &after, &single);
        k += 1;
    }
    let semi = chars_of(";}");
    let close = chars_of("}");
    proof {
        reveal_strlit(";}");
    }
    result = replace_chars(&result, &semi, &close);
    trim(&result)
}

/// Position of the first stylesheet `<link ...>` tag at or after `from`
/// (searching tag by tag), as (start, end) with `end` just past its `>`.
pub open spec fn stylesheet_link(s: Seq<char>, from: int) -> Option<(int, int)>
    decreases s.len() - from,
{
    let start = find_from(s, "<link"@, from);
    if start < 0 {
        None
    } else {
        let gt = find_from(s, ">"@, start);
        if gt < 0 {
            None
        } else if find_from(s.subrange(start, gt + 1), "stylesheet"@, 0) >= 0 {
            Some((start, gt + 1))
        } else {
            proof {
                lemma_find_from_props(s, "<link"@, from);
                lemma_find_from_props(s, ">"@, start);
                reveal_strlit(">");
            }
            if gt + 1 <= from {
                None
            } else {
                stylesheet_link(s, gt + 1)
            }
        }
    }
}

/// The HTML with its first stylesheet link tag replaced by an inline style block.
pub open spec fn css_inlined(html: Seq<char>, css: Seq<char>) -> Seq<char> {
    match stylesheet_link(html, 0) {
        Some((a, b)) => html.take(a) + "<style>"@ + css + "</style>"@ + html.skip(b),
        None => html,
    }
}

/// Replace the first `<link rel="stylesheet">` with an inline `<style>` block.
pub fn inline_css(html: &str, css: &str) -> (r: String)
    ensures
        r@ == css_inlined(html@, css@),
{
    let s = chars_of(html);
    let link = chars_of("<link");
    let gt = chars_of(">");
    let sheet = chars_of("stylesheet");
    let mut search_from: usize = 0;
    loop
        invariant
            s@ == html@,
            link@ == "<link"@,
            gt@ == ">"@,
            sheet@ == "stylesheet"@,
            search_from <= s@.len(),
            stylesheet_link(s@, search_from as int) == stylesheet_link(s@, 0),
        decreases s@.len() - search_from,
    {
        proof {
            reveal_strlit(">");
        }
        let start = match find_chars(&s, &link, search_from) {
            Some(a) => a,
            None => return string_of(&s),
        };
        proof {
            lemma_find_from_props(s@, "<link"@, search_from as int);
        }
        let end = match find_chars(&s, &gt, start) {
            Some(e) => e,
            None => return string_of(&s),
        };
        proof {
            lemma_find_from_props(s@, ">"@, start as int);
        }
        let n = s.len();
        assert(end < n);
        let tag = slice_copy(&s, start, end + 1);
        if find_chars(&tag, &sheet, 0).is_some() {
            let mut out = slice_copy(&s, 0, start);
            push_str(&mut out, "<style>");
            push_str(&mut out, css);
            push_str(&mut out, "</style>");
            let tail = slice_copy(&s, end + 1, s.len());
            push_all(&mut out, &tail);
            assert(s@.subrange(0, start as int) =~= s@.take(start as int));
            assert(s@.subrange(end + 1, s@.len() as int) =~= s@.skip(end + 1));
            return string_of(&out);
        }
        search_from = end + 1;
    }
}


/// The text that stands in for the `n`-th preserved block.
pub open spec fn preserve_placeholder(n: nat) -> Seq<char> {
    "__PRESERVE_"@ + decimal(n) + "__"@
}

pub proof fn lemma_placeholder_has_no_lt(n: nat)
    ensures
        count_char(preserve_placeholder(n), '<') == 0,
{
    reveal_strlit("__PRESERVE_");
    reveal_strlit("__");
    lemma_count_absent("__PRESERVE_"@, '<');
    lemma_count_absent("__"@, '<');
    lemma_decimal_digits(n);
    lemma_count_concat("__PRESERVE_"@, decimal(n), '<');
    lemma_count_concat("__PRESERVE_"@ + decimal(n), "__"@, '<');
}

/// The opening of an element named `name`: `<name`.
pub open spec fn open_tag(name: Seq<char>) -> Seq<char> {
    seq!['<'] + name
}

/// The closing tag of an element named `name`: `</name>`.
pub open spec fn close_tag(name: Seq<char>) -> Seq<char> {
    seq!['<', '/'] + name + seq!['>']
}

/// Repeatedly cuts the first `<name ...>...</name>` block out of `s` (the
/// first opening, then the first closing after it), stores it at the end of
/// `kept`, and puts a numbered placeholder in its place.
pub open spec fn extract_blocks(s: Seq<char>, name: Seq<char>, kept: Seq<Seq<char>>) -> (Seq<char>, Seq<Seq<char>>)
    decreases count_char(s, '<'),
{
    let start = find_from(s, open_tag(name), 0);
    if start < 0 {
        (s, kept)
    } else {
        let e = find_from(s, close_tag(name), start);
        if e < 0 {
            (s, kept)
        } else {
            let end = e + close_tag(name).len();
            let next = s.take(start) + preserve_placeholder(kept.len()) + s.skip(end);
            proof {
                lemma_extract_step(s, name, kept.len());
            }
            extract_blocks(next, name, kept.push(s.subrange(start, end)))
        }
    }
}

pub proof fn lemma_extract_step(s: Seq<char>, name: Seq<char>, n: nat)
    requires
        find_from(s, open_tag(name), 0) >= 0,
        find_from(s, close_tag(name), find_from(s, open_tag(name), 0)) >= 0,
    ensures
        ({
            let start = find_from(s, open_tag(name), 0);
            let end = find_from(s, close_tag(name), start) + close_tag(name).len();
            &&& 0 <= start < end <= s.len()
            &&& count_char(s.take(start) + preserve_placeholder(n) + s.skip(end), '<') < count_char(s, '<')
        }),
{
    let start = find_from(s, open_tag(name), 0);
    lemma_find_from_props(s, open_tag(name), 0);
    lemma_find_from_props(s, close_tag(name), start);
    let end = find_from(s, close_tag(name), start) + close_tag(name).len();
    assert(s.subrange(start, start + open_tag(name).len())[0] == s[start]);
    lemma_placeholder_has_no_lt(n);
    lemma_count_cut(s, start, end, preserve_placeholder(n), '<');
}

/// `s` with `<!-- ... -->` comments removed, the first opening first; an
/// unclosed comment stays.
pub open spec fn strip_comments(s: Seq<char>) -> Seq<char>
    decreases count_char(s, '<'),
{
    let start = find_from(s, "<!--"@, 0);
    if start < 0 {
        s
    } else {
        let e = find_from(s, "-->"@, start);
        if e < 0 {
            s
        } else {
            proof {
                lemma_comment_step(s);
            }
            strip_comments(s.take(start) + s.skip(e + 3))
        }
    }
}

pub proof fn lemma_comment_step(s: Seq<char>)
    requires
        find_from(s, "<!--"@, 0) >= 0,
        find_from(s, "-->"@, find_from(s, "<!--"@, 0)) >= 0,
    ensures
        ({
            let start = find_from(s, "<!--"@, 0);
            let end = find_from(s, "-->"@, start) + 3;
            &&& 0 <= start < end <= s.len()
            &&& count_char(s.take(start) + s.skip(end), '<') < count_char(s, '<')
        }),
{
    reveal_strlit("<!--");
    reveal_strlit("-->");
    let start = find_from(s, "<!--"@, 0);
    lemma_find_from_props(s, "<!--"@, 0);
    lemma_find_from_props(s, "-->"@, start);
    let end = find_from(s, "-->"@, start) + 3;
    assert(s.subrange(start, start + 4)[0] == s[start]);
    lemma_count_absent(Seq::<char>::empty(), '<');
    assert(s.take(start) + Seq::<char>::empty() =~= s.take(start));
    lemma_count_cut(s, start, end, Seq::<char>::empty(), '<');
}

/// The first position at or after `j` that does not hold whitespace.
pub open spec fn ws_end(s: Seq<char>, j: int) -> int
    decreases s.len() - j,
{
    if 0 <= j < s.len() && whitespace(s[j]) {
        ws_end(s, j + 1)
    } else {
        j
    }
}

pub proof fn lemma_ws_end_bounds(s: Seq<char>, j: int)
    requires
        0 <= j <= s.len(),
    ensures
        j <= ws_end(s, j) <= s.len(),
    decreases s.len() - j,
{
    if j < s.len() && whitespace(s[j]) {
        lemma_ws_end_bounds(s, j + 1);
    }
}

/// `s` from position `i` on, with each whitespace run that follows a `>`
/// dropped, or made one space where no `<` comes right after it.
pub open spec fn tags_from(s: Seq<char>, i: int) -> Seq<char>
    decreases s.len() - i,
{
    if i < 0 || i >= s.len() {
        Seq::empty()
    } else if s[i] == '>' {
        let k = ws_end(s, i + 1);
        proof {
            lemma_ws_end_bounds(s, i + 1);
        }
        let gap = if k > i + 1 && !(k < s.len() && s[k] == '<') { seq![' '] } else { Seq::<char>::empty() };
        seq!['>'] + gap + tags_from(s, k)
    } else {
        seq![s[i]] + tags_from(s, i + 1)
    }
}

/// `s` with each placeholder numbered below `n` replaced by the block it stands for.
pub open spec fn restore_blocks(s: Seq<char>, kept: Seq<Seq<char>>, n: int) -> Seq<char>
    decreases n,
{
    if n <= 0 {
        s
    } else {
        replace_all(restore_blocks(s, kept, n - 1), preserve_placeholder((n - 1) as nat), kept[n - 1])
    }
}

/// Minified HTML: `<pre>`, `<script>` and `<style>` blocks set aside, comments
/// removed, whitespace after tags and runs of whitespace collapsed, then the
/// blocks put back.
pub open spec fn minified_html(html: Seq<char>) -> Seq<char> {
    let (a, k1) = extract_blocks(html, "pre"@, Seq::empty());
    let (b, k2) = extract_blocks(a, "script"@, k1);
    let (c, kept) = extract_blocks(b, "style"@, k2);
    let d = collapse_ws(tags_from(strip_comments(c), 0), false);
    restore_blocks(d, kept, kept.len() as int)
}

/// Minify HTML: strip comments, collapse whitespace; `<pre>`, `<script>` and
/// `<style>` content is kept as it is.
pub fn minify_html(html: &str) -> (r: String)
    ensures
        r@ == minified_html(html@),
{
    let s = chars_of(html);
    let mut kept: Vec<Vec<char>> = Vec::new();
    assert(vecs_view(kept@) =~= Seq::<Seq<char>>::empty());
    let a = extract_preserved_blocks(s, "pre", &mut kept);
    let b = extract_preserved_blocks(a, "script", &mut kept);
    let c = extract_preserved_blocks(b, "style", &mut kept);
    let d = strip_html_comments(c);
    let e = collapse_inter_tag_whitespace(&d);
    let f = collapse_whitespace_runs(&e);
    let out = restore_preserved_blocks(&f, &kept);
    string_of(&out)
}

/// The characters of the placeholder for block `n`.
fn placeholder_of(n: usize) -> (r: Vec<char>)
    ensures
        r@ == preserve_placeholder(n as nat),
{
    let mut out = chars_of("__PRESERVE_");
    let digits = decimal_of(n);
    push_all(&mut out, &digits);
    push_str(&mut out, "__");
    out
}

fn extract_preserved_blocks(html: Vec<char>, name: &str, kept: &mut Vec<Vec<char>>) -> (r: Vec<char>)
    ensures
        (r@, vecs_view(final(kept)@)) == extract_blocks(html@, name@, vecs_view(old(kept)@)),
{
    let mut open: Vec<char> = Vec::new();
    open.push('<');
    push_str(&mut open, name);
    let mut close: Vec<char> = Vec::new();
    close.push('<');
    close.push('/');
    push_str(&mut close, name);
    close.push('>');
    assert(open@ =~= open_tag(name@));
    assert(close@ =~= close_tag(name@));
    let mut s = html;
    loop
        invariant
            open@ == open_tag(name@),
            close@ == close_tag(name@),
            extract_blocks(s@, name@, vecs_view(kept@)) == extract_blocks(html@, name@, vecs_view(old(kept)@)),
        decreases count_char(s@, '<'),
    {
        let start = match find_chars(&s, &open, 0) {
            Some(a) => a,
            None => return s,
        };
        let e = match find_chars(&s, &close, start) {
            Some(x) => x,
            None => return s,
        };
        proof {
            lemma_extract_step(s@, name@, kept@.len() as nat);
            lemma_find_from_props(s@, close@, start as int);
        }
        let n = s.len();
        let cl = close.len();
        assert(e + cl <= n);
        let end = e + cl;
        let block = slice_copy(&s, start, end);
        let ph = placeholder_of(kept.len());
        let mut next = slice_copy(&s, 0, start);
        push_all(&mut next, &ph);
        let tail = slice_copy(&s, end, s.len());
        push_all(&mut next, &tail);
        let ghost old_kept = vecs_view(kept@);
        kept.push(block);
        proof {
            assert(s@.subrange(0, start as int) =~= s@.take(start as int));
            assert(s@.subrange(end as int, s@.len() as int) =~= s@.skip(end as int));
            assert(vecs_view(kept@) =~= old_kept.push(s@.subrange(start as int, end as int)));
        }
        s = next;
    }
}

fn strip_html_comments(html: Vec<char>) -> (r: Vec<char>)
    ensures
        r@ == strip_comments(html@),
{
    let open = chars_of("<!--");
    let close = chars_of("-->");
    let mut s = html;
    loop
        invariant
            open@ == "<!--"@,
            close@ == "-->"@,
            strip_comments(s@) == strip_comments(html@),
        decreases count_char(s@, '<'),
    {
        proof {
            reveal_strlit("-->");
        }
        let start = match find_chars(&s, &open, 0) {
            Some(a) => a,
            None => return s,
        };
        let e = match find_chars(&s, &close, start) {
            Some(x) => x,
            None => return s,
        };
        proof {
            lemma_comment_step(s@);
            lemma_find_from_props(s@, close@, start as int);
            assert(close@.len() == 3);
            assert(e + 3 <= s@.len());
        }
        let mut next = slice_copy(&s, 0, start);
        let tail = slice_copy(&s, e + 3, s.len());
        push_all(&mut next, &tail);
        proof {
            assert(s@.subrange(0, start as int) =~= s@.take(start as int));
            assert(s@.subrange(e + 3, s@.len() as int) =~= s@.skip(e + 3));
        }
        s = next;
    }
}

/// Collapse whitespace after tags: `>   <` becomes `><`, `>  x` becomes `> x`.
fn collapse_inter_tag_whitespace(s: &[char]) -> (r: Vec<char>)
    ensures
        r@ == tags_from(s@, 0),
{
    let mut out: Vec<char> = Vec::new();
    let len = s.len();
    let mut i: usize = 0;
    while i < len
        invariant
            i <= len == s@.len(),
            out@ + tags_from(s@, i as int) == tags_from(s@, 0),
        decreases len - i,
    {
        let ch = s[i];
        out.push(ch);
        if ch == '>' {
            let mut j = i + 1;
            while j < len && is_whitespace(s[j])
                invariant
                    i + 1 <= j <= len,
                    len == s@.len(),
                    ws_end(s@, j as int) == ws_end(s@, i + 1),
                decreases len - j,
            {
                j += 1;
            }
            if j > i + 1 && !(j < len && s[j] == '<') {
                out.push(' ');
            }
            i = j;
        } else {
            i += 1;
        }
    }
    assert(out@ + Seq::<char>::empty() =~= out@);
    out
}

fn restore_preserved_blocks(s: &[char], kept: &Vec<Vec<char>>) -> (r: Vec<char>)
    ensures
        r@ == restore_blocks(s@, vecs_view(kept@), kept@.len() as int),
{
    let mut result = slice_copy(s, 0, s.len());
    assert(s@.subrange(0, s@.len() as int) =~= s@);
    let mut idx: usize = 0;
    while idx < kept.len()
        invariant
            idx <= kept@.len(),
            result@ == restore_blocks(s@, vecs_view(kept@), idx as int),
        decreases kept@.len() - idx,
    {
        let ph = placeholder_of(idx);
        proof {
            reveal_strlit("__PRESERVE_");
        }
        assert(ph@.len() > 0);
        result = replace_chars(&result, &ph, &kept[idx]);
        idx += 1;
    }
    result
}

} // verus!
