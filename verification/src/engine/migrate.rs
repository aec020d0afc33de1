use vstd::prelude::*;
use std::path::PathBuf;
use crate::trusted::whitespace;
use crate::text::{
    chars_of, find_chars, find_from, has_prefix_str, lemma_find_from_props, lines_of, push_all, push_str,
    same_chars, slice_copy, starts_with, std_lines, string_of, trim, trim_ws, vecs_view, trim_start_ws,
    trim_end_ws, strip_cr, occurs_at,
};

verus! {

pub struct MigrationReport {
    pub rewritten: Vec<PathBuf>,
    pub skipped: Vec<PathBuf>,
}

/// A frontmatter field as (key, value) views.
pub type FieldView = (Seq<char>, Seq<char>);

pub open spec fn fields_view(v: Seq<(Vec<char>, Vec<char>)>) -> Seq<FieldView> {
    v.map_values(|f: (Vec<char>, Vec<char>)| (f.0@, f.1@))
}

/// The frontmatter block (lines with their newlines) and the body after the
/// closing fence, when `content` opens with `---\n` and has a `\n---\n` later.
pub open spec fn split_fm(content: Seq<char>) -> Option<(Seq<char>, Seq<char>)> {
    if !starts_with(content, "---\n"@) {
        None
    } else {
        let rest = content.skip(4);
        let e = find_from(rest, "\n---\n"@, 0);
        if e < 0 {
            None
        } else {
            Some((rest.take(e + 1), rest.skip(e + 5)))
        }
    }
}

/// First position of `c` in `s`, or -1.
pub open spec fn index_of(s: Seq<char>, c: char, from: int) -> int
    decreases s.len() - from,
{
    if from < 0 || from >= s.len() {
        -1
    } else if s[from] == c {
        from
    } else {
        index_of(s, c, from + 1)
    }
}

/// A `key: value` line split at its first colon, both sides trimmed.
pub open spec fn parse_field_spec(line: Seq<char>) -> Option<FieldView> {
    let i = index_of(line, ':', 0);
    if i < 0 {
        None
    } else {
        Some((trim_ws(line.take(i)), trim_ws(line.skip(i + 1))))
    }
}

pub open spec fn renamed_key(key: Seq<char>) -> Seq<char> {
    if key == "date"@ {
        "published_at"@
    } else {
        key
    }
}

/// A value that is not empty, quoted or a collection gets double quotes.
pub open spec fn normalized_value(v: Seq<char>) -> Seq<char> {
    if v.len() == 0 || v[0] == '"' || v[0] == '[' || v[0] == '\'' {
        v
    } else {
        seq!['"'] + v + seq!['"']
    }
}

/// The fields of the frontmatter lines, renamed and normalized, in order.
pub open spec fn parsed_fields(lines: Seq<Seq<char>>) -> Seq<FieldView>
    decreases lines.len(),
{
    if lines.len() == 0 {
        Seq::empty()
    } else {
        let rest = parsed_fields(lines.drop_last());
        match parse_field_spec(lines.last()) {
            Some(f) => rest.push((renamed_key(f.0), normalized_value(f.1))),
            None => rest,
        }
    }
}

/// The canonical field names, in order.
pub open spec fn canonical_name(k: int) -> Seq<char> {
    if k == 0 {
        "title"@
    } else if k == 1 {
        "subtitle"@
    } else if k == 2 {
        "description"@
    } else if k == 3 {
        "slug"@
    } else if k == 4 {
        "published_at"@
    } else if k == 5 {
        "language"@
    } else if k == 6 {
        "tags"@
    } else if k == 7 {
        "image"@
    } else if k == 8 {
        "status"@
    } else {
        "pinned"@
    }
}

/// Rank of a key in the canonical order; 10 for keys outside it.
pub open spec fn canonical_rank(key: Seq<char>) -> int {
    rank_from(key, 0)
}

pub open spec fn rank_from(key: Seq<char>, k: int) -> int
    decreases 10 - k,
{
    if k >= 10 {
        10
    } else if canonical_name(k) == key {
        k
    } else {
        rank_from(key, k + 1)
    }
}

/// The fields stably ordered by canonical rank: all rank-k fields, in their
/// original order, for k = from, from + 1, ..., 10.
pub open spec fn ordered_from(fields: Seq<FieldView>, from: int) -> Seq<FieldView>
    decreases 11 - from,
{
    if from > 10 {
        Seq::empty()
    } else {
        fields.filter(|f: FieldView| canonical_rank(f.0) == from) + ordered_from(fields, from + 1)
    }
}

/// Fields written back as `key: value` lines.
pub open spec fn render_fields(fields: Seq<FieldView>) -> Seq<char>
    decreases fields.len(),
{
    if fields.len() == 0 {
        Seq::empty()
    } else {
        render_fields(fields.drop_last()) + fields.last().0 + ": "@ + fields.last().1 + seq!['\n']
    }
}

/// The canonical form of a post: frontmatter fields renamed, quoted and put in
/// canonical order; the body untouched. Content without a frontmatter block
/// is returned as it is.
pub open spec fn normalized(content: Seq<char>) -> Seq<char> {
    match split_fm(content) {
        None => content,
        Some((fm, body)) => "---\n"@ + render_fields(ordered_from(parsed_fields(std_lines(fm)), 0)) + "---\n"@ + body,
    }
}

/// The fields of canonical rank `k`, in their order.
pub open spec fn rank_group(f: Seq<FieldView>, k: int) -> Seq<FieldView> {
    f.filter(|x: FieldView| canonical_rank(x.0) == k)
}

proof fn lemma_rank_filter_twice(f: Seq<FieldView>, j: int, k: int)
    ensures
        f.filter(|x: FieldView| canonical_rank(x.0) == j).filter(|x: FieldView| canonical_rank(x.0) == k)
            == (if j == k { f.filter(|x: FieldView| canonical_rank(x.0) == j) } else { Seq::<FieldView>::empty() }),
    decreases f.len(),
{
    let pj = |x: FieldView| canonical_rank(x.0) == j;
    let pk = |x: FieldView| canonical_rank(x.0) == k;
    reveal(Seq::filter);
    if f.len() == 0 {
        assert(f.filter(pj) =~= f);
        assert(f.filter(pj).filter(pk) =~= Seq::<FieldView>::empty());
        if j == k {
            assert(f.filter(pj) =~= Seq::<FieldView>::empty());
        }
    } else {
        lemma_rank_filter_twice(f.drop_last(), j, k);
        let a = f.drop_last().filter(pj);
        if pj(f.last()) {
            assert(a.push(f.last()).drop_last() =~= a);
            assert(a.push(f.last()).last() == f.last());
        }
    }
}

proof fn lemma_ordered_filter(f: Seq<FieldView>, m: int, k: int)
    requires
        0 <= m,
    ensures
        ordered_from(f, m).filter(|x: FieldView| canonical_rank(x.0) == k)
            == (if m <= k <= 10 { f.filter(|x: FieldView| canonical_rank(x.0) == k) } else { Seq::<FieldView>::empty() }),
    decreases 11 - m,
{
    let pk = |x: FieldView| canonical_rank(x.0) == k;
    reveal(Seq::filter);
    if m > 10 {
        assert(ordered_from(f, m) =~= Seq::<FieldView>::empty());
        assert(ordered_from(f, m).filter(pk) =~= Seq::<FieldView>::empty());
    } else {
        let head = f.filter(|x: FieldView| canonical_rank(x.0) == m);
        let tail = ordered_from(f, m + 1);
        Seq::<FieldView>::filter_distributes_over_add(head, tail, pk);
        lemma_rank_filter_twice(f, m, k);
        lemma_ordered_filter(f, m + 1, k);
        if m == k {
            assert(f.filter(pk) + Seq::<FieldView>::empty() =~= f.filter(pk));
        } else {
            assert(Seq::<FieldView>::empty() + tail.filter(pk) =~= tail.filter(pk));
        }
    }
}

proof fn lemma_ordered_same_groups(f: Seq<FieldView>, g: Seq<FieldView>, m: int)
    requires
        0 <= m,
        forall|k: int| 0 <= k <= 10 ==> rank_group(g, k) == #[trigger] rank_group(f, k),
    ensures
        ordered_from(g, m) == ordered_from(f, m),
    decreases 11 - m,
{
    if m <= 10 {
        lemma_ordered_same_groups(f, g, m + 1);
        assert(rank_group(g, m) == rank_group(f, m));
    }
}

/// Putting fields in canonical order twice gives the same as putting them in
/// canonical order once.
pub proof fn law_canonical_order_idempotent(fields: Seq<FieldView>)
    ensures
        ordered_from(ordered_from(fields, 0), 0) == ordered_from(fields, 0),
{
    let g = ordered_from(fields, 0);
    assert forall|k: int| 0 <= k <= 10 implies rank_group(g, k) == #[trigger] rank_group(fields, k) by {
        lemma_ordered_filter(fields, 0, k);
    }
    lemma_ordered_same_groups(fields, g, 0);
}

/// Renaming a key and quoting a value are each idempotent.
pub proof fn law_field_normalization_idempotent(key: Seq<char>, value: Seq<char>)
    ensures
        renamed_key(renamed_key(key)) == renamed_key(key),
        normalized_value(normalized_value(value)) == normalized_value(value),
{
    reveal_strlit("date");
    reveal_strlit("published_at");
}

pub fn normalize_frontmatter(content: &str) -> (r: String)
    ensures
        r@ == normalized(content@),
{
    let cs = chars_of(content);
    let (fm, body) = match split_frontmatter(&cs) {
        Some(parts) => parts,
        None => return string_of(&cs),
    };
    let lines = lines_of(&fm);
    let mut fields: Vec<(Vec<char>, Vec<char>)> = Vec::new();
    let mut i: usize = 0;
    let ghost lv = vecs_view(lines@);
    while i < lines.len()
        invariant
            i <= lines@.len(),
            lv == vecs_view(lines@),
            fields_view(fields@) == parsed_fields(lv.take(i as int)),
        decreases lines@.len() - i,
    {
        assert(lv.take(i + 1).drop_last() =~= lv.take(i as int));
        assert(lv.take(i + 1).last() == lines@[i as int]@);
        match parse_field(&lines[i]) {
            Some((key, value)) => {
                let k = rename_key(&key);
                let v = normalize_value(&value);
                let ghost prev = fields@;
                fields.push((k, v));
                assert(fields_view(fields@) =~= fields_view(prev).push((renamed_key(key@), normalized_value(value@))));
            },
            None => {},
        }
        i += 1;
    }
    assert(lv.take(lines@.len() as int) =~= lv);
    let ordered = reorder_canonical(&fields);
    let mut out: Vec<char> = Vec::new();
    push_str(&mut out, "---\n");
    let ghost head = out@;
    let mut j: usize = 0;
    while j < ordered.len()
        invariant
            j <= ordered@.len(),
            out@ == head + render_fields(fields_view(ordered@).take(j as int)),
        decreases ordered@.len() - j,
    {
        let ghost ov = fields_view(ordered@);
        assert(ov.take(j + 1).drop_last() =~= ov.take(j as int));
        push_all(&mut out, &ordered[j].0);
        push_str(&mut out, ": ");
        push_all(&mut out, &ordered[j].1);
        out.push('\n');
        j += 1;
        assert(out@ =~= head + render_fields(ov.take(j as int)));
    }
    assert(fields_view(ordered@).take(ordered@.len() as int) =~= fields_view(ordered@));
    push_str(&mut out, "---\n");
    push_all(&mut out, &body);
    string_of(&out)
}

fn split_frontmatter(content: &[char]) -> (r: Option<(Vec<char>, Vec<char>)>)
    ensures
        match r {
            Some((a, b)) => split_fm(content@) == Some((a@, b@)),
            None => split_fm(content@).is_none(),
        },
{
    if !has_prefix_str(content, "---\n") {
        return None;
    }
    proof {
        reveal_strlit("---\n");
        reveal_strlit("\n---\n");
    }
    let rest = slice_copy(content, 4, content.len());
    assert(rest@ =~= content@.skip(4));
    let pat = chars_of("\n---\n");
    match find_chars(&rest, &pat, 0) {
        Some(e) => {
            proof {
                lemma_find_from_props(rest@, pat@, 0);
            }
            let front = slice_copy(&rest, 0, e + 1);
            let body = slice_copy(&rest, e + 5, rest.len());
            assert(front@ =~= rest@.take(e + 1));
            assert(body@ =~= rest@.skip(e + 5));
            Some((front, body))
        },
        None => None,
    }
}

fn parse_field(line: &[char]) -> (r: Option<(Vec<char>, Vec<char>)>)
    ensures
        match r {
            Some((k, v)) => parse_field_spec(line@) == Some((k@, v@)),
            None => parse_field_spec(line@).is_none(),
        },
{
    let mut i: usize = 0;
    while i < line.len() && line[i] != ':'
        invariant
            i <= line@.len(),
            index_of(line@, ':', i as int) == index_of(line@, ':', 0),
        decreases line@.len() - i,
    {
        i += 1;
    }
    if i == line.len() {
        return None;
    }
    let key = slice_copy(line, 0, i);
    let value = slice_copy(line, i + 1, line.len());
    assert(key@ =~= line@.take(i as int));
    assert(value@ =~= line@.skip(i + 1));
    Some((trim(&key), trim(&value)))
}

fn rename_key(key: &[char]) -> (r: Vec<char>)
    ensures
        r@ == renamed_key(key@),
{
    let date = chars_of("date");
    if same_chars(key, &date) {
        chars_of("published_at")
    } else {
        slice_copy(key, 0, key.len())
    }
}

fn normalize_value(value: &[char]) -> (r: Vec<char>)
    ensures
        r@ == normalized_value(value@),
{
    if value.len() == 0 || is_already_quoted_or_collection(value) {
        return slice_copy(value, 0, value.len());
    }
    let mut out: Vec<char> = Vec::new();
    out.push('"');
    push_all(&mut out, value);
    out.push('"');
    assert(out@ =~= seq!['"'] + value@ + seq!['"']);
    out
}

fn is_already_quoted_or_collection(value: &[char]) -> (r: bool)
    requires
        value@.len() > 0,
    ensures
        r == (value@[0] == '"' || value@[0] == '[' || value@[0] == '\''),
{
    value[0] == '"' || value[0] == '[' || value[0] == '\''
}

/// The canonical name at rank `k` (below 10).
fn canonical_name_exec(k: usize) -> (r: &'static str)
    requires
        k < 10,
    ensures
        r@ == canonical_name(k as int),
{
    if k == 0 {
        "title"
    } else if k == 1 {
        "subtitle"
    } else if k == 2 {
        "description"
    } else if k == 3 {
        "slug"
    } else if k == 4 {
        "published_at"
    } else if k == 5 {
        "language"
    } else if k == 6 {
        "tags"
    } else if k == 7 {
        "image"
    } else if k == 8 {
        "status"
    } else {
        "pinned"
    }
}

fn canonical_rank_exec(key: &[char]) -> (r: usize)
    ensures
        r == canonical_rank(key@),
        r <= 10,
{
    let mut k: usize = 0;
    while k < 10
        invariant
            k <= 10,
            rank_from(key@, k as int) == rank_from(key@, 0),
        decreases 10 - k,
    {
        let name = chars_of(canonical_name_exec(k));
        if same_chars(&name, key) {
            return k;
        }
        k += 1;
    }
    10
}

fn reorder_canonical(fields: &Vec<(Vec<char>, Vec<char>)>) -> (r: Vec<(Vec<char>, Vec<char>)>)
    ensures
        fields_view(r@) == ordered_from(fields_view(fields@), 0),
{
    let ghost fv = fields_view(fields@);
    let mut ranks: Vec<usize> = Vec::new();
    let mut i: usize = 0;
    while i < fields.len()
        invariant
            i <= fields@.len(),
            fv == fields_view(fields@),
            ranks@.len() == i,
            forall|j: int| 0 <= j < i ==> ranks@[j] == canonical_rank(fv[j].0),
        decreases fields@.len() - i,
    {
        ranks.push(canonical_rank_exec(&fields[i].0));
        i += 1;
    }
    let mut out: Vec<(Vec<char>, Vec<char>)> = Vec::new();
    let mut k: usize = 0;
    while k <= 10
        invariant
            k <= 11,
            fv == fields_view(fields@),
            ranks@.len() == fields@.len(),
            forall|j: int| 0 <= j < fields@.len() ==> ranks@[j] == canonical_rank(fv[j].0),
            fields_view(out@) + ordered_from(fv, k as int) == ordered_from(fv, 0),
        decreases 11 - k,
    {
        let ghost before = out@;
        let mut i: usize = 0;
        while i < fields.len()
            invariant
                i <= fields@.len(),
                k <= 10,
                fv == fields_view(fields@),
                ranks@.len() == fields@.len(),
                forall|j: int| 0 <= j < fields@.len() ==> ranks@[j] == canonical_rank(fv[j].0),
                fields_view(out@) == fields_view(before) + fv.take(i as int).filter(|f: FieldView| canonical_rank(f.0) == k as int),
            decreases fields@.len() - i,
        {
            let ghost prev = out@;
            assert(fv.take(i + 1).drop_last() =~= fv.take(i as int));
            proof {
                reveal(Seq::filter);
            }
            if ranks[i] == k {
                let f = (slice_copy(&fields[i].0, 0, fields[i].0.len()), slice_copy(&fields[i].1, 0, fields[i].1.len()));
                assert(fields@[i as int].0@.subrange(0, fields@[i as int].0@.len() as int) =~= fields@[i as int].0@);
                assert(fields@[i as int].1@.subrange(0, fields@[i as int].1@.len() as int) =~= fields@[i as int].1@);
                out.push(f);
                assert(fields_view(out@) =~= fields_view(prev).push(fv[i as int]));
            }
            i += 1;
            assert(fields_view(out@) =~= fields_view(before) + fv.take(i as int).filter(|f: FieldView| canonical_rank(f.0) == k as int));
        }
        assert(fv.take(fields@.len() as int) =~= fv);
        k += 1;
        assert(fields_view(out@) + ordered_from(fv, k as int) =~= ordered_from(fv, 0));
    }
    out
}

/// Whether `c` does not occur in `s`.
pub open spec fn lacks(s: Seq<char>, c: char) -> bool {
    forall|i: int| 0 <= i < s.len() ==> s[i] != c
}

/// Whether `s` neither begins nor ends with whitespace.
pub open spec fn trimmed(s: Seq<char>) -> bool {
    s.len() == 0 || (!whitespace(s[0]) && !whitespace(s.last()))
}

/// A field as normalizing leaves it: a key without colon or newline, a value
/// without newline, both trimmed, the key renamed and the value quoted.
pub open spec fn settled(f: FieldView) -> bool {
    &&& lacks(f.0, ':')
    &&& lacks(f.0, '\n')
    &&& lacks(f.1, '\n')
    &&& trimmed(f.0)
    &&& trimmed(f.1)
    &&& renamed_key(f.0) == f.0
    &&& normalized_value(f.1) == f.1
}

proof fn lemma_trim_start_skips(s: Seq<char>)
    ensures
        exists|a: int| 0 <= a <= s.len() && trim_start_ws(s) == s.skip(a),
        trim_start_ws(s).len() == 0 || !whitespace(trim_start_ws(s)[0]),
    decreases s.len(),
{
    if s.len() > 0 && whitespace(s[0]) {
        lemma_trim_start_skips(s.drop_first());
        let a = choose|a: int| 0 <= a <= s.drop_first().len() && trim_start_ws(s.drop_first()) == s.drop_first().skip(a);
        assert(s.drop_first().skip(a) =~= s.skip(a + 1));
    } else {
        assert(s.skip(0) =~= s);
    }
}

proof fn lemma_trim_end_takes(s: Seq<char>)
    ensures
        exists|b: int| 0 <= b <= s.len() && trim_end_ws(s) == s.take(b),
        trim_end_ws(s).len() == 0 || !whitespace(trim_end_ws(s).last()),
    decreases s.len(),
{
    if s.len() > 0 && whitespace(s.last()) {
        lemma_trim_end_takes(s.drop_last());
        let b = choose|b: int| 0 <= b <= s.drop_last().len() && trim_end_ws(s.drop_last()) == s.drop_last().take(b);
        assert(s.drop_last().take(b) =~= s.take(b));
    } else {
        assert(s.take(s.len() as int) =~= s);
    }
}

/// Trimming gives a trimmed piece of the text.
proof fn lemma_trim(s: Seq<char>)
    ensures
        trimmed(trim_ws(s)),
        exists|a: int, b: int| 0 <= a <= b <= s.len() && trim_ws(s) == s.subrange(a, b),
{
    lemma_trim_start_skips(s);
    let t = trim_start_ws(s);
    let a = choose|a: int| 0 <= a <= s.len() && t == s.skip(a);
    lemma_trim_end_takes(t);
    let b = choose|b: int| 0 <= b <= t.len() && trim_end_ws(t) == t.take(b);
    assert(t.take(b) =~= s.subrange(a, a + b));
    if trim_ws(s).len() > 0 {
        assert(trim_ws(s)[0] == t[0]);
    }
}

/// Trimming leaves a trimmed text as it is.
proof fn lemma_trim_trimmed(s: Seq<char>)
    requires
        trimmed(s),
    ensures
        trim_ws(s) == s,
{
}

/// A character absent from a text is absent from each of its pieces.
proof fn lemma_lacks_subrange(s: Seq<char>, c: char, a: int, b: int)
    requires
        lacks(s, c),
        0 <= a <= b <= s.len(),
    ensures
        lacks(s.subrange(a, b), c),
{
    assert forall|i: int| 0 <= i < b - a implies s.subrange(a, b)[i] != c by {
        assert(s.subrange(a, b)[i] == s[a + i]);
    }
}

proof fn lemma_index_of(s: Seq<char>, c: char, from: int)
    requires
        0 <= from,
    ensures
        index_of(s, c, from) == -1 ==> forall|j: int| from <= j < s.len() ==> s[j] != c,
        index_of(s, c, from) != -1 ==> from <= index_of(s, c, from) < s.len() && s[index_of(s, c, from)] == c
            && forall|j: int| from <= j < index_of(s, c, from) ==> s[j] != c,
    decreases s.len() - from,
{
    if from < s.len() && s[from] != c {
        lemma_index_of(s, c, from + 1);
    }
}

/// A line of the frontmatter yields a settled field.
proof fn lemma_parsed_settled(line: Seq<char>)
    requires
        lacks(line, '\n'),
    ensures
        parse_field_spec(line) matches Some(f) ==> settled((renamed_key(f.0), normalized_value(f.1))),
{
    let i = index_of(line, ':', 0);
    lemma_index_of(line, ':', 0);
    if i >= 0 {
        let kp = line.take(i);
        let vp = line.skip(i + 1);
        assert(lacks(kp, ':'));
        assert(lacks(kp, '\n'));
        assert(lacks(vp, '\n'));
        lemma_trim(kp);
        lemma_trim(vp);
        let k = trim_ws(kp);
        let v = trim_ws(vp);
        let (ka, kb) = choose|a: int, b: int| 0 <= a <= b <= kp.len() && k == kp.subrange(a, b);
        lemma_lacks_subrange(kp, ':', ka, kb);
        lemma_lacks_subrange(kp, '\n', ka, kb);
        let (va, vb) = choose|a: int, b: int| 0 <= a <= b <= vp.len() && v == vp.subrange(a, b);
        lemma_lacks_subrange(vp, '\n', va, vb);
        reveal_strlit("date");
        reveal_strlit("published_at");
        let nk = renamed_key(k);
        let nv = normalized_value(v);
        if nv != v {
            assert(nv[0] == '"' && nv.last() == '"');
            assert forall|j: int| 0 <= j < nv.len() implies nv[j] != '\n' by {
                if 0 < j < nv.len() - 1 {
                    assert(nv[j] == v[j - 1]);
                }
            }
        }
    }
}

/// The line a field is written as, without its newline.
pub open spec fn field_line(f: FieldView) -> Seq<char> {
    f.0 + ": "@ + f.1
}

/// A settled field reads back from its line unchanged.
proof fn lemma_parse_rendered(f: FieldView)
    requires
        settled(f),
    ensures
        parse_field_spec(field_line(f)) == Some(f),
{
    reveal_strlit(": ");
    let line = field_line(f);
    let n = f.0.len() as int;
    assert(line[n] == ':');
    assert forall|j: int| 0 <= j < n implies line[j] != ':' by {
        assert(line[j] == f.0[j]);
    }
    lemma_index_of(line, ':', 0);
    assert(index_of(line, ':', 0) == n);
    assert(line.take(n) =~= f.0);
    let rest = line.skip(n + 1);
    assert(rest =~= seq![' '] + f.1);
    assert(rest.drop_first() =~= f.1);
    assert(whitespace(' '));
    assert(trim_start_ws(rest) == trim_start_ws(f.1));
    lemma_trim_trimmed(f.0);
    lemma_trim_trimmed(f.1);
}

/// Whether every field is settled.
pub open spec fn all_settled(fs: Seq<FieldView>) -> bool {
    forall|i: int| 0 <= i < fs.len() ==> settled(#[trigger] fs[i])
}

proof fn lemma_parsed_fields_settled(lines: Seq<Seq<char>>)
    requires
        forall|i: int| 0 <= i < lines.len() ==> lacks(#[trigger] lines[i], '\n'),
    ensures
        all_settled(parsed_fields(lines)),
    decreases lines.len(),
{
    if lines.len() > 0 {
        lemma_parsed_fields_settled(lines.drop_last());
        assert(lines.drop_last().len() == lines.len() - 1);
        lemma_parsed_settled(lines.last());
        let rest = parsed_fields(lines.drop_last());
        match parse_field_spec(lines.last()) {
            Some(f) => {
                let x = (renamed_key(f.0), normalized_value(f.1));
                assert forall|j: int| 0 <= j < rest.push(x).len() implies settled(#[trigger] rest.push(x)[j]) by {
                    if j < rest.len() {
                        assert(rest.push(x)[j] == rest[j]);
                    }
                }
            },
            None => {},
        }
    }
}

proof fn lemma_filter_settled(fs: Seq<FieldView>, pred: spec_fn(FieldView) -> bool)
    requires
        all_settled(fs),
    ensures
        all_settled(fs.filter(pred)),
    decreases fs.len(),
{
    reveal(Seq::filter);
    if fs.len() > 0 {
        lemma_filter_settled(fs.drop_last(), pred);
        let a = fs.drop_last().filter(pred);
        if pred(fs.last()) {
            assert forall|j: int| 0 <= j < a.push(fs.last()).len() implies settled(#[trigger] a.push(fs.last())[j]) by {
                if j < a.len() {
                    assert(a.push(fs.last())[j] == a[j]);
                }
            }
        }
    }
}

proof fn lemma_ordered_settled(fs: Seq<FieldView>, m: int)
    requires
        all_settled(fs),
    ensures
        all_settled(ordered_from(fs, m)),
    decreases 11 - m,
{
    if m <= 10 {
        lemma_ordered_settled(fs, m + 1);
        let a = fs.filter(|f: FieldView| canonical_rank(f.0) == m);
        lemma_filter_settled(fs, |f: FieldView| canonical_rank(f.0) == m);
        let b = ordered_from(fs, m + 1);
        assert forall|j: int| 0 <= j < (a + b).len() implies settled(#[trigger] (a + b)[j]) by {
            if j < a.len() {
                assert((a + b)[j] == a[j]);
            } else {
                assert((a + b)[j] == b[j - a.len()]);
            }
        }
    }
}

/// The lines settled fields are written as.
pub open spec fn field_lines(fs: Seq<FieldView>) -> Seq<Seq<char>> {
    fs.map_values(|f: FieldView| field_line(f))
}

proof fn lemma_parse_field_lines(fs: Seq<FieldView>)
    requires
        all_settled(fs),
    ensures
        parsed_fields(field_lines(fs)) == fs,
    decreases fs.len(),
{
    if fs.len() > 0 {
        assert(field_lines(fs).drop_last() =~= field_lines(fs.drop_last()));
        lemma_parse_field_lines(fs.drop_last());
        lemma_parse_rendered(fs.last());
        assert(settled(fs[fs.len() - 1]));
        assert(fs.drop_last().push(fs.last()) =~= fs);
    } else {
        assert(field_lines(fs) =~= Seq::<Seq<char>>::empty());
    }
}

proof fn lemma_split_lines_lack_nl(s: Seq<char>)
    ensures
        forall|i: int| 0 <= i < crate::buffer::split_lines(s).len() ==> lacks(#[trigger] crate::buffer::split_lines(s)[i], '\n'),
    decreases s.len(),
{
    if s.len() > 0 {
        lemma_split_lines_lack_nl(s.drop_last());
        crate::buffer::lemma_split_lines_len(s.drop_last());
        let prev = crate::buffer::split_lines(s.drop_last());
        if s.last() != '\n' {
            let l = prev.last().push(s.last());
            assert(lacks(prev[prev.len() - 1], '\n'));
            assert(lacks(l, '\n')) by {
                assert forall|j: int| 0 <= j < l.len() implies l[j] != '\n' by {
                    if j < l.len() - 1 {
                        assert(l[j] == prev.last()[j]);
                    }
                }
            }
            let out = prev.update(prev.len() - 1, l);
            assert forall|i: int| 0 <= i < out.len() implies lacks(#[trigger] out[i], '\n') by {
                if i < out.len() - 1 {
                    assert(out[i] == prev[i]);
                }
            }
        } else {
            let out = prev.push(Seq::<char>::empty());
            assert forall|i: int| 0 <= i < out.len() implies lacks(#[trigger] out[i], '\n') by {
                if i < out.len() - 1 {
                    assert(out[i] == prev[i]);
                }
            }
        }
    }
}

/// No line `std_lines` gives holds a newline.
proof fn lemma_std_lines_lack_nl(s: Seq<char>)
    ensures
        forall|i: int| 0 <= i < std_lines(s).len() ==> lacks(#[trigger] std_lines(s)[i], '\n'),
{
    lemma_split_lines_lack_nl(s);
    crate::buffer::lemma_split_lines_len(s);
    let pieces = crate::buffer::split_lines(s);
    let kept = if pieces.last().len() == 0 { pieces.drop_last() } else { pieces };
    assert forall|i: int| 0 <= i < std_lines(s).len() implies lacks(#[trigger] std_lines(s)[i], '\n') by {
        assert(kept[i] == pieces[i]);
        assert(lacks(pieces[i], '\n'));
        let l = kept[i];
        assert(std_lines(s)[i] == strip_cr(l));
        if l.len() > 0 && l.last() == '\r' {
            assert forall|j: int| 0 <= j < l.drop_last().len() implies l.drop_last()[j] != '\n' by {
                assert(l.drop_last()[j] == l[j]);
            }
        }
    }
}

proof fn lemma_split_lines_append(a: Seq<char>, t: Seq<char>)
    requires
        lacks(t, '\n'),
    ensures
        crate::buffer::split_lines(a + t) == crate::buffer::split_lines(a).update(
            crate::buffer::split_lines(a).len() - 1,
            crate::buffer::split_lines(a).last() + t,
        ),
    decreases t.len(),
{
    crate::buffer::lemma_split_lines_len(a);
    let sa = crate::buffer::split_lines(a);
    if t.len() == 0 {
        assert(a + t =~= a);
        assert(sa.last() + t =~= sa.last());
        assert(sa.update(sa.len() - 1, sa.last()) =~= sa);
    } else {
        let t0 = t.drop_last();
        assert(lacks(t0, '\n')) by {
            assert forall|j: int| 0 <= j < t0.len() implies t0[j] != '\n' by {
                assert(t0[j] == t[j]);
            }
        }
        lemma_split_lines_append(a, t0);
        assert((a + t).drop_last() =~= a + t0);
        assert((a + t).last() == t.last());
        let prev = crate::buffer::split_lines(a + t0);
        assert(prev.last() == sa.last() + t0);
        assert((sa.last() + t0).push(t.last()) =~= sa.last() + t);
        assert(prev.update(prev.len() - 1, prev.last().push(t.last())) =~= sa.update(sa.len() - 1, sa.last() + t));
    }
}

proof fn lemma_split_rendered(fs: Seq<FieldView>)
    requires
        all_settled(fs),
    ensures
        crate::buffer::split_lines(render_fields(fs)) == field_lines(fs).push(Seq::<char>::empty()),
    decreases fs.len(),
{
    if fs.len() == 0 {
        assert(field_lines(fs) =~= Seq::<Seq<char>>::empty());
        assert(crate::buffer::split_lines(render_fields(fs)) =~= seq![Seq::<char>::empty()]);
    } else {
        let f0 = fs.drop_last();
        assert(all_settled(f0)) by {
            assert forall|i: int| 0 <= i < f0.len() implies settled(#[trigger] f0[i]) by {
                assert(f0[i] == fs[i]);
            }
        }
        lemma_split_rendered(f0);
        let f = fs.last();
        assert(settled(fs[fs.len() - 1]));
        reveal_strlit(": ");
        let l = field_line(f);
        assert(lacks(l, '\n')) by {
            assert forall|j: int| 0 <= j < l.len() implies l[j] != '\n' by {
                if j < f.0.len() {
                    assert(l[j] == f.0[j]);
                } else if j >= f.0.len() + 2 {
                    assert(l[j] == f.1[j - f.0.len() - 2]);
                }
            }
        }
        let r0 = render_fields(f0);
        assert(render_fields(fs) =~= (r0 + l) + seq!['\n']);
        lemma_split_lines_append(r0, l);
        crate::buffer::lemma_split_lines_len(r0);
        assert((r0 + l + seq!['\n']).drop_last() =~= r0 + l);
        let sr = crate::buffer::split_lines(r0);
        assert(sr.last() =~= Seq::<char>::empty());
        assert(Seq::<char>::empty() + l =~= l);
        assert(sr.update(sr.len() - 1, sr.last() + l) =~= field_lines(f0).push(l));
        assert(field_lines(fs) =~= field_lines(f0).push(l));
    }
}

/// Cut into lines, the rendered fields are their field lines.
proof fn lemma_lines_of_rendered(fs: Seq<FieldView>)
    requires
        all_settled(fs),
    ensures
        std_lines(render_fields(fs)) == field_lines(fs),
{
    lemma_split_rendered(fs);
    let pieces = crate::buffer::split_lines(render_fields(fs));
    assert(pieces.drop_last() =~= field_lines(fs));
    assert forall|i: int| 0 <= i < fs.len() implies strip_cr(#[trigger] field_lines(fs)[i]) == field_lines(fs)[i] by {
        let f = fs[i];
        assert(settled(f));
        reveal_strlit(": ");
        let l = field_line(f);
        assert(field_lines(fs)[i] == l);
        if f.1.len() > 0 {
            assert(l.last() == f.1.last());
            assert(whitespace('\r'));
        } else {
            assert(l.last() == ' ');
        }
    }
    assert(std_lines(render_fields(fs)) =~= field_lines(fs));
}

/// A colon stands at or after `p`, before the next newline.
pub open spec fn colon_ahead(r: Seq<char>, p: int) -> bool {
    exists|q: int| p <= q < r.len() && r[q] == ':' && forall|j: int| p <= j < q ==> r[j] != '\n'
}

proof fn lemma_rendered_lines_have_colons(fs: Seq<FieldView>)
    requires
        all_settled(fs),
    ensures
        forall|p: int|
            #![trigger colon_ahead(render_fields(fs), p)]
            0 <= p < render_fields(fs).len() && (p == 0 || render_fields(fs)[p - 1] == '\n') ==> colon_ahead(render_fields(fs), p),
        fs.len() > 0 ==> render_fields(fs).len() > 0 && render_fields(fs).last() == '\n',
    decreases fs.len(),
{
    if fs.len() > 0 {
        let f0 = fs.drop_last();
        assert(all_settled(f0)) by {
            assert forall|i: int| 0 <= i < f0.len() implies settled(#[trigger] f0[i]) by {
                assert(f0[i] == fs[i]);
            }
        }
        lemma_rendered_lines_have_colons(f0);
        let f = fs.last();
        assert(settled(fs[fs.len() - 1]));
        reveal_strlit(": ");
        let l = field_line(f);
        let r0 = render_fields(f0);
        let r = render_fields(fs);
        assert(r =~= (r0 + l) + seq!['\n']);
        assert forall|p: int| 0 <= p < r.len() && (p == 0 || r[p - 1] == '\n') implies #[trigger] colon_ahead(r, p) by {
            if p < r0.len() {
                if p > 0 {
                    assert(r[p - 1] == r0[p - 1]);
                }
                assert(colon_ahead(r0, p));
                let q = choose|q: int| p <= q < r0.len() && r0[q] == ':' && forall|j: int| p <= j < q ==> r0[j] != '\n';
                assert(r[q] == r0[q]);
                assert forall|j: int| p <= j < q implies r[j] != '\n' by {
                    assert(r[j] == r0[j]);
                }
            } else if p == r0.len() {
                let q = p + f.0.len();
                assert(r[q] == l[f.0.len() as int]);
                assert forall|j: int| p <= j < q implies r[j] != '\n' by {
                    assert(r[j] == f.0[j - p]);
                }
            } else {
                let k = p - 1 - r0.len();
                assert(0 <= k < l.len());
                assert(r[p - 1] == l[k]);
                if k < f.0.len() {
                    assert(l[k] == f.0[k]);
                } else if k >= f.0.len() + 2 {
                    assert(l[k] == f.1[k - f.0.len() - 2]);
                }
            }
        }
    }
}

proof fn lemma_find_first(s: Seq<char>, p: Seq<char>, from: int, t: int)
    requires
        0 <= from <= t,
        occurs_at(s, p, t),
        forall|k: int| from <= k < t ==> !occurs_at(s, p, k),
    ensures
        find_from(s, p, from) == t,
    decreases t - from,
{
    if from < t {
        lemma_find_first(s, p, from + 1, t);
    }
}

/// Behind a block of lines that each hold a colon, the first `\n---\n` is
/// the one that closes the block.
proof fn lemma_fence_found(r: Seq<char>, body: Seq<char>)
    requires
        r.len() > 0,
        r.last() == '\n',
        forall|p: int|
            #![trigger colon_ahead(r, p)]
            0 <= p < r.len() && (p == 0 || r[p - 1] == '\n') ==> colon_ahead(r, p),
    ensures
        find_from(r + "---\n"@ + body, "\n---\n"@, 0) == r.len() - 1,
{
    reveal_strlit("---\n");
    reveal_strlit("\n---\n");
    let rest = r + "---\n"@ + body;
    let pat = "\n---\n"@;
    let n = r.len() as int;
    assert(rest.subrange(n - 1, n + 4) =~= pat);
    assert forall|k: int| 0 <= k < n - 1 implies !occurs_at(rest, pat, k) by {
        if occurs_at(rest, pat, k) {
            let w = rest.subrange(k, k + 5);
            assert(w[0] == '\n' && w[1] == '-' && w[2] == '-' && w[3] == '-' && w[4] == '\n');
            let p = k + 1;
            assert(r[p - 1] == rest[k]);
            assert(colon_ahead(r, p));
            let q = choose|q: int| p <= q < r.len() && r[q] == ':' && forall|j: int| p <= j < q ==> r[j] != '\n';
            assert(rest[q] == r[q]);
            if q <= p + 2 {
                assert(rest[q] == w[q - k]);
            } else if q == p + 3 {
                assert(rest[q] == w[4]);
            } else {
                assert(rest[p + 3] == w[4]);
                assert(r[p + 3] == rest[p + 3]);
            }
        }
    }
    lemma_find_first(rest, pat, 0, n - 1);
}

proof fn lemma_parsed_nonempty(lines: Seq<Seq<char>>, i: int)
    requires
        0 <= i < lines.len(),
        parse_field_spec(lines[i]) is Some,
    ensures
        parsed_fields(lines).len() > 0,
    decreases lines.len(),
{
    if i < lines.len() - 1 {
        assert(lines.drop_last()[i] == lines[i]);
        lemma_parsed_nonempty(lines.drop_last(), i);
    }
}

proof fn lemma_rank_range(key: Seq<char>, k: int)
    requires
        0 <= k <= 10,
    ensures
        k <= rank_from(key, k) <= 10,
    decreases 10 - k,
{
    if k < 10 && canonical_name(k) != key {
        lemma_rank_range(key, k + 1);
    }
}

proof fn lemma_filter_nonempty(s: Seq<FieldView>, pred: spec_fn(FieldView) -> bool, i: int)
    requires
        0 <= i < s.len(),
        pred(s[i]),
    ensures
        s.filter(pred).len() > 0,
    decreases s.len(),
{
    reveal(Seq::filter);
    if i < s.len() - 1 {
        assert(s.drop_last()[i] == s[i]);
        lemma_filter_nonempty(s.drop_last(), pred, i);
    }
}

/// Whether the frontmatter block of `content` has a line holding a colon.
pub open spec fn has_field_line(content: Seq<char>) -> bool {
    match split_fm(content) {
        Some((fm, _)) => exists|i: int| 0 <= i < std_lines(fm).len() && #[trigger] std_lines(fm)[i].contains(':'),
        None => false,
    }
}

/// Normalizing a post a second time changes nothing, when its frontmatter
/// block holds at least one line with a colon.
pub proof fn law_normalize_idempotent(content: Seq<char>)
    requires
        has_field_line(content),
    ensures
        normalized(normalized(content)) == normalized(content),
{
    let (fm, body) = split_fm(content).unwrap();
    let lines = std_lines(fm);
    let i = choose|i: int| 0 <= i < lines.len() && #[trigger] lines[i].contains(':');
    let j = choose|j: int| 0 <= j < lines[i].len() && lines[i][j] == ':';
    lemma_index_of(lines[i], ':', 0);
    lemma_parsed_nonempty(lines, i);
    lemma_std_lines_lack_nl(fm);
    lemma_parsed_fields_settled(lines);
    let f = parsed_fields(lines);
    lemma_ordered_settled(f, 0);
    let g = ordered_from(f, 0);
    lemma_rank_range(f[0].0, 0);
    let k = canonical_rank(f[0].0);
    lemma_filter_nonempty(f, |x: FieldView| canonical_rank(x.0) == k, 0);
    lemma_ordered_filter(f, 0, k);
    assert(g.len() > 0) by {
        if g.len() == 0 {
            assert(g.filter(|x: FieldView| canonical_rank(x.0) == k) =~= g) by {
                reveal(Seq::filter);
            }
        }
    }
    let r = render_fields(g);
    lemma_rendered_lines_have_colons(g);
    reveal_strlit("---\n");
    let out = "---\n"@ + r + "---\n"@ + body;
    assert(normalized(content) == out);
    assert(out.take(4) =~= "---\n"@);
    let rest = out.skip(4);
    assert(rest =~= r + "---\n"@ + body);
    lemma_fence_found(r, body);
    assert(rest.take(r.len() as int) =~= r);
    assert(rest.skip(r.len() as int + 4) =~= body);
    assert(split_fm(out) == Some((r, body)));
    lemma_lines_of_rendered(g);
    lemma_parse_field_lines(g);
    law_canonical_order_idempotent(f);
}

} // verus!
