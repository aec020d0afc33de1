use vstd::prelude::*;
use std::path::PathBuf;
use crate::text::{
    lex_le, lex_le_exec, strings_view, chars_of, equals_str, has_prefix, has_prefix_str, join_with, lines_of, opt_view, push_all,
    slice_copy, split_chars, split_on, starts_with, std_lines, string_of, trim, trim_ws, vecs_view,
};

verus! {

#[derive(Debug, Clone)]
pub struct Link {
    pub label: String,
    pub url: String,
}

#[derive(Debug, Clone)]
pub struct Guide {
    pub title: String,
    pub url: String,
}

#[derive(Debug, Clone)]
pub struct BlogConfig {
    pub title: String,
    pub subtitle: Option<String>,
    pub url: String,
    pub author: String,
    pub date_field: String,
    pub lang: String,
    pub articles_path: Option<String>,
    pub theme: Option<String>,
    pub analytics_id: Option<String>,
    pub license: Option<String>,
    pub license_url: Option<String>,
    pub og_image: Option<String>,
    pub tags: Option<Vec<String>>,
    pub links: Option<Vec<Link>>,
    pub guides: Option<Vec<Guide>>,
}

pub struct Post {
    pub slug: String,
    pub title: String,
    pub date: String,
    pub description: String,
    pub image: Option<String>,
    pub content: String,
    pub path: PathBuf,
}

/// A frontmatter value as written after `key:`: trimmed, then unquoted when
/// it is wrapped in double quotes.
pub open spec fn fm_value(raw: Seq<char>) -> Seq<char> {
    let v = trim_ws(raw);
    if v.len() >= 2 && v[0] == '"' && v.last() == '"' {
        v.subrange(1, v.len() - 1)
    } else {
        v
    }
}

/// Scans `lines` for the first frontmatter line starting with `key` (which
/// ends with `:`). `inside` tells whether the scan is between the `---` fences.
/// The closing fence ends the search; so does an empty value.
pub open spec fn fm_scan(lines: Seq<Seq<char>>, key: Seq<char>, inside: bool) -> Option<Seq<char>>
    decreases lines.len(),
{
    if lines.len() == 0 {
        None
    } else {
        let l = lines[0];
        if l == "---"@ {
            if inside {
                None
            } else {
                fm_scan(lines.drop_first(), key, true)
            }
        } else if !inside {
            fm_scan(lines.drop_first(), key, false)
        } else if starts_with(l, key) {
            let v = fm_value(l.skip(key.len() as int));
            if v.len() == 0 {
                None
            } else {
                Some(v)
            }
        } else {
            fm_scan(lines.drop_first(), key, true)
        }
    }
}

/// The value of frontmatter field `field` in `content`.
pub open spec fn frontmatter_of(field: Seq<char>, content: Seq<char>) -> Option<Seq<char>> {
    fm_scan(std_lines(content), field + ":"@, false)
}

/// The first whitespace-separated word of `v`, or `v` itself when it has none.
pub open spec fn first_word(v: Seq<char>) -> Seq<char> {
    let t = crate::text::trim_start_ws(v);
    if t.len() == 0 {
        v
    } else {
        t.take(first_ws(t, 0))
    }
}

/// First position at or after `i` holding whitespace, or the end.
pub open spec fn first_ws(s: Seq<char>, i: int) -> int
    decreases s.len() - i,
{
    if i >= s.len() || crate::trusted::whitespace(s[i]) {
        i
    } else {
        first_ws(s, i + 1)
    }
}

/// Lines after the second `---` fence (none when there are fewer than two).
pub open spec fn after_fences(lines: Seq<Seq<char>>, seen: nat) -> Seq<Seq<char>>
    decreases lines.len(),
{
    if lines.len() == 0 {
        Seq::empty()
    } else if lines[0] == "---"@ {
        if seen + 1 == 2 {
            lines.drop_first()
        } else {
            after_fences(lines.drop_first(), seen + 1)
        }
    } else {
        after_fences(lines.drop_first(), seen)
    }
}

/// Whether a line opens a list item or a blockquote.
pub open spec fn opens_block(l: Seq<char>) -> bool {
    starts_with(l, "* "@) || starts_with(l, "- "@) || starts_with(l, "> "@)
}

/// Each line followed by a newline, with a blank line put before a list item
/// or blockquote that directly follows a non-empty line.
pub open spec fn spaced(lines: Seq<Seq<char>>, prev: Seq<char>) -> Seq<char>
    decreases lines.len(),
{
    if lines.len() == 0 {
        Seq::empty()
    } else {
        let l = lines[0];
        let gap = if prev.len() > 0 && opens_block(l) { seq!['\n'] } else { Seq::empty() };
        gap + l + seq!['\n'] + spaced(lines.drop_first(), l)
    }
}

/// `s` without leading and trailing `[` and `]`.
pub open spec fn trim_brackets(s: Seq<char>) -> Seq<char>
    decreases s.len(),
{
    if s.len() > 0 && (s[0] == '[' || s[0] == ']') {
        trim_brackets(s.drop_first())
    } else if s.len() > 0 && (s.last() == '[' || s.last() == ']') {
        trim_brackets(s.drop_last())
    } else {
        s
    }
}

/// `s` without any `c`.
pub open spec fn without_char(s: Seq<char>, c: char) -> Seq<char> {
    s.filter(|x: char| x != c)
}

/// Tags written as `tags: [..]` turned into a space-separated list.
pub open spec fn tags_of_line(rest: Seq<char>) -> Seq<char> {
    let inner = without_char(trim_brackets(trim_ws(rest)), '"');
    join_with(split_on(inner, ',').map_values(|t: Seq<char>| trim_ws(t)), " "@)
}

/// The tags of the first line starting with `tags:`.
pub open spec fn tags_scan(lines: Seq<Seq<char>>) -> Seq<char>
    decreases lines.len(),
{
    if lines.len() == 0 {
        Seq::empty()
    } else if starts_with(lines[0], "tags:"@) {
        tags_of_line(lines[0].skip(5))
    } else {
        tags_scan(lines.drop_first())
    }
}

/// Extract a frontmatter field value from markdown content; handles quoted and unquoted values.
pub fn frontmatter(field: &str, content: &str) -> (r: Option<String>)
    ensures
        opt_view(r) == frontmatter_of(field@, content@),
{
    let cs = chars_of(content);
    let lines = lines_of(&cs);
    let mut key = chars_of(field);
    key.push(':');
    proof {
        assert(key@ =~= field@ + ":"@) by {
            reveal_strlit(":");
        }
    }
    let ghost all = vecs_view(lines@);
    let mut inside = false;
    let mut i: usize = 0;
    assert(all.skip(0) =~= all);
    while i < lines.len()
        invariant
            i <= lines@.len(),
            all == vecs_view(lines@),
            all == std_lines(content@),
            fm_scan(all.skip(i as int), key@, inside) == frontmatter_of(field@, content@),
        decreases lines@.len() - i,
    {
        let line = &lines[i];
        assert(all.skip(i as int)[0] == line@);
        assert(all.skip(i as int).drop_first() =~= all.skip(i + 1));
        if equals_str(line, "---") {
            if inside {
                return None;
            }
            inside = true;
        } else if !inside {
        } else if has_prefix(line, &key) {
            let rest = slice_copy(line, key.len(), line.len());
            assert(rest@ =~= line@.skip(key@.len() as int));
            let v = trim(&rest);
            let n = v.len();
            let value = if n >= 2 && v[0] == '"' && v[n - 1] == '"' { slice_copy(&v, 1, n - 1) } else { slice_copy(&v, 0, n) };
            assert(v@.subrange(0, n as int) =~= v@);
            if value.len() == 0 {
                return None;
            }
            return Some(string_of(&value));
        }
        i += 1;
    }
    None
}

/// Extract the date of a frontmatter field, dropping any time part.
pub fn frontmatter_date(field: &str, content: &str) -> (r: Option<String>)
    ensures
        opt_view(r) == match frontmatter_of(field@, content@) {
            Some(v) => Some(first_word(v)),
            None => None,
        },
{
    match frontmatter(field, content) {
        Some(v) => {
            let cs = chars_of(v.as_str());
            let w = first_word_of(&cs);
            Some(string_of(&w))
        },
        None => None,
    }
}

fn first_word_of(v: &[char]) -> (r: Vec<char>)
    ensures
        r@ == first_word(v@),
{
    let mut a: usize = 0;
    assert(v@.skip(0) =~= v@);
    while a < v.len() && crate::trusted::is_whitespace(v[a])
        invariant
            a <= v@.len(),
            crate::text::trim_start_ws(v@.skip(a as int)) == crate::text::trim_start_ws(v@),
        decreases v@.len() - a,
    {
        assert(v@.skip(a as int).drop_first() =~= v@.skip(a + 1));
        a += 1;
    }
    assert(crate::text::trim_start_ws(v@) =~= v@.skip(a as int));
    if a == v.len() {
        return slice_copy(v, 0, v.len());
    }
    let ghost t = v@.skip(a as int);
    let mut b: usize = a;
    while b < v.len() && !crate::trusted::is_whitespace(v[b])
        invariant
            a <= b <= v@.len(),
            t == v@.skip(a as int),
            first_ws(t, (b - a) as int) == first_ws(t, 0),
        decreases v@.len() - b,
    {
        b += 1;
    }
    let r = slice_copy(v, a, b);
    assert(r@ =~= t.take((b - a) as int));
    assert(v@.subrange(0, v@.len() as int) =~= v@);
    r
}

/// Extract the post body (everything after the closing `---` of the
/// frontmatter), with blank lines put before list items and blockquotes that
/// lack them.
pub fn post_body(content: &str) -> (r: String)
    ensures
        r@ == spaced(after_fences(std_lines(content@), 0), Seq::empty()),
{
    let cs = chars_of(content);
    let lines = lines_of(&cs);
    let body = skip_frontmatter(&lines);
    let out = fix_markdown_spacing(&body);
    string_of(&out)
}

fn skip_frontmatter(lines: &Vec<Vec<char>>) -> (r: Vec<Vec<char>>)
    ensures
        vecs_view(r@) == after_fences(vecs_view(lines@), 0),
{
    let ghost all = vecs_view(lines@);
    let mut count: usize = 0;
    let mut i: usize = 0;
    assert(all.skip(0) =~= all);
    while i < lines.len()
        invariant
            i <= lines@.len(),
            count < 2,
            all == vecs_view(lines@),
            after_fences(all.skip(i as int), count as nat) == after_fences(all, 0),
        decreases lines@.len() - i,
    {
        assert(all.skip(i as int)[0] == lines@[i as int]@);
        assert(all.skip(i as int).drop_first() =~= all.skip(i + 1));
        if equals_str(&lines[i], "---") {
            count += 1;
            if count == 2 {
                i += 1;
                let mut out: Vec<Vec<char>> = Vec::new();
                let start = i;
                while i < lines.len()
                    invariant
                        start <= i <= lines@.len(),
                        all == vecs_view(lines@),
                        vecs_view(out@) == all.subrange(start as int, i as int),
                    decreases lines@.len() - i,
                {
                    let ghost prev = out@;
                    let piece = slice_copy(&lines[i], 0, lines[i].len());
                    assert(lines@[i as int]@.subrange(0, lines@[i as int]@.len() as int) =~= lines@[i as int]@);
                    out.push(piece);
                    assert(vecs_view(out@) =~= vecs_view(prev).push(all[i as int]));
                    i += 1;
                    assert(vecs_view(out@) =~= all.subrange(start as int, i as int));
                }
                assert(all.subrange(start as int, i as int) =~= all.skip(start as int));
                return out;
            }
        }
        i += 1;
    }
    assert(all.skip(i as int) =~= Seq::<Seq<char>>::empty());
    Vec::new()
}

fn fix_markdown_spacing(lines: &Vec<Vec<char>>) -> (r: Vec<char>)
    ensures
        r@ == spaced(vecs_view(lines@), Seq::empty()),
{
    let ghost all = vecs_view(lines@);
    let mut out: Vec<char> = Vec::new();
    let mut prev: Vec<char> = Vec::new();
    let mut i: usize = 0;
    assert(all.skip(0) =~= all);
    while i < lines.len()
        invariant
            i <= lines@.len(),
            all == vecs_view(lines@),
            out@ + spaced(all.skip(i as int), prev@) == spaced(all, Seq::empty()),
        decreases lines@.len() - i,
    {
        let line = &lines[i];
        assert(all.skip(i as int)[0] == line@);
        assert(all.skip(i as int).drop_first() =~= all.skip(i + 1));
        let needs_blank = prev.len() > 0
            && (has_prefix_str(line, "* ") || has_prefix_str(line, "- ") || has_prefix_str(line, "> "));
        let ghost before = out@;
        if needs_blank {
            out.push('\n');
        }
        push_all(&mut out, line);
        out.push('\n');
        let ghost gap = if needs_blank { seq!['\n'] } else { Seq::<char>::empty() };
        assert(out@ =~= before + gap + line@ + seq!['\n']);
        prev = slice_copy(line, 0, line.len());
        assert(line@.subrange(0, line@.len() as int) =~= line@);
        i += 1;
    }
    assert(all.skip(i as int) =~= Seq::<Seq<char>>::empty());
    assert(out@ =~= out@ + Seq::<char>::empty());
    out
}

/// Resolve the og:image URL: the post image overrides the site default.
pub fn resolve_og_image<'a>(post_image: Option<&'a str>, site_image: Option<&'a str>) -> (r: &'a str)
    ensures
        r@ == match post_image {
            Some(p) => p@,
            None => match site_image {
                Some(s) => s@,
                None => ""@,
            },
        },
{
    match post_image {
        Some(p) => p,
        None => match site_image {
            Some(s) => s,
            None => "",
        },
    }
}

/// Twitter card type, by whether an og:image is present.
pub fn twitter_card(og_image: &str) -> (r: &'static str)
    ensures
        r@ == if og_image@.len() == 0 { "summary"@ } else { "summary_large_image"@ },
{
    if og_image.is_empty() {
        "summary"
    } else {
        "summary_large_image"
    }
}

/// Extract space-separated tags from the first `tags:` line.
pub fn extract_tags(content: &str) -> (r: String)
    ensures
        r@ == tags_scan(std_lines(content@)),
{
    let cs = chars_of(content);
    let lines = lines_of(&cs);
    let ghost all = vecs_view(lines@);
    let mut i: usize = 0;
    assert(all.skip(0) =~= all);
    while i < lines.len()
        invariant
            i <= lines@.len(),
            all == vecs_view(lines@),
            all == std_lines(content@),
            tags_scan(all.skip(i as int)) == tags_scan(all),
        decreases lines@.len() - i,
    {
        let line = &lines[i];
        assert(all.skip(i as int)[0] == line@);
        assert(all.skip(i as int).drop_first() =~= all.skip(i + 1));
        if has_prefix_str(line, "tags:") {
            proof {
                reveal_strlit("tags:");
            }
            let rest = slice_copy(line, 5, line.len());
            assert(rest@ =~= line@.skip(5));
            let out = tags_from(&rest);
            return string_of(&out);
        }
        i += 1;
    }
    assert(all.skip(i as int) =~= Seq::<Seq<char>>::empty());
    String::new()
}

fn tags_from(rest: &[char]) -> (r: Vec<char>)
    ensures
        r@ == tags_of_line(rest@),
{
    let t = trim(rest);
    let b = strip_brackets(&t);
    let mut inner: Vec<char> = Vec::new();
    let mut i: usize = 0;
    while i < b.len()
        invariant
            i <= b@.len(),
            inner@ == without_char(b@.take(i as int), '"'),
        decreases b@.len() - i,
    {
        assert(b@.take(i + 1).drop_last() =~= b@.take(i as int));
        if b[i] != '"' {
            inner.push(b[i]);
        }
        i += 1;
        proof {
            reveal(Seq::filter);
            assert(b@.take(i as int).filter(|x: char| x != '"') == {
                let p = b@.take(i - 1).filter(|x: char| x != '"');
                if b@[i - 1] != '"' { p.push(b@[i - 1]) } else { p }
            });
        }
    }
    assert(b@.take(b@.len() as int) =~= b@);
    let pieces = split_chars(&inner, ',');
    let mut trimmed: Vec<Vec<char>> = Vec::new();
    let mut k: usize = 0;
    while k < pieces.len()
        invariant
            k <= pieces@.len(),
            vecs_view(trimmed@) == vecs_view(pieces@).take(k as int).map_values(|t: Seq<char>| trim_ws(t)),
        decreases pieces@.len() - k,
    {
        let ghost prev = trimmed@;
        let piece = trim(&pieces[k]);
        trimmed.push(piece);
        assert(vecs_view(trimmed@) =~= vecs_view(prev).push(trim_ws(vecs_view(pieces@)[k as int])));
        k += 1;
        assert(vecs_view(trimmed@) =~= vecs_view(pieces@).take(k as int).map_values(|t: Seq<char>| trim_ws(t)));
    }
    assert(vecs_view(pieces@).take(pieces@.len() as int) =~= vecs_view(pieces@));
    crate::text::join_chars(&trimmed, " ")
}

fn strip_brackets(s: &[char]) -> (r: Vec<char>)
    ensures
        r@ == trim_brackets(s@),
{
    let mut a: usize = 0;
    let mut b: usize = s.len();
    assert(s@.subrange(0, s@.len() as int) =~= s@);
    while a < b && (s[a] == '[' || s[a] == ']')
        invariant
            a <= b == s@.len(),
            trim_brackets(s@.subrange(a as int, b as int)) == trim_brackets(s@),
        decreases b - a,
    {
        assert(s@.subrange(a as int, b as int).drop_first() =~= s@.subrange(a + 1, b as int));
        a += 1;
    }
    while a < b && (s[b - 1] == '[' || s[b - 1] == ']')
        invariant
            a <= b <= s@.len(),
            a < b ==> s@[a as int] != '[' && s@[a as int] != ']',
            trim_brackets(s@.subrange(a as int, b as int)) == trim_brackets(s@),
        decreases b - a,
    {
        assert(s@.subrange(a as int, b as int).drop_last() =~= s@.subrange(a as int, b - 1));
        b -= 1;
    }
    slice_copy(s, a, b)
}

/// Whether a file name has the extension `md` as a path reads it: the name
/// ends in `.md` and something stands before that dot.
pub open spec fn is_markdown_name(n: Seq<char>) -> bool {
    n.len() > 3 && n.subrange(n.len() - 3, n.len() as int) == seq!['.', 'm', 'd']
}

/// `x` put into the name-ordered list `s`, after every name not greater.
pub open spec fn insert_name(s: Seq<Seq<char>>, x: Seq<char>) -> Seq<Seq<char>>
    decreases s.len(),
{
    if s.len() == 0 {
        seq![x]
    } else if lex_le(s.last(), x) {
        s.push(x)
    } else {
        insert_name(s.drop_last(), x).push(s.last())
    }
}

/// The markdown files among `names`, in name order (equal names keep
/// their order).
pub open spec fn markdown_names(names: Seq<Seq<char>>) -> Seq<Seq<char>>
    decreases names.len(),
{
    if names.len() == 0 {
        Seq::empty()
    } else {
        let rest = markdown_names(names.drop_last());
        if is_markdown_name(names.last()) {
            insert_name(rest, names.last())
        } else {
            rest
        }
    }
}

proof fn lemma_insert_name_at(s: Seq<Seq<char>>, x: Seq<char>, p: int)
    requires
        0 <= p <= s.len(),
        p == 0 || lex_le(s[p - 1], x),
        forall|k: int| p <= k < s.len() ==> !lex_le(#[trigger] s[k], x),
    ensures
        insert_name(s, x) == s.insert(p, x),
    decreases s.len(),
{
    if s.len() == 0 {
        assert(s.insert(p, x) =~= seq![x]);
    } else if p == s.len() {
        assert(s.insert(p, x) =~= s.push(x));
    } else {
        assert(!lex_le(s.last(), x));
        lemma_insert_name_at(s.drop_last(), x, p);
        assert(s.insert(p, x) =~= s.drop_last().insert(p, x).push(s.last()));
    }
}

/// The posts of a directory are its markdown files: of the file names
/// `names`, those with the extension `md`, sorted by name.
pub fn markdown_files(names: &Vec<String>) -> (r: Vec<String>)
    ensures
        strings_view(r@) == markdown_names(strings_view(names@)),
{
    let ghost nv = strings_view(names@);
    let mut out: Vec<String> = Vec::new();
    let mut i: usize = 0;
    while i < names.len()
        invariant
            i <= names@.len(),
            nv == strings_view(names@),
            strings_view(out@) == markdown_names(nv.take(i as int)),
        decreases names@.len() - i,
    {
        assert(nv.take(i + 1).drop_last() =~= nv.take(i as int));
        let name = chars_of(names[i].as_str());
        let n = name.len();
        let md = n > 3 && name[n - 3] == '.' && name[n - 2] == 'm' && name[n - 1] == 'd';
        proof {
            let sub = name@.subrange(n - 3, n as int);
            if md {
                assert(sub =~= seq!['.', 'm', 'd']);
            } else if n > 3 {
                assert(sub[0] == name@[n - 3] && sub[1] == name@[n - 2] && sub[2] == name@[n - 1]);
            }
        }
        if md {
            let ghost s = strings_view(out@);
            let mut p = out.len();
            while p > 0 && !lex_le_exec(&chars_of(out[p - 1].as_str()), &name)
                invariant
                    p <= out@.len(),
                    s == strings_view(out@),
                    name@ == nv[i as int],
                    forall|k: int| p <= k < s.len() ==> !lex_le(#[trigger] s[k], name@),
                decreases p,
            {
                p -= 1;
            }
            proof {
                lemma_insert_name_at(s, name@, p as int);
            }
            out.insert(p, names[i].clone());
            assert(strings_view(out@) =~= s.insert(p as int, name@));
        }
        i += 1;
    }
    assert(nv.take(names@.len() as int) =~= nv);
    out
}

} // verus!
