use vstd::prelude::*;
use pulldown_cmark::{CodeBlockKind, CowStr, Event, Options, Parser, Tag, TagEnd};
use pulldown_cmark::Event::{Code, End, Start, Text};
use crate::trusted::{
    char_lower, char_to_lowercase, is_alphabetic, is_alphanumeric, is_whitespace, unicode_alphabetic, unicode_alphanumeric,
    whitespace,
};
use crate::engine::highlight::{escape_html, html_escaped};
use crate::text::{
    chars_of, decimal, decimal_of, join_chars, join_with, push_all, push_str, slice_copy, string_of, vecs_view,
};
use crate::editor::db::non_empty;

verus! {

/// The markdown events the snippet reader looks at.
pub enum MdEvent {
    CodeStart,
    CodeEnd,
    ImageStart,
    ImageEnd,
    Text(String),
    Break,
    Other,
}

/// The plain value of a markdown event.
pub ghost enum MdEventV {
    CodeStart,
    CodeEnd,
    ImageStart,
    ImageEnd,
    Text(Seq<char>),
    Break,
    Other,
}

pub open spec fn md_event_view(e: MdEvent) -> MdEventV {
    match e {
        MdEvent::CodeStart => MdEventV::CodeStart,
        MdEvent::CodeEnd => MdEventV::CodeEnd,
        MdEvent::ImageStart => MdEventV::ImageStart,
        MdEvent::ImageEnd => MdEventV::ImageEnd,
        MdEvent::Text(t) => MdEventV::Text(t@),
        MdEvent::Break => MdEventV::Break,
        MdEvent::Other => MdEventV::Other,
    }
}

pub open spec fn md_events_view(v: Seq<MdEvent>) -> Seq<MdEventV> {
    v.map_values(|e: MdEvent| md_event_view(e))
}

/// The events pulldown-cmark reports for `markdown` (with strikethrough and
/// tables enabled), reduced to what the snippet reader looks at.
pub uninterp spec fn markdown_events(markdown: Seq<char>) -> Seq<MdEventV>;

/// Calls `pulldown_cmark::Parser::new_ext` with strikethrough and tables
/// enabled and turns each event into an `MdEvent`: code block and image
/// starts and ends, text, soft and hard breaks, and anything else as
/// `Other`. The result is named, not spelled out.
#[verifier::external_body]
fn parse_markdown_events(markdown: &str) -> (r: Vec<MdEvent>)
    ensures
        md_events_view(r@) == markdown_events(markdown@),
{
    let options = Options::ENABLE_STRIKETHROUGH | Options::ENABLE_TABLES;
    Parser::new_ext(markdown, options).map(|event| match event {
        Event::Start(Tag::CodeBlock(_)) => MdEvent::CodeStart,
        Event::End(TagEnd::CodeBlock) => MdEvent::CodeEnd,
        Event::Start(Tag::Image { .. }) => MdEvent::ImageStart,
        Event::End(TagEnd::Image) => MdEvent::ImageEnd,
        Event::Text(t) => MdEvent::Text(t.to_string()),
        Event::SoftBreak | Event::HardBreak => MdEvent::Break,
        _ => MdEvent::Other,
    }).collect()
}

/// The visible text gathered from `events`, with whether the reader is in a
/// code block and in an image: text outside both is added (after a space
/// when something came before), and a line break outside both adds a space.
pub open spec fn gathered(events: Seq<MdEventV>) -> (Seq<char>, bool, bool)
    decreases events.len(),
{
    if events.len() == 0 {
        (Seq::empty(), false, false)
    } else {
        let (text, code, image) = gathered(events.drop_last());
        match events.last() {
            MdEventV::CodeStart => (text, true, image),
            MdEventV::CodeEnd => (text, false, image),
            MdEventV::ImageStart => (text, code, true),
            MdEventV::ImageEnd => (text, code, false),
            MdEventV::Text(t) => if !code && !image {
                ((if text.len() > 0 { text.push(' ') } else { text }) + t, code, image)
            } else {
                (text, code, image)
            },
            MdEventV::Break => if !code && !image { (text.push(' '), code, image) } else { (text, code, image) },
            MdEventV::Other => (text, code, image),
        }
    }
}

/// `s` cut at every whitespace character (separators dropped, empty pieces kept).
pub open spec fn split_ws(s: Seq<char>) -> Seq<Seq<char>>
    decreases s.len(),
{
    if s.len() == 0 {
        seq![Seq::<char>::empty()]
    } else {
        let prev = split_ws(s.drop_last());
        if whitespace(s.last()) {
            prev.push(Seq::<char>::empty())
        } else {
            prev.update(prev.len() - 1, prev.last().push(s.last()))
        }
    }
}

proof fn lemma_split_ws_nonempty(s: Seq<char>)
    ensures
        split_ws(s).len() >= 1,
    decreases s.len(),
{
    if s.len() > 0 {
        lemma_split_ws_nonempty(s.drop_last());
    }
}

/// The words of `s` (as `str::split_whitespace` yields them) joined by single spaces.
pub open spec fn words_joined(s: Seq<char>) -> Seq<char> {
    join_with(non_empty(split_ws(s)), " "@)
}

/// The plain text of a markdown document: its visible text without code
/// blocks and image descriptions, words separated by single spaces.
pub open spec fn plain_text_of(markdown: Seq<char>) -> Seq<char> {
    words_joined(gathered(markdown_events(markdown)).0)
}

/// Bytes of `c` in UTF-8.
pub open spec fn utf8_width(c: char) -> nat {
    if (c as u32) < 0x80 {
        1
    } else if (c as u32) < 0x800 {
        2
    } else if (c as u32) < 0x10000 {
        3
    } else {
        4
    }
}

/// Bytes of `s` in UTF-8.
pub open spec fn utf8_len(s: Seq<char>) -> nat
    decreases s.len(),
{
    if s.len() == 0 {
        0
    } else {
        utf8_len(s.drop_last()) + utf8_width(s.last())
    }
}

/// How many leading characters of `s` fit in `limit` bytes.
pub open spec fn fitting(s: Seq<char>, limit: int, k: int) -> int
    decreases s.len() - k,
{
    if k < s.len() && utf8_len(s.take(k + 1)) <= limit {
        fitting(s, limit, k + 1)
    } else {
        k
    }
}

/// The last position before `k` holding a space, or -1.
pub open spec fn last_space_before(s: Seq<char>, k: int) -> int
    decreases k,
{
    if k <= 0 {
        -1
    } else if s[k - 1] == ' ' {
        k - 1
    } else {
        last_space_before(s, k - 1)
    }
}

/// `text` when it fits in `limit` bytes; otherwise the characters that fit,
/// cut back to the last space among them when there is one.
pub open spec fn truncated(text: Seq<char>, limit: int) -> Seq<char> {
    if utf8_len(text) <= limit {
        text
    } else {
        let k = fitting(text, limit, 0);
        let p = last_space_before(text, k);
        if p >= 0 { text.take(p) } else { text.take(k) }
    }
}

/// A plain-text snippet: the description when there is a non-empty one,
/// otherwise the plain text of the body cut at a word boundary within
/// `limit` bytes.
pub open spec fn snippet_of(body: Seq<char>, description: Option<Seq<char>>, limit: int) -> Seq<char> {
    match description {
        Some(d) => if d.len() > 0 { d } else { truncated(plain_text_of(body), limit) },
        None => truncated(plain_text_of(body), limit),
    }
}

pub fn utf8_width_exec(c: char) -> (r: usize)
    ensures
        r == utf8_width(c),
{
    let v = c as u32;
    if v < 0x80 {
        1
    } else if v < 0x800 {
        2
    } else if v < 0x10000 {
        3
    } else {
        4
    }
}

/// Cut `text` at a word boundary so that it fits in `limit` bytes.
fn truncate_at_word_boundary(text: &Vec<char>, limit: usize) -> (r: Vec<char>)
    ensures
        r@ == truncated(text@, limit as int),
{
    let s = text;
    let n = s.len();
    let mut k: usize = 0;
    let mut used: usize = 0;
    assert(s@.take(0) =~= Seq::<char>::empty());
    while k < n && utf8_width_exec(s[k]) <= limit - used
        invariant
            k <= n == s@.len(),
            used == utf8_len(s@.take(k as int)),
            used <= limit,
            fitting(s@, limit as int, k as int) == fitting(s@, limit as int, 0),
        decreases n - k,
    {
        assert(s@.take(k + 1).drop_last() =~= s@.take(k as int));
        used = used + utf8_width_exec(s[k]);
        k += 1;
    }
    proof {
        if k < n {
            assert(s@.take(k + 1).drop_last() =~= s@.take(k as int));
        }
    }
    if k == n {
        assert(s@.take(n as int) =~= s@);
        return slice_copy(s, 0, n);
    }
    proof {
        lemma_utf8_len_mono(s@, k as int + 1);
    }
    let mut p = k;
    while p > 0 && s[p - 1] != ' '
        invariant
            p <= k < n == s@.len(),
            last_space_before(s@, p as int) == last_space_before(s@, k as int),
        decreases p,
    {
        p -= 1;
    }
    if p > 0 {
        slice_copy(s, 0, p - 1)
    } else {
        slice_copy(s, 0, k)
    }
}

/// A longer prefix takes at least as many bytes.
/// The characters in the first `n` bytes of `s`, when a character
/// boundary lies there (as `str::get(..n)` gives them).
pub open spec fn byte_prefix(s: Seq<char>, n: int) -> Option<Seq<char>> {
    let k = fitting(s, n, 0);
    if utf8_len(s.take(k)) == n {
        Some(s.take(k))
    } else {
        None
    }
}

/// The characters in the first `n` bytes of `s`, if they are whole characters.
pub fn byte_prefix_of(s: &[char], n: usize) -> (r: Option<Vec<char>>)
    ensures
        match r {
            Some(p) => byte_prefix(s@, n as int) == Some(p@),
            None => byte_prefix(s@, n as int) is None,
        },
{
    let len = s.len();
    let mut k: usize = 0;
    let mut used: usize = 0;
    assert(s@.take(0) =~= Seq::<char>::empty());
    while k < len && utf8_width_exec(s[k]) <= n - used
        invariant
            k <= len == s@.len(),
            used == utf8_len(s@.take(k as int)),
            used <= n,
            fitting(s@, n as int, k as int) == fitting(s@, n as int, 0),
        decreases len - k,
    {
        assert(s@.take(k + 1).drop_last() =~= s@.take(k as int));
        used = used + utf8_width_exec(s[k]);
        k += 1;
    }
    proof {
        if k < len {
            assert(s@.take(k + 1).drop_last() =~= s@.take(k as int));
        }
    }
    if used == n {
        Some(slice_copy(s, 0, k))
    } else {
        None
    }
}

/// Whether `s` takes more than `limit` bytes in UTF-8.
pub fn utf8_longer_than(s: &[char], limit: usize) -> (r: bool)
    ensures
        r == (utf8_len(s@) > limit),
{
    let len = s.len();
    let mut k: usize = 0;
    let mut used: usize = 0;
    assert(s@.take(0) =~= Seq::<char>::empty());
    while k < len
        invariant
            k <= len == s@.len(),
            used == utf8_len(s@.take(k as int)),
            used <= limit,
        decreases len - k,
    {
        assert(s@.take(k + 1).drop_last() =~= s@.take(k as int));
        let w = utf8_width_exec(s[k]);
        if w > limit - used {
            proof {
                lemma_utf8_len_mono(s@, k + 1);
            }
            return true;
        }
        used = used + w;
        k += 1;
    }
    assert(s@.take(len as int) =~= s@);
    false
}

proof fn lemma_utf8_len_mono(s: Seq<char>, k: int)
    requires
        0 <= k <= s.len(),
    ensures
        utf8_len(s.take(k)) <= utf8_len(s),
    decreases s.len() - k,
{
    if k < s.len() {
        lemma_utf8_len_mono(s, k + 1);
        assert(s.take(k + 1).drop_last() =~= s.take(k));
    } else {
        assert(s.take(k) =~= s);
    }
}

/// The words of `s` joined by single spaces.
fn join_words(s: &Vec<char>) -> (r: Vec<char>)
    ensures
        r@ == words_joined(s@),
{
    let ghost sq = s@;
    let len = s.len();
    let mut done: Vec<Vec<char>> = Vec::new();
    let mut cur: Vec<char> = Vec::new();
    let mut i: usize = 0;
    while i < len
        invariant
            i <= len == sq.len(),
            sq == s@,
            vecs_view(done@).push(cur@) == split_ws(sq.take(i as int)),
        decreases len - i,
    {
        let ch = s[i];
        let ghost before = vecs_view(done@).push(cur@);
        assert(sq.take(i + 1).drop_last() =~= sq.take(i as int));
        if is_whitespace(ch) {
            done.push(cur);
            cur = Vec::new();
            assert(vecs_view(done@).push(cur@) =~= before.push(Seq::<char>::empty()));
        } else {
            cur.push(ch);
            assert(vecs_view(done@).push(cur@) =~= before.update(before.len() - 1, before.last().push(ch)));
        }
        i = i + 1;
    }
    assert(sq.take(len as int) =~= sq);
    let ghost prev = done@;
    done.push(cur);
    assert(vecs_view(done@) =~= vecs_view(prev).push(cur@));
    let mut kept: Vec<Vec<char>> = Vec::new();
    let ghost pv = vecs_view(done@);
    let mut k: usize = 0;
    while k < done.len()
        invariant
            k <= done@.len(),
            pv == vecs_view(done@),
            vecs_view(kept@) == non_empty(pv.take(k as int)),
        decreases done@.len() - k,
    {
        assert(pv.take(k + 1).drop_last() =~= pv.take(k as int));
        let ghost b = vecs_view(kept@);
        if done[k].len() > 0 {
            kept.push(done[k].clone());
            assert(vecs_view(kept@) =~= b.push(pv[k as int]));
        }
        k += 1;
    }
    assert(pv.take(k as int) =~= pv);
    join_chars(&kept, " ")
}

/// The visible text of a markdown document, skipping code blocks and image
/// descriptions, words separated by single spaces.
fn extract_plain_text(markdown: &str) -> (r: Vec<char>)
    ensures
        r@ == plain_text_of(markdown@),
{
    let events = parse_markdown_events(markdown);
    let ghost ev = md_events_view(events@);
    let mut text: Vec<char> = Vec::new();
    let mut in_code = false;
    let mut in_image = false;
    let mut i: usize = 0;
    while i < events.len()
        invariant
            i <= events@.len(),
            ev == md_events_view(events@),
            ev == markdown_events(markdown@),
            gathered(ev.take(i as int)) == (text@, in_code, in_image),
        decreases events@.len() - i,
    {
        assert(ev.take(i + 1).drop_last() =~= ev.take(i as int));
        assert(ev.take(i + 1).last() == md_event_view(events@[i as int]));
        match &events[i] {
            MdEvent::CodeStart => {
                in_code = true;
            },
            MdEvent::CodeEnd => {
                in_code = false;
            },
            MdEvent::ImageStart => {
                in_image = true;
            },
            MdEvent::ImageEnd => {
                in_image = false;
            },
            MdEvent::Text(t) => {
                if !in_code && !in_image {
                    if text.len() > 0 {
                        text.push(' ');
                    }
                    push_str(&mut text, t.as_str());
                }
            },
            MdEvent::Break => {
                if !in_code && !in_image {
                    text.push(' ');
                }
            },
            MdEvent::Other => {},
        }
        i += 1;
    }
    assert(ev.take(i as int) =~= ev);
    join_words(&text)
}

/// Extract a plain-text snippet from markdown, cut at a word boundary within
/// `limit` bytes. An explicit, non-empty description is used as it is.
pub fn post_snippet(body: &str, description: Option<&str>, limit: usize) -> (r: String)
    ensures
        r@ == snippet_of(
            body@,
            match description {
                Some(d) => Some(d@),
                None => None,
            },
            limit as int,
        ),
{
    if let Some(desc) = description {
        if !desc.is_empty() {
            return String::from_str(desc);
        }
    }
    let text = extract_plain_text(body);
    let cut = truncate_at_word_boundary(&text, limit);
    string_of(&cut)
}

proof fn lemma_fitting(s: Seq<char>, limit: int, k: int)
    requires
        0 <= k <= s.len(),
        utf8_len(s.take(k)) <= limit,
    ensures
        k <= fitting(s, limit, k) <= s.len(),
        utf8_len(s.take(fitting(s, limit, k))) <= limit,
    decreases s.len() - k,
{
    if k < s.len() && utf8_len(s.take(k + 1)) <= limit {
        lemma_fitting(s, limit, k + 1);
    }
}

proof fn lemma_last_space_before(s: Seq<char>, k: int)
    requires
        0 <= k <= s.len(),
    ensures
        -1 <= last_space_before(s, k) < k,
    decreases k,
{
    if k > 0 && s[k - 1] != ' ' {
        lemma_last_space_before(s, k - 1);
    }
}

proof fn lemma_prefix_len_mono(s: Seq<char>, a: int, b: int)
    requires
        0 <= a <= b <= s.len(),
    ensures
        utf8_len(s.take(a)) <= utf8_len(s.take(b)),
    decreases b - a,
{
    if a < b {
        lemma_prefix_len_mono(s, a, b - 1);
        assert(s.take(b).drop_last() =~= s.take(b - 1));
    }
}

/// A snippet cut from the body never takes more than `limit` bytes.
pub proof fn law_snippet_fits(text: Seq<char>, limit: int)
    requires
        limit >= 0,
    ensures
        utf8_len(truncated(text, limit)) <= limit,
{
    if utf8_len(text) > limit {
        assert(text.take(0) =~= Seq::<char>::empty());
        lemma_fitting(text, limit, 0);
        let k = fitting(text, limit, 0);
        lemma_last_space_before(text, k);
        let p = last_space_before(text, k);
        if p >= 0 {
            lemma_prefix_len_mono(text, p, k);
        }
    }
}

/// What a character of a heading becomes in its anchor: alphanumerics in
/// lowercase, whitespace a dash, `-`, `_` and `.` themselves, anything else
/// nothing.
pub open spec fn slug_piece(c: char) -> Seq<char> {
    if unicode_alphanumeric(c) {
        char_lower(c)
    } else if whitespace(c) {
        seq!['-']
    } else if c == '-' || c == '_' || c == '.' {
        seq![c]
    } else {
        Seq::empty()
    }
}

/// The anchor characters of a heading's text.
pub open spec fn slug_chars(s: Seq<char>) -> Seq<char>
    decreases s.len(),
{
    if s.len() == 0 {
        Seq::empty()
    } else {
        slug_chars(s.drop_last()) + slug_piece(s.last())
    }
}

/// The first position from `i` holding a letter, or the end.
pub open spec fn first_letter(s: Seq<char>, i: int) -> int
    decreases s.len() - i,
{
    if i >= s.len() || unicode_alphabetic(s[i]) {
        i
    } else {
        first_letter(s, i + 1)
    }
}

/// A heading's anchor, as Pandoc makes it: the anchor characters from the
/// first letter on; `section` when nothing is left.
pub open spec fn heading_slug(text: Seq<char>) -> Seq<char> {
    let m = slug_chars(text);
    let t = m.skip(first_letter(m, 0));
    if t.len() == 0 {
        "section"@
    } else {
        t
    }
}

/// A heading's anchor, Pandoc-style: lowercase, whitespace to `-`, keeping
/// alphanumerics, `-`, `_` and `.`; leading non-letters dropped; `section`
/// when empty.
pub fn slugify(text: &str) -> (r: String)
    ensures
        r@ == heading_slug(text@),
{
    let cs = chars_of(text);
    let mut m: Vec<char> = Vec::new();
    let mut i: usize = 0;
    while i < cs.len()
        invariant
            i <= cs@.len(),
            cs@ == text@,
            m@ == slug_chars(cs@.take(i as int)),
        decreases cs@.len() - i,
    {
        assert(cs@.take(i + 1).drop_last() =~= cs@.take(i as int));
        let c = cs[i];
        if is_alphanumeric(c) {
            let lower = char_to_lowercase(c);
            push_str(&mut m, lower.as_str());
        } else if is_whitespace(c) {
            m.push('-');
        } else if c == '-' || c == '_' || c == '.' {
            m.push(c);
        }
        i += 1;
    }
    assert(cs@.take(i as int) =~= cs@);
    let mut k: usize = 0;
    while k < m.len() && !is_alphabetic(m[k])
        invariant
            k <= m@.len(),
            first_letter(m@, k as int) == first_letter(m@, 0),
        decreases m@.len() - k,
    {
        k += 1;
    }
    if k == m.len() {
        assert(m@.skip(k as int).len() == 0);
        return String::from_str("section");
    }
    let t = slice_copy(&m, k, m.len());
    assert(t@ =~= m@.skip(k as int));
    string_of(&t)
}

/// `value` with `&`, `"`, `<` and `>` written as entities, for an attribute.
pub fn escape_attr(value: &str) -> (r: String)
    ensures
        r@ == html_escaped(value@),
{
    escape_html(value)
}

/// The emoji GitHub gives a shortcode name, if any.
pub uninterp spec fn gh_emoji_of(name: Seq<char>) -> Option<Seq<char>>;

/// Calls `gh_emoji::get`; the result is named.
#[verifier::external_body]
fn emoji_for(name: &str) -> (r: Option<String>)
    ensures
        crate::text::opt_view(r) == gh_emoji_of(name@),
{
    gh_emoji::get(name).map(|e| e.to_string())
}

/// Whether a character may stand in an emoji shortcode name.
pub open spec fn shortcode_char(c: char) -> bool {
    unicode_alphanumeric(c) || c == '_' || c == '-' || c == '+'
}

/// The closing `:` of a shortcode whose name starts at `j`: the first `:`
/// from there, when only name characters come before it.
pub open spec fn shortcode_end(cs: Seq<char>, j: int) -> Option<int>
    decreases cs.len() - j,
{
    if j < 0 || j >= cs.len() {
        None
    } else if cs[j] == ':' {
        Some(j)
    } else if !shortcode_char(cs[j]) {
        None
    } else {
        shortcode_end(cs, j + 1)
    }
}

/// The closing `:` of a shortcode opened at `start`, as `shortcode_end` finds it.
fn find_shortcode_end(chars: &Vec<char>, start: usize) -> (r: Option<usize>)
    requires
        start < chars@.len(),
        start < usize::MAX,
    ensures
        match r {
            Some(e) => shortcode_end(chars@, start + 1) == Some(e as int),
            None => shortcode_end(chars@, start + 1) is None,
        },
{
    let mut idx = start + 1;
    while idx < chars.len()
        invariant
            start + 1 <= idx <= chars@.len(),
            shortcode_end(chars@, idx as int) == shortcode_end(chars@, start + 1),
        decreases chars@.len() - idx,
    {
        if chars[idx] == ':' {
            return Some(idx);
        }
        if !is_alphanumeric(chars[idx]) && chars[idx] != '_' && chars[idx] != '-' && chars[idx] != '+' {
            return None;
        }
        idx += 1;
    }
    None
}

/// The markup for an emoji found under shortcode `name`.
pub open spec fn emoji_span(name: Seq<char>, emoji: Seq<char>) -> Seq<char> {
    "<span class=\"emoji\" data-emoji=\""@ + name + "\">"@ + emoji + "</span>"@
}

/// A line from position `i` on, with known shortcodes outside inline code
/// (between backticks) turned into emoji; `code` tells whether `i` is in
/// inline code.
pub open spec fn emojified_from(cs: Seq<char>, i: int, code: bool) -> Seq<char>
    decreases cs.len() - i, 1int,
{
    if i < 0 || i >= cs.len() {
        Seq::empty()
    } else if cs[i] == '`' {
        seq!['`'] + emojified_from(cs, i + 1, !code)
    } else if code || cs[i] != ':' {
        seq![cs[i]] + emojified_from(cs, i + 1, code)
    } else {
        match shortcode_end(cs, i + 1) {
            Some(e) => if i < e < cs.len() {
                match gh_emoji_of(cs.subrange(i + 1, e)) {
                    Some(em) => emoji_span(cs.subrange(i + 1, e), em) + emojified_from(cs, e + 1, code),
                    None => seq![':'] + emojified_from(cs, i + 1, code),
                }
            } else {
                seq![':'] + emojified_from(cs, i + 1, code)
            },
            None => seq![':'] + emojified_from(cs, i + 1, code),
        }
    }
}

proof fn lemma_shortcode_end_after(cs: Seq<char>, j: int)
    requires
        j >= 0,
    ensures
        shortcode_end(cs, j) matches Some(e) ==> j <= e < cs.len(),
    decreases cs.len() - j,
{
    if j < cs.len() && cs[j] != ':' && shortcode_char(cs[j]) {
        lemma_shortcode_end_after(cs, j + 1);
    }
}

/// Turns the known shortcodes of a line into emoji, leaving inline code alone.
fn replace_emoji_in_line(line: &Vec<char>, result: &mut Vec<char>)
    ensures
        final(result)@ == old(result)@ + emojified_from(line@, 0, false),
{
    let len = line.len();
    let mut idx: usize = 0;
    let mut in_inline_code = false;
    let ghost start = result@;
    while idx < len
        invariant
            idx <= len == line@.len(),
            start + emojified_from(line@, 0, false) == result@ + emojified_from(line@, idx as int, in_inline_code),
        decreases len - idx,
    {
        let c = line[idx];
        let ghost before = result@;
        let ghost code0 = in_inline_code;
        if c == '`' {
            in_inline_code = !in_inline_code;
            result.push('`');
            idx += 1;
            assert(before + emojified_from(line@, idx - 1, code0) =~= result@ + emojified_from(
                line@,
                idx as int,
                in_inline_code,
            ));
            continue;
        }
        if in_inline_code || c != ':' {
            result.push(c);
            idx += 1;
            assert(before + emojified_from(line@, idx - 1, code0) =~= result@ + emojified_from(
                line@,
                idx as int,
                in_inline_code,
            ));
            continue;
        }
        proof {
            lemma_shortcode_end_after(line@, idx + 1);
        }
        if let Some(end) = find_shortcode_end(line, idx) {
            let name = slice_copy(line, idx + 1, end);
            let name_s = string_of(&name);
            if let Some(emoji) = emoji_for(name_s.as_str()) {
                push_str(result, "<span class=\"emoji\" data-emoji=\"");
                push_all(result, &name);
                push_str(result, "\">");
                push_str(result, emoji.as_str());
                push_str(result, "</span>");
                assert(result@ =~= before + emoji_span(name@, emoji@));
                assert(name@ == line@.subrange(idx + 1, end as int));
                assert(emojified_from(line@, idx as int, code0) == emoji_span(name@, emoji@) + emojified_from(
                    line@,
                    end + 1,
                    code0,
                ));
                assert(before + emojified_from(line@, idx as int, code0) =~= result@ + emojified_from(
                    line@,
                    end + 1,
                    code0,
                ));
                idx = end + 1;
                continue;
            }
        }
        result.push(':');
        idx += 1;
        assert(before + emojified_from(line@, idx - 1, code0) =~= result@ + emojified_from(
            line@,
            idx as int,
            in_inline_code,
        ));
    }
}

/// Whether a line opens or closes a fenced code block.
pub open spec fn fence_line(l: Seq<char>) -> bool {
    crate::text::starts_with(l, "```"@)
}

/// Lines from `k` on, each followed by a newline, with shortcodes replaced
/// outside fenced code blocks (fence lines themselves kept as they are).
/// A known shortcode outside inline code becomes a span that holds its
/// emoji: at a `:` that opens `:name:` (name characters only), where GitHub
/// has emoji `e` for `name`, the line continues with
/// `<span class="emoji" data-emoji="name">` then `e` then `</span>`, and
/// goes on after the closing `:`.
pub proof fn law_known_shortcode_shows_its_emoji(cs: Seq<char>, i: int, e: int, name: Seq<char>, em: Seq<char>)
    requires
        0 <= i < e < cs.len(),
        cs[i] == ':',
        cs[e] == ':',
        name == cs.subrange(i + 1, e),
        forall|k: int| i < k < e ==> shortcode_char(#[trigger] cs[k]) && cs[k] != ':',
        gh_emoji_of(name) == Some(em),
    ensures
        emojified_from(cs, i, false) == "<span class=\"emoji\" data-emoji=\""@ + name + "\">"@ + em + "</span>"@
            + emojified_from(cs, e + 1, false),
{
    lemma_shortcode_end_at(cs, i + 1, e);
}

proof fn lemma_shortcode_end_at(cs: Seq<char>, j: int, e: int)
    requires
        0 <= j <= e < cs.len(),
        cs[e] == ':',
        forall|k: int| j <= k < e ==> shortcode_char(#[trigger] cs[k]) && cs[k] != ':',
    ensures
        shortcode_end(cs, j) == Some(e),
    decreases e - j,
{
    if j < e {
        lemma_shortcode_end_at(cs, j + 1, e);
    }
}

pub open spec fn fenced_from(ls: Seq<Seq<char>>, k: int, fence: bool) -> Seq<char>
    decreases ls.len() - k,
{
    if k < 0 || k >= ls.len() {
        Seq::empty()
    } else {
        let l = ls[k];
        let f2 = if fence_line(l) {
            !fence
        } else {
            fence
        };
        (if f2 || fence_line(l) {
            l
        } else {
            emojified_from(l, 0, false)
        }) + seq!['\n'] + fenced_from(ls, k + 1, f2)
    }
}

/// A markdown text with emoji shortcodes replaced outside code: line by
/// line (as `str::lines` cuts it), without a final newline the text did not
/// end with.
pub open spec fn emoji_replaced(text: Seq<char>) -> Seq<char> {
    let r = fenced_from(crate::text::std_lines(text), 0, false);
    if !(text.len() > 0 && text.last() == '\n') && r.len() > 0 && r.last() == '\n' {
        r.drop_last()
    } else {
        r
    }
}

/// Replaces `:shortcode:` emoji with spans, outside fenced and inline code.
pub fn replace_emoji_shortcodes(text: &str) -> (r: String)
    ensures
        r@ == emoji_replaced(text@),
{
    let cs = chars_of(text);
    let lines = crate::text::lines_of(&cs);
    let ghost ls = crate::text::std_lines(cs@);
    assert(vecs_view(lines@) =~= ls);
    let fence_mark = chars_of("```");
    let mut result: Vec<char> = Vec::new();
    let mut in_code_fence = false;
    let mut k: usize = 0;
    while k < lines.len()
        invariant
            k <= lines@.len(),
            vecs_view(lines@) == ls,
            fence_mark@ == "```"@,
            fenced_from(ls, 0, false) == result@ + fenced_from(ls, k as int, in_code_fence),
        decreases lines@.len() - k,
    {
        let line = &lines[k];
        assert(line@ == ls[k as int]);
        let ghost before = result@;
        let ghost f0 = in_code_fence;
        let opens = crate::text::has_prefix(line, &fence_mark);
        if opens {
            in_code_fence = !in_code_fence;
        }
        if in_code_fence || opens {
            push_all(&mut result, line);
        } else {
            replace_emoji_in_line(line, &mut result);
        }
        result.push('\n');
        assert(before + fenced_from(ls, k as int, f0) =~= result@ + fenced_from(ls, k + 1, in_code_fence));
        k += 1;
    }
    assert(result@ == fenced_from(ls, 0, false));
    let n = cs.len();
    let ends_nl = n > 0 && cs[n - 1] == '\n';
    let rn = result.len();
    if !ends_nl && rn > 0 && result[rn - 1] == '\n' {
        result.pop();
    }
    string_of(&result)
}

/// The anchor of a heading: its explicit id when it has a non-empty one,
/// else the slug of its text.
pub open spec fn heading_id(explicit: Option<Seq<char>>, inner_text: Seq<char>) -> Seq<char> {
    match explicit {
        Some(e) => if e.len() > 0 {
            e
        } else {
            heading_slug(inner_text)
        },
        None => heading_slug(inner_text),
    }
}

/// The opening tag of a heading of `level` with its anchor.
pub open spec fn heading_open_text(level: u8, explicit: Option<Seq<char>>, inner_text: Seq<char>) -> Seq<char> {
    "<h"@ + decimal(level as nat) + " id=\""@ + html_escaped(heading_id(explicit, inner_text)) + "\">"@
}

/// The opening tag of a heading with its anchor.
pub fn heading_open(level: u8, explicit_id: Option<&str>, inner_text: &str) -> (r: String)
    ensures
        r@ == heading_open_text(level, crate::engine::highlight::opt_chars(explicit_id), inner_text@),
{
    let id = match explicit_id {
        Some(e) => {
            let ec = chars_of(e);
            if ec.len() > 0 {
                String::from_str(e)
            } else {
                slugify(inner_text)
            }
        },
        None => slugify(inner_text),
    };
    let mut out = chars_of("<h");
    let n = decimal_of(level as usize);
    push_all(&mut out, &n);
    push_str(&mut out, " id=\"");
    let esc = escape_attr(id.as_str());
    push_str(&mut out, esc.as_str());
    push_str(&mut out, "\">");
    string_of(&out)
}

/// The closing tag of a heading of `level`.
pub open spec fn heading_close_text(level: u8) -> Seq<char> {
    "</h"@ + decimal(level as nat) + ">"@
}

/// The closing tag of a heading.
pub fn heading_close(level: u8) -> (r: String)
    ensures
        r@ == heading_close_text(level),
{
    let mut out = chars_of("</h");
    let n = decimal_of(level as usize);
    push_all(&mut out, &n);
    push_str(&mut out, ">");
    string_of(&out)
}

/// The class of a code block: `sourceCode`, with the language when there is one.
pub open spec fn code_class(lang: Seq<char>) -> Seq<char> {
    if lang.len() == 0 {
        "sourceCode"@
    } else {
        "sourceCode language-"@ + html_escaped(lang)
    }
}

/// A code block as HTML: the highlighted code in `pre` and `code`.
pub open spec fn code_block_text(code: Seq<char>, lang: Seq<char>) -> Seq<char> {
    "<pre><code class=\""@ + code_class(lang) + "\">"@ + crate::engine::highlight::highlighted(code, lang) + "</code></pre>"@
}

/// A fenced code block as HTML: highlighted code in `pre` and `code`.
pub fn code_block_html(code: &str, lang: &str) -> (r: String)
    ensures
        r@ == code_block_text(code@, lang@),
{
    let highlighted = crate::engine::highlight::highlight(code, lang);
    let lc = chars_of(lang);
    let mut out = chars_of("<pre><code class=\"");
    if lc.len() == 0 {
        push_str(&mut out, "sourceCode");
    } else {
        push_str(&mut out, "sourceCode language-");
        let esc = escape_attr(lang);
        push_str(&mut out, esc.as_str());
    }
    push_str(&mut out, "\">");
    push_str(&mut out, highlighted.as_str());
    push_str(&mut out, "</code></pre>");
    string_of(&out)
}

// ---- markdown to HTML for pages ----

/// A markdown event as the page writer reads it: heading and code block
/// bounds, text, and the rest.
pub enum PageEvent {
    HeadingStart(u8, Option<String>),
    HeadingEnd(u8),
    CodeStart(String),
    CodeEnd,
    Text(String),
    Code(String),
    Other,
}

/// The plain value of a page event.
pub ghost enum PageEventV {
    HeadingStart(u8, Option<Seq<char>>),
    HeadingEnd(u8),
    CodeStart(Seq<char>),
    CodeEnd,
    Text(Seq<char>),
    Code(Seq<char>),
    Other,
}

pub open spec fn page_event_view(e: PageEvent) -> PageEventV {
    match e {
        PageEvent::HeadingStart(l, id) => PageEventV::HeadingStart(l, match id {
            Some(i) => Some(i@),
            None => None,
        }),
        PageEvent::HeadingEnd(l) => PageEventV::HeadingEnd(l),
        PageEvent::CodeStart(lang) => PageEventV::CodeStart(lang@),
        PageEvent::CodeEnd => PageEventV::CodeEnd,
        PageEvent::Text(t) => PageEventV::Text(t@),
        PageEvent::Code(t) => PageEventV::Code(t@),
        PageEvent::Other => PageEventV::Other,
    }
}

pub open spec fn page_events_view(v: Seq<PageEvent>) -> Seq<PageEventV> {
    v.map_values(|e: PageEvent| page_event_view(e))
}

/// One event handed to the HTML writer: an event of the parse, by its
/// index, or a piece of HTML.
pub enum Piece {
    Keep(usize),
    Html(String),
}

/// The plain value of a piece.
pub ghost enum PieceV {
    Keep(usize),
    Html(Seq<char>),
}

pub open spec fn pieces_view(v: Seq<Piece>) -> Seq<PieceV> {
    v.map_values(
        |p: Piece|
            match p {
                Piece::Keep(i) => PieceV::Keep(i),
                Piece::Html(h) => PieceV::Html(h@),
            },
    )
}

/// Whether a piece keeps only events below `n`.
pub open spec fn keeps_below(p: Piece, n: nat) -> bool {
    match p {
        Piece::Keep(i) => i < n,
        Piece::Html(_) => true,
    }
}

/// The page events of `text` as pulldown-cmark parses it for pages (with
/// strikethrough, tables, footnotes and heading attributes), one per parse
/// event.
pub uninterp spec fn cmark_events(text: Seq<char>) -> Seq<PageEventV>;

/// The HTML that pulldown-cmark writes for the pieces over the parse of `text`.
pub uninterp spec fn cmark_html(text: Seq<char>, pieces: Seq<PieceV>) -> Seq<char>;

/// Calls `pulldown_cmark::Parser::new_ext` with strikethrough, tables,
/// footnotes and heading attributes enabled, and tells apart the events the
/// page writer reads: heading and code block starts and ends (with the
/// heading's level and id and the code block's language), text and inline
/// code. The result is named, not spelled out.
#[verifier::external_body]
fn parse_page_events(text: &str) -> (r: Vec<PageEvent>)
    ensures
        page_events_view(r@) == cmark_events(text@),
{
    let opts = Options::ENABLE_STRIKETHROUGH | Options::ENABLE_TABLES | Options::ENABLE_FOOTNOTES | Options::ENABLE_HEADING_ATTRIBUTES;
    Parser::new_ext(text, opts).map(|e| match e {
        Start(Tag::Heading { level, id, .. }) => PageEvent::HeadingStart(level as u8, id.map(String::from)),
        End(TagEnd::Heading(l)) => PageEvent::HeadingEnd(l as u8),
        Start(Tag::CodeBlock(CodeBlockKind::Fenced(l))) => PageEvent::CodeStart(l.into()),
        Start(Tag::CodeBlock(_)) => PageEvent::CodeStart(String::new()),
        End(TagEnd::CodeBlock) => PageEvent::CodeEnd,
        Text(t) => PageEvent::Text(t.into()),
        Code(t) => PageEvent::Code(t.into()),
        _ => PageEvent::Other,
    }).collect()
}

/// Parses `text` again as `parse_page_events` does, hands
/// `pulldown_cmark::html::push_html` the pieces (each kept index as that
/// parse event, each HTML piece as an `Event::Html`) and gives what it
/// wrote. The result is named, not spelled out; the indices must lie within
/// the parse, whose events `cmark_events` counts one for one.
#[verifier::external_body]
fn write_page_html(text: &str, pieces: &Vec<Piece>) -> (r: String)
    requires
        forall|k: int| 0 <= k < pieces@.len() ==> keeps_below(#[trigger] pieces@[k], cmark_events(text@).len()),
    ensures
        r@ == cmark_html(text@, pieces_view(pieces@)),
{
    let opts = Options::ENABLE_STRIKETHROUGH | Options::ENABLE_TABLES | Options::ENABLE_FOOTNOTES | Options::ENABLE_HEADING_ATTRIBUTES;
    let events: Vec<Event> = Parser::new_ext(text, opts).collect();
    let out = pieces.iter().map(|p| match p {
        Piece::Keep(i) => events[*i].clone(),
        Piece::Html(h) => Event::Html(CowStr::from(h.clone())),
    });
    let mut html = String::new();
    pulldown_cmark::html::push_html(&mut html, out);
    html
}

/// Where a heading of `level` whose content starts at `j` ends: the first
/// end of a heading of that level, or the end of the events.
pub open spec fn heading_end_from(ev: Seq<PageEventV>, j: int, level: u8) -> int
    decreases ev.len() - j,
{
    if j >= ev.len() {
        ev.len() as int
    } else if ev[j] == PageEventV::HeadingEnd(level) {
        j
    } else {
        heading_end_from(ev, j + 1, level)
    }
}

/// Where a code block whose content starts at `j` ends.
pub open spec fn code_end_from(ev: Seq<PageEventV>, j: int) -> int
    decreases ev.len() - j,
{
    if j >= ev.len() {
        ev.len() as int
    } else if ev[j] == PageEventV::CodeEnd {
        j
    } else {
        code_end_from(ev, j + 1)
    }
}

pub proof fn lemma_heading_end_bounds(ev: Seq<PageEventV>, j: int, level: u8)
    requires
        0 <= j,
    ensures
        j <= heading_end_from(ev, j, level) || (j > ev.len() && heading_end_from(ev, j, level) == ev.len()),
        heading_end_from(ev, j, level) <= ev.len(),
    decreases ev.len() - j,
{
    if j < ev.len() && ev[j] != PageEventV::HeadingEnd(level) {
        lemma_heading_end_bounds(ev, j + 1, level);
    }
}

pub proof fn lemma_code_end_bounds(ev: Seq<PageEventV>, j: int)
    requires
        0 <= j,
    ensures
        j <= code_end_from(ev, j) || (j > ev.len() && code_end_from(ev, j) == ev.len()),
        code_end_from(ev, j) <= ev.len(),
    decreases ev.len() - j,
{
    if j < ev.len() && ev[j] != PageEventV::CodeEnd {
        lemma_code_end_bounds(ev, j + 1);
    }
}

/// The text of the events (text and inline code), as a heading's anchor is made from.
pub open spec fn events_text(ev: Seq<PageEventV>) -> Seq<char>
    decreases ev.len(),
{
    if ev.len() == 0 {
        Seq::empty()
    } else {
        events_text(ev.drop_last()) + match ev.last() {
            PageEventV::Text(t) => t,
            PageEventV::Code(t) => t,
            _ => Seq::empty(),
        }
    }
}

/// The text of the events of a code block (its text events).
pub open spec fn code_text(ev: Seq<PageEventV>) -> Seq<char>
    decreases ev.len(),
{
    if ev.len() == 0 {
        Seq::empty()
    } else {
        code_text(ev.drop_last()) + match ev.last() {
            PageEventV::Text(t) => t,
            _ => Seq::empty(),
        }
    }
}

/// The parse events `from..to`, kept as they are.
pub open spec fn keeps(from: int, to: int) -> Seq<PieceV> {
    Seq::new((to - from) as nat, |k: int| PieceV::Keep((from + k) as usize))
}

/// What the page writer is handed for the events from `i` on: a heading
/// becomes its opening tag with an anchor, its content and its closing
/// tag; a code block becomes its highlighted HTML; other events are kept.
pub open spec fn plan_from(ev: Seq<PageEventV>, i: int) -> Seq<PieceV>
    decreases ev.len() + 1 - i,
{
    if i < 0 || i >= ev.len() {
        Seq::empty()
    } else {
        match ev[i] {
            PageEventV::HeadingStart(level, id) => {
                proof {
                    lemma_heading_end_bounds(ev, i + 1, level);
                }
                let close = heading_end_from(ev, i + 1, level);
                seq![PieceV::Html(heading_open_text(level, id, events_text(ev.subrange(i + 1, close))))]
                    + keeps(i + 1, close) + seq![PieceV::Html(heading_close_text(level))] + plan_from(ev, close + 1)
            },
            PageEventV::CodeStart(lang) => {
                proof {
                    lemma_code_end_bounds(ev, i + 1);
                }
                let close = code_end_from(ev, i + 1);
                seq![PieceV::Html(code_block_text(code_text(ev.subrange(i + 1, close)), lang))] + plan_from(ev, close + 1)
            },
            _ => seq![PieceV::Keep(i as usize)] + plan_from(ev, i + 1),
        }
    }
}

fn heading_end(events: &Vec<PageEvent>, from: usize, level: u8) -> (r: usize)
    requires
        from <= events@.len(),
    ensures
        r == heading_end_from(page_events_view(events@), from as int, level),
        from <= r <= events@.len(),
{
    let ghost ev = page_events_view(events@);
    let mut j = from;
    while j < events.len()
        invariant
            from <= j <= events@.len(),
            ev == page_events_view(events@),
            heading_end_from(ev, j as int, level) == heading_end_from(ev, from as int, level),
        decreases events@.len() - j,
    {
        let found = match &events[j] {
            PageEvent::HeadingEnd(l) => *l == level,
            _ => false,
        };
        if found {
            return j;
        }
        j += 1;
    }
    j
}

fn code_end(events: &Vec<PageEvent>, from: usize) -> (r: usize)
    requires
        from <= events@.len(),
    ensures
        r == code_end_from(page_events_view(events@), from as int),
        from <= r <= events@.len(),
{
    let ghost ev = page_events_view(events@);
    let mut j = from;
    while j < events.len()
        invariant
            from <= j <= events@.len(),
            ev == page_events_view(events@),
            code_end_from(ev, j as int) == code_end_from(ev, from as int),
        decreases events@.len() - j,
    {
        let found = match &events[j] {
            PageEvent::CodeEnd => true,
            _ => false,
        };
        if found {
            return j;
        }
        j += 1;
    }
    j
}

/// The text of events `from..to`: with inline code when `with_code`.
fn text_between(events: &Vec<PageEvent>, from: usize, to: usize, with_code: bool) -> (r: String)
    requires
        from <= to <= events@.len(),
    ensures
        with_code ==> r@ == events_text(page_events_view(events@).subrange(from as int, to as int)),
        !with_code ==> r@ == code_text(page_events_view(events@).subrange(from as int, to as int)),
{
    let ghost ev = page_events_view(events@);
    let mut out: Vec<char> = Vec::new();
    let mut j = from;
    while j < to
        invariant
            from <= j <= to <= events@.len(),
            ev == page_events_view(events@),
            with_code ==> out@ == events_text(ev.subrange(from as int, j as int)),
            !with_code ==> out@ == code_text(ev.subrange(from as int, j as int)),
        decreases to - j,
    {
        assert(ev.subrange(from as int, j + 1).drop_last() =~= ev.subrange(from as int, j as int));
        assert(ev.subrange(from as int, j + 1).last() == page_event_view(events@[j as int]));
        match &events[j] {
            PageEvent::Text(t) => push_str(&mut out, t.as_str()),
            PageEvent::Code(t) => {
                if with_code {
                    push_str(&mut out, t.as_str());
                }
            },
            _ => {},
        }
        j += 1;
    }
    string_of(&out)
}

/// What the page writer is handed for `events`: headings with anchors,
/// highlighted code blocks, every other event kept (by index, all below
/// the number of events).
pub fn plan_events(events: &Vec<PageEvent>) -> (r: Vec<Piece>)
    ensures
        pieces_view(r@) == plan_from(page_events_view(events@), 0),
        forall|k: int| 0 <= k < r@.len() ==> keeps_below(#[trigger] r@[k], events@.len()),
{
    let ghost ev = page_events_view(events@);
    let n = events.len();
    let mut out: Vec<Piece> = Vec::new();
    let mut idx: usize = 0;
    while idx < n
        invariant
            n == events@.len(),
            idx <= n,
            ev == page_events_view(events@),
            pieces_view(out@) + plan_from(ev, idx as int) == plan_from(ev, 0),
            forall|k: int| 0 <= k < out@.len() ==> keeps_below(#[trigger] out@[k], n as nat),
        decreases n - idx,
    {
        let ghost before = out@;
        let ghost i0 = idx as int;
        assert(ev[idx as int] == page_event_view(events@[idx as int]));
        match &events[idx] {
            PageEvent::HeadingStart(level, id) => {
                let level = *level;
                let close = heading_end(events, idx + 1, level);
                let inner = text_between(events, idx + 1, close, true);
                let open = match id {
                    Some(i) => heading_open(level, Some(i.as_str()), inner.as_str()),
                    None => heading_open(level, None, inner.as_str()),
                };
                let ghost idv = match ev[i0] {
                    PageEventV::HeadingStart(_, x) => x,
                    _ => None,
                };
                assert(open@ == heading_open_text(level, idv, events_text(ev.subrange(i0 + 1, close as int))));
                out.push(Piece::Html(open));
                let mut j = idx + 1;
                while j < close
                    invariant
                        idx + 1 <= j <= close <= n,
                        n == events@.len(),
                        out@.len() == before.len() + 1 + (j - idx - 1),
                        pieces_view(out@) == pieces_view(before) + seq![PieceV::Html(open@)] + keeps(idx + 1, j as int),
                        forall|k: int| 0 <= k < out@.len() ==> keeps_below(#[trigger] out@[k], n as nat),
                    decreases close - j,
                {
                    let ghost prev = out@;
                    out.push(Piece::Keep(j));
                    assert(pieces_view(out@) =~= pieces_view(prev).push(PieceV::Keep(j)));
                    assert(keeps(idx + 1, j + 1) =~= keeps(idx + 1, j as int).push(PieceV::Keep(j)));
                    j += 1;
                }
                let ghost mid = out@;
                out.push(Piece::Html(heading_close(level)));
                assert(pieces_view(out@) =~= pieces_view(mid).push(PieceV::Html(heading_close_text(level))));
                idx = if close < n { close + 1 } else { n };
                assert(ev[i0] == PageEventV::HeadingStart(level, idv));
                assert(heading_end_from(ev, i0 + 1, level) == close);
                assert(plan_from(ev, close + 1) == plan_from(ev, idx as int));
                assert(plan_from(ev, i0) == seq![PieceV::Html(open@)] + keeps(i0 + 1, close as int) + seq![
                    PieceV::Html(heading_close_text(level)),
                ] + plan_from(ev, idx as int));
            },
            PageEvent::CodeStart(lang) => {
                let close = code_end(events, idx + 1);
                let code = text_between(events, idx + 1, close, false);
                out.push(Piece::Html(code_block_html(code.as_str(), lang.as_str())));
                assert(pieces_view(out@) =~= pieces_view(before).push(PieceV::Html(code_block_text(code@, lang@))));
                idx = if close < n { close + 1 } else { n };
                assert(ev[i0] == PageEventV::CodeStart(lang@));
                assert(code_end_from(ev, i0 + 1) == close);
                assert(plan_from(ev, close + 1) == plan_from(ev, idx as int));
                assert(plan_from(ev, i0) == seq![PieceV::Html(code_block_text(code@, lang@))] + plan_from(ev, idx as int));
            },
            _ => {
                out.push(Piece::Keep(idx));
                assert(pieces_view(out@) =~= pieces_view(before).push(PieceV::Keep(idx)));
                idx += 1;
            },
        }
        assert(pieces_view(out@) + plan_from(ev, idx as int) =~= pieces_view(before) + plan_from(ev, i0));
    }
    out
}

/// Markdown to HTML for pages: emoji shortcodes replaced, each heading
/// given an anchor (its explicit id, else a Pandoc-style slug of its text),
/// fenced code highlighted; the rest as pulldown-cmark writes it.
pub fn markdown_to_html(markdown: &str) -> (r: String)
    ensures
        r@ == cmark_html(emoji_replaced(markdown@), plan_from(cmark_events(emoji_replaced(markdown@)), 0)),
{
    let pre = replace_emoji_shortcodes(markdown);
    let events = parse_page_events(pre.as_str());
    let plan = plan_events(&events);
    assert(page_events_view(events@).len() == events@.len());
    write_page_html(pre.as_str(), &plan)
}

} // verus!
