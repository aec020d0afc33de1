use vstd::prelude::*;
use pulldown_cmark::{Event as Ev, Options, Parser, TagEnd as Te};
use crate::trusted::{is_whitespace, str_uppercase, to_uppercase_str};
use crate::engine::markdown::{fitting, utf8_len, utf8_width_exec};
use crate::text::{
    chars_of, find_chars, find_from, has_prefix, lemma_find_from_props, lines_of, push_all, push_str,
    opt_view, slice_copy, split_chars, split_on, starts_with, std_lines, string_of, trim, trim_start_ws, trim_ws,
    vecs_view,
};

verus! {

/// The body of a markdown document: what follows a leading `---` block that
/// is closed by a `---` line; the whole text when there is no such block.
pub open spec fn body_of(content: Seq<char>) -> Seq<char> {
    if !starts_with(content, "---\n"@) {
        content
    } else {
        let rest = content.skip(4);
        let end = find_from(rest, "\n---\n"@, 0);
        if end < 0 {
            content
        } else {
            rest.skip(end + 5)
        }
    }
}

/// Strip a leading YAML frontmatter block (`---\n ... \n---\n`).
pub fn strip_frontmatter(content: &str) -> (r: String)
    ensures
        r@ == body_of(content@),
{
    let s = chars_of(content);
    let open = chars_of("---\n");
    proof {
        reveal_strlit("---\n");
        reveal_strlit("\n---\n");
    }
    if !has_prefix(&s, &open) {
        return string_of(&s);
    }
    let rest = slice_copy(&s, 4, s.len());
    assert(rest@ =~= s@.skip(4));
    let close = chars_of("\n---\n");
    match find_chars(&rest, &close, 0) {
        None => string_of(&s),
        Some(end) => {
            proof {
                lemma_find_from_props(rest@, close@, 0);
            }
            let body = slice_copy(&rest, end + 5, rest.len());
            assert(body@ =~= rest@.skip(end + 5));
            string_of(&body)
        },
    }
}

/// `s` without leading and trailing `c` characters (as `str::trim_matches`
/// with a character does).
pub open spec fn trim_char(s: Seq<char>, c: char) -> Seq<char>
    decreases s.len(),
{
    if s.len() > 0 && s[0] == c {
        trim_char(s.drop_first(), c)
    } else if s.len() > 0 && s.last() == c {
        trim_char(s.drop_last(), c)
    } else {
        s
    }
}

/// The value a frontmatter line gives to the field whose prefix is `prefix`
/// (`name:`): the rest of the line, trimmed and stripped of double quotes,
/// when that is not empty.
pub open spec fn field_value(line: Seq<char>, prefix: Seq<char>) -> Option<Seq<char>> {
    let t = trim_start_ws(line);
    if starts_with(t, prefix) {
        let v = trim_char(trim_ws(t.skip(prefix.len() as int)), '"');
        if v.len() == 0 {
            None
        } else {
            Some(v)
        }
    } else {
        None
    }
}

/// The first value that one of `lines` gives to the field `prefix`.
pub open spec fn first_field_value(lines: Seq<Seq<char>>, prefix: Seq<char>) -> Option<Seq<char>>
    decreases lines.len(),
{
    if lines.len() == 0 {
        None
    } else {
        match field_value(lines[0], prefix) {
            Some(v) => Some(v),
            None => first_field_value(lines.drop_first(), prefix),
        }
    }
}

/// The text between the opening `---` line and the closing `\n---\n`, when
/// the content starts with a closed frontmatter block.
pub open spec fn fm_block(content: Seq<char>) -> Option<Seq<char>> {
    if !starts_with(content, "---\n"@) {
        None
    } else {
        let rest = content.skip(4);
        let end = find_from(rest, "\n---\n"@, 0);
        if end < 0 {
            None
        } else {
            Some(rest.take(end))
        }
    }
}

/// The value of frontmatter field `field` in `content`.
pub open spec fn fm_field(content: Seq<char>, field: Seq<char>) -> Option<Seq<char>> {
    match fm_block(content) {
        None => None,
        Some(block) => first_field_value(std_lines(block), field + seq![':']),
    }
}

/// Read a frontmatter field's value (trimmed, unquoted, non-empty).
pub fn frontmatter_field(content: &str, field: &str) -> (r: Option<String>)
    ensures
        match r {
            Some(v) => fm_field(content@, field@) == Some(v@),
            None => fm_field(content@, field@) is None,
        },
{
    let s = chars_of(content);
    let block = match frontmatter_block(&s) {
        Some(b) => b,
        None => return None,
    };
    let lines = lines_of(&block);
    let mut prefix = chars_of(field);
    prefix.push(':');
    let ghost all = std_lines(block@);
    assert(vecs_view(lines@) =~= all);
    assert(all.skip(0) =~= all);
    let mut i: usize = 0;
    while i < lines.len()
        invariant
            i <= lines@.len(),
            vecs_view(lines@) == all,
            all == std_lines(block@),
            fm_block(content@) == Some(block@),
            prefix@ == field@ + seq![':'],
            first_field_value(all.skip(i as int), prefix@) == first_field_value(all, prefix@),
        decreases lines@.len() - i,
    {
        assert(all.skip(i as int)[0] == lines@[i as int]@);
        assert(all.skip(i as int).drop_first() =~= all.skip(i + 1));
        let fv = line_field_value(&lines[i], &prefix);
        if let Some(v) = fv {
            assert(first_field_value(all.skip(i as int), prefix@) == Some(v@));
            return Some(string_of(&v));
        }
        i += 1;
    }
    assert(all.skip(i as int) =~= Seq::<Seq<char>>::empty());
    None
}

/// The frontmatter block of `s`, as `fm_block` describes it.
fn frontmatter_block(s: &Vec<char>) -> (r: Option<Vec<char>>)
    ensures
        match r {
            Some(b) => fm_block(s@) == Some(b@),
            None => fm_block(s@) is None,
        },
{
    let open = chars_of("---\n");
    proof {
        reveal_strlit("---\n");
        reveal_strlit("\n---\n");
    }
    if !has_prefix(s, &open) {
        return None;
    }
    let rest = slice_copy(s, 4, s.len());
    assert(rest@ =~= s@.skip(4));
    let close = chars_of("\n---\n");
    match find_chars(&rest, &close, 0) {
        None => None,
        Some(end) => {
            proof {
                lemma_find_from_props(rest@, close@, 0);
            }
            let b = slice_copy(&rest, 0, end);
            assert(b@ =~= rest@.take(end as int));
            Some(b)
        },
    }
}

/// `s` without leading Unicode whitespace.
fn trim_start_chars(s: &[char]) -> (r: Vec<char>)
    ensures
        r@ == trim_start_ws(s@),
{
    let mut a: usize = 0;
    assert(s@.skip(0) =~= s@);
    while a < s.len() && is_whitespace(s[a])
        invariant
            a <= s@.len(),
            trim_start_ws(s@.skip(a as int)) == trim_start_ws(s@),
        decreases s@.len() - a,
    {
        assert(s@.skip(a as int).drop_first() =~= s@.skip(a + 1));
        a += 1;
    }
    let r = slice_copy(s, a, s.len());
    assert(r@ =~= s@.skip(a as int));
    r
}

/// `s` without leading and trailing `c`.
fn trim_char_exec(s: &[char], c: char) -> (r: Vec<char>)
    ensures
        r@ == trim_char(s@, c),
{
    let mut a: usize = 0;
    let mut b: usize = s.len();
    assert(s@.subrange(0, s@.len() as int) =~= s@);
    while a < b && s[a] == c
        invariant
            a <= b == s@.len(),
            trim_char(s@.subrange(a as int, b as int), c) == trim_char(s@, c),
        decreases b - a,
    {
        assert(s@.subrange(a as int, b as int).drop_first() =~= s@.subrange(a + 1, b as int));
        a += 1;
    }
    while a < b && s[b - 1] == c
        invariant
            a <= b <= s@.len(),
            a < b ==> s@[a as int] != c,
            trim_char(s@.subrange(a as int, b as int), c) == trim_char(s@, c),
        decreases b - a,
    {
        assert(s@.subrange(a as int, b as int).drop_last() =~= s@.subrange(a as int, b - 1));
        b -= 1;
    }
    slice_copy(s, a, b)
}

/// What `field_value` gives for one line.
fn line_field_value(line: &Vec<char>, prefix: &Vec<char>) -> (r: Option<Vec<char>>)
    ensures
        match r {
            Some(v) => field_value(line@, prefix@) == Some(v@),
            None => field_value(line@, prefix@) is None,
        },
{
    let t = trim_start_chars(line);
    if !has_prefix(&t, prefix) {
        return None;
    }
    let after = slice_copy(&t, prefix.len(), t.len());
    assert(after@ =~= t@.skip(prefix@.len() as int));
    let trimmed = trim(&after);
    let v = trim_char_exec(&trimmed, '"');
    if v.len() == 0 {
        None
    } else {
        Some(v)
    }
}

/// Each of `lines` followed by a newline.
pub open spec fn unlines(lines: Seq<Seq<char>>) -> Seq<char>
    decreases lines.len(),
{
    if lines.len() == 0 {
        Seq::empty()
    } else {
        unlines(lines.drop_last()) + lines.last() + seq!['\n']
    }
}

/// Index of the first line that, once its leading whitespace is dropped,
/// starts with `prefix`; -1 when none does.
pub open spec fn first_field_line(lines: Seq<Seq<char>>, prefix: Seq<char>, i: int) -> int
    decreases lines.len() - i,
{
    if i < 0 || i >= lines.len() {
        -1
    } else if starts_with(trim_start_ws(lines[i]), prefix) {
        i
    } else {
        first_field_line(lines, prefix, i + 1)
    }
}

/// `content` with field `field` set to `value` in its frontmatter: the first
/// line for the field is replaced, or a line is added at the end of the block.
/// Without a frontmatter block (opened by `---` and closed by a `\n---`) the
/// content is returned as it is.
pub open spec fn fm_with_field(content: Seq<char>, field: Seq<char>, value: Seq<char>) -> Seq<char> {
    if !starts_with(content, "---\n"@) {
        content
    } else {
        let rest = content.skip(4);
        let end = find_from(rest, "\n---"@, 0);
        if end < 0 {
            content
        } else {
            let lines = std_lines(rest.take(end));
            let entry = field + ": "@ + value;
            let i = first_field_line(lines, field + seq![':'], 0);
            let updated = if i >= 0 { lines.update(i, entry) } else { lines.push(entry) };
            "---\n"@ + unlines(updated) + rest.skip(end + 1)
        }
    }
}

/// Replace or insert a field in the YAML frontmatter block.
/// Returns the content unchanged if no frontmatter block is found.
pub fn set_frontmatter_field(content: &str, field: &str, value: &str) -> (r: String)
    ensures
        r@ == fm_with_field(content@, field@, value@),
{
    let s = chars_of(content);
    let open = chars_of("---\n");
    proof {
        reveal_strlit("---\n");
        reveal_strlit("\n---");
    }
    if !has_prefix(&s, &open) {
        return string_of(&s);
    }
    let rest = slice_copy(&s, 4, s.len());
    assert(rest@ =~= s@.skip(4));
    let close = chars_of("\n---");
    let end = match find_chars(&rest, &close, 0) {
        None => return string_of(&s),
        Some(e) => e,
    };
    proof {
        lemma_find_from_props(rest@, close@, 0);
    }
    let head = slice_copy(&rest, 0, end);
    assert(head@ =~= rest@.take(end as int));
    let mut lines = lines_of(&head);
    let ghost orig = std_lines(head@);
    assert(vecs_view(lines@) =~= orig);
    let mut prefix = chars_of(field);
    prefix.push(':');
    let mut entry = chars_of(field);
    push_str(&mut entry, ": ");
    push_str(&mut entry, value);
    let mut i: usize = 0;
    let mut found = false;
    while i < lines.len() && !found
        invariant
            i <= lines@.len(),
            vecs_view(lines@) == orig,
            prefix@ == field@ + seq![':'],
            first_field_line(orig, prefix@, i as int) == first_field_line(orig, prefix@, 0),
            found ==> i < lines@.len() && starts_with(trim_start_ws(orig[i as int]), prefix@),
        decreases lines@.len() - i, if found { 0int } else { 1int },
    {
        assert(orig[i as int] == lines@[i as int]@);
        let t = trim_start_chars(&lines[i]);
        if has_prefix(&t, &prefix) {
            found = true;
        } else {
            i += 1;
        }
    }
    let ghost target = first_field_line(orig, prefix@, 0);
    if found {
        assert(target == i);
        lines.set(i, entry);
        assert(vecs_view(lines@) =~= orig.update(i as int, field@ + ": "@ + value@));
    } else {
        assert(target == -1);
        lines.push(entry);
        assert(vecs_view(lines@) =~= orig.push(field@ + ": "@ + value@));
    }
    let mut out = chars_of("---\n");
    let mut k: usize = 0;
    while k < lines.len()
        invariant
            k <= lines@.len(),
            out@ == "---\n"@ + unlines(vecs_view(lines@).take(k as int)),
        decreases lines@.len() - k,
    {
        push_all(&mut out, &lines[k]);
        out.push('\n');
        k += 1;
        assert(vecs_view(lines@).take(k as int).drop_last() =~= vecs_view(lines@).take(k - 1));
    }
    assert(vecs_view(lines@).take(k as int) =~= vecs_view(lines@));
    let tail = slice_copy(&rest, end + 1, rest.len());
    assert(tail@ =~= rest@.skip(end + 1));
    push_all(&mut out, &tail);
    string_of(&out)
}

/// A colour of the terminal preview.
#[derive(Debug, Clone, Copy, PartialEq, Eq, Structural)]
pub enum Color {
    Cyan,
    Yellow,
    Green,
    Red,
    DarkGray,
    Magenta,
    Blue,
}

/// How a piece of preview text is drawn.
#[derive(Debug, Clone, Copy, PartialEq, Eq, Structural)]
pub struct Style {
    pub fg: Option<Color>,
    pub bold: bool,
    pub italic: bool,
    pub underlined: bool,
    pub crossed_out: bool,
}

/// A piece of text in one style.
#[derive(Debug, Clone)]
pub struct Span {
    pub content: String,
    pub style: Style,
}

/// A rendered line; a blank line has no spans.
#[derive(Debug, Clone)]
pub struct Line {
    pub spans: Vec<Span>,
}

/// What a span is: its text and its style.
pub type SpanV = (Seq<char>, Style);

pub open spec fn span_view(s: Span) -> SpanV {
    (s.content@, s.style)
}

pub open spec fn spans_view(v: Seq<Span>) -> Seq<SpanV> {
    v.map_values(|s: Span| span_view(s))
}

pub open spec fn line_view(l: Line) -> Seq<SpanV> {
    spans_view(l.spans@)
}

pub open spec fn lines_view(v: Seq<Line>) -> Seq<Seq<SpanV>> {
    v.map_values(|l: Line| line_view(l))
}

/// The text of spans, in order.
pub open spec fn spans_text(v: Seq<SpanV>) -> Seq<char>
    decreases v.len(),
{
    if v.len() == 0 {
        Seq::empty()
    } else {
        spans_text(v.drop_last()) + v.last().0
    }
}

impl Line {
    /// The line's text: its spans' contents in order.
    pub fn text(&self) -> (r: String)
        ensures
            r@ == spans_text(line_view(*self)),
    {
        let ghost v = line_view(*self);
        let mut out: Vec<char> = Vec::new();
        let mut i: usize = 0;
        while i < self.spans.len()
            invariant
                i <= self.spans@.len(),
                v == line_view(*self),
                out@ == spans_text(v.take(i as int)),
            decreases self.spans@.len() - i,
        {
            assert(v.take(i + 1).drop_last() =~= v.take(i as int));
            assert(v.take(i + 1).last() == span_view(self.spans@[i as int]));
            push_str(&mut out, self.spans[i].content.as_str());
            i += 1;
        }
        assert(v.take(self.spans@.len() as int) =~= v);
        string_of(&out)
    }
}

/// The default style.
pub open spec fn plain() -> Style {
    Style { fg: None, bold: false, italic: false, underlined: false, crossed_out: false }
}

/// The default style in a colour.
pub open spec fn colored(c: Color) -> Style {
    Style { fg: Some(c), ..plain() }
}

/// Headings and the title: bold cyan.
pub open spec fn heading_style() -> Style {
    Style { bold: true, ..colored(Color::Cyan) }
}

/// Quoted text and the subtitle: dark gray italic.
pub open spec fn quote_style() -> Style {
    Style { italic: true, ..colored(Color::DarkGray) }
}

/// A markdown element, as the preview tells them apart.
#[derive(Debug, Clone, Copy, PartialEq, Eq, Structural)]
pub enum PvTag {
    Paragraph,
    Heading(u8),
    BlockQuote,
    CodeBlock,
    List,
    Item,
    Emphasis,
    Strong,
    Strikethrough,
    Link,
    Other,
}

/// A markdown event: an element opening or closing, text, inline code, a
/// line break, a rule, or anything else.
pub enum PvEvent {
    Start(PvTag),
    End(PvTag),
    Text(String),
    Code(String),
    Break,
    Rule,
    Other,
}

/// An event and the byte offset in the source where it starts.
pub struct PvItem {
    pub event: PvEvent,
    pub start: usize,
}

/// The plain value of an event.
pub ghost enum PvEventV {
    Start(PvTag),
    End(PvTag),
    Text(Seq<char>),
    Code(Seq<char>),
    Break,
    Rule,
    Other,
}

pub open spec fn pv_event_view(e: PvEvent) -> PvEventV {
    match e {
        PvEvent::Start(t) => PvEventV::Start(t),
        PvEvent::End(t) => PvEventV::End(t),
        PvEvent::Text(s) => PvEventV::Text(s@),
        PvEvent::Code(s) => PvEventV::Code(s@),
        PvEvent::Break => PvEventV::Break,
        PvEvent::Rule => PvEventV::Rule,
        PvEvent::Other => PvEventV::Other,
    }
}

pub open spec fn pv_item_view(i: PvItem) -> (PvEventV, usize) {
    (pv_event_view(i.event), i.start)
}

pub open spec fn pv_items_view(v: Seq<PvItem>) -> Seq<(PvEventV, usize)> {
    v.map_values(|i: PvItem| pv_item_view(i))
}

/// The events `pulldown_cmark` gives for a markdown text (strikethrough,
/// tables and footnotes enabled), with their start offsets.
pub uninterp spec fn preview_events(markdown: Seq<char>) -> Seq<(PvEventV, usize)>;

/// The end marker of a markdown element; carried only into `tag_kind`.
#[verifier::external_type_specification]
#[verifier::external_body]
pub struct ExTagEnd(pulldown_cmark::TagEnd);

/// Tells apart the kinds of element a `pulldown_cmark::TagEnd` closes or,
/// through `Tag::to_end`, opens; one arm for each kind the preview draws.
#[verifier::external_body]
fn tag_kind(t: Te) -> PvTag {
    match t {
        Te::Paragraph => PvTag::Paragraph, Te::Heading(l) => PvTag::Heading(l as u8),
        Te::BlockQuote(_) => PvTag::BlockQuote, Te::CodeBlock => PvTag::CodeBlock, Te::List(_) => PvTag::List,
        Te::Item => PvTag::Item, Te::Emphasis => PvTag::Emphasis, Te::Strong => PvTag::Strong,
        Te::Strikethrough => PvTag::Strikethrough, Te::Link => PvTag::Link, _ => PvTag::Other,
    }
}

/// Calls `pulldown_cmark::Parser::new_ext(..).into_offset_iter()` with
/// strikethrough, tables and footnotes enabled, and tells the events apart
/// for the preview, each with the byte offset where it starts. The result
/// is named, not spelled out.
#[verifier::external_body]
fn parse_preview_events(markdown: &str) -> (r: Vec<PvItem>)
    ensures
        pv_items_view(r@) == preview_events(markdown@),
{
    let opts = Options::ENABLE_STRIKETHROUGH | Options::ENABLE_TABLES | Options::ENABLE_FOOTNOTES;
    Parser::new_ext(markdown, opts).into_offset_iter().map(|(e, r)| PvItem { start: r.start, event: match e {
        Ev::Start(t) => PvEvent::Start(tag_kind(t.to_end())), Ev::End(t) => PvEvent::End(tag_kind(t)),
        Ev::Text(s) => PvEvent::Text(s.to_string()), Ev::Code(s) => PvEvent::Code(s.to_string()),
        Ev::SoftBreak | Ev::HardBreak => PvEvent::Break, Ev::Rule => PvEvent::Rule, _ => PvEvent::Other,
    } }).collect()
}

/// The state of the preview renderer between events.
pub ghost struct RenderState {
    /// Lines done so far.
    pub lines: Seq<Seq<SpanV>>,
    /// Spans of the line being built.
    pub spans: Seq<SpanV>,
    /// Styles of the open elements.
    pub styles: Seq<Style>,
    /// The source line of the last event that moved forward.
    pub cur: nat,
    /// How deep the lists nest.
    pub depth: nat,
    /// Inside a block quote.
    pub quote: bool,
    /// Inside a code block.
    pub code: bool,
    /// For each source line, the rendered line it starts at.
    pub offsets: Seq<u16>,
}

/// The lines with a blank line added, unless the last one is blank already.
pub open spec fn with_blank(lines: Seq<Seq<SpanV>>) -> Seq<Seq<SpanV>> {
    if lines.len() == 0 || lines.last().len() > 0 {
        lines.push(Seq::empty())
    } else {
        lines
    }
}

/// The line being built becomes a line of its own.
pub open spec fn flushed(st: RenderState) -> RenderState {
    RenderState { lines: st.lines.push(st.spans), spans: Seq::empty(), ..st }
}

/// A span added to the line being built.
pub open spec fn with_span(st: RenderState, text: Seq<char>, style: Style) -> RenderState {
    RenderState { spans: st.spans.push((text, style)), ..st }
}

/// The style of the innermost open element.
pub open spec fn top_style(styles: Seq<Style>) -> Style {
    if styles.len() > 0 {
        styles.last()
    } else {
        plain()
    }
}

/// Two spaces for each level of list nesting.
pub open spec fn indent(depth: nat) -> Seq<char>
    decreases depth,
{
    if depth == 0 {
        Seq::empty()
    } else {
        indent((depth - 1) as nat) + "  "@
    }
}

/// The marker in front of a heading of level `l`.
pub open spec fn heading_prefix(l: u8) -> Seq<char> {
    if l == 1 {
        "# "@
    } else if l == 2 {
        "## "@
    } else if l == 3 {
        "### "@
    } else {
        "#### "@
    }
}

/// An element opens: what it writes and the style its content takes.
pub open spec fn opened(st: RenderState, tag: PvTag) -> (RenderState, Style) {
    match tag {
        PvTag::Heading(l) => (with_span(st, heading_prefix(l), heading_style()), heading_style()),
        PvTag::Emphasis => (st, Style { italic: true, ..colored(Color::Yellow) }),
        PvTag::Strong => (st, Style { bold: true, ..colored(Color::Green) }),
        PvTag::Strikethrough => (st, Style { crossed_out: true, ..plain() }),
        PvTag::CodeBlock => (st, colored(Color::Red)),
        PvTag::BlockQuote => (with_span(st, "  > "@, colored(Color::DarkGray)), quote_style()),
        PvTag::List => (RenderState { depth: st.depth + 1, ..st }, plain()),
        PvTag::Item => (with_span(st, indent(st.depth) + "- "@, colored(Color::Magenta)), plain()),
        PvTag::Link => (with_span(st, "["@, colored(Color::Blue)), Style { underlined: true, ..colored(Color::Blue) }),
        _ => (st, plain()),
    }
}

/// An element closes: a block ends its line (headings, paragraphs, quotes
/// and code blocks leave a blank line after it), the outermost list leaves
/// a blank line, a link gets its closing bracket.
pub open spec fn closed(st: RenderState, tag: PvTag) -> RenderState {
    match tag {
        PvTag::Heading(_) => RenderState { lines: with_blank(flushed(st).lines), ..flushed(st) },
        PvTag::Paragraph => RenderState { lines: with_blank(flushed(st).lines), ..flushed(st) },
        PvTag::BlockQuote => RenderState { lines: with_blank(flushed(st).lines), ..flushed(st) },
        PvTag::CodeBlock => RenderState { lines: with_blank(flushed(st).lines), ..flushed(st) },
        PvTag::List => {
            let d: nat = if st.depth > 0 {
                (st.depth - 1) as nat
            } else {
                0
            };
            RenderState {
                depth: d,
                lines: if d == 0 {
                    with_blank(st.lines)
                } else {
                    st.lines
                },
                ..st
            }
        },
        PvTag::Item => if st.spans.len() > 0 {
            flushed(st)
        } else {
            st
        },
        PvTag::Link => with_span(st, "]"@, colored(Color::Blue)),
        _ => st,
    }
}

/// The first `k` pieces of a code block's text: each non-empty piece is a
/// span, and every piece but the last of all ends its line.
pub open spec fn code_upto(st: RenderState, parts: Seq<Seq<char>>, k: int, style: Style) -> RenderState
    decreases k,
{
    if k <= 0 {
        st
    } else {
        let before = code_upto(st, parts, k - 1, style);
        let with_text = if parts[k - 1].len() > 0 {
            with_span(before, parts[k - 1], style)
        } else {
            before
        };
        if k - 1 < parts.len() - 1 {
            flushed(with_text)
        } else {
            with_text
        }
    }
}

/// One event, once the source position is accounted for.
pub open spec fn event_step(st: RenderState, ev: PvEventV) -> RenderState {
    match ev {
        PvEventV::Start(tag) => {
            let st1 = if tag == PvTag::List && st.spans.len() > 0 {
                flushed(st)
            } else {
                st
            };
            let st2 = RenderState {
                quote: if tag == PvTag::BlockQuote { true } else { st1.quote },
                code: if tag == PvTag::CodeBlock { true } else { st1.code },
                ..st1
            };
            if st2.quote && tag == PvTag::Paragraph {
                RenderState { styles: st2.styles.push(top_style(st2.styles)), ..st2 }
            } else {
                let o = opened(st2, tag);
                RenderState { styles: o.0.styles.push(o.1), ..o.0 }
            }
        },
        PvEventV::End(tag) => {
            let st1 = RenderState {
                styles: if st.styles.len() > 0 { st.styles.drop_last() } else { st.styles },
                quote: if tag == PvTag::BlockQuote { false } else { st.quote },
                code: if tag == PvTag::CodeBlock { false } else { st.code },
                ..st
            };
            closed(st1, tag)
        },
        PvEventV::Text(t) => if st.code {
            code_upto(st, split_on(t, '\n'), split_on(t, '\n').len() as int, top_style(st.styles))
        } else {
            with_span(st, t, top_style(st.styles))
        },
        PvEventV::Code(c) => with_span(st, seq!['`'] + c + seq!['`'], colored(Color::Red)),
        PvEventV::Break => {
            let f = flushed(st);
            if st.quote {
                with_span(f, "  > "@, colored(Color::DarkGray))
            } else {
                f
            }
        },
        PvEventV::Rule => {
            let f = if st.spans.len() > 0 {
                flushed(st)
            } else {
                st
            };
            RenderState {
                lines: with_blank(f.lines.push(seq![(rule_text(), colored(Color::DarkGray))])),
                ..f
            }
        },
        PvEventV::Other => st,
    }
}

/// Text right inside strong emphasis is shown bold and green, and text
/// right inside emphasis italic and yellow, outside code blocks, whatever
/// came before.
pub proof fn law_emphasis_styles(st: RenderState, t: Seq<char>)
    requires
        !st.code,
    ensures
        ({
            let s = event_step(event_step(st, PvEventV::Start(PvTag::Strong)), PvEventV::Text(t)).spans.last();
            s.0 == t && s.1.bold && !s.1.italic && s.1.fg == Some(Color::Green)
        }),
        ({
            let s = event_step(event_step(st, PvEventV::Start(PvTag::Emphasis)), PvEventV::Text(t)).spans.last();
            s.0 == t && s.1.italic && !s.1.bold && s.1.fg == Some(Color::Yellow)
        }),
{
}

/// The text of a horizontal rule.
pub open spec fn rule_text() -> Seq<char> {
    Seq::new(32, |i: int| '─')
}

/// Newlines among the characters of `s` that start before byte `b`.
pub open spec fn newlines_before(s: Seq<char>, b: int) -> nat
    decreases s.len(),
{
    if s.len() == 0 {
        0
    } else {
        let prev = newlines_before(s.drop_last(), b);
        if crate::engine::markdown::utf8_len(s.drop_last()) < b && s.last() == '\n' {
            prev + 1
        } else {
            prev
        }
    }
}

/// `offsets` with the entries from `lo` to `hi` (both included) set to `v`.
pub open spec fn set_range(offsets: Seq<u16>, lo: int, hi: int, v: u16) -> Seq<u16> {
    Seq::new(offsets.len(), |i: int| if lo <= i <= hi { v } else { offsets[i] })
}

/// The renderer reaches source line `src`: moving forward, it keeps the
/// blank lines the author typed beyond one (outside code blocks) and maps
/// the source lines passed over to the current rendered line.
pub open spec fn advanced(st: RenderState, src: nat, count: nat) -> RenderState {
    if src > st.cur {
        let pad: nat = if !st.code && src - st.cur >= 2 {
            (src - st.cur - 2) as nat
        } else {
            0
        };
        let lines = st.lines + Seq::new(pad, |i: int| Seq::<SpanV>::empty());
        let hi: int = if src < count {
            src as int
        } else {
            count as int
        };
        RenderState { lines, offsets: set_range(st.offsets, (st.cur + 1) as int, hi, lines.len() as u16), cur: src, ..st }
    } else {
        st
    }
}

/// The renderer after the events `items` of the body.
pub open spec fn rendered_events(init: RenderState, body: Seq<char>, count: nat, items: Seq<(PvEventV, usize)>) -> RenderState
    decreases items.len(),
{
    if items.len() == 0 {
        init
    } else {
        let before = rendered_events(init, body, count, items.drop_last());
        let (ev, start) = items.last();
        event_step(advanced(before, newlines_before(body, start as int), count), ev)
    }
}

/// The renderer's working state.
struct Renderer {
    lines: Vec<Line>,
    spans: Vec<Span>,
    styles: Vec<Style>,
    cur: usize,
    depth: usize,
    quote: bool,
    code: bool,
    offsets: Vec<u16>,
}

impl View for Renderer {
    type V = RenderState;

    closed spec fn view(&self) -> RenderState {
        RenderState {
            lines: lines_view(self.lines@),
            spans: spans_view(self.spans@),
            styles: self.styles@,
            cur: self.cur as nat,
            depth: self.depth as nat,
            quote: self.quote,
            code: self.code,
            offsets: self.offsets@,
        }
    }
}

fn plain_style() -> (r: Style)
    ensures
        r == plain(),
{
    Style { fg: None, bold: false, italic: false, underlined: false, crossed_out: false }
}

fn colored_style(c: Color) -> (r: Style)
    ensures
        r == colored(c),
{
    Style { fg: Some(c), bold: false, italic: false, underlined: false, crossed_out: false }
}

fn heading_style_exec() -> (r: Style)
    ensures
        r == heading_style(),
{
    Style { fg: Some(Color::Cyan), bold: true, italic: false, underlined: false, crossed_out: false }
}

fn quote_style_exec() -> (r: Style)
    ensures
        r == quote_style(),
{
    Style { fg: Some(Color::DarkGray), bold: false, italic: true, underlined: false, crossed_out: false }
}

/// A line of one span.
fn single_line(text: String, style: Style) -> (r: Line)
    ensures
        line_view(r) == seq![(text@, style)],
{
    let spans = vec![Span { content: text, style }];
    assert(spans_view(spans@) =~= seq![(text@, style)]);
    Line { spans }
}

impl Renderer {
    /// The line being built becomes a line of its own.
    fn flush(&mut self)
        ensures
            final(self)@ == flushed(old(self)@),
    {
        let mut taken: Vec<Span> = Vec::new();
        std::mem::swap(&mut taken, &mut self.spans);
        let ghost before = self.lines@;
        self.lines.push(Line { spans: taken });
        assert(lines_view(self.lines@) =~= lines_view(before).push(spans_view(taken@)));
        assert(spans_view(self.spans@) =~= Seq::<SpanV>::empty());
    }

    /// A blank line, unless the last line is blank already.
    fn push_blank(&mut self)
        ensures
            final(self)@ == (RenderState { lines: with_blank(old(self)@.lines), ..old(self)@ }),
    {
        let n = self.lines.len();
        if n == 0 || self.lines[n - 1].spans.len() > 0 {
            let ghost before = self.lines@;
            let blank = Line { spans: Vec::new() };
            assert(line_view(blank) =~= Seq::<SpanV>::empty());
            self.lines.push(blank);
            assert(lines_view(self.lines@) =~= lines_view(before).push(Seq::<SpanV>::empty()));
        } else {
            assert(line_view(self.lines@[n - 1]).len() == 0);
        }
    }

    /// A line of one span.
    fn push_line(&mut self, text: String, style: Style)
        ensures
            final(self)@ == (RenderState { lines: old(self)@.lines.push(seq![(text@, style)]), ..old(self)@ }),
    {
        let l = single_line(text, style);
        let ghost before = self.lines@;
        self.lines.push(l);
        assert(lines_view(self.lines@) =~= lines_view(before).push(seq![(text@, style)]));
    }

    /// A span added to the line being built.
    fn add_span(&mut self, text: String, style: Style)
        ensures
            final(self)@ == with_span(old(self)@, text@, style),
    {
        let ghost before = self.spans@;
        self.spans.push(Span { content: text, style });
        assert(spans_view(self.spans@) =~= spans_view(before).push((text@, style)));
    }

    /// The style of the innermost open element.
    fn top(&self) -> (r: Style)
        ensures
            r == top_style(self.styles@),
    {
        let n = self.styles.len();
        if n > 0 {
            self.styles[n - 1]
        } else {
            plain_style()
        }
    }

    /// An element opens; gives the style of its content.
    fn open(&mut self, tag: PvTag) -> (r: Style)
        requires
            old(self).depth < usize::MAX,
        ensures
            (final(self)@, r) == opened(old(self)@, tag),
    {
        match tag {
            PvTag::Heading(l) => {
                let prefix = if l == 1 {
                    "# "
                } else if l == 2 {
                    "## "
                } else if l == 3 {
                    "### "
                } else {
                    "#### "
                };
                self.add_span(String::from_str(prefix), heading_style_exec());
                heading_style_exec()
            },
            PvTag::Emphasis => Style {
                fg: Some(Color::Yellow),
                bold: false,
                italic: true,
                underlined: false,
                crossed_out: false,
            },
            PvTag::Strong => Style {
                fg: Some(Color::Green),
                bold: true,
                italic: false,
                underlined: false,
                crossed_out: false,
            },
            PvTag::Strikethrough => Style { fg: None, bold: false, italic: false, underlined: false, crossed_out: true },
            PvTag::CodeBlock => colored_style(Color::Red),
            PvTag::BlockQuote => {
                self.add_span(String::from_str("  > "), colored_style(Color::DarkGray));
                quote_style_exec()
            },
            PvTag::List => {
                self.depth = self.depth + 1;
                plain_style()
            },
            PvTag::Item => {
                let mut marker: Vec<char> = Vec::new();
                let mut j: usize = 0;
                while j < self.depth
                    invariant
                        j <= self.depth,
                        marker@ == indent(j as nat),
                    decreases self.depth - j,
                {
                    marker.push(' ');
                    marker.push(' ');
                    j += 1;
                    assert(marker@ =~= indent(j as nat)) by {
                        reveal_strlit("  ");
                    }
                }
                marker.push('-');
                marker.push(' ');
                assert(marker@ =~= indent(self.depth as nat) + "- "@) by {
                    reveal_strlit("- ");
                }
                self.add_span(string_of(&marker), colored_style(Color::Magenta));
                plain_style()
            },
            PvTag::Link => {
                self.add_span(String::from_str("["), colored_style(Color::Blue));
                Style { fg: Some(Color::Blue), bold: false, italic: false, underlined: true, crossed_out: false }
            },
            _ => plain_style(),
        }
    }

    /// An element closes.
    fn close(&mut self, tag: PvTag)
        ensures
            final(self)@ == closed(old(self)@, tag),
    {
        match tag {
            PvTag::Heading(_) | PvTag::Paragraph | PvTag::BlockQuote | PvTag::CodeBlock => {
                self.flush();
                self.push_blank();
            },
            PvTag::List => {
                self.depth = if self.depth > 0 {
                    self.depth - 1
                } else {
                    0
                };
                if self.depth == 0 {
                    self.push_blank();
                }
            },
            PvTag::Item => {
                if self.spans.len() > 0 {
                    self.flush();
                }
            },
            PvTag::Link => {
                self.add_span(String::from_str("]"), colored_style(Color::Blue));
            },
            _ => {},
        }
    }

    /// One event, once the source position is accounted for.
    fn event(&mut self, ev: PvEvent)
        requires
            old(self).depth < usize::MAX,
        ensures
            final(self)@ == event_step(old(self)@, pv_event_view(ev)),
            final(self).offsets@ == old(self).offsets@,
            final(self).cur == old(self).cur,
            final(self).depth <= old(self).depth + 1,
    {
        match ev {
            PvEvent::Start(tag) => {
                if tag == PvTag::List && self.spans.len() > 0 {
                    self.flush();
                }
                if tag == PvTag::BlockQuote {
                    self.quote = true;
                }
                if tag == PvTag::CodeBlock {
                    self.code = true;
                }
                let style = if self.quote && tag == PvTag::Paragraph {
                    self.top()
                } else {
                    self.open(tag)
                };
                self.styles.push(style);
            },
            PvEvent::End(tag) => {
                if self.styles.len() > 0 {
                    self.styles.pop();
                }
                if tag == PvTag::BlockQuote {
                    self.quote = false;
                }
                if tag == PvTag::CodeBlock {
                    self.code = false;
                }
                self.close(tag);
            },
            PvEvent::Text(t) => {
                let style = self.top();
                if self.code {
                    let tc = chars_of(t.as_str());
                    let parts = split_chars(&tc, '\n');
                    let ghost ps = vecs_view(parts@);
                    let ghost st0 = self@;
                    let n = parts.len();
                    let mut k: usize = 0;
                    while k < n
                        invariant
                            k <= n == ps.len(),
                            ps == vecs_view(parts@),
                            self@ == code_upto(st0, ps, k as int, style),
                            self.offsets@ == st0.offsets,
                            self.cur == st0.cur,
                            self.depth == st0.depth,
                        decreases n - k,
                    {
                        assert(ps[k as int] == parts@[k as int]@);
                        if parts[k].len() > 0 {
                            self.add_span(string_of(&parts[k]), style);
                        }
                        if k + 1 < n {
                            self.flush();
                        }
                        k += 1;
                    }
                } else {
                    self.add_span(t, style);
                }
            },
            PvEvent::Code(c) => {
                let mut text: Vec<char> = Vec::new();
                text.push('`');
                push_str(&mut text, c.as_str());
                text.push('`');
                assert(text@ =~= seq!['`'] + c@ + seq!['`']);
                self.add_span(string_of(&text), colored_style(Color::Red));
            },
            PvEvent::Break => {
                self.flush();
                if self.quote {
                    self.add_span(String::from_str("  > "), colored_style(Color::DarkGray));
                }
            },
            PvEvent::Rule => {
                if self.spans.len() > 0 {
                    self.flush();
                }
                let rule = String::from_str("────────────────────────────────");
                proof {
                    reveal_strlit("────────────────────────────────");
                    assert(rule@ =~= rule_text());
                }
                self.push_line(rule, colored_style(Color::DarkGray));
                self.push_blank();
            },
            PvEvent::Other => {},
        }
    }

    /// The renderer reaches source line `src` of `count`.
    fn advance(&mut self, src: usize, count: usize)
        requires
            old(self).offsets@.len() == count + 1,
            count < usize::MAX,
        ensures
            final(self)@ == advanced(old(self)@, src as nat, count as nat),
            final(self).offsets@.len() == count + 1,
            final(self).depth == old(self).depth,
    {
        if src <= self.cur {
            return;
        }
        let ghost st0 = self@;
        let pad: usize = if !self.code && src - self.cur >= 2 {
            src - self.cur - 2
        } else {
            0
        };
        let ghost lines0 = lines_view(self.lines@);
        let mut j: usize = 0;
        while j < pad
            invariant
                j <= pad,
                lines_view(self.lines@) == lines0 + Seq::new(j as nat, |i: int| Seq::<SpanV>::empty()),
                self.offsets@ == st0.offsets,
                self.offsets@.len() == count + 1,
                self.cur == st0.cur,
                self.depth == st0.depth,
                self.spans@ == old(self).spans@,
                self.styles@ == st0.styles,
                self.quote == st0.quote,
                self.code == st0.code,
            decreases pad - j,
        {
            let ghost before = self.lines@;
            let blank = Line { spans: Vec::new() };
            assert(line_view(blank) =~= Seq::<SpanV>::empty());
            self.lines.push(blank);
            assert(lines_view(self.lines@) =~= lines_view(before).push(Seq::<SpanV>::empty()));
            j += 1;
            assert(lines_view(self.lines@) =~= lines0 + Seq::new(j as nat, |i: int| Seq::<SpanV>::empty()));
        }
        let rendered = self.lines.len() as u16;
        let hi = if src < count {
            src
        } else {
            count
        };
        let ghost offs0 = self.offsets@;
        let ghost lines1 = self.lines@;
        if self.cur < hi {
            let mut i: usize = self.cur + 1;
            while i <= hi
                invariant
                    st0.cur + 1 <= i <= hi + 1,
                    hi <= count < usize::MAX,
                    self.lines@ == lines1,
                    self.spans@ == old(self).spans@,
                    self.styles@ == st0.styles,
                    self.cur == st0.cur,
                    self.depth == st0.depth,
                    self.quote == st0.quote,
                    self.code == st0.code,
                    self.offsets@.len() == count + 1,
                    forall|x: int| 0 <= x < self.offsets@.len() ==> self.offsets@[x] == if st0.cur + 1 <= x < i {
                        rendered
                    } else {
                        offs0[x]
                    },
                decreases hi + 1 - i,
            {
                self.offsets.set(i, rendered);
                i += 1;
            }
        }
        assert(self.offsets@ =~= set_range(offs0, (st0.cur + 1) as int, hi as int, rendered));
        self.cur = src;
    }
}

/// Newlines among the characters of `s` that start before byte `b`.
fn count_newlines_before(s: &Vec<char>, b: usize) -> (r: usize)
    ensures
        r == newlines_before(s@, b as int),
{
    let n = s.len();
    let mut used: u128 = 0;
    let mut count: usize = 0;
    let mut i: usize = 0;
    while i < n
        invariant
            i <= n == s@.len(),
            used == crate::engine::markdown::utf8_len(s@.take(i as int)),
            used <= 4 * i,
            count <= i,
            count == newlines_before(s@.take(i as int), b as int),
        decreases n - i,
    {
        assert(s@.take(i + 1).drop_last() =~= s@.take(i as int));
        if used < b as u128 && s[i] == '\n' {
            count += 1;
        }
        used = used + crate::engine::markdown::utf8_width_exec(s[i]) as u128;
        i += 1;
    }
    assert(s@.take(n as int) =~= s@);
    count
}

/// A copy of an event.
fn copy_event(e: &PvEvent) -> (r: PvEvent)
    ensures
        pv_event_view(r) == pv_event_view(*e),
{
    match e {
        PvEvent::Start(t) => PvEvent::Start(*t),
        PvEvent::End(t) => PvEvent::End(*t),
        PvEvent::Text(s) => PvEvent::Text(s.clone()),
        PvEvent::Code(s) => PvEvent::Code(s.clone()),
        PvEvent::Break => PvEvent::Break,
        PvEvent::Rule => PvEvent::Rule,
        PvEvent::Other => PvEvent::Other,
    }
}

/// Whether `c` may stand in a plain date (`2024-01-31`).
pub open spec fn is_date_char(c: char) -> bool {
    ('0' <= c && c <= '9') || c == '-'
}

/// Whether every character of `h` may stand in a plain date.
pub open spec fn all_date_chars(h: Seq<char>) -> bool {
    forall|i: int| 0 <= i < h.len() ==> is_date_char(#[trigger] h[i])
}

/// The date of the header: `published_at`, else `date`; when its first ten
/// bytes are all digits and dashes, just those; when it is shorter than ten
/// bytes or its tenth byte falls inside a character, none.
pub open spec fn fm_date(content: Seq<char>) -> Option<Seq<char>> {
    let raw = match fm_field(content, "published_at"@) {
        Some(v) => Some(v),
        None => fm_field(content, "date"@),
    };
    match raw {
        None => None,
        Some(r) => {
            let k = fitting(r, 10, 0);
            if utf8_len(r.take(k)) != 10 {
                None
            } else if all_date_chars(r.take(k)) {
                Some(r.take(k))
            } else {
                Some(r)
            }
        },
    }
}

/// The date of the header, as `fm_date` describes it.
fn frontmatter_date(content: &str) -> (r: Option<String>)
    ensures
        opt_view(r) == fm_date(content@),
{
    let raw = match frontmatter_field(content, "published_at") {
        Some(v) => v,
        None => match frontmatter_field(content, "date") {
            Some(v) => v,
            None => return None,
        },
    };
    let s = chars_of(raw.as_str());
    let n = s.len();
    let mut k: usize = 0;
    let mut used: usize = 0;
    assert(s@.take(0) =~= Seq::<char>::empty());
    while k < n && utf8_width_exec(s[k]) <= 10 - used
        invariant
            k <= n == s@.len(),
            used == utf8_len(s@.take(k as int)),
            used <= 10,
            fitting(s@, 10, k as int) == fitting(s@, 10, 0),
        decreases n - k,
    {
        assert(s@.take(k + 1).drop_last() =~= s@.take(k as int));
        used = used + utf8_width_exec(s[k]);
        k += 1;
    }
    proof {
        if k < n {
            assert(s@.take(k + 1).drop_last() =~= s@.take(k as int));
        }
    }
    assert(fitting(s@, 10, k as int) == k);
    if used != 10 {
        return None;
    }
    let mut all_date = true;
    let mut i: usize = 0;
    while i < k
        invariant
            i <= k <= n == s@.len(),
            all_date == all_date_chars(s@.take(i as int)),
        decreases k - i,
    {
        assert(s@.take(i + 1) =~= s@.take(i as int).push(s@[i as int]));
        let c = s[i];
        if !(('0' <= c && c <= '9') || c == '-') {
            all_date = false;
        }
        proof {
            let a = s@.take(i as int);
            let b = s@.take(i + 1);
            assert(b[i as int] == c);
            if all_date_chars(a) && is_date_char(c) {
                assert forall|j: int| 0 <= j < b.len() implies is_date_char(#[trigger] b[j]) by {
                    if j < i {
                        assert(b[j] == a[j]);
                    }
                }
            }
            if !all_date_chars(a) {
                let j = choose|j: int| 0 <= j < a.len() && !is_date_char(#[trigger] a[j]);
                assert(b[j] == a[j]);
            }
        }
        i += 1;
    }
    assert(s@.take(k as int) == s@.take(i as int));
    if all_date {
        let head = slice_copy(&s, 0, k);
        Some(string_of(&head))
    } else {
        Some(raw)
    }
}

/// A line of the header, when there is something to show.
pub open spec fn opt_line(o: Option<Seq<char>>, style: Style) -> Seq<Seq<SpanV>> {
    match o {
        Some(x) => seq![seq![(x, style)]],
        None => Seq::empty(),
    }
}

/// The author of the header: the frontmatter's, else the site's.
pub open spec fn header_author(content: Seq<char>, author: Option<Seq<char>>) -> Option<Seq<char>> {
    match fm_field(content, "author"@) {
        Some(a) => Some(a),
        None => author,
    }
}

/// The date line of the header: the date and the language in capitals,
/// joined by ` · ` when both are there.
pub open spec fn date_line_of(content: Seq<char>) -> Option<Seq<char>> {
    let l = match fm_field(content, "language"@) {
        Some(x) => Some(str_uppercase(x)),
        None => None,
    };
    match (fm_date(content), l) {
        (Some(d), Some(l)) => Some(d + " · "@ + l),
        (Some(d), None) => Some(d),
        (None, Some(l)) => Some(l),
        (None, None) => None,
    }
}

/// Whether the preview starts with a header.
pub open spec fn has_header(content: Seq<char>, author: Option<Seq<char>>) -> bool {
    header_author(content, author) is Some || fm_field(content, "title"@) is Some || date_line_of(content) is Some
}

/// The header: author, title, subtitle and date line (those present), then a
/// blank line; nothing without an author, a title or a date line.
pub open spec fn header_lines(content: Seq<char>, author: Option<Seq<char>>) -> Seq<Seq<SpanV>> {
    if has_header(content, author) {
        opt_line(header_author(content, author), colored(Color::DarkGray)) + opt_line(
            fm_field(content, "title"@),
            heading_style(),
        ) + opt_line(fm_field(content, "subtitle"@), quote_style()) + opt_line(
            date_line_of(content),
            colored(Color::DarkGray),
        ) + seq![Seq::<SpanV>::empty()]
    } else {
        Seq::empty()
    }
}

/// The number of header lines the offsets count (the subtitle counts even
/// when no header is drawn).
pub open spec fn header_len(content: Seq<char>, author: Option<Seq<char>>) -> u16 {
    ((if header_author(content, author) is Some { 1int } else { 0 }) + (if fm_field(content, "title"@) is Some {
        1int
    } else {
        0
    }) + (if fm_field(content, "subtitle"@) is Some { 1int } else { 0 }) + (if date_line_of(content) is Some {
        1int
    } else {
        0
    }) + (if has_header(content, author) { 1int } else { 0 })) as u16
}

/// Lines of a text, as `str::lines` counts them, and at least one.
pub open spec fn line_count(s: Seq<char>) -> nat {
    if std_lines(s).len() > 0 {
        std_lines(s).len()
    } else {
        1
    }
}

/// Offsets indexed by lines of the whole content: shifted down past the
/// frontmatter's lines, with zeros above.
pub open spec fn reindexed(offsets: Seq<u16>, fm: nat, total: nat) -> Seq<u16> {
    Seq::new(total + 1, |j: int| if j >= fm && j - fm < offsets.len() { offsets[j - fm] } else { 0 })
}

/// What the renderer starts from: the header, and every source line mapped
/// past it.
pub open spec fn initial_state(content: Seq<char>, author: Option<Seq<char>>, count: nat) -> RenderState {
    RenderState {
        lines: header_lines(content, author),
        spans: Seq::empty(),
        styles: seq![plain()],
        cur: 0,
        depth: 0,
        quote: false,
        code: false,
        offsets: Seq::new(count + 1, |i: int| header_len(content, author)),
    }
}

/// The terminal preview of a markdown article and, for each line of the
/// content, the rendered line it starts at.
pub open spec fn rendered_preview(content: Seq<char>, author: Option<Seq<char>>) -> (Seq<Seq<SpanV>>, Seq<u16>) {
    let body = body_of(content);
    let total = line_count(content);
    let count = line_count(body);
    let fm: nat = if total >= count {
        (total - count) as nat
    } else {
        0
    };
    let st = rendered_events(initial_state(content, author, count), body, count, preview_events(body));
    let lines1 = if st.spans.len() > 0 {
        st.lines.push(st.spans)
    } else {
        st.lines
    };
    let offs = set_range(st.offsets, (st.cur + 1) as int, count as int, lines1.len() as u16);
    let lines2 = if lines1.len() == 0 {
        seq![seq![("Start typing..."@, colored(Color::DarkGray))]]
    } else {
        lines1
    };
    (lines2, if fm > 0 { reindexed(offs, fm, total) } else { offs })
}

/// The view of an optional text.
pub open spec fn opt_str(o: Option<&str>) -> Option<Seq<char>> {
    match o {
        Some(s) => Some(s@),
        None => None,
    }
}

/// A text has no more lines than characters, plus one.
proof fn lemma_line_count_bound(s: Seq<char>)
    ensures
        line_count(s) <= s.len() + 1,
{
    crate::buffer::lemma_split_lines_len(s);
    crate::buffer::lemma_nl_count_le(s);
}

/// The body never holds more characters than the whole content.
proof fn lemma_body_shorter(content: Seq<char>)
    ensures
        body_of(content).len() <= content.len(),
{
    reveal_strlit("---\n");
    reveal_strlit("\n---\n");
    if starts_with(content, "---\n"@) && content.len() >= 4 {
        lemma_find_from_props(content.skip(4), "\n---\n"@, 0);
    }
}

/// The number of lines of a text, and at least one.
fn count_lines(s: &Vec<char>) -> (r: usize)
    ensures
        r == line_count(s@),
{
    let lines = lines_of(s);
    assert(lines@.map_values(|v: Vec<char>| v@).len() == lines@.len());
    if lines.len() > 0 {
        lines.len()
    } else {
        1
    }
}

/// `offsets` with the entries after `cur` up to `hi` set to `v`.
fn set_after(offsets: &mut Vec<u16>, cur: usize, hi: usize, v: u16)
    requires
        hi < old(offsets)@.len(),
        hi < usize::MAX,
    ensures
        final(offsets)@ == set_range(old(offsets)@, cur + 1, hi as int, v),
{
    let ghost offs0 = offsets@;
    if cur < hi {
        let mut i: usize = cur + 1;
        while i <= hi
            invariant
                cur + 1 <= i <= hi + 1,
                hi < offsets@.len(),
                hi < usize::MAX,
                offsets@.len() == offs0.len(),
                forall|x: int| 0 <= x < offsets@.len() ==> offsets@[x] == if cur + 1 <= x < i {
                    v
                } else {
                    offs0[x]
                },
            decreases hi + 1 - i,
        {
            offsets.set(i, v);
            i += 1;
        }
    }
    assert(offsets@ =~= set_range(offs0, cur + 1, hi as int, v));
}

/// The header lines of the preview and the number of lines the offsets
/// count for it.
#[verifier::rlimit(40)]
#[verifier::spinoff_prover]
fn preview_header(content: &str, author: Option<&str>) -> (r: (Vec<Line>, u16))
    ensures
        lines_view(r.0@) == header_lines(content@, opt_str(author)),
        r.1 == header_len(content@, opt_str(author)),
{
    let ghost c = content@;
    let ghost au = opt_str(author);
    let by: Option<String> = match frontmatter_field(content, "author") {
        Some(a) => Some(a),
        None => match author {
            Some(a) => Some(String::from_str(a)),
            None => None,
        },
    };
    let title = frontmatter_field(content, "title");
    let subtitle = frontmatter_field(content, "subtitle");
    let date = frontmatter_date(content);
    let language = match frontmatter_field(content, "language") {
        Some(l) => Some(to_uppercase_str(l.as_str())),
        None => None,
    };
    let date_line: Option<String> = match (&date, &language) {
        (Some(d), Some(l)) => {
            let mut t = chars_of(d.as_str());
            push_str(&mut t, " · ");
            push_str(&mut t, l.as_str());
            Some(string_of(&t))
        },
        (Some(d), None) => Some(d.clone()),
        (None, Some(l)) => Some(l.clone()),
        (None, None) => None,
    };
    assert(opt_view(by) == header_author(c, au));
    assert(opt_view(date_line) == date_line_of(c));
    let has_header = by.is_some() || title.is_some() || date_line.is_some();
    let hlen: u16 = (if by.is_some() { 1u16 } else { 0 }) + (if title.is_some() { 1u16 } else { 0 })
        + (if subtitle.is_some() { 1u16 } else { 0 }) + (if date_line.is_some() { 1u16 } else { 0 }) + (if has_header {
        1u16
    } else {
        0
    });
    assert(hlen == header_len(c, au));
    let mut lines: Vec<Line> = Vec::new();
    if has_header {
        let ghost l0 = lines_view(lines@);
        if let Some(a) = by {
            lines.push(single_line(a, colored_style(Color::DarkGray)));
        }
        let ghost l1 = lines_view(lines@);
        assert(l1 =~= opt_line(header_author(c, au), colored(Color::DarkGray)));
        if let Some(t) = title {
            lines.push(single_line(t, heading_style_exec()));
        }
        let ghost l2 = lines_view(lines@);
        assert(l2 =~= l1 + opt_line(fm_field(c, "title"@), heading_style()));
        if let Some(t) = subtitle {
            lines.push(single_line(t, quote_style_exec()));
        }
        let ghost l3 = lines_view(lines@);
        assert(l3 =~= l2 + opt_line(fm_field(c, "subtitle"@), quote_style()));
        if let Some(d) = date_line {
            lines.push(single_line(d, colored_style(Color::DarkGray)));
        }
        let ghost l4 = lines_view(lines@);
        assert(l4 =~= l3 + opt_line(date_line_of(c), colored(Color::DarkGray)));
        let blank = Line { spans: Vec::new() };
        assert(line_view(blank) =~= Seq::<SpanV>::empty());
        lines.push(blank);
        assert(lines_view(lines@) =~= l4 + seq![Seq::<SpanV>::empty()]);
    } else {
        assert(lines_view(lines@) =~= Seq::<SpanV>::empty().map_values(|x: SpanV| Seq::<SpanV>::empty()).take(0));
        assert(lines_view(lines@) =~= header_lines(c, au));
    }
    (lines, hlen)
}

/// Renders a markdown article for the terminal preview: a header from the
/// frontmatter (author, falling back to `author`; title; subtitle; date
/// and language), then the body. Gives the lines and, for each line of the
/// content (counting the frontmatter's), the rendered line it starts at.
pub fn render_with_offsets(content: &str, author: Option<&str>) -> (r: (Vec<Line>, Vec<u16>))
    requires
        content@.len() + 2 <= usize::MAX,
    ensures
        (lines_view(r.0@), r.1@) == rendered_preview(content@, opt_str(author)),
{
    let ghost c = content@;
    let ghost au = opt_str(author);
    let (lines, hlen) = preview_header(content, author);
    let cs = chars_of(content);
    let total = count_lines(&cs);
    let body = strip_frontmatter(content);
    let bc = chars_of(body.as_str());
    let count = count_lines(&bc);
    proof {
        lemma_line_count_bound(c);
        lemma_line_count_bound(body_of(c));
        lemma_body_shorter(c);
    }
    let fm: usize = if total >= count {
        total - count
    } else {
        0
    };
    let mut offsets: Vec<u16> = Vec::new();
    let mut k: usize = 0;
    while k <= count
        invariant
            k <= count + 1,
            count < usize::MAX,
            offsets@ =~= Seq::new(k as nat, |i: int| hlen),
        decreases count + 1 - k,
    {
        offsets.push(hlen);
        k += 1;
    }
    let mut styles: Vec<Style> = Vec::new();
    styles.push(plain_style());
    let mut r = Renderer {
        lines,
        spans: Vec::new(),
        styles,
        cur: 0,
        depth: 0,
        quote: false,
        code: false,
        offsets,
    };
    assert(spans_view(r.spans@) =~= Seq::<SpanV>::empty());
    assert(r.styles@ =~= seq![plain()]);
    let ghost init = initial_state(c, au, count as nat);
    assert(r@ == init);
    let items = parse_preview_events(body.as_str());
    let ghost evs = pv_items_view(items@);
    let mut i: usize = 0;
    while i < items.len()
        invariant
            i <= items@.len(),
            evs == pv_items_view(items@),
            bc@ == body@,
            count < usize::MAX,
            r.offsets@.len() == count + 1,
            r.depth <= i,
            r@ == rendered_events(init, body@, count as nat, evs.take(i as int)),
        decreases items@.len() - i,
    {
        assert(evs.take(i + 1).drop_last() =~= evs.take(i as int));
        assert(evs.take(i + 1).last() == pv_item_view(items@[i as int]));
        let start = items[i].start;
        let src = count_newlines_before(&bc, start);
        r.advance(src, count);
        let ev = copy_event(&items[i].event);
        r.event(ev);
        i += 1;
    }
    assert(evs.take(i as int) =~= evs);
    assert(evs == preview_events(body_of(c)));
    if r.spans.len() > 0 {
        r.flush();
    }
    let rendered = r.lines.len() as u16;
    set_after(&mut r.offsets, r.cur, count, rendered);
    let mut out_lines = r.lines;
    if out_lines.len() == 0 {
        out_lines.push(single_line(String::from_str("Start typing..."), colored_style(Color::DarkGray)));
        assert(lines_view(out_lines@) =~= seq![seq![("Start typing..."@, colored(Color::DarkGray))]]);
    }
    let offs = r.offsets;
    if fm > 0 {
        let mut re: Vec<u16> = Vec::new();
        let mut j: usize = 0;
        while j <= total
            invariant
                j <= total + 1,
                total < usize::MAX,
                re@ =~= reindexed(offs@, fm as nat, total as nat).take(j as int),
            decreases total + 1 - j,
        {
            let v = if j >= fm && j - fm < offs.len() {
                offs[j - fm]
            } else {
                0
            };
            re.push(v);
            j += 1;
        }
        assert(re@ =~= reindexed(offs@, fm as nat, total as nat));
        (out_lines, re)
    } else {
        (out_lines, offs)
    }
}

/// What the offsets promise while rendering: entries past the current
/// source line still hold the header's count; those up to it never
/// decrease and never pass the lines rendered so far.
pub open spec fn offsets_ok(st: RenderState, hl: u16, count: nat) -> bool {
    &&& st.offsets.len() == count + 1
    &&& forall|i: int| 0 <= i < st.offsets.len() && i > st.cur ==> st.offsets[i] == hl
    &&& forall|i: int, j: int|
        0 <= i <= j <= st.cur && j < st.offsets.len() ==> st.offsets[i] <= st.offsets[j]
    &&& forall|i: int| 0 <= i <= st.cur && i < st.offsets.len() ==> st.offsets[i] <= st.lines.len()
    &&& hl <= st.lines.len()
}

/// The pieces of a code block only add lines, and leave the offsets alone.
proof fn lemma_code_upto_grows(st: RenderState, parts: Seq<Seq<char>>, k: int, style: Style)
    ensures
        code_upto(st, parts, k, style).lines.len() >= st.lines.len(),
        code_upto(st, parts, k, style).offsets == st.offsets,
        code_upto(st, parts, k, style).cur == st.cur,
    decreases k,
{
    if k > 0 {
        lemma_code_upto_grows(st, parts, k - 1, style);
    }
}

/// An event only adds lines, and leaves the offsets alone.
proof fn lemma_event_grows(st: RenderState, ev: PvEventV)
    ensures
        event_step(st, ev).lines.len() >= st.lines.len(),
        event_step(st, ev).offsets == st.offsets,
        event_step(st, ev).cur == st.cur,
{
    match ev {
        PvEventV::Text(t) => {
            lemma_code_upto_grows(st, split_on(t, '\n'), split_on(t, '\n').len() as int, top_style(st.styles));
        },
        _ => {},
    }
}

/// Reaching a source line only adds lines.
proof fn lemma_advance_grows(st: RenderState, src: nat, count: nat)
    ensures
        advanced(st, src, count).lines.len() >= st.lines.len(),
{
}

/// Rendering the events keeps what the offsets promise, as long as no
/// more than `bound` lines (at most 65535) are rendered.
proof fn lemma_events_keep_offsets(
    init: RenderState,
    body: Seq<char>,
    count: nat,
    items: Seq<(PvEventV, usize)>,
    hl: u16,
    bound: nat,
)
    requires
        offsets_ok(init, hl, count),
        rendered_events(init, body, count, items).lines.len() <= bound,
        bound <= u16::MAX,
    ensures
        offsets_ok(rendered_events(init, body, count, items), hl, count),
        rendered_events(init, body, count, items).lines.len() >= init.lines.len(),
    decreases items.len(),
{
    if items.len() > 0 {
        let prev = rendered_events(init, body, count, items.drop_last());
        let (ev, start) = items.last();
        let src = newlines_before(body, start as int);
        let adv = advanced(prev, src, count);
        lemma_event_grows(adv, ev);
        lemma_advance_grows(prev, src, count);
        lemma_events_keep_offsets(init, body, count, items.drop_last(), hl, bound);
        if src > prev.cur {
            let l = adv.lines.len();
            assert(l <= bound);
            assert(adv.lines.len() as u16 == l);
            let hi: int = if src < count { src as int } else { count as int };
            assert forall|i: int, j: int|
                0 <= i <= j <= adv.cur && j < adv.offsets.len() implies adv.offsets[i] <= adv.offsets[j] by {
                if j > prev.cur {
                    assert(adv.offsets[j] == l);
                    if i <= prev.cur {
                        assert(prev.offsets[i] <= prev.lines.len());
                    }
                }
            }
            assert(offsets_ok(adv, hl, count));
        }
    }
}

/// The offsets of the preview never decrease: a later line of the content
/// never starts at an earlier rendered line. This holds whenever the
/// header drawn has the lines the offsets count for it (it does not when
/// the frontmatter has a subtitle and nothing else to show) and the
/// preview has at most 65535 lines (the offsets are 16-bit).
pub proof fn law_offsets_monotone(content: Seq<char>, author: Option<Seq<char>>, i: int, j: int)
    requires
        header_len(content, author) as int == header_lines(content, author).len(),
        rendered_preview(content, author).0.len() <= u16::MAX,
        0 <= i <= j < rendered_preview(content, author).1.len(),
    ensures
        rendered_preview(content, author).1[i] <= rendered_preview(content, author).1[j],
{
    let body = body_of(content);
    let total = line_count(content);
    let count = line_count(body);
    let fm: nat = if total >= count {
        (total - count) as nat
    } else {
        0
    };
    let hl = header_len(content, author);
    let init = initial_state(content, author, count);
    let items = preview_events(body);
    let st = rendered_events(init, body, count, items);
    let lines1 = if st.spans.len() > 0 {
        st.lines.push(st.spans)
    } else {
        st.lines
    };
    assert(lines1.len() <= rendered_preview(content, author).0.len());
    assert(offsets_ok(init, hl, count));
    lemma_events_keep_offsets(init, body, count, items, hl, u16::MAX as nat);
    let l1 = lines1.len();
    let offs = set_range(st.offsets, (st.cur + 1) as int, count as int, l1 as u16);
    assert(l1 as u16 == l1);
    assert forall|a: int, b: int| 0 <= a <= b < offs.len() implies offs[a] <= offs[b] by {
        if b > st.cur {
            assert(offs[b] == l1);
            if a <= st.cur {
                assert(st.offsets[a] <= st.lines.len());
            }
        }
    }
    if fm > 0 {
        let re = reindexed(offs, fm, total);
        assert(re == rendered_preview(content, author).1);
        if i >= fm {
            assert(re[i] == offs[i - fm]);
            assert(re[j] == offs[j - fm]);
        }
    } else {
        assert(offs == rendered_preview(content, author).1);
    }
}

/// The plain preview (no header, no kept blank lines): an element closes.
/// Every block leaves a blank line after it, every item ends its line.
pub open spec fn plain_closed(st: RenderState, tag: PvTag) -> RenderState {
    match tag {
        PvTag::Heading(_) => RenderState { lines: flushed(st).lines.push(Seq::empty()), ..flushed(st) },
        PvTag::Paragraph => RenderState { lines: flushed(st).lines.push(Seq::empty()), ..flushed(st) },
        PvTag::BlockQuote => RenderState { lines: flushed(st).lines.push(Seq::empty()), ..flushed(st) },
        PvTag::CodeBlock => RenderState { lines: flushed(st).lines.push(Seq::empty()), ..flushed(st) },
        PvTag::List => {
            let d: nat = if st.depth > 0 {
                (st.depth - 1) as nat
            } else {
                0
            };
            RenderState {
                depth: d,
                lines: if d == 0 {
                    st.lines.push(Seq::empty())
                } else {
                    st.lines
                },
                ..st
            }
        },
        PvTag::Item => flushed(st),
        PvTag::Link => with_span(st, "]"@, colored(Color::Blue)),
        _ => st,
    }
}

/// The plain preview: one event.
pub open spec fn plain_event(st: RenderState, ev: PvEventV) -> RenderState {
    match ev {
        PvEventV::Start(tag) => {
            let st1 = if tag == PvTag::List && st.spans.len() > 0 {
                flushed(st)
            } else {
                st
            };
            let st2 = RenderState { quote: if tag == PvTag::BlockQuote { true } else { st1.quote }, ..st1 };
            let o = opened(st2, tag);
            RenderState { styles: o.0.styles.push(o.1), ..o.0 }
        },
        PvEventV::End(tag) => {
            let st1 = RenderState {
                styles: if st.styles.len() > 0 { st.styles.drop_last() } else { st.styles },
                quote: if tag == PvTag::BlockQuote { false } else { st.quote },
                ..st
            };
            plain_closed(st1, tag)
        },
        PvEventV::Text(t) => with_span(st, t, top_style(st.styles)),
        PvEventV::Code(c) => with_span(st, seq!['`'] + c + seq!['`'], colored(Color::Red)),
        PvEventV::Break => {
            let f = flushed(st);
            if st.quote {
                with_span(f, "  > "@, colored(Color::DarkGray))
            } else {
                f
            }
        },
        PvEventV::Rule => {
            let f = flushed(st);
            RenderState {
                lines: f.lines.push(seq![(rule_text(), colored(Color::DarkGray))]).push(Seq::empty()),
                ..f
            }
        },
        PvEventV::Other => st,
    }
}

/// The plain preview reaches source line `src` (forward or back): the
/// source lines after the current one up to `src` map to the current
/// rendered line.
pub open spec fn plain_advanced(st: RenderState, src: nat, count: nat) -> RenderState {
    if src != st.cur {
        let hi: int = if src < count {
            src as int
        } else {
            count as int
        };
        RenderState {
            offsets: set_range(st.offsets, (st.cur + 1) as int, hi, st.lines.len() as u16),
            cur: src,
            ..st
        }
    } else {
        st
    }
}

/// The plain preview after the events `items`.
pub open spec fn plain_events(init: RenderState, content: Seq<char>, count: nat, items: Seq<(PvEventV, usize)>) -> RenderState
    decreases items.len(),
{
    if items.len() == 0 {
        init
    } else {
        let before = plain_events(init, content, count, items.drop_last());
        let (ev, start) = items.last();
        plain_event(plain_advanced(before, newlines_before(content, start as int), count), ev)
    }
}

/// The plain preview of a markdown text and, for each source line, the
/// rendered line it starts at.
pub open spec fn plain_preview(content: Seq<char>) -> (Seq<Seq<SpanV>>, Seq<u16>) {
    let count = line_count(content);
    let init = RenderState {
        lines: Seq::empty(),
        spans: Seq::empty(),
        styles: seq![plain()],
        cur: 0,
        depth: 0,
        quote: false,
        code: false,
        offsets: Seq::new(count + 1, |i: int| 0u16),
    };
    let st = plain_events(init, content, count, preview_events(content));
    let lines1 = if st.spans.len() > 0 {
        st.lines.push(st.spans)
    } else {
        st.lines
    };
    let offs = set_range(st.offsets, (st.cur + 1) as int, count as int, lines1.len() as u16);
    let lines2 = if lines1.len() == 0 {
        seq![seq![("Start typing..."@, colored(Color::DarkGray))]]
    } else {
        lines1
    };
    (lines2, offs)
}

impl Renderer {
    /// An empty line.
    fn push_empty(&mut self)
        ensures
            final(self)@ == (RenderState { lines: old(self)@.lines.push(Seq::empty()), ..old(self)@ }),
    {
        let ghost before = self.lines@;
        let blank = Line { spans: Vec::new() };
        assert(line_view(blank) =~= Seq::<SpanV>::empty());
        self.lines.push(blank);
        assert(lines_view(self.lines@) =~= lines_view(before).push(Seq::<SpanV>::empty()));
    }

    /// The plain preview: an element closes.
    fn plain_close(&mut self, tag: PvTag)
        ensures
            final(self)@ == plain_closed(old(self)@, tag),
    {
        match tag {
            PvTag::Heading(_) | PvTag::Paragraph | PvTag::BlockQuote | PvTag::CodeBlock => {
                self.flush();
                self.push_empty();
            },
            PvTag::List => {
                self.depth = if self.depth > 0 {
                    self.depth - 1
                } else {
                    0
                };
                if self.depth == 0 {
                    self.push_empty();
                }
            },
            PvTag::Item => {
                self.flush();
            },
            PvTag::Link => {
                self.add_span(String::from_str("]"), colored_style(Color::Blue));
            },
            _ => {},
        }
    }

    /// The plain preview: one event.
    fn plain_event(&mut self, ev: PvEvent)
        requires
            old(self).depth < usize::MAX,
        ensures
            final(self)@ == plain_event(old(self)@, pv_event_view(ev)),
            final(self).offsets@ == old(self).offsets@,
            final(self).cur == old(self).cur,
            final(self).depth <= old(self).depth + 1,
    {
        match ev {
            PvEvent::Start(tag) => {
                if tag == PvTag::List && self.spans.len() > 0 {
                    self.flush();
                }
                if tag == PvTag::BlockQuote {
                    self.quote = true;
                }
                let style = self.open(tag);
                self.styles.push(style);
            },
            PvEvent::End(tag) => {
                if self.styles.len() > 0 {
                    self.styles.pop();
                }
                if tag == PvTag::BlockQuote {
                    self.quote = false;
                }
                self.plain_close(tag);
            },
            PvEvent::Text(t) => {
                let style = self.top();
                self.add_span(t, style);
            },
            PvEvent::Code(c) => {
                let mut text: Vec<char> = Vec::new();
                text.push('`');
                push_str(&mut text, c.as_str());
                text.push('`');
                assert(text@ =~= seq!['`'] + c@ + seq!['`']);
                self.add_span(string_of(&text), colored_style(Color::Red));
            },
            PvEvent::Break => {
                self.flush();
                if self.quote {
                    self.add_span(String::from_str("  > "), colored_style(Color::DarkGray));
                }
            },
            PvEvent::Rule => {
                self.flush();
                let rule = String::from_str("────────────────────────────────");
                proof {
                    reveal_strlit("────────────────────────────────");
                    assert(rule@ =~= rule_text());
                }
                self.push_line(rule, colored_style(Color::DarkGray));
                self.push_empty();
            },
            PvEvent::Other => {},
        }
    }

    /// The plain preview reaches source line `src` of `count`.
    fn plain_advance(&mut self, src: usize, count: usize)
        requires
            old(self).offsets@.len() == count + 1,
            count < usize::MAX,
        ensures
            final(self)@ == plain_advanced(old(self)@, src as nat, count as nat),
            final(self).offsets@.len() == count + 1,
            final(self).depth == old(self).depth,
    {
        if src == self.cur {
            return;
        }
        let hi = if src < count {
            src
        } else {
            count
        };
        let rendered = self.lines.len() as u16;
        set_after(&mut self.offsets, self.cur, hi, rendered);
        self.cur = src;
    }
}

/// Renders a markdown text for the plain preview: no header, blank lines
/// after blocks. Gives the lines and, for each source line, the rendered
/// line it starts at.
pub(crate) fn render_plain(content: &str) -> (r: (Vec<Line>, Vec<u16>))
    requires
        content@.len() + 2 <= usize::MAX,
    ensures
        (lines_view(r.0@), r.1@) == plain_preview(content@),
{
    let cs = chars_of(content);
    let count = count_lines(&cs);
    proof {
        lemma_line_count_bound(content@);
    }
    let mut offsets: Vec<u16> = Vec::new();
    let mut k: usize = 0;
    while k <= count
        invariant
            k <= count + 1,
            count < usize::MAX,
            offsets@ =~= Seq::new(k as nat, |i: int| 0u16),
        decreases count + 1 - k,
    {
        offsets.push(0);
        k += 1;
    }
    let mut styles: Vec<Style> = Vec::new();
    styles.push(plain_style());
    let mut r = Renderer {
        lines: Vec::new(),
        spans: Vec::new(),
        styles,
        cur: 0,
        depth: 0,
        quote: false,
        code: false,
        offsets,
    };
    assert(spans_view(r.spans@) =~= Seq::<SpanV>::empty());
    assert(lines_view(r.lines@) =~= Seq::<Seq<SpanV>>::empty());
    assert(r.styles@ =~= seq![plain()]);
    let ghost init = r@;
    let items = parse_preview_events(content);
    let ghost evs = pv_items_view(items@);
    let mut i: usize = 0;
    while i < items.len()
        invariant
            i <= items@.len(),
            evs == pv_items_view(items@),
            cs@ == content@,
            count < usize::MAX,
            r.offsets@.len() == count + 1,
            r.depth <= i,
            r@ == plain_events(init, content@, count as nat, evs.take(i as int)),
        decreases items@.len() - i,
    {
        assert(evs.take(i + 1).drop_last() =~= evs.take(i as int));
        assert(evs.take(i + 1).last() == pv_item_view(items@[i as int]));
        let start = items[i].start;
        let src = count_newlines_before(&cs, start);
        r.plain_advance(src, count);
        let ev = copy_event(&items[i].event);
        r.plain_event(ev);
        i += 1;
    }
    assert(evs.take(i as int) =~= evs);
    if r.spans.len() > 0 {
        r.flush();
    }
    let rendered = r.lines.len() as u16;
    set_after(&mut r.offsets, r.cur, count, rendered);
    let mut out_lines = r.lines;
    if out_lines.len() == 0 {
        out_lines.push(single_line(String::from_str("Start typing..."), colored_style(Color::DarkGray)));
        assert(lines_view(out_lines@) =~= seq![seq![("Start typing..."@, colored(Color::DarkGray))]]);
    }
    (out_lines, r.offsets)
}

} // verus!
