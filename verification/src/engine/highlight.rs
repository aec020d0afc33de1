use vstd::prelude::*;
use syntect::html::{ClassStyle, ClassedHTMLGenerator};
use syntect::parsing::SyntaxSet;
use syntect::util::LinesWithEndings;
use crate::text::{chars_of, push_str, string_of, trim_start_ws};
use crate::trusted::{is_whitespace, whitespace};

verus! {

/// How a syntax is looked up in syntect's default syntax set: by token,
/// by file extension, by name, or the plain text syntax.
pub enum SyntaxLookup {
    Token(String),
    Extension(String),
    Name(String),
    PlainText,
}

/// The plain value of a lookup.
pub ghost enum SyntaxLookupV {
    Token(Seq<char>),
    Extension(Seq<char>),
    Name(Seq<char>),
    PlainText,
}

pub open spec fn lookup_view(l: SyntaxLookup) -> SyntaxLookupV {
    match l {
        SyntaxLookup::Token(t) => SyntaxLookupV::Token(t@),
        SyntaxLookup::Extension(t) => SyntaxLookupV::Extension(t@),
        SyntaxLookup::Name(t) => SyntaxLookupV::Name(t@),
        SyntaxLookup::PlainText => SyntaxLookupV::PlainText,
    }
}

/// Whether syntect's default set has a syntax for the token `t`.
pub uninterp spec fn syntax_by_token(t: Seq<char>) -> bool;

/// Whether syntect's default set has a syntax for the file extension `t`.
pub uninterp spec fn syntax_by_extension(t: Seq<char>) -> bool;

/// Whether syntect's default set has a syntax named `t`.
pub uninterp spec fn syntax_by_name(t: Seq<char>) -> bool;

/// Whether the lookup finds a syntax (the plain text syntax always is there).
pub open spec fn lookup_finds(l: SyntaxLookupV) -> bool {
    match l {
        SyntaxLookupV::Token(t) => syntax_by_token(t),
        SyntaxLookupV::Extension(t) => syntax_by_extension(t),
        SyntaxLookupV::Name(t) => syntax_by_name(t),
        SyntaxLookupV::PlainText => true,
    }
}

/// The HTML `syntect` gives for `code` with TextMate scope classes, read
/// with the syntax the lookup finds; `None` where syntect fails on a line.
pub uninterp spec fn classed_code(code: Seq<char>, lookup: SyntaxLookupV) -> Option<Seq<char>>;

/// Calls `SyntaxSet::find_syntax_by_token` on syntect's default syntax set.
#[verifier::external_body]
fn has_syntax_by_token(t: &str) -> (r: bool)
    ensures
        r == syntax_by_token(t@),
{
    SyntaxSet::load_defaults_newlines().find_syntax_by_token(t).is_some()
}

/// Calls `SyntaxSet::find_syntax_by_extension` on syntect's default syntax set.
#[verifier::external_body]
fn has_syntax_by_extension(t: &str) -> (r: bool)
    ensures
        r == syntax_by_extension(t@),
{
    SyntaxSet::load_defaults_newlines().find_syntax_by_extension(t).is_some()
}

/// Calls `SyntaxSet::find_syntax_by_name` on syntect's default syntax set.
#[verifier::external_body]
fn has_syntax_by_name(t: &str) -> (r: bool)
    ensures
        r == syntax_by_name(t@),
{
    SyntaxSet::load_defaults_newlines().find_syntax_by_name(t).is_some()
}

/// Calls `syntect`'s `ClassedHTMLGenerator` (spaced class style) on `code`
/// line by line, with the syntax of the default set that the lookup finds
/// (which the caller has seen it find). `None` when syntect fails on a
/// line; otherwise the generated HTML. The result is named.
#[verifier::external_body]
fn classed_html(code: &str, lookup: &SyntaxLookup) -> (r: Option<String>)
    requires
        lookup_finds(lookup_view(*lookup)),
    ensures
        match r {
            Some(h) => classed_code(code@, lookup_view(*lookup)) == Some(h@),
            None => classed_code(code@, lookup_view(*lookup)) is None,
        },
{
    let ss = SyntaxSet::load_defaults_newlines();
    let syntax = match lookup {
        SyntaxLookup::Token(t) => ss.find_syntax_by_token(t)?,
        SyntaxLookup::Extension(t) => ss.find_syntax_by_extension(t)?,
        SyntaxLookup::Name(t) => ss.find_syntax_by_name(t)?,
        SyntaxLookup::PlainText => ss.find_syntax_plain_text(),
    };
    let mut generator = ClassedHTMLGenerator::new_with_class_style(syntax, &ss, ClassStyle::Spaced);
    for line in LinesWithEndings::from(code) {
        generator.parse_html_for_line_which_includes_newline(line).ok()?;
    }
    Some(generator.finalize())
}

/// The view of an optional text.
pub open spec fn opt_chars(o: Option<&str>) -> Option<Seq<char>> {
    match o {
        Some(s) => Some(s@),
        None => None,
    }
}

/// The HTML entity for a character that needs one, or the character.
pub open spec fn html_escaped_char(c: char) -> Seq<char> {
    if c == '&' {
        "&amp;"@
    } else if c == '<' {
        "&lt;"@
    } else if c == '>' {
        "&gt;"@
    } else if c == '"' {
        "&quot;"@
    } else {
        seq![c]
    }
}

/// `s` with `&`, `<`, `>` and `"` written as entities.
pub open spec fn html_escaped(s: Seq<char>) -> Seq<char>
    decreases s.len(),
{
    if s.len() == 0 {
        Seq::empty()
    } else {
        html_escaped(s.drop_last()) + html_escaped_char(s.last())
    }
}

/// `s` with `&`, `<`, `>` and `"` written as entities.
pub fn escape_html(s: &str) -> (r: String)
    ensures
        r@ == html_escaped(s@),
{
    let cs = chars_of(s);
    let mut out: Vec<char> = Vec::new();
    let mut i: usize = 0;
    while i < cs.len()
        invariant
            i <= cs@.len(),
            cs@ == s@,
            out@ == html_escaped(cs@.take(i as int)),
        decreases cs@.len() - i,
    {
        assert(cs@.take(i + 1).drop_last() =~= cs@.take(i as int));
        let c = cs[i];
        if c == '&' {
            push_str(&mut out, "&amp;");
        } else if c == '<' {
            push_str(&mut out, "&lt;");
        } else if c == '>' {
            push_str(&mut out, "&gt;");
        } else if c == '"' {
            push_str(&mut out, "&quot;");
        } else {
            out.push(c);
        }
        i += 1;
    }
    assert(cs@.take(i as int) =~= cs@);
    string_of(&out)
}

/// The first whitespace-separated word of a language tag, or the whole tag
/// when it holds none.
pub open spec fn syntax_token(lang: Seq<char>) -> Seq<char> {
    let rest = trim_start_ws(lang);
    if rest.len() == 0 {
        lang
    } else {
        rest.take(word_end(rest, 0))
    }
}

/// Where the word starting at `i` ends: the first whitespace from `i`, or the end.
pub open spec fn word_end(s: Seq<char>, i: int) -> int
    decreases s.len() - i,
{
    if i >= s.len() || whitespace(s[i]) {
        i
    } else {
        word_end(s, i + 1)
    }
}

/// The lookup for a code block's language: plain text without one; else
/// its first word as a token, else as a file extension, else as a name,
/// else plain text.
pub open spec fn chosen_lookup(lang: Seq<char>) -> SyntaxLookupV {
    if lang.len() == 0 {
        SyntaxLookupV::PlainText
    } else {
        let t = syntax_token(lang);
        if syntax_by_token(t) {
            SyntaxLookupV::Token(t)
        } else if syntax_by_extension(t) {
            SyntaxLookupV::Extension(t)
        } else if syntax_by_name(t) {
            SyntaxLookupV::Name(t)
        } else {
            SyntaxLookupV::PlainText
        }
    }
}

/// Picks the syntax lookup for a code block's language.
pub fn lookup_syntax(lang: &str) -> (r: SyntaxLookup)
    ensures
        lookup_view(r) == chosen_lookup(lang@),
        lookup_finds(lookup_view(r)),
{
    let lc = chars_of(lang);
    if lc.len() == 0 {
        return SyntaxLookup::PlainText;
    }
    let token = first_word(&lc);
    if has_syntax_by_token(token.as_str()) {
        SyntaxLookup::Token(token)
    } else if has_syntax_by_extension(token.as_str()) {
        SyntaxLookup::Extension(token)
    } else if has_syntax_by_name(token.as_str()) {
        SyntaxLookup::Name(token)
    } else {
        SyntaxLookup::PlainText
    }
}

/// The highlighted HTML of a code block: with the syntax its language
/// leads to; the escaped code when the highlighter fails.
pub open spec fn highlighted(code: Seq<char>, lang: Seq<char>) -> Seq<char> {
    match classed_code(code, chosen_lookup(lang)) {
        Some(h) => h,
        None => html_escaped(code),
    }
}

/// Highlights a code block, returning HTML spans with TextMate scope
/// classes; falls back to the escaped code when syntect fails.
pub fn highlight(code: &str, lang: &str) -> (r: String)
    ensures
        r@ == highlighted(code@, lang@),
{
    let lookup = lookup_syntax(lang);
    match classed_html(code, &lookup) {
        Some(h) => h,
        None => escape_html(code),
    }
}

/// The first whitespace-separated word of `lang`, or all of it.
fn first_word(lang: &Vec<char>) -> (r: String)
    ensures
        r@ == syntax_token(lang@),
{
    let n = lang.len();
    let mut a: usize = 0;
    assert(lang@.skip(0) =~= lang@);
    while a < n && is_whitespace(lang[a])
        invariant
            a <= n == lang@.len(),
            trim_start_ws(lang@.skip(a as int)) == trim_start_ws(lang@),
        decreases n - a,
    {
        assert(lang@.skip(a as int).drop_first() =~= lang@.skip(a + 1));
        a += 1;
    }
    assert(trim_start_ws(lang@) =~= lang@.skip(a as int));
    if a == n {
        return string_of(lang);
    }
    let ghost rest = lang@.skip(a as int);
    let mut b: usize = a;
    while b < n && !is_whitespace(lang[b])
        invariant
            a <= b <= n == lang@.len(),
            rest == lang@.skip(a as int),
            word_end(rest, (b - a) as int) == word_end(rest, 0),
        decreases n - b,
    {
        assert(rest[(b - a) as int] == lang@[b as int]);
        b += 1;
    }
    proof {
        if b < n {
            assert(rest[(b - a) as int] == lang@[b as int]);
        }
    }
    let mut out: Vec<char> = Vec::new();
    let mut k: usize = a;
    while k < b
        invariant
            a <= k <= b <= n == lang@.len(),
            out@ == lang@.subrange(a as int, k as int),
        decreases b - k,
    {
        out.push(lang[k]);
        k += 1;
        assert(out@ =~= lang@.subrange(a as int, k as int));
    }
    assert(out@ =~= rest.take(word_end(rest, 0)));
    string_of(&out)
}

} // verus!
