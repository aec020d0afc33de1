use vstd::prelude::*;
use crate::text::{chars_of, push_str, string_of};

verus! {

/// The XML escape of one character.
pub open spec fn xml_escape_char(c: char) -> Seq<char> {
    if c == '&' {
        "&amp;"@
    } else if c == '<' {
        "&lt;"@
    } else if c == '>' {
        "&gt;"@
    } else if c == '"' {
        "&quot;"@
    } else {
        seq![c]
    }
}

/// `s` with `&`, `<`, `>` and `"` written as XML entities.
pub open spec fn xml_escaped(s: Seq<char>) -> Seq<char>
    decreases s.len(),
{
    if s.len() == 0 {
        Seq::empty()
    } else {
        xml_escaped(s.drop_last()) + xml_escape_char(s.last())
    }
}

pub fn xml_escape(input: &str) -> (r: String)
    ensures
        r@ == xml_escaped(input@),
{
    let cs = chars_of(input);
    let mut out: Vec<char> = Vec::new();
    let mut i: usize = 0;
    while i < cs.len()
        invariant
            i <= cs@.len(),
            cs@ == input@,
            out@ == xml_escaped(cs@.take(i as int)),
        decreases cs@.len() - i,
    {
        let c = cs[i];
        if c == '&' {
            push_str(&mut out, "&amp;");
        } else if c == '<' {
            push_str(&mut out, "&lt;");
        } else if c == '>' {
            push_str(&mut out, "&gt;");
        } else if c == '"' {
            push_str(&mut out, "&quot;");
        } else {
            out.push(c);
        }
        i += 1;
        assert(cs@.take(i as int).drop_last() =~= cs@.take(i - 1));
    }
    assert(cs@.take(cs@.len() as int) =~= cs@);
    string_of(&out)
}

pub fn sitemap_entry(url: &str, lastmod: &str) -> (r: String)
    ensures
        r@ == "<url><loc>"@ + url@ + "</loc><lastmod>"@ + lastmod@ + "</lastmod></url>"@,
{
    let mut out: Vec<char> = Vec::new();
    push_str(&mut out, "<url><loc>");
    push_str(&mut out, url);
    push_str(&mut out, "</loc><lastmod>");
    push_str(&mut out, lastmod);
    push_str(&mut out, "</lastmod></url>");
    string_of(&out)
}

pub fn robots_txt(base_url: &str) -> (r: String)
    ensures
        r@ == "User-agent: *\nAllow: /\nSitemap: "@ + base_url@ + "/sitemap.xml\n"@,
{
    let mut out: Vec<char> = Vec::new();
    push_str(&mut out, "User-agent: *\nAllow: /\nSitemap: ");
    push_str(&mut out, base_url);
    push_str(&mut out, "/sitemap.xml\n");
    string_of(&out)
}

} // verus!
