use vstd::prelude::*;
use crate::text::{push_str, string_of};
use crate::engine::seo::{xml_escape, xml_escaped};

verus! {

pub fn rss_header(title: &str, url: &str, description: &str) -> (r: String)
    ensures
        r@ == "<?xml version=\"1.0\" encoding=\"UTF-8\"?>\n<rss version=\"2.0\" xmlns:atom=\"http://www.w3.org/2005/Atom\">\n<channel>\n<title>"@
            + title@ + "</title>\n<link>"@ + url@ + "</link>\n<description>"@ + description@
            + "</description>\n<atom:link href=\""@ + url@
            + "/feed.xml\" rel=\"self\" type=\"application/rss+xml\"/>\n"@,
{
    let mut out: Vec<char> = Vec::new();
    push_str(&mut out, "<?xml version=\"1.0\" encoding=\"UTF-8\"?>\n<rss version=\"2.0\" xmlns:atom=\"http://www.w3.org/2005/Atom\">\n<channel>\n<title>");
    push_str(&mut out, title);
    push_str(&mut out, "</title>\n<link>");
    push_str(&mut out, url);
    push_str(&mut out, "</link>\n<description>");
    push_str(&mut out, description);
    push_str(&mut out, "</description>\n<atom:link href=\"");
    push_str(&mut out, url);
    push_str(&mut out, "/feed.xml\" rel=\"self\" type=\"application/rss+xml\"/>\n");
    string_of(&out)
}

/// One feed item; the title is XML-escaped, the description goes in verbatim
/// inside a CDATA section.
pub fn rss_item(title: &str, link: &str, description: &str, date: &str) -> (r: String)
    ensures
        r@ == "<item>\n<title>"@ + xml_escaped(title@) + "</title>\n<link>"@ + link@ + "</link>\n<guid>"@
            + link@ + "</guid>\n<description><![CDATA["@ + description@ + "]]></description>\n<pubDate>"@
            + date@ + "</pubDate>\n</item>\n"@,
{
    let escaped = xml_escape(title);
    let mut out: Vec<char> = Vec::new();
    push_str(&mut out, "<item>\n<title>");
    push_str(&mut out, escaped.as_str());
    push_str(&mut out, "</title>\n<link>");
    push_str(&mut out, link);
    push_str(&mut out, "</link>\n<guid>");
    push_str(&mut out, link);
    push_str(&mut out, "</guid>\n<description><![CDATA[");
    push_str(&mut out, description);
    push_str(&mut out, "]]></description>\n<pubDate>");
    push_str(&mut out, date);
    push_str(&mut out, "</pubDate>\n</item>\n");
    string_of(&out)
}

} // verus!
