use vstd::prelude::*;
use crate::engine::config::{BlogConfig, Guide, Link};
use crate::text::{join_chars, join_with, push_str, string_of, vecs_view};

verus! {

pub open spec fn link_item(l: Link) -> Seq<char> {
    "<a href=\""@ + l.url@ + "\" target=\"_blank\" rel=\"noopener\">"@ + l.label@ + "</a>"@
}

pub open spec fn tag_button(t: String) -> Seq<char> {
    "<button class=\"tag-btn\" data-tag=\""@ + t@ + "\">"@ + t@ + "</button>"@
}

pub open spec fn guide_item(g: Guide) -> Seq<char> {
    "<a href=\""@ + g.url@ + "\" class=\"guide-badge\" target=\"_blank\" rel=\"noopener\">"@ + g.title@ + "</a>"@
}

/// The social links as a nav bar; empty when there are none.
pub open spec fn links_html(config: BlogConfig) -> Seq<char> {
    match config.links {
        Some(links) if links@.len() > 0 => "<nav class=\"social-links\">"@
            + join_with(links@.map_values(|l: Link| link_item(l)), " &middot; "@) + "</nav>"@,
        _ => Seq::empty(),
    }
}

/// The tag filter buttons, led by an active "all" button; empty when there are no tags.
pub open spec fn tags_html(config: BlogConfig) -> Seq<char> {
    match config.tags {
        Some(tags) if tags@.len() > 0 => join_with(
            seq!["<button class=\"tag-btn active\" data-tag=\"all\">all</button>"@] + tags@.map_values(|t: String| tag_button(t)),
            " &middot; "@,
        ),
        _ => Seq::empty(),
    }
}

/// The guide badges; empty when there are no guides.
pub open spec fn guides_html(config: BlogConfig) -> Seq<char> {
    match config.guides {
        Some(guides) if guides@.len() > 0 => "<span class=\"guides\">"@
            + join_with(guides@.map_values(|g: Guide| guide_item(g)), " &middot; "@) + "</span>"@,
        _ => Seq::empty(),
    }
}

/// Render social links as nav HTML.
pub fn render_links(config: &BlogConfig) -> (r: String)
    ensures
        r@ == links_html(*config),
{
    let links = match &config.links {
        Some(l) => l,
        None => return String::new(),
    };
    if links.len() == 0 {
        return String::new();
    }
    let mut items: Vec<Vec<char>> = Vec::new();
    let mut i: usize = 0;
    while i < links.len()
        invariant
            i <= links@.len(),
            vecs_view(items@) == links@.take(i as int).map_values(|l: Link| link_item(l)),
        decreases links@.len() - i,
    {
        let link = &links[i];
        let mut item: Vec<char> = Vec::new();
        push_str(&mut item, "<a href=\"");
        push_str(&mut item, link.url.as_str());
        push_str(&mut item, "\" target=\"_blank\" rel=\"noopener\">");
        push_str(&mut item, link.label.as_str());
        push_str(&mut item, "</a>");
        let ghost prev = items@;
        items.push(item);
        assert(vecs_view(items@) =~= vecs_view(prev).push(link_item(links@[i as int])));
        i += 1;
        assert(links@.take(i as int) =~= links@.take(i - 1).push(links@[i - 1]));
        assert(links@.take(i as int).map_values(|l: Link| link_item(l)) =~= links@.take(i - 1).map_values(|l: Link| link_item(l)).push(link_item(links@[i - 1])));
    }
    assert(links@.take(links@.len() as int) =~= links@);
    let mut out: Vec<char> = Vec::new();
    push_str(&mut out, "<nav class=\"social-links\">");
    let joined = join_chars(&items, " &middot; ");
    crate::text::push_all(&mut out, &joined);
    push_str(&mut out, "</nav>");
    string_of(&out)
}

/// Render the tag filter buttons.
pub fn render_tags(config: &BlogConfig) -> (r: String)
    ensures
        r@ == tags_html(*config),
{
    let tags = match &config.tags {
        Some(t) => t,
        None => return String::new(),
    };
    if tags.len() == 0 {
        return String::new();
    }
    let mut items: Vec<Vec<char>> = Vec::new();
    let mut first: Vec<char> = Vec::new();
    push_str(&mut first, "<button class=\"tag-btn active\" data-tag=\"all\">all</button>");
    items.push(first);
    let ghost head = seq!["<button class=\"tag-btn active\" data-tag=\"all\">all</button>"@];
    assert(vecs_view(items@) =~= head);
    let mut i: usize = 0;
    while i < tags.len()
        invariant
            i <= tags@.len(),
            vecs_view(items@) == head + tags@.take(i as int).map_values(|t: String| tag_button(t)),
        decreases tags@.len() - i,
    {
        let tag = &tags[i];
        let mut item: Vec<char> = Vec::new();
        push_str(&mut item, "<button class=\"tag-btn\" data-tag=\"");
        push_str(&mut item, tag.as_str());
        push_str(&mut item, "\">");
        push_str(&mut item, tag.as_str());
        push_str(&mut item, "</button>");
        let ghost prev = items@;
        items.push(item);
        assert(vecs_view(items@) =~= vecs_view(prev).push(tag_button(tags@[i as int])));
        i += 1;
        assert(tags@.take(i as int) =~= tags@.take(i - 1).push(tags@[i - 1]));
        assert(tags@.take(i as int).map_values(|t: String| tag_button(t)) =~= tags@.take(i - 1).map_values(|t: String| tag_button(t)).push(tag_button(tags@[i - 1])));
    }
    assert(tags@.take(tags@.len() as int) =~= tags@);
    let joined = join_chars(&items, " &middot; ");
    string_of(&joined)
}

/// Render the guide badges.
pub fn render_guides(config: &BlogConfig) -> (r: String)
    ensures
        r@ == guides_html(*config),
{
    let guides = match &config.guides {
        Some(g) => g,
        None => return String::new(),
    };
    if guides.len() == 0 {
        return String::new();
    }
    let mut items: Vec<Vec<char>> = Vec::new();
    let mut i: usize = 0;
    while i < guides.len()
        invariant
            i <= guides@.len(),
            vecs_view(items@) == guides@.take(i as int).map_values(|g: Guide| guide_item(g)),
        decreases guides@.len() - i,
    {
        let guide = &guides[i];
        let mut item: Vec<char> = Vec::new();
        push_str(&mut item, "<a href=\"");
        push_str(&mut item, guide.url.as_str());
        push_str(&mut item, "\" class=\"guide-badge\" target=\"_blank\" rel=\"noopener\">");
        push_str(&mut item, guide.title.as_str());
        push_str(&mut item, "</a>");
        let ghost prev = items@;
        items.push(item);
        assert(vecs_view(items@) =~= vecs_view(prev).push(guide_item(guides@[i as int])));
        i += 1;
        assert(guides@.take(i as int) =~= guides@.take(i - 1).push(guides@[i - 1]));
        assert(guides@.take(i as int).map_values(|g: Guide| guide_item(g)) =~= guides@.take(i - 1).map_values(|g: Guide| guide_item(g)).push(guide_item(guides@[i - 1])));
    }
    assert(guides@.take(guides@.len() as int) =~= guides@);
    let mut out: Vec<char> = Vec::new();
    push_str(&mut out, "<span class=\"guides\">");
    let joined = join_chars(&items, " &middot; ");
    crate::text::push_all(&mut out, &joined);
    push_str(&mut out, "</span>");
    string_of(&out)
}

} // verus!
