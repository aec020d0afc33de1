use vstd::prelude::*;
use crate::engine::config::{
    extract_tags, frontmatter, frontmatter_of, post_body, resolve_og_image, tags_scan, twitter_card, BlogConfig,
    Post,
};
use crate::engine::links::{guides_html, links_html, render_guides, render_links, render_tags, tags_html};
use crate::engine::markdown::{post_snippet, snippet_of};
use crate::engine::analytics::ga_script_tag;
use crate::text::{chars_of, push_all, push_str, replace_all, replace_chars, same_chars, std_lines, string_of};

verus! {

/// The language a post is filed under: its `language` field, with the
/// Portuguese spellings made `pt`; empty when the field is missing.
pub open spec fn lang_of(content: Seq<char>) -> Seq<char> {
    match frontmatter_of("language"@, content) {
        Some(l) => if l == "pt-BR"@ || l == "pt-br"@ || l == "pt"@ { "pt"@ } else { l },
        None => Seq::empty(),
    }
}

/// The language a post is filed under.
pub fn normalize_lang(content: &str) -> (r: String)
    ensures
        r@ == lang_of(content@),
{
    match frontmatter("language", content) {
        Some(l) => {
            let c = chars_of(l.as_str());
            if same_chars(&c, &chars_of("pt-BR")) || same_chars(&c, &chars_of("pt-br")) || same_chars(
                &c,
                &chars_of("pt"),
            ) {
                String::from_str("pt")
            } else {
                l
            }
        },
        None => String::new(),
    }
}

/// The link of a post relative to the index: `slug.html`, under the
/// articles directory when there is one.
pub open spec fn post_href(slug: Seq<char>, prefix: Seq<char>) -> Seq<char> {
    if prefix.len() == 0 {
        slug + ".html"@
    } else {
        prefix + seq!['/'] + slug + ".html"@
    }
}

/// One entry of the index's post list.
pub open spec fn list_item(post: Post, prefix: Seq<char>) -> Seq<char> {
    let snippet = snippet_of(
        crate::engine::config::spaced(
            crate::engine::config::after_fences(std_lines(post.content@), 0),
            Seq::empty(),
        ),
        frontmatter_of("description"@, post.content@),
        300,
    );
    "<li data-lang=\""@ + lang_of(post.content@) + "\" data-tags=\""@ + tags_scan(std_lines(post.content@))
        + "\"><time datetime=\""@ + post.date@ + "\">"@ + post.date@ + "</time><a href=\""@ + post_href(
        post.slug@,
        prefix,
    ) + "\">"@ + post.title@ + "</a><p class=\"post-desc\">"@ + snippet + "</p></li>"@
}

/// The index's list entry for `post`.
pub fn post_list_item(post: &Post, articles_prefix: &str) -> (r: String)
    ensures
        r@ == list_item(*post, articles_prefix@),
{
    let body = post_body(post.content.as_str());
    let desc = frontmatter("description", post.content.as_str());
    let snippet = match &desc {
        Some(d) => post_snippet(body.as_str(), Some(d.as_str()), 300),
        None => post_snippet(body.as_str(), None, 300),
    };
    let lang = normalize_lang(post.content.as_str());
    let tags = extract_tags(post.content.as_str());
    let mut out = chars_of("<li data-lang=\"");
    push_str(&mut out, lang.as_str());
    push_str(&mut out, "\" data-tags=\"");
    push_str(&mut out, tags.as_str());
    push_str(&mut out, "\"><time datetime=\"");
    push_str(&mut out, post.date.as_str());
    push_str(&mut out, "\">");
    push_str(&mut out, post.date.as_str());
    push_str(&mut out, "</time><a href=\"");
    if articles_prefix.is_empty() {
        push_str(&mut out, post.slug.as_str());
        push_str(&mut out, ".html");
    } else {
        push_str(&mut out, articles_prefix);
        out.push('/');
        push_str(&mut out, post.slug.as_str());
        push_str(&mut out, ".html");
    }
    push_str(&mut out, "\">");
    push_str(&mut out, post.title.as_str());
    push_str(&mut out, "</a><p class=\"post-desc\">");
    push_str(&mut out, snippet.as_str());
    push_str(&mut out, "</p></li>");
    string_of(&out)
}

/// Titles of `posts`.
pub open spec fn titles(posts: Seq<Post>) -> Seq<Seq<char>> {
    posts.map_values(|p: Post| p.title@)
}

/// The post list: one line per post, a post whose title came before being left out.
pub open spec fn post_lines(posts: Seq<Post>, prefix: Seq<char>) -> Seq<char>
    decreases posts.len(),
{
    if posts.len() == 0 {
        Seq::empty()
    } else {
        let prev = post_lines(posts.drop_last(), prefix);
        if titles(posts.drop_last()).contains(posts.last().title@) {
            prev
        } else {
            prev + list_item(posts.last(), prefix) + seq!['\n']
        }
    }
}

/// Append the post list to `index_html`, each title once.
pub fn inject_post_list(posts: &[Post], articles_prefix: &str, index_html: &mut String)
    ensures
        final(index_html)@ == old(index_html)@ + post_lines(posts@, articles_prefix@),
{
    let mut out = chars_of(index_html.as_str());
    let ghost base = out@;
    let mut seen: Vec<Vec<char>> = Vec::new();
    let mut i: usize = 0;
    assert(posts@.take(0) =~= Seq::<Post>::empty());
    while i < posts.len()
        invariant
            i <= posts@.len(),
            out@ == base + post_lines(posts@.take(i as int), articles_prefix@),
            crate::text::vecs_view(seen@) =~= titles(posts@.take(i as int)),
        decreases posts@.len() - i,
    {
        assert(posts@.take(i + 1).drop_last() =~= posts@.take(i as int));
        let title = chars_of(posts[i].title.as_str());
        let mut dup = false;
        let mut k: usize = 0;
        let ghost tv = titles(posts@.take(i as int));
        while k < seen.len()
            invariant
                k <= seen@.len(),
                crate::text::vecs_view(seen@) =~= tv,
                title@ == posts@[i as int].title@,
                dup <==> exists|j: int| 0 <= j < k && tv[j] == title@,
            decreases seen@.len() - k,
        {
            assert(tv[k as int] == seen@[k as int]@);
            if same_chars(&seen[k], &title) {
                dup = true;
            }
            k += 1;
            proof {
                if !dup {
                    assert forall|j: int| 0 <= j < k implies tv[j] != title@ by {
                        if j < k - 1 {
                        }
                    }
                }
            }
        }
        proof {
            if tv.contains(title@) {
                let j = choose|j: int| 0 <= j < tv.len() && tv[j] == title@;
                assert(0 <= j < k && tv[j] == title@);
            }
        }
        if !dup {
            let item = post_list_item(&posts[i], articles_prefix);
            push_str(&mut out, item.as_str());
            out.push('\n');
        }
        let ghost before = crate::text::vecs_view(seen@);
        seen.push(title);
        assert(crate::text::vecs_view(seen@) =~= before.push(posts@[i as int].title@));
        assert(titles(posts@.take(i + 1)) =~= tv.push(posts@[i as int].title@));
        i += 1;
    }
    assert(posts@.take(i as int) =~= posts@);
    *index_html = string_of(&out);
}

/// The script filtering the index's posts by language, tag and search text.
pub const FILTER_SCRIPT: &'static str = "<script>\nvar activeLang='all',activeTag='all';\nfunction bindFilter(sel,cls,cb){\n  document.querySelectorAll(sel).forEach(function(el){\n    el.onclick=function(e){\n      if(!e.target.classList.contains(cls))return;\n      var prev=el.querySelector('.'+cls+'.active');\n      if(prev)prev.classList.remove('active');\n      e.target.classList.add('active');\n      cb(e.target.dataset);\n      filterPosts();\n    };\n  });\n}\nbindFilter('.lang-filter,.mobile-menu .mobile-pills','lang-btn',function(d){activeLang=d.lang});\nbindFilter('.tag-filter,.mobile-tags','tag-btn',function(d){activeTag=d.tag});\nfunction filterPosts(){\n  var q=document.querySelector('.search-input').value.toLowerCase();\n  document.querySelectorAll('.post-list li').forEach(function(li){\n    var matchLang=activeLang==='all'||li.dataset.lang===activeLang;\n    var matchTag=activeTag==='all'||(' '+li.dataset.tags+' ').indexOf(' '+activeTag+' ')!==-1;\n    var matchSearch=!q||li.textContent.toLowerCase().indexOf(q)!==-1;\n    li.style.display=matchLang&&matchTag&&matchSearch?'':'none';\n  });\n}\n</script>";

/// `html` with the guides slot filled by the links and guides (when there are any).
pub open spec fn with_guides_slot(cfg: BlogConfig, html: Seq<char>) -> Seq<char> {
    let l = links_html(cfg);
    let g = guides_html(cfg);
    if l.len() == 0 && g.len() == 0 {
        html
    } else {
        let nav = if l.len() > 0 && g.len() > 0 { l + seq![' '] + g } else if l.len() > 0 { l } else { g };
        replace_all(html, "<div class=\"guides-slot\"></div>"@, nav)
    }
}

/// `html` with the tag filters filled in (when there are tags).
pub open spec fn with_tag_filters(cfg: BlogConfig, html: Seq<char>) -> Seq<char> {
    let t = tags_html(cfg);
    if t.len() == 0 {
        html
    } else {
        let once = replace_all(html, "<div class=\"tag-filter\"></div>"@, "<div class=\"tag-filter\">"@ + t + "</div>"@);
        replace_all(
            once,
            "<div class=\"mobile-pills mobile-tags\"></div>"@,
            "<div class=\"mobile-pills mobile-tags\">"@ + t + "</div>"@,
        )
    }
}

/// `html` with the mobile guides filled in (when there are guides).
pub open spec fn with_mobile_guides(cfg: BlogConfig, html: Seq<char>) -> Seq<char> {
    let g = guides_html(cfg);
    if g.len() == 0 {
        html
    } else {
        replace_all(
            html,
            "<div class=\"mobile-pills mobile-guides\"></div>"@,
            "<div class=\"mobile-pills mobile-guides\">"@ + g + "</div>"@,
        )
    }
}

/// Replace every `pattern` in `html` by `with`.
fn replace_in(html: &String, pattern: &str, with: &Vec<char>) -> (r: String)
    requires
        pattern@.len() > 0,
    ensures
        r@ == replace_all(html@, pattern@, with@),
{
    let h = chars_of(html.as_str());
    let p = chars_of(pattern);
    let out = replace_chars(&h, &p, with);
    string_of(&out)
}

/// Fill the navigation slots of the index: links and guides, tag filters,
/// mobile guides.
pub fn inject_nav(cfg: &BlogConfig, html: &mut String)
    ensures
        final(html)@ == with_mobile_guides(*cfg, with_tag_filters(*cfg, with_guides_slot(*cfg, old(html)@))),
{
    proof {
        reveal_strlit("<div class=\"guides-slot\"></div>");
        reveal_strlit("<div class=\"tag-filter\"></div>");
        reveal_strlit("<div class=\"mobile-pills mobile-tags\"></div>");
        reveal_strlit("<div class=\"mobile-pills mobile-guides\"></div>");
    }
    let ghost h0 = html@;
    let links = render_links(cfg);
    let guides = render_guides(cfg);
    if !links.as_str().is_empty() || !guides.as_str().is_empty() {
        let mut nav = chars_of(links.as_str());
        if !links.as_str().is_empty() && !guides.as_str().is_empty() {
            nav.push(' ');
            push_str(&mut nav, guides.as_str());
        } else if links.as_str().is_empty() {
            push_str(&mut nav, guides.as_str());
        }
        assert(nav@ == if links@.len() > 0 && guides@.len() > 0 { links@ + seq![' '] + guides@ } else if links@.len() > 0 { links@ } else { guides@ });
        *html = replace_in(html, "<div class=\"guides-slot\"></div>", &nav);
    }
    let ghost h1 = html@;
    assert(h1 == with_guides_slot(*cfg, h0));
    let tags = render_tags(cfg);
    if !tags.as_str().is_empty() {
        let mut a = chars_of("<div class=\"tag-filter\">");
        push_str(&mut a, tags.as_str());
        push_str(&mut a, "</div>");
        *html = replace_in(html, "<div class=\"tag-filter\"></div>", &a);
        let mut b = chars_of("<div class=\"mobile-pills mobile-tags\">");
        push_str(&mut b, tags.as_str());
        push_str(&mut b, "</div>");
        *html = replace_in(html, "<div class=\"mobile-pills mobile-tags\"></div>", &b);
    }
    assert(html@ == with_tag_filters(*cfg, h1));
    if !guides.as_str().is_empty() {
        let mut c = chars_of("<div class=\"mobile-pills mobile-guides\">");
        push_str(&mut c, guides.as_str());
        push_str(&mut c, "</div>");
        *html = replace_in(html, "<div class=\"mobile-pills mobile-guides\"></div>", &c);
    }
}

/// The footer links: the license (linked when it has a URL) and the feed.
pub open spec fn footer_parts(license: Seq<char>, license_url: Seq<char>) -> Seq<char> {
    let lic = if license.len() > 0 && license_url.len() > 0 {
        "<a href=\""@ + license_url + "\" target=\"_blank\" rel=\"noopener\">"@ + license + "</a>"@
    } else {
        license
    };
    lic + " · <a href=\"feed.xml\">rss</a>"@
}

/// The text of an optional string, empty when absent.
pub open spec fn or_empty(o: Option<String>) -> Seq<char> {
    match o {
        Some(s) => s@,
        None => Seq::empty(),
    }
}

/// What closes the index: the list and main, the filter script, the
/// analytics script, the footer, then body and html.
pub open spec fn index_tail(cfg: BlogConfig) -> Seq<char> {
    let ga = if or_empty(cfg.analytics_id).len() == 0 {
        Seq::empty()
    } else {
        crate::engine::analytics::ga_script(or_empty(cfg.analytics_id))
    };
    "</ul></main>\n"@ + FILTER_SCRIPT@ + seq!['\n'] + ga + "\n<footer>"@ + footer_parts(
        or_empty(cfg.license),
        or_empty(cfg.license_url),
    ) + "</footer>\n</body></html>"@
}

fn text_or_empty(o: &Option<String>) -> (r: Vec<char>)
    ensures
        r@ == or_empty(*o),
{
    match o {
        Some(s) => chars_of(s.as_str()),
        None => Vec::new(),
    }
}

/// Append the end of the index page: filter script, analytics, footer.
pub fn inject_footer(cfg: &BlogConfig, index_html: &mut String)
    ensures
        final(index_html)@ == old(index_html)@ + index_tail(*cfg),
{
    let license = text_or_empty(&cfg.license);
    let license_url = text_or_empty(&cfg.license_url);
    let mut footer: Vec<char> = Vec::new();
    if license.len() > 0 && license_url.len() > 0 {
        push_str(&mut footer, "<a href=\"");
        push_all(&mut footer, &license_url);
        push_str(&mut footer, "\" target=\"_blank\" rel=\"noopener\">");
        push_all(&mut footer, &license);
        push_str(&mut footer, "</a>");
    } else {
        push_all(&mut footer, &license);
    }
    push_str(&mut footer, " · <a href=\"feed.xml\">rss</a>");
    let id = string_of(&text_or_empty(&cfg.analytics_id));
    let ga = ga_script_tag(id.as_str());
    let mut out = chars_of(index_html.as_str());
    push_str(&mut out, "</ul></main>\n");
    push_str(&mut out, FILTER_SCRIPT);
    out.push('\n');
    push_str(&mut out, ga.as_str());
    push_str(&mut out, "\n<footer>");
    push_all(&mut out, &footer);
    push_str(&mut out, "</footer>\n</body></html>");
    *index_html = string_of(&out);
}

/// The variables of the index template.
pub open spec fn index_vars(cfg: BlogConfig) -> Seq<(Seq<char>, Seq<char>)> {
    let og = match cfg.og_image {
        Some(o) => o@,
        None => Seq::empty(),
    };
    seq![
        ("title"@, cfg.title@),
        ("subtitle"@, or_empty(cfg.subtitle)),
        ("url"@, cfg.url@),
        ("author"@, cfg.author@),
        ("lang"@, cfg.lang@),
        ("og-image"@, og),
        ("twitter-card"@, if og.len() == 0 { "summary"@ } else { "summary_large_image"@ }),
    ]
}

/// The index page: the template with the site's variables, its navigation
/// filled in, then the post list (newest first as given, each title once)
/// and the closing part.
pub open spec fn index_page(cfg: BlogConfig, posts: Seq<Post>, prefix: Seq<char>, tpl: Seq<char>) -> Seq<char> {
    let head = crate::engine::template::rendered(tpl, index_vars(cfg));
    with_mobile_guides(cfg, with_tag_filters(cfg, with_guides_slot(cfg, head))) + post_lines(posts, prefix)
        + index_tail(cfg)
}

/// Render the index page from its template (the file is read by the caller).
pub fn render_index(cfg: &BlogConfig, posts: &[Post], articles_prefix: &str, index_tpl: &str) -> (r: String)
    ensures
        r@ == index_page(*cfg, posts@, articles_prefix@, index_tpl@),
{
    let subtitle = string_of(&text_or_empty(&cfg.subtitle));
    let og = match &cfg.og_image {
        Some(o) => resolve_og_image(None, Some(o.as_str())),
        None => resolve_og_image(None, None),
    };
    let card = twitter_card(og);
    let mut vars: Vec<(&str, &str)> = Vec::new();
    vars.push(("title", cfg.title.as_str()));
    vars.push(("subtitle", subtitle.as_str()));
    vars.push(("url", cfg.url.as_str()));
    vars.push(("author", cfg.author.as_str()));
    vars.push(("lang", cfg.lang.as_str()));
    vars.push(("og-image", og));
    vars.push(("twitter-card", card));
    proof {
        reveal_strlit("");
    }
    let ghost vv = crate::engine::template::vars_view(vars@);
    assert(vv.len() == 7);
    assert(vv[0] == index_vars(*cfg)[0]);
    assert(vv[1] == index_vars(*cfg)[1]);
    assert(vv[5] == index_vars(*cfg)[5]);
    assert(vv[6] == index_vars(*cfg)[6]);
    assert(crate::engine::template::vars_view(vars@) =~= index_vars(*cfg));
    let mut html = crate::engine::template::template_render(index_tpl, vars.as_slice());
    inject_nav(cfg, &mut html);
    inject_post_list(posts, articles_prefix, &mut html);
    inject_footer(cfg, &mut html);
    html
}

} // verus!
