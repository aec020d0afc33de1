use vstd::prelude::*;
use std::path::PathBuf;
use crate::text::{lex_le, lex_le_exec};
use crate::engine::config::{frontmatter, frontmatter_date, frontmatter_of, first_word, post_body, resolve_og_image, twitter_card, BlogConfig, Post};
use crate::engine::feed::{rss_header, rss_item};
use crate::engine::index::{or_empty, post_href};
use crate::engine::markdown::{post_snippet, snippet_of};
use crate::engine::seo::xml_escaped;
use crate::engine::template::{rendered, template_render, vars_view};
use crate::text::{chars_of, opt_view, push_str, replace_all, replace_chars, std_lines, string_of};

verus! {

/// How many articles a build wrote and how many it left as they were.
pub struct BuildReport {
    pub built: usize,
    pub skipped: usize,
}

/// A post read from the file `path` named `slug`: title, date (under
/// `date_field`, its first word), description and image from the
/// frontmatter (empty when missing, the image kept optional).
pub fn post_from_file(slug: String, content: String, date_field: &str, path: PathBuf) -> (r: Post)
    ensures
        r.slug == slug,
        r.content == content,
        r.path == path,
        r.title@ == or_empty_view(frontmatter_of("title"@, content@)),
        r.date@ == match frontmatter_of(date_field@, content@) {
            Some(v) => first_word(v),
            None => Seq::empty(),
        },
        r.description@ == or_empty_view(frontmatter_of("description"@, content@)),
        opt_view(r.image) == frontmatter_of("image"@, content@),
{
    let title = match frontmatter("title", content.as_str()) {
        Some(t) => t,
        None => String::new(),
    };
    let date = match frontmatter_date(date_field, content.as_str()) {
        Some(d) => d,
        None => String::new(),
    };
    let description = match frontmatter("description", content.as_str()) {
        Some(d) => d,
        None => String::new(),
    };
    let image = frontmatter("image", content.as_str());
    Post { slug, title, date, description, image, content, path }
}

/// The text of an optional value, empty when absent.
pub open spec fn or_empty_view(o: Option<Seq<char>>) -> Seq<char> {
    match o {
        Some(s) => s,
        None => Seq::empty(),
    }
}

/// The dates of `posts`, as plain text.
pub open spec fn dates(posts: Seq<Post>) -> Seq<Seq<char>> {
    posts.map_values(|p: Post| p.date@)
}

/// `x` put into the newest-first list `s` after every post that is not older.
pub open spec fn insert_newest(s: Seq<Post>, x: Post) -> Seq<Post>
    decreases s.len(),
{
    if s.len() == 0 {
        seq![x]
    } else if lex_le(x.date@, s.last().date@) {
        s.push(x)
    } else {
        insert_newest(s.drop_last(), x).push(s.last())
    }
}

/// `posts` newest first by date text, posts with equal dates keeping their order.
pub open spec fn newest_first(posts: Seq<Post>) -> Seq<Post>
    decreases posts.len(),
{
    if posts.len() == 0 {
        Seq::empty()
    } else {
        insert_newest(newest_first(posts.drop_last()), posts.last())
    }
}

proof fn lemma_insert_newest_at(s: Seq<Post>, x: Post, p: int)
    requires
        0 <= p <= s.len(),
        p == 0 || lex_le(x.date@, s[p - 1].date@),
        forall|k: int| p <= k < s.len() ==> !lex_le(x.date@, (#[trigger] s[k]).date@),
    ensures
        insert_newest(s, x) == s.insert(p, x),
    decreases s.len(),
{
    if s.len() == 0 {
        assert(s.insert(p, x) =~= seq![x]);
    } else if p == s.len() {
        assert(s.insert(p, x) =~= s.push(x));
    } else {
        lemma_insert_newest_at(s.drop_last(), x, p);
        assert(s.insert(p, x) =~= s.drop_last().insert(p, x).push(s.last()));
    }
}

/// Sort posts newest first by their date text (a stable sort).
pub fn sort_posts_newest_first(posts: Vec<Post>) -> (r: Vec<Post>)
    ensures
        r@ == newest_first(posts@),
{
    let ghost sv = posts@;
    let n = posts.len();
    let mut posts = posts;
    let mut rev: Vec<Post> = Vec::new();
    while posts.len() > 0
        invariant
            posts@.len() <= n == sv.len(),
            posts@ == sv.take(posts@.len() as int),
            rev@.len() == n - posts@.len(),
            forall|t: int| 0 <= t < rev@.len() ==> #[trigger] rev@[t] == sv[n - 1 - t],
        decreases posts@.len(),
    {
        let p = posts.pop().unwrap();
        rev.push(p);
        assert(posts@ =~= sv.take(posts@.len() as int));
    }
    let mut out: Vec<Post> = Vec::new();
    assert(sv.take(0) =~= Seq::<Post>::empty());
    while rev.len() > 0
        invariant
            rev@.len() <= n == sv.len(),
            forall|t: int| 0 <= t < rev@.len() ==> #[trigger] rev@[t] == sv[n - 1 - t],
            out@ == newest_first(sv.take(n - rev@.len())),
        decreases rev@.len(),
    {
        let k = n - rev.len();
        let x = rev.pop().unwrap();
        assert(x == sv[k as int]);
        assert(sv.take(k + 1).drop_last() =~= sv.take(k as int));
        let ghost s = out@;
        let xd = chars_of(x.date.as_str());
        let mut p = out.len();
        while p > 0 && !lex_le_exec(&xd, &chars_of(out[p - 1].date.as_str()))
            invariant
                p <= out@.len(),
                s == out@,
                xd@ == x.date@,
                forall|j: int| p <= j < s.len() ==> !lex_le(x.date@, (#[trigger] s[j]).date@),
            decreases p,
        {
            p -= 1;
        }
        proof {
            lemma_insert_newest_at(s, x, p as int);
        }
        out.insert(p, x);
    }
    assert(sv.take(n as int) =~= sv);
    out
}

/// The address of a post: the site's URL, then its link.
pub open spec fn article_link(base: Seq<char>, prefix: Seq<char>, slug: Seq<char>) -> Seq<char> {
    base + seq!['/'] + post_href(slug, prefix)
}

/// The address of a post.
pub fn article_url(base_url: &str, articles_prefix: &str, slug: &str) -> (r: String)
    ensures
        r@ == article_link(base_url@, articles_prefix@, slug@),
{
    let mut out = chars_of(base_url);
    out.push('/');
    if !articles_prefix.is_empty() {
        push_str(&mut out, articles_prefix);
        out.push('/');
    }
    push_str(&mut out, slug);
    push_str(&mut out, ".html");
    string_of(&out)
}

/// The sitemap: the site's root, then the article entries.
pub open spec fn sitemap_text(url: Seq<char>, entries: Seq<char>) -> Seq<char> {
    "<?xml version=\"1.0\" encoding=\"UTF-8\"?>\n<urlset xmlns=\"http://www.sitemaps.org/schemas/sitemap/0.9\">\n<url><loc>"@
        + url + "/</loc></url>\n"@ + entries + "</urlset>"@
}

/// The sitemap of a site at `url` with the given article entries.
pub fn sitemap_xml(url: &str, sitemap_entries: &str) -> (r: String)
    ensures
        r@ == sitemap_text(url@, sitemap_entries@),
{
    let mut out = chars_of("<?xml version=\"1.0\" encoding=\"UTF-8\"?>\n<urlset xmlns=\"http://www.sitemaps.org/schemas/sitemap/0.9\">\n<url><loc>");
    push_str(&mut out, url);
    push_str(&mut out, "/</loc></url>\n");
    push_str(&mut out, sitemap_entries);
    push_str(&mut out, "</urlset>");
    string_of(&out)
}

/// The page of an article with the script loading analytics put before the
/// closing body tag (nothing changes without an analytics id).
pub open spec fn with_analytics(page: Seq<char>, ga: Seq<char>) -> Seq<char> {
    if ga.len() == 0 { page } else { replace_all(page, "</body>"@, ga + "</body>"@) }
}

/// Put the analytics script for `analytics_id` before the closing body tag.
pub fn inject_analytics(page: &str, analytics_id: &str) -> (r: String)
    ensures
        r@ == with_analytics(
            page@,
            if analytics_id@.len() == 0 { Seq::empty() } else { crate::engine::analytics::ga_script(analytics_id@) },
        ),
{
    let ga = crate::engine::analytics::ga_script_tag(analytics_id);
    if ga.as_str().is_empty() {
        return String::from_str(page);
    }
    proof {
        reveal_strlit("</body>");
    }
    let p = chars_of(page);
    let pat = chars_of("</body>");
    let mut with = chars_of(ga.as_str());
    push_str(&mut with, "</body>");
    let out = replace_chars(&p, &pat, &with);
    string_of(&out)
}

/// The body of an article in markdown: what follows its frontmatter, with
/// blank lines put before lists and quotes.
pub open spec fn body_text(content: Seq<char>) -> Seq<char> {
    crate::engine::config::spaced(crate::engine::config::after_fences(std_lines(content), 0), Seq::empty())
}

/// The variables of the article template for `post`, whose body renders to `html_body`.
pub open spec fn article_vars(cfg: BlogConfig, post: Post, prefix: Seq<char>, html_body: Seq<char>) -> Seq<(Seq<char>, Seq<char>)> {
    let description = if post.description@.len() == 0 {
        snippet_of(body_text(post.content@), None, 160)
    } else {
        post.description@
    };
    let og = match post.image {
        Some(i) => i@,
        None => Seq::empty(),
    };
    seq![
        ("title"@, post.title@),
        ("body"@, html_body),
        ("date"@, post.date@),
        ("description"@, description),
        ("site-title"@, cfg.title@),
        ("site-author"@, cfg.author@),
        ("site-url"@, cfg.url@),
        ("slug"@, if prefix.len() == 0 { post.slug@ } else { prefix + seq!['/'] + post.slug@ }),
        ("lang"@, cfg.lang@),
        ("base-path"@, if prefix.len() == 0 { Seq::empty() } else { "../"@ }),
        ("og-image"@, og),
        ("twitter-card"@, if og.len() == 0 { "summary"@ } else { "summary_large_image"@ }),
    ]
}

/// The page of an article: the article template with its variables; the
/// post's markdown body was rendered to `html_body` by the caller.
pub fn render_article_page(cfg: &BlogConfig, post: &Post, articles_prefix: &str, article_tpl: &str, html_body: &str) -> (r: String)
    ensures
        r@ == rendered(article_tpl@, article_vars(*cfg, *post, articles_prefix@, html_body@)),
{
    let body = post_body(post.content.as_str());
    let description = if post.description.as_str().is_empty() {
        post_snippet(body.as_str(), None, 160)
    } else {
        post.description.clone()
    };
    let slug = if articles_prefix.is_empty() {
        post.slug.clone()
    } else {
        let mut s = chars_of(articles_prefix);
        s.push('/');
        push_str(&mut s, post.slug.as_str());
        string_of(&s)
    };
    let base_path = if articles_prefix.is_empty() { "" } else { "../" };
    let og = match &post.image {
        Some(i) => resolve_og_image(Some(i.as_str()), None),
        None => resolve_og_image(None, None),
    };
    let card = twitter_card(og);
    let mut vars: Vec<(&str, &str)> = Vec::new();
    vars.push(("title", post.title.as_str()));
    vars.push(("body", html_body));
    vars.push(("date", post.date.as_str()));
    vars.push(("description", description.as_str()));
    vars.push(("site-title", cfg.title.as_str()));
    vars.push(("site-author", cfg.author.as_str()));
    vars.push(("site-url", cfg.url.as_str()));
    vars.push(("slug", slug.as_str()));
    vars.push(("lang", cfg.lang.as_str()));
    vars.push(("base-path", base_path));
    vars.push(("og-image", og));
    vars.push(("twitter-card", card));
    proof {
        reveal_strlit("");
    }
    let ghost vv = vars_view(vars@);
    let ghost want = article_vars(*cfg, *post, articles_prefix@, html_body@);
    assert(vv.len() == 12);
    assert(vv[3] == want[3]);
    assert(vv[7] == want[7]);
    assert(vv[9] == want[9]);
    assert(vv[10] == want[10]);
    assert(vv[11] == want[11]);
    assert(vv =~= want);
    template_render(article_tpl, vars.as_slice())
}

/// The 404 page: its template with the site's title and language.
pub fn render_404_page(cfg: &BlogConfig, error_tpl: &str) -> (r: String)
    ensures
        r@ == rendered(error_tpl@, seq![("title"@, cfg.title@), ("lang"@, cfg.lang@)]),
{
    let mut vars: Vec<(&str, &str)> = Vec::new();
    vars.push(("title", cfg.title.as_str()));
    vars.push(("lang", cfg.lang.as_str()));
    assert(vars_view(vars@) =~= seq![("title"@, cfg.title@), ("lang"@, cfg.lang@)]);
    template_render(error_tpl, vars.as_slice())
}

/// The feed items of the first `n` posts, the `i`-th post's body rendered to `bodies[i]`.
pub open spec fn feed_items(cfg: BlogConfig, posts: Seq<Post>, prefix: Seq<char>, bodies: Seq<Seq<char>>, n: int) -> Seq<char>
    decreases n,
{
    if n <= 0 {
        Seq::empty()
    } else {
        let p = posts[n - 1];
        let link = cfg.url@ + seq!['/'] + (if prefix.len() == 0 { Seq::empty() } else { prefix + seq!['/'] })
            + p.slug@ + ".html"@;
        feed_items(cfg, posts, prefix, bodies, n - 1) + "<item>\n<title>"@ + xml_escaped(p.title@) + "</title>\n<link>"@
            + link + "</link>\n<guid>"@ + link + "</guid>\n<description><![CDATA["@ + bodies[n - 1]
            + "]]></description>\n<pubDate>"@ + p.date@ + "</pubDate>\n</item>\n"@
    }
}

/// The RSS feed: channel header, then the 20 newest posts as given.
pub open spec fn feed_text(cfg: BlogConfig, posts: Seq<Post>, prefix: Seq<char>, bodies: Seq<Seq<char>>) -> Seq<char> {
    let n = if posts.len() < 20 { posts.len() as int } else { 20 };
    "<?xml version=\"1.0\" encoding=\"UTF-8\"?>\n<rss version=\"2.0\" xmlns:atom=\"http://www.w3.org/2005/Atom\">\n<channel>\n<title>"@
        + cfg.title@ + "</title>\n<link>"@ + cfg.url@ + "</link>\n<description>"@ + or_empty(cfg.subtitle)
        + "</description>\n<atom:link href=\""@ + cfg.url@ + "/feed.xml\" rel=\"self\" type=\"application/rss+xml\"/>\n"@
        + feed_items(cfg, posts, prefix, bodies, n) + "</channel></rss>\n"@
}

/// The RSS feed of the site; `html_bodies[i]` is the rendered body of `posts[i]`.
pub fn feed_xml(cfg: &BlogConfig, posts: &[Post], articles_prefix: &str, html_bodies: &[String]) -> (r: String)
    requires
        html_bodies@.len() >= (if posts@.len() < 20 { posts@.len() as int } else { 20 }),
    ensures
        r@ == feed_text(*cfg, posts@, articles_prefix@, html_bodies@.map_values(|b: String| b@)),
{
    let subtitle = match &cfg.subtitle {
        Some(s) => s.clone(),
        None => String::new(),
    };
    let head = rss_header(cfg.title.as_str(), cfg.url.as_str(), subtitle.as_str());
    let mut out = chars_of(head.as_str());
    let ghost base = out@;
    let ghost bv = html_bodies@.map_values(|b: String| b@);
    let n = if posts.len() < 20 { posts.len() } else { 20 };
    let mut i: usize = 0;
    while i < n
        invariant
            i <= n <= posts@.len(),
            n <= html_bodies@.len(),
            bv == html_bodies@.map_values(|b: String| b@),
            out@ == base + feed_items(*cfg, posts@, articles_prefix@, bv, i as int),
        decreases n - i,
    {
        let post = &posts[i];
        let mut link = chars_of(cfg.url.as_str());
        link.push('/');
        if !articles_prefix.is_empty() {
            push_str(&mut link, articles_prefix);
            link.push('/');
        }
        push_str(&mut link, post.slug.as_str());
        push_str(&mut link, ".html");
        let link_s = string_of(&link);
        let ghost want_link = cfg.url@ + seq!['/'] + (if articles_prefix@.len() == 0 {
            Seq::empty()
        } else {
            articles_prefix@ + seq!['/']
        }) + post.slug@ + ".html"@;
        assert(link_s@ =~= want_link);
        let item = rss_item(post.title.as_str(), link_s.as_str(), html_bodies[i].as_str(), post.date.as_str());
        assert(bv[i as int] == html_bodies@[i as int]@);
        let ghost before = out@;
        push_str(&mut out, item.as_str());
        proof {
            let prev = feed_items(*cfg, posts@, articles_prefix@, bv, i as int);
            assert(feed_items(*cfg, posts@, articles_prefix@, bv, i + 1) == prev + item@);
        }
        i += 1;
        assert(out@ =~= base + feed_items(*cfg, posts@, articles_prefix@, bv, i as int));
    }
    push_str(&mut out, "</channel></rss>\n");
    string_of(&out)
}

/// The markdown body previewed for `content`: the body after its
/// frontmatter when it starts with `---`, otherwise the whole text.
pub open spec fn preview_body_of(content: Seq<char>) -> Seq<char> {
    if crate::text::starts_with(content, "---"@) { body_text(content) } else { content }
}

/// The markdown body previewed for `content` (its HTML is rendered by the caller).
pub fn preview_body(content: &str) -> (r: String)
    ensures
        r@ == preview_body_of(content@),
{
    let cs = chars_of(content);
    if crate::text::has_prefix(&cs, &chars_of("---")) {
        post_body(content)
    } else {
        String::from_str(content)
    }
}

/// The variables of the preview page.
pub open spec fn preview_vars(content: Seq<char>, title: Seq<char>, cfg: BlogConfig, html_body: Seq<char>) -> Seq<(Seq<char>, Seq<char>)> {
    let date = if crate::text::starts_with(content, "---"@) {
        match frontmatter_of(cfg.date_field@, content) {
            Some(v) => first_word(v),
            None => Seq::empty(),
        }
    } else {
        Seq::empty()
    };
    seq![
        ("title"@, title),
        ("body"@, html_body),
        ("date"@, date),
        ("description"@, snippet_of(preview_body_of(content), None, 160)),
        ("site-title"@, cfg.title@),
        ("site-author"@, cfg.author@),
        ("site-url"@, cfg.url@),
        ("slug"@, "preview"@),
        ("lang"@, cfg.lang@),
        ("base-path"@, Seq::empty()),
        ("og-image"@, Seq::empty()),
        ("twitter-card"@, "summary"@),
    ]
}

/// Render an article for the editor's preview: the article template filled
/// from the content (which may lack frontmatter); `html_body` is the
/// rendering of `preview_body(content)`.
pub fn render_preview_html(content: &str, title: &str, cfg: &BlogConfig, article_tpl: &str, html_body: &str) -> (r: String)
    ensures
        r@ == rendered(article_tpl@, preview_vars(content@, title@, *cfg, html_body@)),
{
    let cs = chars_of(content);
    let has_frontmatter = crate::text::has_prefix(&cs, &chars_of("---"));
    let body = preview_body(content);
    let description = post_snippet(body.as_str(), None, 160);
    let date = if has_frontmatter {
        match frontmatter_date(cfg.date_field.as_str(), content) {
            Some(d) => d,
            None => String::new(),
        }
    } else {
        String::new()
    };
    let mut vars: Vec<(&str, &str)> = Vec::new();
    vars.push(("title", title));
    vars.push(("body", html_body));
    vars.push(("date", date.as_str()));
    vars.push(("description", description.as_str()));
    vars.push(("site-title", cfg.title.as_str()));
    vars.push(("site-author", cfg.author.as_str()));
    vars.push(("site-url", cfg.url.as_str()));
    vars.push(("slug", "preview"));
    vars.push(("lang", cfg.lang.as_str()));
    vars.push(("base-path", ""));
    vars.push(("og-image", ""));
    vars.push(("twitter-card", "summary"));
    proof {
        reveal_strlit("");
    }
    let ghost vv = vars_view(vars@);
    let ghost want = preview_vars(content@, title@, *cfg, html_body@);
    assert(vv.len() == 12);
    assert(vv[2] == want[2]);
    assert(vv[3] == want[3]);
    assert(vv[9] == want[9]);
    assert(vv[10] == want[10]);
    assert(vv =~= want);
    template_render(article_tpl, vars.as_slice())
}

} // verus!
