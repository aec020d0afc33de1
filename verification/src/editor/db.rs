use vstd::prelude::*;
use crate::trusted::{is_alphanumeric, str_lowercase, to_lowercase_str, unicode_alphanumeric};
use crate::engine::config::{extract_tags, first_word, frontmatter, frontmatter_date, frontmatter_of, tags_scan};
use crate::text::{
    chars_of, join_chars, join_with, opt_view, push_all, push_str, replace_all, replace_chars, same_chars,
    split_chars, split_on, std_lines, string_of, strings_view, trim, trim_ws, vecs_view,
};

verus! {

/// Publication state of an article.
#[derive(Debug, Clone, Copy, PartialEq, Eq, Structural)]
pub enum Status {
    Draft,
    Published,
}

/// The stored name of a status.
pub open spec fn status_name(s: Status) -> Seq<char> {
    match s {
        Status::Draft => "draft"@,
        Status::Published => "published"@,
    }
}

impl Status {
    /// The stored name of the status.
    pub fn as_str(&self) -> (r: &'static str)
        ensures
            r@ == status_name(*self),
    {
        match self {
            Status::Draft => "draft",
            Status::Published => "published",
        }
    }

    /// Parse a stored status name; any other text is returned as the error.
    pub fn from_str(s: &str) -> (r: Result<Status, String>)
        ensures
            match r {
                Ok(st) => status_name(st) == s@,
                Err(e) => e@ == s@ && s@ != "draft"@ && s@ != "published"@,
            },
    {
        let c = chars_of(s);
        let d = chars_of("draft");
        let p = chars_of("published");
        if same_chars(&c, &d) {
            Ok(Status::Draft)
        } else if same_chars(&c, &p) {
            Ok(Status::Published)
        } else {
            Err(string_of(&c))
        }
    }
}

/// One article of the CMS.
#[derive(Debug, Clone)]
pub struct Article {
    pub id: i64,
    pub title: String,
    pub slug: String,
    pub content: String,
    pub status: Status,
    pub language: String,
    pub pinned: bool,
    pub tags: Vec<String>,
    pub published_at: Option<String>,
    pub created_at: String,
    pub updated_at: String,
}

/// The tags as a YAML flow list of quoted strings, `"a", "b"`.
pub open spec fn quoted_tags(tags: Seq<Seq<char>>) -> Seq<char>
    decreases tags.len(),
{
    if tags.len() == 0 {
        Seq::empty()
    } else if tags.len() == 1 {
        seq!['"'] + tags[0] + seq!['"']
    } else {
        quoted_tags(tags.drop_last()) + ", "@ + seq!['"'] + tags.last() + seq!['"']
    }
}

/// The markdown file of an article: a frontmatter block with its title, its
/// publication date under `date_field` (when it has one), its tags (when it
/// has some) and its language (when it is not English), then a blank line
/// and the content.
pub open spec fn markdown_of(
    title: Seq<char>,
    published_at: Option<Seq<char>>,
    tags: Seq<Seq<char>>,
    language: Seq<char>,
    content: Seq<char>,
    date_field: Seq<char>,
) -> Seq<char> {
    let head = "---\n"@ + "title: "@ + title + seq!['\n'];
    let with_date = match published_at {
        Some(d) => head + date_field + ": "@ + d + seq!['\n'],
        None => head,
    };
    let with_tags = if tags.len() > 0 {
        with_date + "tags: ["@ + quoted_tags(tags) + "]\n"@
    } else {
        with_date
    };
    let with_lang = if language != "en"@ {
        with_tags + "language: "@ + language + seq!['\n']
    } else {
        with_tags
    };
    with_lang + "---\n\n"@ + content
}

/// Build frontmatter + content for writing a published .md file.
pub fn build_markdown(article: &Article, date_field: &str) -> (r: String)
    ensures
        r@ == markdown_of(
            article.title@,
            crate::text::opt_view(article.published_at),
            strings_view(article.tags@),
            article.language@,
            article.content@,
            date_field@,
        ),
{
    let mut md = chars_of("---\n");
    push_str(&mut md, "title: ");
    push_str(&mut md, article.title.as_str());
    md.push('\n');
    match &article.published_at {
        Some(date) => {
            push_str(&mut md, date_field);
            push_str(&mut md, ": ");
            push_str(&mut md, date.as_str());
            md.push('\n');
        },
        None => {},
    }
    let ghost tv = strings_view(article.tags@);
    if article.tags.len() > 0 {
        push_str(&mut md, "tags: [");
        let ghost base = md@;
        let mut i: usize = 0;
        while i < article.tags.len()
            invariant
                i <= article.tags@.len(),
                tv == strings_view(article.tags@),
                md@ == base + quoted_tags(tv.take(i as int)),
            decreases article.tags@.len() - i,
        {
            assert(tv.take(i + 1).drop_last() =~= tv.take(i as int));
            if i > 0 {
                push_str(&mut md, ", ");
            }
            md.push('"');
            push_str(&mut md, article.tags[i].as_str());
            md.push('"');
            i += 1;
            if i == 1 {
                assert(quoted_tags(tv.take(1)) == seq!['"'] + tv[0] + seq!['"']);
            }
            assert(md@ =~= base + quoted_tags(tv.take(i as int)));
        }
        assert(tv.take(i as int) =~= tv);
        push_str(&mut md, "]\n");
    }
    let lang = chars_of(article.language.as_str());
    let en = chars_of("en");
    if !same_chars(&lang, &en) {
        push_str(&mut md, "language: ");
        push_all(&mut md, &lang);
        md.push('\n');
    }
    push_str(&mut md, "---\n\n");
    push_str(&mut md, article.content.as_str());
    proof {
        reveal_strlit("---\n");
    }
    string_of(&md)
}

/// Characters that are not alphanumeric turned into dashes.
pub open spec fn dash_non_alnum(s: Seq<char>) -> Seq<char> {
    s.map_values(|c: char| if unicode_alphanumeric(c) { c } else { '-' })
}

/// The pieces of `parts` that are not empty, in order.
pub open spec fn non_empty(parts: Seq<Seq<char>>) -> Seq<Seq<char>>
    decreases parts.len(),
{
    if parts.len() == 0 {
        Seq::empty()
    } else if parts.last().len() > 0 {
        non_empty(parts.drop_last()).push(parts.last())
    } else {
        non_empty(parts.drop_last())
    }
}

/// The slug of a title: lowercased, non-alphanumerics made dashes, dash runs
/// collapsed and dashes at the ends dropped.
pub open spec fn slug_of(title: Seq<char>) -> Seq<char> {
    join_with(non_empty(split_on(dash_non_alnum(str_lowercase(title)), '-')), "-"@)
}

/// The pieces of `parts` that are not empty.
fn keep_non_empty(parts: Vec<Vec<char>>) -> (r: Vec<Vec<char>>)
    ensures
        vecs_view(r@) == non_empty(vecs_view(parts@)),
{
    let mut out: Vec<Vec<char>> = Vec::new();
    let ghost pv = vecs_view(parts@);
    let mut i: usize = 0;
    while i < parts.len()
        invariant
            i <= parts@.len(),
            pv == vecs_view(parts@),
            vecs_view(out@) == non_empty(pv.take(i as int)),
        decreases parts@.len() - i,
    {
        assert(pv.take(i + 1).drop_last() =~= pv.take(i as int));
        let ghost before = vecs_view(out@);
        if parts[i].len() > 0 {
            out.push(parts[i].clone());
            assert(vecs_view(out@) =~= before.push(pv[i as int]));
        }
        i += 1;
    }
    assert(pv.take(i as int) =~= pv);
    out
}

/// Lowercase the title, turn non-alphanumerics into dashes, collapse dash runs.
pub fn slugify(title: &str) -> (r: String)
    ensures
        r@ == slug_of(title@),
{
    let lower = to_lowercase_str(title);
    let cs = chars_of(lower.as_str());
    let mut mapped: Vec<char> = Vec::new();
    let mut i: usize = 0;
    while i < cs.len()
        invariant
            i <= cs@.len(),
            mapped@ == dash_non_alnum(cs@.take(i as int)),
        decreases cs@.len() - i,
    {
        let c = cs[i];
        if is_alphanumeric(c) {
            mapped.push(c);
        } else {
            mapped.push('-');
        }
        i += 1;
        assert(mapped@ =~= dash_non_alnum(cs@.take(i as int)));
    }
    assert(cs@.take(i as int) =~= cs@);
    let parts = split_chars(&mapped, '-');
    let kept = keep_non_empty(parts);
    let joined = join_chars(&kept, "-");
    string_of(&joined)
}

/// The tags trimmed and lowercased, empty ones dropped and each kept once,
/// in order of first appearance.
pub open spec fn normalized_tags(tags: Seq<Seq<char>>) -> Seq<Seq<char>>
    decreases tags.len(),
{
    if tags.len() == 0 {
        Seq::empty()
    } else {
        let prev = normalized_tags(tags.drop_last());
        let n = str_lowercase(trim_ws(tags.last()));
        if n.len() > 0 && !prev.contains(n) {
            prev.push(n)
        } else {
            prev
        }
    }
}

/// Trim, lowercase and deduplicate tags (empty ones are dropped).
pub fn normalize_tags(tags: &[String]) -> (r: Vec<String>)
    ensures
        strings_view(r@) == normalized_tags(strings_view(tags@)),
{
    let ghost tv = strings_view(tags@);
    let mut out: Vec<String> = Vec::new();
    let mut i: usize = 0;
    while i < tags.len()
        invariant
            i <= tags@.len(),
            tv == strings_view(tags@),
            strings_view(out@) == normalized_tags(tv.take(i as int)),
        decreases tags@.len() - i,
    {
        assert(tv.take(i + 1).drop_last() =~= tv.take(i as int));
        let cs = chars_of(tags[i].as_str());
        let t = trim(&cs);
        let ts = string_of(&t);
        let n = to_lowercase_str(ts.as_str());
        let nc = chars_of(n.as_str());
        let ghost before = strings_view(out@);
        if nc.len() > 0 {
            let mut seen = false;
            let mut j: usize = 0;
            while j < out.len()
                invariant
                    j <= out@.len(),
                    strings_view(out@) == before,
                    nc@ == n@,
                    seen <==> exists|k: int| 0 <= k < j && before[k] == n@,
                decreases out@.len() - j,
            {
                let oc = chars_of(out[j].as_str());
                assert(before[j as int] == oc@);
                if same_chars(&oc, &nc) {
                    seen = true;
                }
                j += 1;
                proof {
                    if !seen {
                        assert forall|k: int| 0 <= k < j implies before[k] != n@ by {
                            if k < j - 1 {
                            }
                        }
                    }
                }
            }
            proof {
                if before.contains(n@) {
                    let k = choose|k: int| 0 <= k < before.len() && before[k] == n@;
                    assert(0 <= k < j && before[k] == n@);
                }
            }
            if !seen {
                out.push(n);
                assert(strings_view(out@) =~= before.push(n@));
            }
        }
        i += 1;
    }
    assert(tv.take(i as int) =~= tv);
    out
}

/// The slug tried at attempt `attempt` when giving an article a slug no
/// other article has: the base first, then `base-2` to `base-99`; after that
/// there is none left to try.
pub open spec fn slug_candidate_of(base: Seq<char>, attempt: nat) -> Option<Seq<char>> {
    if attempt == 0 {
        Some(base)
    } else if attempt <= 98 {
        Some(base + seq!['-'] + crate::text::decimal(attempt + 1))
    } else {
        None
    }
}

/// The slug to try at `attempt`, as `slug_candidate_of` describes it.
pub fn slug_candidate(base: &str, attempt: u32) -> (r: Option<String>)
    ensures
        crate::text::opt_view(r) == slug_candidate_of(base@, attempt as nat),
{
    if attempt == 0 {
        Some(String::from_str(base))
    } else if attempt <= 98 {
        let mut out = chars_of(base);
        out.push('-');
        let n = crate::text::decimal_of((attempt + 1) as usize);
        crate::text::push_all(&mut out, &n);
        Some(crate::text::string_of(&out))
    } else {
        None
    }
}

/// The tags stored in a column: comma-separated, each trimmed; none for an
/// empty column.
pub open spec fn column_tags(s: Seq<char>) -> Seq<Seq<char>> {
    if s.len() == 0 {
        Seq::empty()
    } else {
        crate::text::split_on(s, ',').map_values(|t: Seq<char>| crate::text::trim_ws(t))
    }
}

/// Reads the tags column of an article row.
pub fn tags_from_column(s: &str) -> (r: Vec<String>)
    ensures
        strings_view(r@) == column_tags(s@),
{
    let cs = chars_of(s);
    let mut out: Vec<String> = Vec::new();
    if cs.len() == 0 {
        assert(strings_view(out@) =~= column_tags(s@));
        return out;
    }
    let parts = crate::text::split_chars(&cs, ',');
    let ghost ps = crate::text::vecs_view(parts@);
    let mut i: usize = 0;
    while i < parts.len()
        invariant
            i <= parts@.len(),
            ps == crate::text::vecs_view(parts@),
            ps == crate::text::split_on(s@, ','),
            strings_view(out@) =~= ps.take(i as int).map_values(|t: Seq<char>| crate::text::trim_ws(t)),
        decreases parts@.len() - i,
    {
        let t = crate::text::trim(&parts[i]);
        assert(ps[i as int] == parts@[i as int]@);
        let ghost before = out@;
        out.push(crate::text::string_of(&t));
        assert(strings_view(out@) =~= strings_view(before).push(t@));
        assert(ps.take(i + 1) =~= ps.take(i as int).push(ps[i as int]));
        i += 1;
        assert(strings_view(out@) =~= ps.take(i as int).map_values(|t: Seq<char>| crate::text::trim_ws(t)));
    }
    assert(ps.take(i as int) =~= ps);
    out
}

/// What an imported `.md` file gives its article: title (the slug when
/// the frontmatter has none), date, language (`en` when none) and the
/// tags column (the tags joined by commas).
pub struct ImportedPost {
    pub title: String,
    pub date: Option<String>,
    pub language: String,
    pub tags: String,
}

/// The article fields of the `.md` file `content` named `slug`, its date
/// read from the frontmatter field `date_field`.
pub fn imported_post(slug: &str, content: &str, date_field: &str) -> (r: ImportedPost)
    ensures
        r.title@ == match frontmatter_of("title"@, content@) {
            Some(t) => t,
            None => slug@,
        },
        opt_view(r.date) == match frontmatter_of(date_field@, content@) {
            Some(v) => Some(first_word(v)),
            None => None,
        },
        r.language@ == match frontmatter_of("language"@, content@) {
            Some(l) => l,
            None => "en"@,
        },
        r.tags@ == replace_all(tags_scan(std_lines(content@)), seq![' '], seq![',']),
{
    let title = match frontmatter("title", content) {
        Some(t) => t,
        None => String::from_str(slug),
    };
    let date = frontmatter_date(date_field, content);
    let language = match frontmatter("language", content) {
        Some(l) => l,
        None => String::from_str("en"),
    };
    let spaced = chars_of(extract_tags(content).as_str());
    let mut space: Vec<char> = Vec::new();
    space.push(' ');
    let mut comma: Vec<char> = Vec::new();
    comma.push(',');
    assert(space@ =~= seq![' ']);
    assert(comma@ =~= seq![',']);
    let tags = string_of(&replace_chars(&spaced, &space, &comma));
    ImportedPost { title, date, language, tags }
}

} // verus!
