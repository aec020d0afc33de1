use vstd::prelude::*;
use std::path::PathBuf;
use crate::text::{chars_of, push_str, string_of, decimal, decimal_of, push_all, same_chars, find_chars, find_from, lex_le, lex_le_exec};
use crate::trusted::{str_lowercase, to_lowercase_str};

verus! {

/// Whether `c` is an ASCII letter or digit.
pub open spec fn ascii_alnum(c: char) -> bool {
    ('a' <= c && c <= 'z') || ('A' <= c && c <= 'Z') || ('0' <= c && c <= '9')
}

/// `c` with an ASCII capital letter turned into its small letter.
pub open spec fn ascii_lower(c: char) -> char {
    if 'A' <= c && c <= 'Z' {
        ((c as u32) + 32) as char
    } else {
        c
    }
}

/// The characters of `s` after `i`: ASCII letters and digits lowercased, each
/// run of other characters that follows one of them made a single dash
/// (`dash` tells whether the text so far ended in such a dash or was empty).
pub open spec fn dashed(s: Seq<char>, dash: bool) -> Seq<char>
    decreases s.len(),
{
    if s.len() == 0 {
        Seq::empty()
    } else if ascii_alnum(s[0]) {
        seq![ascii_lower(s[0])] + dashed(s.drop_first(), false)
    } else if !dash {
        seq!['-'] + dashed(s.drop_first(), true)
    } else {
        dashed(s.drop_first(), true)
    }
}

/// `s` without trailing dashes.
pub open spec fn trim_dashes_end(s: Seq<char>) -> Seq<char>
    decreases s.len(),
{
    if s.len() > 0 && s.last() == '-' {
        trim_dashes_end(s.drop_last())
    } else {
        s
    }
}

/// Lowercased, with runs of non-alphanumerics made single dashes and no dash
/// at either end.
pub open spec fn sanitized(s: Seq<char>) -> Seq<char> {
    trim_dashes_end(dashed(s, true))
}

/// Lowercase, replace non-alphanumeric runs with single dashes, trim dashes.
pub fn sanitize(input: &str) -> (r: String)
    ensures
        r@ == sanitized(input@),
{
    let s = chars_of(input);
    let mut out: Vec<char> = Vec::new();
    let mut last_dash = true;
    let mut i: usize = 0;
    assert(s@.skip(0) =~= s@);
    while i < s.len()
        invariant
            i <= s@.len(),
            out@ + dashed(s@.skip(i as int), last_dash) == dashed(s@, true),
        decreases s@.len() - i,
    {
        let ch = s[i];
        assert(s@.skip(i as int).drop_first() =~= s@.skip(i + 1));
        if ('a' <= ch && ch <= 'z') || ('A' <= ch && ch <= 'Z') || ('0' <= ch && ch <= '9') {
            let lower = if 'A' <= ch && ch <= 'Z' {
                let code: u8 = ch as u8 + 32;
                code as char
            } else {
                ch
            };
            assert(lower == ascii_lower(ch));
            out.push(lower);
            last_dash = false;
        } else if !last_dash {
            out.push('-');
            last_dash = true;
        }
        i += 1;
    }
    assert(s@.skip(i as int) =~= Seq::<char>::empty());
    assert(out@ + Seq::<char>::empty() =~= out@);
    let ghost full = out@;
    while out.len() > 0 && out[out.len() - 1] == '-'
        invariant
            trim_dashes_end(out@) == trim_dashes_end(full),
        decreases out@.len(),
    {
        out.pop();
    }
    string_of(&out)
}

/// The file name for `base` and extension `ext`, with `-counter` added when
/// the counter is not zero: `base[-n][.ext]`.
pub open spec fn file_name_for(base: Seq<char>, ext: Seq<char>, counter: nat) -> Seq<char> {
    let numbered = if counter == 0 { base } else { base + seq!['-'] + decimal(counter) };
    if ext.len() == 0 { numbered } else { numbered + seq!['.'] + ext }
}

/// Build `base[-counter][.ext]`.
pub fn build_filename(base: &str, ext: &str, counter: u32) -> (r: String)
    ensures
        r@ == file_name_for(base@, ext@, counter as nat),
{
    let mut out = chars_of(base);
    if counter != 0 {
        out.push('-');
        let digits = decimal_of(counter as usize);
        push_all(&mut out, &digits);
    }
    if !ext.is_empty() {
        out.push('.');
        push_str(&mut out, ext);
    }
    string_of(&out)
}

/// The first visible row of a list of `total` rows shown `visible` at a time,
/// so that row `selected` stays on screen.
pub open spec fn scroll_for(selected: int, total: int, visible: int) -> int {
    if visible == 0 || total <= visible {
        0
    } else {
        let want = if selected > visible - 1 { selected - (visible - 1) } else { 0 };
        if want < total - visible { want } else { total - visible }
    }
}

/// Scroll offset that keeps `selected` visible.
pub fn scroll_offset(selected: usize, total: usize, visible: usize) -> (r: usize)
    ensures
        r == scroll_for(selected as int, total as int, visible as int),
{
    if visible == 0 || total <= visible {
        return 0;
    }
    let max_offset = total - visible;
    let want = selected.saturating_sub(visible.saturating_sub(1));
    if want < max_offset { want } else { max_offset }
}

/// The name an uploaded image is stored under (before its extension): the
/// sanitized slug prefix and stem joined by a dash, or the stem alone when
/// the prefix sanitizes to nothing.
pub open spec fn upload_base(stem: Seq<char>, prefix: Seq<char>) -> Seq<char> {
    let p = sanitized(prefix);
    if p.len() == 0 { sanitized(stem) } else { p + seq!['-'] + sanitized(stem) }
}

/// The base file name for an upload of `stem` into an article with `slug_prefix`.
pub fn upload_base_name(stem: &str, slug_prefix: &str) -> (r: String)
    ensures
        r@ == upload_base(stem@, slug_prefix@),
{
    let stem_sanitized = sanitize(stem);
    let prefix_sanitized = sanitize(slug_prefix);
    if prefix_sanitized.as_str().is_empty() {
        stem_sanitized
    } else {
        let mut out = chars_of(prefix_sanitized.as_str());
        out.push('-');
        push_str(&mut out, stem_sanitized.as_str());
        string_of(&out)
    }
}

/// The extensions of the image files the picker offers.
pub open spec fn image_ext(ext: Seq<char>) -> bool {
    ext == "png"@ || ext == "jpg"@ || ext == "jpeg"@ || ext == "gif"@ || ext == "webp"@ || ext == "svg"@
}

/// Whether a file with extension `ext` (if any) is an image: its lowercased
/// extension is one of png, jpg, jpeg, gif, webp or svg.
pub fn is_image_ext(ext: &Option<String>) -> (r: bool)
    ensures
        r == match ext {
            Some(e) => image_ext(str_lowercase(e@)),
            None => false,
        },
{
    match ext {
        None => false,
        Some(e) => {
            let lower = to_lowercase_str(e.as_str());
            let l = chars_of(lower.as_str());
            same_chars(&l, &chars_of("png")) || same_chars(&l, &chars_of("jpg")) || same_chars(&l, &chars_of("jpeg"))
                || same_chars(&l, &chars_of("gif")) || same_chars(&l, &chars_of("webp")) || same_chars(
                &l,
                &chars_of("svg"),
            )
        },
    }
}

/// One row of the picker.
pub struct Entry {
    pub name: String,
    pub path: PathBuf,
    pub is_dir: bool,
    pub mtime: u64,
}

/// A directory entry as read from disk.
pub struct RawEntry {
    pub name: String,
    pub path: PathBuf,
    pub is_dir: bool,
    pub mtime: u64,
    pub extension: Option<String>,
}

/// The image picker.
pub struct UploadState {
    pub current_dir: PathBuf,
    /// `..` first, then the directories (alphabetical, ignoring case), then
    /// the image files (newest first).
    pub entries: Vec<Entry>,
    /// The search query; filters `entries` by case-insensitive substring.
    pub query: String,
    /// Indices into `entries` that match the query.
    pub visible: Vec<usize>,
    /// Position within `visible`.
    pub selected: usize,
    pub message: Option<String>,
}


/// An entry as a value: name, directory flag, modification time and path.
pub open spec fn entry_view(e: Entry) -> (Seq<char>, bool, u64, PathBuf) {
    (e.name@, e.is_dir, e.mtime, e.path)
}

pub open spec fn entries_view(v: Seq<Entry>) -> Seq<(Seq<char>, bool, u64, PathBuf)> {
    v.map_values(|e: Entry| entry_view(e))
}

/// `x` put into the directory list `s` after every directory whose key is not greater.
pub open spec fn insert_dir(s: Seq<(Seq<char>, bool, u64, PathBuf)>, x: (Seq<char>, bool, u64, PathBuf)) -> Seq<(Seq<char>, bool, u64, PathBuf)>
    decreases s.len(),
{
    if s.len() == 0 {
        seq![x]
    } else if lex_le(str_lowercase(s.last().0), str_lowercase(x.0)) {
        s.push(x)
    } else {
        insert_dir(s.drop_last(), x).push(s.last())
    }
}

/// `x` put into the file list `s` after every file that is not older.
pub open spec fn insert_file(s: Seq<(Seq<char>, bool, u64, PathBuf)>, x: (Seq<char>, bool, u64, PathBuf)) -> Seq<(Seq<char>, bool, u64, PathBuf)>
    decreases s.len(),
{
    if s.len() == 0 {
        seq![x]
    } else if s.last().2 >= x.2 {
        s.push(x)
    } else {
        insert_file(s.drop_last(), x).push(s.last())
    }
}

/// Whether a raw entry is listed: not hidden, and a directory or an image.
pub open spec fn listed(name: Seq<char>, is_dir: bool, ext: Option<Seq<char>>) -> bool {
    !(name.len() > 0 && name[0] == '.') && (is_dir || match ext {
        Some(e) => image_ext(str_lowercase(e)),
        None => false,
    })
}

/// The view of a raw entry: name, directory flag, time, extension, path.
pub open spec fn raw_view(e: RawEntry) -> (Seq<char>, bool, u64, Option<Seq<char>>, PathBuf) {
    (e.name@, e.is_dir, e.mtime, match e.extension {
        Some(x) => Some(x@),
        None => None,
    }, e.path)
}

/// The directories of a listing sorted by name ignoring case, and its image
/// files newest first (both sorts keep the listing's order among equals).
pub open spec fn arranged(raw: Seq<(Seq<char>, bool, u64, Option<Seq<char>>, PathBuf)>) -> (Seq<(Seq<char>, bool, u64, PathBuf)>, Seq<(Seq<char>, bool, u64, PathBuf)>)
    decreases raw.len(),
{
    if raw.len() == 0 {
        (Seq::empty(), Seq::empty())
    } else {
        let (dirs, files) = arranged(raw.drop_last());
        let r = raw.last();
        if !listed(r.0, r.1, r.3) {
            (dirs, files)
        } else if r.1 {
            (insert_dir(dirs, (r.0, r.1, r.2, r.4)), files)
        } else {
            (dirs, insert_file(files, (r.0, r.1, r.2, r.4)))
        }
    }
}

/// Whether a name contains the lowercased query, ignoring case.
pub open spec fn name_matches(name: Seq<char>, lowered_query: Seq<char>) -> bool {
    name == ".."@ || lowered_query.len() == 0 || find_from(str_lowercase(name), lowered_query, 0) >= 0
}

/// The indices below `n` of the entries the query lets through.
pub open spec fn matching(entries: Seq<(Seq<char>, bool, u64, PathBuf)>, q: Seq<char>, n: int) -> Seq<usize>
    decreases n,
{
    if n <= 0 {
        Seq::empty()
    } else if name_matches(entries[n - 1].0, q) {
        matching(entries, q, n - 1).push((n - 1) as usize)
    } else {
        matching(entries, q, n - 1)
    }
}

/// With an empty query every entry below `n` is let through, in order.
pub proof fn lemma_matching_all(entries: Seq<(Seq<char>, bool, u64, PathBuf)>, q: Seq<char>, n: int)
    requires
        q.len() == 0,
        0 <= n,
    ensures
        matching(entries, q, n) == Seq::new(n as nat, |i: int| i as usize),
    decreases n,
{
    if n > 0 {
        lemma_matching_all(entries, q, n - 1);
        assert(Seq::new(n as nat, |i: int| i as usize) =~= Seq::new((n - 1) as nat, |i: int| i as usize).push(
            (n - 1) as usize,
        ));
    } else {
        assert(Seq::new(n as nat, |i: int| i as usize) =~= Seq::<usize>::empty());
    }
}

/// Whether the visible rows of `s` are exactly the entries its query lets through.
pub open spec fn follows_query(s: UploadState) -> bool {
    s.visible@ == matching(entries_view(s.entries@), str_lowercase(s.query@), s.entries@.len() as int)
}

/// `b` is `a` with `ch` added to the query: the selection back at the top,
/// the visible rows following the new query, the rest unchanged.
pub open spec fn pushed(a: UploadState, ch: char, b: UploadState) -> bool {
    &&& b.query@ == a.query@.push(ch)
    &&& b.selected == 0
    &&& follows_query(b)
    &&& b.entries == a.entries
    &&& b.current_dir == a.current_dir
    &&& b.message == a.message
}

/// `b` is `a` with the query's last character dropped (`r`), or `a` itself
/// when the query was empty.
pub open spec fn popped(a: UploadState, r: bool, b: UploadState) -> bool {
    &&& r == (a.query@.len() > 0)
    &&& r ==> {
        &&& b.query@ == a.query@.drop_last()
        &&& b.selected == 0
        &&& follows_query(b)
        &&& b.entries == a.entries
        &&& b.current_dir == a.current_dir
        &&& b.message == a.message
    }
    &&& !r ==> b == a
}

/// A character pushed onto the query and popped again gives back the query
/// and, where the rows followed the query, the visible rows; the selection
/// ends at the top.
pub proof fn law_push_then_pop_query(s0: UploadState, ch: char, s1: UploadState, r: bool, s2: UploadState)
    requires
        follows_query(s0),
        pushed(s0, ch, s1),
        popped(s1, r, s2),
    ensures
        r,
        s2.query@ == s0.query@,
        s2.visible@ == s0.visible@,
        s2.selected == 0,
        s2.entries == s0.entries,
{
    assert(s0.query@.push(ch).drop_last() =~= s0.query@);
}

/// The lowercased characters of an entry's name.
fn lower_name(name: &String) -> (r: Vec<char>)
    ensures
        r@ == str_lowercase(name@),
        name@.len() == 0 ==> r@.len() == 0,
{
    let l = to_lowercase_str(name.as_str());
    proof {
        if name@.len() == 0 {
            assert(crate::trusted::all_ascii(name@));
        }
    }
    chars_of(l.as_str())
}

proof fn lemma_insert_dir_at(s: Seq<(Seq<char>, bool, u64, PathBuf)>, x: (Seq<char>, bool, u64, PathBuf), p: int)
    requires
        0 <= p <= s.len(),
        p == 0 || lex_le(str_lowercase(s[p - 1].0), str_lowercase(x.0)),
        forall|k: int| p <= k < s.len() ==> !lex_le(str_lowercase(#[trigger] s[k].0), str_lowercase(x.0)),
    ensures
        insert_dir(s, x) == s.insert(p, x),
    decreases s.len(),
{
    if s.len() == 0 {
        assert(s.insert(p, x) =~= seq![x]);
    } else if p == s.len() {
        assert(s.insert(p, x) =~= s.push(x));
    } else {
        assert(!lex_le(str_lowercase(s.last().0), str_lowercase(x.0)));
        lemma_insert_dir_at(s.drop_last(), x, p);
        assert(s.insert(p, x) =~= s.drop_last().insert(p, x).push(s.last()));
    }
}

proof fn lemma_insert_file_at(s: Seq<(Seq<char>, bool, u64, PathBuf)>, x: (Seq<char>, bool, u64, PathBuf), p: int)
    requires
        0 <= p <= s.len(),
        p == 0 || s[p - 1].2 >= x.2,
        forall|k: int| p <= k < s.len() ==> (#[trigger] s[k]).2 < x.2,
    ensures
        insert_file(s, x) == s.insert(p, x),
    decreases s.len(),
{
    if s.len() == 0 {
        assert(s.insert(p, x) =~= seq![x]);
    } else if p == s.len() {
        assert(s.insert(p, x) =~= s.push(x));
    } else {
        lemma_insert_file_at(s.drop_last(), x, p);
        assert(s.insert(p, x) =~= s.drop_last().insert(p, x).push(s.last()));
    }
}

/// Put a directory into the sorted directory list.
fn insert_dir_entry(dirs: &mut Vec<Entry>, x: Entry)
    ensures
        entries_view(final(dirs)@) == insert_dir(entries_view(old(dirs)@), entry_view(x)),
{
    let ghost s = entries_view(dirs@);
    let key = lower_name(&x.name);
    let mut p = dirs.len();
    while p > 0 && !lex_le_exec(&lower_name(&dirs[p - 1].name), &key)
        invariant
            p <= dirs@.len(),
            s == entries_view(dirs@),
            key@ == str_lowercase(x.name@),
            forall|k: int| p <= k < s.len() ==> !lex_le(str_lowercase(#[trigger] s[k].0), str_lowercase(x.name@)),
        decreases p,
    {
        p -= 1;
    }
    proof {
        lemma_insert_dir_at(s, entry_view(x), p as int);
    }
    dirs.insert(p, x);
    assert(entries_view(dirs@) =~= s.insert(p as int, entry_view(x)));
}

/// Put a file into the newest-first file list.
fn insert_file_entry(files: &mut Vec<Entry>, x: Entry)
    ensures
        entries_view(final(files)@) == insert_file(entries_view(old(files)@), entry_view(x)),
{
    let ghost s = entries_view(files@);
    let mut p = files.len();
    while p > 0 && files[p - 1].mtime < x.mtime
        invariant
            p <= files@.len(),
            s == entries_view(files@),
            forall|k: int| p <= k < s.len() ==> (#[trigger] s[k]).2 < x.mtime,
        decreases p,
    {
        p -= 1;
    }
    proof {
        lemma_insert_file_at(s, entry_view(x), p as int);
    }
    files.insert(p, x);
    assert(entries_view(files@) =~= s.insert(p as int, entry_view(x)));
}

/// The entry for the parent directory, leading to `up`.
pub open spec fn parent_row(up: PathBuf) -> (Seq<char>, bool, u64, PathBuf) {
    (".."@, true, 0, up)
}

/// `s` shows directory `dir` filled from `listing`: `..` leading to `up`,
/// then the listed directories and image files; query and message cleared,
/// every entry visible, and the selection `selected_before` kept when it is
/// still on the list, else back at the top.
pub open spec fn shows_listing(s: UploadState, dir: PathBuf, up: PathBuf, listing: Seq<RawEntry>, selected_before: usize) -> bool {
    let (dirs, files) = arranged(listing.map_values(|e: RawEntry| raw_view(e)));
    &&& s.current_dir == dir
    &&& entries_view(s.entries@) == seq![parent_row(up)] + dirs + files
    &&& s.query@.len() == 0
    &&& s.message is None
    &&& s.visible@ == Seq::new(s.entries@.len(), |i: int| i as usize)
    &&& follows_query(s)
    &&& s.selected == if selected_before >= s.visible@.len() { 0 } else { selected_before }
}

/// Where `..` leads: the parent when there is one, else the directory itself.
pub open spec fn up_of(parent: Option<PathBuf>, dir: PathBuf) -> PathBuf {
    match parent {
        Some(p) => p,
        None => dir,
    }
}

impl UploadState {
    /// Fill the picker from a directory listing: `..` (leading to `parent`,
    /// or to the directory itself at the root), then the listed directories
    /// and image files (hidden names and other files are skipped). The query
    /// and message are cleared.
    pub fn refresh(&mut self, parent: Option<PathBuf>, listing: Vec<RawEntry>)
        ensures
            shows_listing(*final(self), old(self).current_dir, up_of(parent, old(self).current_dir), listing@, old(self).selected),
    {
        let ghost rv = listing@.map_values(|e: RawEntry| raw_view(e));
        let n = listing.len();
        let mut listing = listing;
        let mut rev: Vec<RawEntry> = Vec::new();
        while listing.len() > 0
            invariant
                listing@.len() <= n == rv.len(),
                listing@.map_values(|e: RawEntry| raw_view(e)) == rv.take(listing@.len() as int),
                rev@.len() == n - listing@.len(),
                forall|t: int| 0 <= t < rev@.len() ==> raw_view(#[trigger] rev@[t]) == rv[n - 1 - t],
            decreases listing@.len(),
        {
            let ghost before = listing@;
            let e = listing.pop().unwrap();
            assert(before.map_values(|e: RawEntry| raw_view(e))[listing@.len() as int] == raw_view(before[listing@.len() as int]));
            rev.push(e);
            assert(listing@.map_values(|e: RawEntry| raw_view(e)) =~= rv.take(listing@.len() as int));
        }
        let mut dirs: Vec<Entry> = Vec::new();
        let mut files: Vec<Entry> = Vec::new();
        assert(rv.take(0) =~= Seq::<(Seq<char>, bool, u64, Option<Seq<char>>, PathBuf)>::empty());
        while rev.len() > 0
            invariant
                rev@.len() <= n == rv.len(),
                forall|t: int| 0 <= t < rev@.len() ==> raw_view(#[trigger] rev@[t]) == rv[n - 1 - t],
                (entries_view(dirs@), entries_view(files@)) == arranged(rv.take(n - rev@.len())),
            decreases rev@.len(),
        {
            let k = n - rev.len();
            let e = rev.pop().unwrap();
            assert(raw_view(e) == rv[k as int]);
            assert(rv.take(k + 1).drop_last() =~= rv.take(k as int));
            let name_chars = chars_of(e.name.as_str());
            let hidden = name_chars.len() > 0 && name_chars[0] == '.';
            let keep = !hidden && (e.is_dir || is_image_ext(&e.extension));
            if keep {
                let entry = Entry { name: e.name, path: e.path, is_dir: e.is_dir, mtime: e.mtime };
                if entry.is_dir {
                    insert_dir_entry(&mut dirs, entry);
                } else {
                    insert_file_entry(&mut files, entry);
                }
            }
        }
        assert(rv.take(n as int) =~= rv);
        let up = match parent {
            Some(p) => p,
            None => self.current_dir.clone(),
        };
        let mut entries: Vec<Entry> = Vec::new();
        let ghost upv = up;
        entries.push(Entry { name: String::from_str(".."), path: up, is_dir: true, mtime: 0 });
        let ghost head = entries_view(entries@);
        assert(head =~= seq![parent_row(upv)]);
        let ghost dv = entries_view(dirs@);
        let ghost fv = entries_view(files@);
        let mut dirs = dirs;
        let mut files = files;
        entries.append(&mut dirs);
        entries.append(&mut files);
        assert(entries_view(entries@) =~= head + dv + fv);
        self.entries = entries;
        self.query = String::new();
        self.message = None;
        self.rebuild_visible();
        assert(self.entries@.len() > 0);
    }

    /// Recompute which entries the query lets through: `..` always, and every
    /// entry whose name contains the query, ignoring case. The selection goes
    /// back to the top when it falls off the list.
    pub fn rebuild_visible(&mut self)
        ensures
            final(self).visible@ == matching(entries_view(old(self).entries@), str_lowercase(old(self).query@), old(self).entries@.len() as int),
            old(self).query@.len() == 0 ==> final(self).visible@ == Seq::new(old(self).entries@.len(), |i: int| i as usize),
            final(self).selected == if old(self).selected >= final(self).visible@.len() { 0 } else { old(self).selected },
            final(self).entries == old(self).entries,
            final(self).query == old(self).query,
            final(self).current_dir == old(self).current_dir,
            final(self).message == old(self).message,
    {
        let q = lower_name(&self.query);
        let ghost ev = entries_view(self.entries@);
        let mut visible: Vec<usize> = Vec::new();
        let mut i: usize = 0;
        let dots = chars_of("..");
        while i < self.entries.len()
            invariant
                i <= self.entries@.len(),
                ev == entries_view(self.entries@),
                q@ == str_lowercase(self.query@),
                dots@ == ".."@,
                visible@ == matching(ev, q@, i as int),
            decreases self.entries@.len() - i,
        {
            let name = chars_of(self.entries[i].name.as_str());
            assert(ev[i as int].0 == name@);
            let keep = if same_chars(&name, &dots) || q.len() == 0 {
                true
            } else {
                let lower = lower_name(&self.entries[i].name);
                find_chars(&lower, &q, 0).is_some()
            };
            if keep {
                visible.push(i);
            }
            i += 1;
        }
        proof {
            if self.query@.len() == 0 {
                lemma_matching_all(ev, q@, self.entries@.len() as int);
            }
        }
        self.visible = visible;
        if self.selected >= self.visible.len() {
            self.selected = 0;
        }
    }

    /// Move the selection one row down, stopping at the last row.
    pub fn move_down(&mut self)
        requires
            old(self).selected < usize::MAX,
        ensures
            final(self).selected == if old(self).selected + 1 < old(self).visible@.len() {
                old(self).selected + 1
            } else {
                old(self).selected as int
            },
            final(self).visible == old(self).visible,
            final(self).entries == old(self).entries,
            final(self).query == old(self).query,
            final(self).current_dir == old(self).current_dir,
    {
        if self.selected + 1 < self.visible.len() {
            self.selected += 1;
        }
    }

    /// Move the selection one row up, stopping at the first row.
    pub fn move_up(&mut self)
        ensures
            final(self).selected == if old(self).selected > 0 { old(self).selected - 1 } else { 0 },
            final(self).visible == old(self).visible,
            final(self).entries == old(self).entries,
            final(self).query == old(self).query,
            final(self).current_dir == old(self).current_dir,
    {
        self.selected = self.selected.saturating_sub(1);
    }

    /// Add a character to the query; the selection goes back to the top.
    pub fn push_query(&mut self, ch: char)
        ensures
            pushed(*old(self), ch, *final(self)),
    {
        self.query.push(ch);
        self.selected = 0;
        self.rebuild_visible();
    }

    /// Drop the query's last character; false when the query is empty.
    pub fn pop_query(&mut self) -> (r: bool)
        ensures
            popped(*old(self), r, *final(self)),
    {
        let cs = chars_of(self.query.as_str());
        if cs.len() == 0 {
            return false;
        }
        let kept = crate::text::slice_copy(&cs, 0, cs.len() - 1);
        assert(kept@ =~= cs@.drop_last());
        self.query = string_of(&kept);
        self.selected = 0;
        self.rebuild_visible();
        true
    }

    /// The entry under the selection, if any.
    pub fn selected_entry(&self) -> (r: Option<&Entry>)
        ensures
            match r {
                Some(e) => self.selected < self.visible@.len() && self.visible@[self.selected as int] < self.entries@.len()
                    && *e == self.entries@[self.visible@[self.selected as int] as int],
                None => !(self.selected < self.visible@.len() && self.visible@[self.selected as int] < self.entries@.len()),
            },
    {
        if self.selected >= self.visible.len() {
            return None;
        }
        let idx = self.visible[self.selected];
        if idx >= self.entries.len() {
            return None;
        }
        Some(&self.entries[idx])
    }

    /// Enter the selected entry. A file is picked: its path is returned and
    /// nothing changes. A directory becomes the current directory, listed by
    /// `list_dir` (which answers the directory's parent and its entries), and
    /// the picker is refilled as `refresh` does; `None` is returned. Without a
    /// selection nothing happens.
    pub fn enter<F>(&mut self, list_dir: F) -> (r: Option<PathBuf>) where F: Fn(&PathBuf) -> (Option<PathBuf>, Vec<RawEntry>)
        requires
            forall|d: &PathBuf| list_dir.requires((d,)),
        ensures
            ({
                let valid = old(self).selected < old(self).visible@.len() && old(self).visible@[old(self).selected as int]
                    < old(self).entries@.len();
                let e = old(self).entries@[old(self).visible@[old(self).selected as int] as int];
                if !valid {
                    r is None && *final(self) == *old(self)
                } else if e.is_dir {
                    &&& r is None
                    &&& exists|out: (Option<PathBuf>, Vec<RawEntry>)|
                        #[trigger] list_dir.ensures((&e.path,), out)
                            && shows_listing(*final(self), e.path, up_of(out.0, e.path), out.1@, old(self).selected)
                } else {
                    r == Some(e.path) && *final(self) == *old(self)
                }
            }),
    {
        if self.selected >= self.visible.len() {
            return None;
        }
        let idx = self.visible[self.selected];
        if idx >= self.entries.len() {
            return None;
        }
        if self.entries[idx].is_dir {
            let path = self.entries[idx].path.clone();
            let out = list_dir(&path);
            let (parent, listing) = out;
            self.current_dir = path;
            self.refresh(parent, listing);
            None
        } else {
            Some(self.entries[idx].path.clone())
        }
    }

    /// Go to `parent` (the current directory's parent, when it has one),
    /// listed by `list_dir` and refilled as `refresh` does. Returns whether
    /// the directory changed; without a parent nothing changes.
    pub fn navigate_up<F>(&mut self, parent: Option<PathBuf>, list_dir: F) -> (r: bool) where F: Fn(&PathBuf) -> (Option<PathBuf>, Vec<RawEntry>)
        requires
            forall|d: &PathBuf| list_dir.requires((d,)),
        ensures
            r == parent is Some,
            match parent {
                Some(p) => exists|out: (Option<PathBuf>, Vec<RawEntry>)|
                    #[trigger] list_dir.ensures((&p,), out)
                        && shows_listing(*final(self), p, up_of(out.0, p), out.1@, old(self).selected),
                None => *final(self) == *old(self),
            },
    {
        match parent {
            Some(p) => {
                let out = list_dir(&p);
                let (up, listing) = out;
                self.current_dir = p;
                self.refresh(up, listing);
                true
            },
            None => false,
        }
    }

    /// A picker on directory `dir` filled from `listing` (see `refresh`).
    pub fn open_at(dir: PathBuf, parent: Option<PathBuf>, listing: Vec<RawEntry>) -> (r: Self)
        ensures
            r.current_dir == dir,
            ({
                let (dirs, files) = arranged(listing@.map_values(|e: RawEntry| raw_view(e)));
                let up = match parent {
                    Some(p) => p,
                    None => dir,
                };
                entries_view(r.entries@) == seq![parent_row(up)] + dirs + files
            }),
            r.visible@ == Seq::new(r.entries@.len(), |i: int| i as usize),
            follows_query(r),
            r.query@.len() == 0,
            r.selected == 0,
            r.message is None,
    {
        let mut state = UploadState {
            current_dir: dir,
            entries: Vec::new(),
            query: String::new(),
            visible: Vec::new(),
            selected: 0,
            message: None,
        };
        state.refresh(parent, listing);
        state
    }
}

} // verus!
