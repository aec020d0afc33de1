use vstd::prelude::*;
use std::sync::{Arc, Mutex};
use std::time::Instant;
use crate::text::{
    chars_of, decimal, decimal_of, decimal_of_wide, find_chars, find_from, join_chars, join_with, lemma_find_from_props, lines_of,
    push_all, push_str, same_chars, slice_copy, std_lines, string_of, strings_view, vecs_view,
};
use crate::trusted::{elapsed_nanos, instant_minus_secs, instant_now, new_mutex, try_take};
use crate::editor::preview::{colored, line_view, lines_view, plain, Color, Line, Span, SpanV, Style};

verus! {

/// Annotation severity tier.
#[derive(Debug, Clone, Copy, PartialEq, Eq, Structural)]
pub enum Tier {
    Error,
    Hint,
    Research,
}

/// A single annotation from the AI writing companion.
#[derive(Debug, Clone, PartialEq)]
pub struct Annotation {
    pub line: u16,
    pub tier: Tier,
    pub message: String,
}

/// What an annotation says: its line, tier and message.
pub open spec fn ann_view(a: Annotation) -> (u16, Tier, Seq<char>) {
    (a.line, a.tier, a.message@)
}

/// The views of a list of annotations.
pub open spec fn anns_view(v: Seq<Annotation>) -> Seq<(u16, Tier, Seq<char>)> {
    v.map_values(|a: Annotation| ann_view(a))
}

/// A JSON scalar as the annotation reader sees it: an unsigned integer that
/// fits in 64 bits, a string, or anything else.
pub enum JsonScalar {
    Int(u64),
    Text(String),
    Other,
}

/// One element of a JSON array: an object (its members, in the order the
/// parser keeps them), an array of scalars, or anything else.
pub enum JsonItem {
    Object(Vec<(String, JsonScalar)>),
    Array(Vec<JsonScalar>),
    Other,
}

/// The plain value of a JSON scalar.
pub ghost enum ScalarV {
    Int(u64),
    Text(Seq<char>),
    Other,
}

/// The plain value of a JSON array element.
pub ghost enum ItemV {
    Object(Seq<(Seq<char>, ScalarV)>),
    Array(Seq<ScalarV>),
    Other,
}

pub open spec fn scalar_view(s: JsonScalar) -> ScalarV {
    match s {
        JsonScalar::Int(n) => ScalarV::Int(n),
        JsonScalar::Text(t) => ScalarV::Text(t@),
        JsonScalar::Other => ScalarV::Other,
    }
}

pub open spec fn item_view(i: JsonItem) -> ItemV {
    match i {
        JsonItem::Object(m) => ItemV::Object(m@.map_values(|kv: (String, JsonScalar)| (kv.0@, scalar_view(kv.1)))),
        JsonItem::Array(a) => ItemV::Array(a@.map_values(|x: JsonScalar| scalar_view(x))),
        JsonItem::Other => ItemV::Other,
    }
}

pub open spec fn items_view(o: Option<Vec<JsonItem>>) -> Option<Seq<ItemV>> {
    match o {
        Some(v) => Some(v@.map_values(|i: JsonItem| item_view(i))),
        None => None,
    }
}

/// The elements of `json` read as a JSON array by serde_json, or `None`
/// when it is not one.
pub uninterp spec fn json_array_items(json: Seq<char>) -> Option<Seq<ItemV>>;

/// Calls `serde_json::from_str::<Vec<serde_json::Value>>` and turns each
/// element into a `JsonItem`: numbers through `Value::as_u64`, strings as
/// they are, other values as `Other`. The result is named, not spelled out.
/// A `Value` object holds one value per key: of members that share a key,
/// serde_json keeps the last, so such an object is read as if it named the
/// key once.
#[verifier::external_body]
fn parse_json_items(json: &str) -> (r: Option<Vec<JsonItem>>)
    ensures
        items_view(r) == json_array_items(json@),
{
    let values: Vec<serde_json::Value> = serde_json::from_str(json).ok()?;
    let scalar = |x: &serde_json::Value| match x {
        serde_json::Value::Number(n) => n.as_u64().map_or(JsonScalar::Other, JsonScalar::Int),
        serde_json::Value::String(s) => JsonScalar::Text(s.clone()),
        _ => JsonScalar::Other,
    };
    Some(values.iter().map(|v| match v {
        serde_json::Value::Object(m) => JsonItem::Object(m.iter().map(|(k, x)| (k.clone(), scalar(x))).collect()),
        serde_json::Value::Array(a) => JsonItem::Array(a.iter().map(scalar).collect()),
        _ => JsonItem::Other,
    }).collect())
}

/// The value of the first member named `key`.
pub open spec fn member(fields: Seq<(Seq<char>, ScalarV)>, key: Seq<char>) -> Option<ScalarV>
    decreases fields.len(),
{
    if fields.len() == 0 {
        None
    } else if fields[0].0 == key {
        Some(fields[0].1)
    } else {
        member(fields.drop_first(), key)
    }
}

/// A line number, a tier name and a message read from one JSON element: an
/// object with members `line` (an integer that fits in 16 bits), `tier` and
/// `message` (strings), or an array of exactly those three values.
pub open spec fn raw_record(item: ItemV) -> Option<(u16, Seq<char>, Seq<char>)> {
    match item {
        ItemV::Object(fields) => match (member(fields, "line"@), member(fields, "tier"@), member(fields, "message"@)) {
            (Some(ScalarV::Int(n)), Some(ScalarV::Text(t)), Some(ScalarV::Text(m))) => if n <= 0xffff {
                Some((n as u16, t, m))
            } else {
                None
            },
            _ => None,
        },
        ItemV::Array(xs) => if xs.len() == 3 {
            match (xs[0], xs[1], xs[2]) {
                (ScalarV::Int(n), ScalarV::Text(t), ScalarV::Text(m)) => if n <= 0xffff {
                    Some((n as u16, t, m))
                } else {
                    None
                },
                _ => None,
            }
        } else {
            None
        },
        ItemV::Other => None,
    }
}

/// The records of all elements, or `None` as soon as one element is not a record.
pub open spec fn raw_records(items: Seq<ItemV>) -> Option<Seq<(u16, Seq<char>, Seq<char>)>>
    decreases items.len(),
{
    if items.len() == 0 {
        Some(Seq::empty())
    } else {
        match (raw_records(items.drop_last()), raw_record(items.last())) {
            (Some(rs), Some(r)) => Some(rs.push(r)),
            _ => None,
        }
    }
}

/// The tier a name stands for.
pub open spec fn tier_named(t: Seq<char>) -> Option<Tier> {
    if t == "error"@ {
        Some(Tier::Error)
    } else if t == "hint"@ {
        Some(Tier::Hint)
    } else if t == "research"@ {
        Some(Tier::Research)
    } else {
        None
    }
}

/// The records with a known tier, as annotations, in order.
pub open spec fn known_tiers(rs: Seq<(u16, Seq<char>, Seq<char>)>) -> Seq<(u16, Tier, Seq<char>)>
    decreases rs.len(),
{
    if rs.len() == 0 {
        Seq::empty()
    } else {
        let prev = known_tiers(rs.drop_last());
        let r = rs.last();
        match tier_named(r.1) {
            Some(t) => prev.push((r.0, t, r.2)),
            None => prev,
        }
    }
}

/// Errors first, then hints, then research notes.
pub open spec fn tier_rank(t: Tier) -> int {
    match t {
        Tier::Error => 0,
        Tier::Hint => 1,
        Tier::Research => 2,
    }
}

/// Whether `a` may stand before `b`: an earlier line, or the same line and a
/// tier that is not later.
pub open spec fn key_le(a: (u16, Tier, Seq<char>), b: (u16, Tier, Seq<char>)) -> bool {
    a.0 < b.0 || (a.0 == b.0 && tier_rank(a.1) <= tier_rank(b.1))
}

/// `x` put into `s` right after the last element that may stand before it.
pub open spec fn insert_sorted(s: Seq<(u16, Tier, Seq<char>)>, x: (u16, Tier, Seq<char>)) -> Seq<(u16, Tier, Seq<char>)>
    decreases s.len(),
{
    if s.len() == 0 {
        seq![x]
    } else if key_le(s.last(), x) {
        s.push(x)
    } else {
        insert_sorted(s.drop_last(), x).push(s.last())
    }
}

/// `s` sorted by (line, tier), equal keys keeping their order (a stable sort).
pub open spec fn sort_by_key(s: Seq<(u16, Tier, Seq<char>)>) -> Seq<(u16, Tier, Seq<char>)>
    decreases s.len(),
{
    if s.len() == 0 {
        Seq::empty()
    } else {
        insert_sorted(sort_by_key(s.drop_last()), s.last())
    }
}

/// Whether `s` is in (line, tier) order.
pub open spec fn key_sorted(s: Seq<(u16, Tier, Seq<char>)>) -> bool {
    forall|i: int, j: int| 0 <= i < j < s.len() ==> key_le(s[i], s[j])
}

/// The annotations in `json`: none when it is not a JSON array of records;
/// otherwise the records with a known tier, sorted by line and tier.
pub open spec fn parsed_annotations(json: Seq<char>) -> Seq<(u16, Tier, Seq<char>)> {
    match json_array_items(json) {
        None => Seq::empty(),
        Some(items) => annotations_of(items),
    }
}

/// The annotations of the elements of a JSON array: none when one element
/// is not a record; otherwise the records with a known tier, sorted by line
/// and tier.
pub open spec fn annotations_of(items: Seq<ItemV>) -> Seq<(u16, Tier, Seq<char>)> {
    match raw_records(items) {
        None => Seq::empty(),
        Some(rs) => sort_by_key(known_tiers(rs)),
    }
}

fn rank_of(t: Tier) -> (r: u8)
    ensures
        r as int == tier_rank(t),
{
    match t {
        Tier::Error => 0,
        Tier::Hint => 1,
        Tier::Research => 2,
    }
}

fn key_le_exec(a: &Annotation, b: &Annotation) -> (r: bool)
    ensures
        r == key_le(ann_view(*a), ann_view(*b)),
{
    a.line < b.line || (a.line == b.line && rank_of(a.tier) <= rank_of(b.tier))
}

proof fn lemma_insert_at(s: Seq<(u16, Tier, Seq<char>)>, x: (u16, Tier, Seq<char>), p: int)
    requires
        0 <= p <= s.len(),
        p == 0 || key_le(s[p - 1], x),
        forall|k: int| p <= k < s.len() ==> !key_le(#[trigger] s[k], x),
    ensures
        insert_sorted(s, x) == s.insert(p, x),
    decreases s.len(),
{
    if s.len() == 0 {
        assert(s.insert(p, x) =~= seq![x]);
    } else if p == s.len() {
        assert(s.insert(p, x) =~= s.push(x));
    } else {
        assert(!key_le(s.last(), x));
        lemma_insert_at(s.drop_last(), x, p);
        assert(s.insert(p, x) =~= s.drop_last().insert(p, x).push(s.last()));
    }
}

/// Insert `x` into the sorted `out` after every annotation that may stand before it.
fn insert_annotation(out: &mut Vec<Annotation>, x: Annotation)
    ensures
        anns_view(final(out)@) == insert_sorted(anns_view(old(out)@), ann_view(x)),
{
    let ghost s = anns_view(out@);
    let mut p = out.len();
    while p > 0 && !key_le_exec(&out[p - 1], &x)
        invariant
            p <= out@.len(),
            s == anns_view(out@),
            forall|k: int| p <= k < s.len() ==> !key_le(#[trigger] s[k], ann_view(x)),
        decreases p,
    {
        p -= 1;
    }
    proof {
        lemma_insert_at(s, ann_view(x), p as int);
    }
    out.insert(p, x);
    assert(anns_view(out@) =~= s.insert(p as int, ann_view(x)));
}

/// Sort annotations by line, errors before hints before research on the same
/// line, keeping the given order among equal keys.
pub fn sort_annotations(v: Vec<Annotation>) -> (r: Vec<Annotation>)
    ensures
        anns_view(r@) == sort_by_key(anns_view(v@)),
{
    let ghost sv = anns_view(v@);
    let n = v.len();
    let mut v = v;
    let mut rev: Vec<Annotation> = Vec::new();
    while v.len() > 0
        invariant
            v@.len() <= n == sv.len(),
            anns_view(v@) == sv.take(v@.len() as int),
            rev@.len() == n - v@.len(),
            forall|t: int| 0 <= t < rev@.len() ==> ann_view(#[trigger] rev@[t]) == sv[n - 1 - t],
        decreases v@.len(),
    {
        let ghost before = v@;
        let a = v.pop().unwrap();
        assert(anns_view(before)[v@.len() as int] == ann_view(before[v@.len() as int]));
        assert(ann_view(a) == sv[v@.len() as int]);
        rev.push(a);
        assert(anns_view(v@) =~= sv.take(v@.len() as int));
    }
    let mut out: Vec<Annotation> = Vec::new();
    assert(sv.take(0) =~= Seq::<(u16, Tier, Seq<char>)>::empty());
    while rev.len() > 0
        invariant
            rev@.len() <= n == sv.len(),
            forall|t: int| 0 <= t < rev@.len() ==> ann_view(#[trigger] rev@[t]) == sv[n - 1 - t],
            anns_view(out@) == sort_by_key(sv.take(n - rev@.len())),
        decreases rev@.len(),
    {
        let k = n - rev.len();
        let a = rev.pop().unwrap();
        assert(ann_view(a) == sv[k as int]);
        assert(sv.take(k + 1).drop_last() =~= sv.take(k as int));
        insert_annotation(&mut out, a);
    }
    assert(sv.take(n as int) =~= sv);
    out
}

/// The members of a JSON object, as plain values.
pub open spec fn members_view(m: Seq<(String, JsonScalar)>) -> Seq<(Seq<char>, ScalarV)> {
    m.map_values(|kv: (String, JsonScalar)| (kv.0@, scalar_view(kv.1)))
}

/// The value of the first member named `key`.
fn find_member(fields: &Vec<(String, JsonScalar)>, key: &str) -> (r: Option<usize>)
    ensures
        match r {
            Some(x) => x < fields@.len() && member(members_view(fields@), key@) == Some(scalar_view(fields@[x as int].1)),
            None => member(members_view(fields@), key@) is None,
        },
{
    let ghost mv = members_view(fields@);
    let k = chars_of(key);
    let mut i: usize = 0;
    assert(mv.skip(0) =~= mv);
    while i < fields.len()
        invariant
            i <= fields@.len(),
            mv == members_view(fields@),
            k@ == key@,
            member(mv.skip(i as int), key@) == member(mv, key@),
        decreases fields@.len() - i,
    {
        assert(mv.skip(i as int)[0] == (fields@[i as int].0@, scalar_view(fields@[i as int].1)));
        assert(mv.skip(i as int).drop_first() =~= mv.skip(i + 1));
        let name = chars_of(fields[i].0.as_str());
        if same_chars(&name, &k) {
            return Some(i);
        }
        i += 1;
    }
    assert(mv.skip(i as int) =~= Seq::<(Seq<char>, ScalarV)>::empty());
    None
}

/// The (line, tier name, message) record of one JSON element.
fn record_of(item: &JsonItem) -> (r: Option<(u16, String, String)>)
    ensures
        match r {
            Some(x) => raw_record(item_view(*item)) == Some((x.0, x.1@, x.2@)),
            None => raw_record(item_view(*item)) is None,
        },
{
    proof {
        reveal_strlit("line");
        reveal_strlit("tier");
        reveal_strlit("message");
    }
    match item {
        JsonItem::Object(fields) => {
            assert(members_view(fields@) =~= fields@.map_values(|kv: (String, JsonScalar)| (kv.0@, scalar_view(kv.1))));
            let (l, t, m) = match (find_member(fields, "line"), find_member(fields, "tier"), find_member(fields, "message")) {
                (Some(a), Some(b), Some(c)) => (a, b, c),
                _ => return None,
            };
            match (&fields[l].1, &fields[t].1, &fields[m].1) {
                (JsonScalar::Int(n), JsonScalar::Text(tv), JsonScalar::Text(mv)) => {
                    if *n <= 0xffff {
                        Some((*n as u16, tv.clone(), mv.clone()))
                    } else {
                        None
                    }
                },
                _ => None,
            }
        },
        JsonItem::Array(xs) => {
            if xs.len() == 3 {
                assert(item_view(*item) == ItemV::Array(xs@.map_values(|x: JsonScalar| scalar_view(x))));
                match (&xs[0], &xs[1], &xs[2]) {
                    (JsonScalar::Int(n), JsonScalar::Text(tv), JsonScalar::Text(mv)) => {
                        if *n <= 0xffff {
                            Some((*n as u16, tv.clone(), mv.clone()))
                        } else {
                            None
                        }
                    },
                    _ => None,
                }
            } else {
                None
            }
        },
        JsonItem::Other => None,
    }
}

/// The tier a name stands for.
fn tier_from_name(t: &String) -> (r: Option<Tier>)
    ensures
        r == tier_named(t@),
{
    let c = chars_of(t.as_str());
    if same_chars(&c, &chars_of("error")) {
        Some(Tier::Error)
    } else if same_chars(&c, &chars_of("hint")) {
        Some(Tier::Hint)
    } else if same_chars(&c, &chars_of("research")) {
        Some(Tier::Research)
    } else {
        None
    }
}

/// Parse JSON annotations from the AI response: a JSON array of
/// `{"line": N, "tier": "error|hint|research", "message": "..."}` records.
/// Invalid JSON gives no annotations; records with another tier are skipped;
/// the rest come sorted by line, errors before hints before research.
pub fn parse_annotations(json: &str) -> (r: Vec<Annotation>)
    ensures
        anns_view(r@) == parsed_annotations(json@),
{
    match parse_json_items(json) {
        Some(items) => annotations_of_items(&items),
        None => Vec::new(),
    }
}

/// The annotations of the elements of a parsed JSON array (see `annotations_of`).
pub fn annotations_of_items(items: &Vec<JsonItem>) -> (r: Vec<Annotation>)
    ensures
        anns_view(r@) == annotations_of(items@.map_values(|i: JsonItem| item_view(i))),
{
    let ghost iv = items@.map_values(|i: JsonItem| item_view(i));
    let mut kept: Vec<Annotation> = Vec::new();
    let mut i: usize = 0;
    while i < items.len()
        invariant
            i <= items@.len(),
            iv == items@.map_values(|i: JsonItem| item_view(i)),
            raw_records(iv.take(i as int)) is Some,
            anns_view(kept@) == known_tiers(raw_records(iv.take(i as int))->0),
        decreases items@.len() - i,
    {
        assert(iv.take(i + 1).drop_last() =~= iv.take(i as int));
        assert(iv.take(i + 1).last() == item_view(items@[i as int]));
        let rec = record_of(&items[i]);
        match rec {
            None => {
                proof {
                    lemma_records_fail(iv, i as int);
                }
                return Vec::new();
            },
            Some((line, tier_name, message)) => {
                let ghost before = anns_view(kept@);
                let ghost rs = raw_records(iv.take(i as int))->0;
                let ghost r = (line, tier_name@, message@);
                assert(raw_records(iv.take(i + 1)) == Some(rs.push(r)));
                assert(rs.push(r).drop_last() =~= rs);
                assert(known_tiers(rs.push(r)) == match tier_named(r.1) {
                    Some(t) => known_tiers(rs).push((r.0, t, r.2)),
                    None => known_tiers(rs),
                });
                match tier_from_name(&tier_name) {
                    Some(tier) => {
                        kept.push(Annotation { line, tier, message });
                        assert(anns_view(kept@) =~= before.push((line, tier, message@)));
                    },
                    None => {},
                }
            },
        }
        i += 1;
    }
    assert(iv.take(i as int) =~= iv);
    sort_annotations(kept)
}

/// Once one element is not a record, neither is the whole array.
proof fn lemma_records_fail(iv: Seq<ItemV>, i: int)
    requires
        0 <= i < iv.len(),
        raw_record(iv[i]) is None,
    ensures
        raw_records(iv) is None,
    decreases iv.len(),
{
    if i < iv.len() - 1 {
        lemma_records_fail(iv.drop_last(), i);
    }
}

/// The last position of `c` in `s`, or -1.
pub open spec fn last_pos(s: Seq<char>, c: char) -> int
    decreases s.len(),
{
    if s.len() == 0 {
        -1
    } else if s.last() == c {
        s.len() - 1
    } else {
        last_pos(s.drop_last(), c)
    }
}

/// The annotations of a possibly noisy response: those of the text from the
/// first `[` to the last `]`, none when there is no such span.
pub open spec fn extracted_annotations(response: Seq<char>) -> Seq<(u16, Tier, Seq<char>)> {
    let a = find_from(response, seq!['['], 0);
    let b = last_pos(response, ']');
    if a < 0 || b < 0 || b <= a {
        Seq::empty()
    } else {
        parsed_annotations(response.subrange(a, b + 1))
    }
}

proof fn lemma_last_pos_bounds(s: Seq<char>, c: char)
    ensures
        -1 <= last_pos(s, c) < s.len(),
        last_pos(s, c) >= 0 ==> s[last_pos(s, c)] == c,
    decreases s.len(),
{
    if s.len() > 0 && s.last() != c {
        lemma_last_pos_bounds(s.drop_last(), c);
    }
}

/// Extract JSON annotations from a potentially noisy AI response: the text
/// from the first `[` to the last `]` is parsed.
pub fn extract_annotations(response: &str) -> (r: Vec<Annotation>)
    ensures
        anns_view(r@) == extracted_annotations(response@),
{
    let s = chars_of(response);
    let mut open: Vec<char> = Vec::new();
    open.push('[');
    let start = match find_chars(&s, &open, 0) {
        Some(p) => p,
        None => return Vec::new(),
    };
    proof {
        lemma_find_from_props(s@, open@, 0);
    }
    let mut b = s.len();
    assert(s@.take(s@.len() as int) =~= s@);
    while b > 0 && s[b - 1] != ']'
        invariant
            b <= s@.len(),
            last_pos(s@.take(b as int), ']') == last_pos(s@, ']'),
        decreases b,
    {
        assert(s@.take(b as int).drop_last() =~= s@.take(b - 1));
        b -= 1;
    }
    assert(s@.take(s@.len() as int) =~= s@);
    if b == 0 {
        assert(s@.take(0) =~= Seq::<char>::empty());
        return Vec::new();
    }
    let end = b - 1;
    assert(s@.take(b as int).last() == ']');
    if end <= start {
        return Vec::new();
    }
    let span = slice_copy(&s, start, end + 1);
    let text = string_of(&span);
    parse_annotations(text.as_str())
}

/// The opening of the proofreading prompt, before the numbered lines.
pub open spec fn prompt_intro() -> Seq<char> {
    "Proofread this markdown. Lines are numbered. Detect language automatically.\nSkip fenced code blocks. Be concise. Max 15 words per message.\n\nReturn ONLY a JSON array, no other text:\n[{\"line\": N, \"tier\": \"error|hint\", \"message\": \"...\"}]\n\nerror = typo, grammar, wrong word. Show the fix.\nhint = awkward phrasing, factual issue. Suggest briefly.\n\nIf clean, return []\n\n"@
}

/// Each line prefixed with its number, counting from `start`.
pub open spec fn numbered_lines(lines: Seq<Seq<char>>, start: nat) -> Seq<Seq<char>> {
    Seq::new(lines.len(), |i: int| decimal((start + i) as nat) + ": "@ + lines[i])
}

/// The proofreading prompt for `content` whose first line is line `start`.
pub open spec fn check_prompt(content: Seq<char>, start: nat) -> Seq<char> {
    prompt_intro() + join_with(numbered_lines(std_lines(content), start), "\n"@)
}

/// Build the prompt sent to the AI writing companion. `start_line` is the
/// 1-based number of the first line of `content`, so that the AI answers with
/// line numbers of the whole document.
pub fn build_check_prompt(content: &str, start_line: usize) -> (r: String)
    requires
        start_line + std_lines(content@).len() <= usize::MAX + 1,
    ensures
        r@ == check_prompt(content@, start_line as nat),
{
    let cs = chars_of(content);
    let lines = lines_of(&cs);
    let ghost lv = std_lines(content@);
    assert(vecs_view(lines@) =~= lv);
    let mut numbered: Vec<Vec<char>> = Vec::new();
    let mut i: usize = 0;
    while i < lines.len()
        invariant
            i <= lines@.len(),
            vecs_view(lines@) == lv,
            start_line + lv.len() <= usize::MAX + 1,
            vecs_view(numbered@) == numbered_lines(lv, start_line as nat).take(i as int),
        decreases lines@.len() - i,
    {
        let mut l = decimal_of(start_line + i);
        push_str(&mut l, ": ");
        push_all(&mut l, &lines[i]);
        let ghost before = vecs_view(numbered@);
        assert(lv[i as int] == lines@[i as int]@);
        assert(l@ == numbered_lines(lv, start_line as nat)[i as int]);
        numbered.push(l);
        assert(vecs_view(numbered@) =~= before.push(numbered_lines(lv, start_line as nat)[i as int]));
        assert(vecs_view(numbered@) =~= numbered_lines(lv, start_line as nat).take(i + 1));
        i += 1;
    }
    assert(numbered_lines(lv, start_line as nat).take(i as int) =~= numbered_lines(lv, start_line as nat));
    let body = join_chars(&numbered, "\n");
    let mut out = chars_of("Proofread this markdown. Lines are numbered. Detect language automatically.\nSkip fenced code blocks. Be concise. Max 15 words per message.\n\nReturn ONLY a JSON array, no other text:\n[{\"line\": N, \"tier\": \"error|hint\", \"message\": \"...\"}]\n\nerror = typo, grammar, wrong word. Show the fix.\nhint = awkward phrasing, factual issue. Suggest briefly.\n\nIf clean, return []\n\n");
    push_all(&mut out, &body);
    string_of(&out)
}

/// Progress of the companion's check.
#[derive(Clone, Copy, PartialEq, Eq, Debug, Structural)]
pub enum ScribeStatus {
    Idle,
    Checking,
    CheckingSlow,
    Error,
}

/// What the background thread needs to run a check.
pub struct CheckRequest {
    pub content: String,
    pub start_line: usize,
}

/// All mutable state of the writing companion.
pub struct ScribeState {
    pub annotations: Vec<Annotation>,
    pub grammar_annotations: Vec<Annotation>,
    pub status: ScribeStatus,
    pub error: Option<String>,
    pub last_response: Option<Instant>,
    pub result: Arc<Mutex<Option<Result<String, String>>>>,
    pub grammar_result: Arc<Mutex<Option<Vec<Annotation>>>>,
    pub status_log: Vec<String>,
    pub idle_since: Option<Instant>,
    pub pending: bool,
    pub last_sent: String,
    pub check_started: Option<Instant>,
    pub grammar_last_checked: String,
}

/// How long the text must rest before a check fires, in nanoseconds (10 s).
pub open spec fn idle_threshold_nanos() -> int {
    10_000_000_000
}

/// How long a check may run before it counts as slow, in nanoseconds (15 s).
pub open spec fn slow_threshold_nanos() -> int {
    15_000_000_000
}

/// The worker slots and the grammar results are the same in `a` and `b`.
pub open spec fn same_channels(a: ScribeState, b: ScribeState) -> bool {
    &&& a.result == b.result
    &&& a.grammar_result == b.grammar_result
    &&& a.grammar_annotations == b.grammar_annotations
    &&& a.grammar_last_checked == b.grammar_last_checked
}

/// What taking in `result` (`None`: nothing arrived) does to the state
/// `a`, leaving `b`: only a pending check takes a result.
pub open spec fn taken(a: ScribeState, result: Option<Result<String, String>>, b: ScribeState) -> bool {
    &&& match result {
        Some(Ok(resp)) if a.pending => {
            &&& anns_view(b.annotations@) == extracted_annotations(resp@)
            &&& b.status == ScribeStatus::Idle
            &&& !b.pending
            &&& b.error is None
            &&& b.check_started is None
            &&& b.last_response is Some
            &&& b.status_log@.len() == 1
            &&& b.last_sent == a.last_sent
            &&& b.idle_since == a.idle_since
        },
        Some(Err(e)) if a.pending => {
            &&& b.error == Some(e)
            &&& b.status == ScribeStatus::Error
            &&& !b.pending
            &&& b.annotations@.len() == 0
            &&& b.check_started is None
            &&& strings_view(b.status_log@) == seq!["Error: "@ + e@]
            &&& b.last_response == a.last_response
            &&& b.last_sent == a.last_sent
            &&& b.idle_since == a.idle_since
        },
        _ => b == a,
    }
    &&& same_channels(b, a)
}

/// Whether a check is due for `content` once the text has rested `idle`
/// nanoseconds: the companion is active, no check is in flight, the rest
/// lasted the threshold and the content differs from what was last sent.
pub open spec fn check_due(s: ScribeState, content: Seq<char>, active: bool, idle: int) -> bool {
    active && !s.pending && s.idle_since is Some && idle >= idle_threshold_nanos() && content != s.last_sent@
}

/// A state as `force_idle` leaves it, with no check in flight, has a check
/// due for every text but the empty one once the rest reaches the threshold.
pub proof fn law_forced_check_due(s: ScribeState, content: Seq<char>, idle: int)
    requires
        !s.pending,
        s.idle_since is Some,
        s.last_sent@.len() == 0,
        idle >= idle_threshold_nanos(),
    ensures
        check_due(s, content, true, idle) == (content.len() > 0),
{
    if content.len() == 0 {
        assert(content =~= s.last_sent@);
    }
}

/// The check bookkeeping is the same in `a` and `b`.
pub open spec fn same_check(a: ScribeState, b: ScribeState) -> bool {
    &&& a.pending == b.pending
    &&& a.check_started == b.check_started
    &&& a.last_sent == b.last_sent
    &&& a.idle_since == b.idle_since
}

/// The label of a finished check: the annotation count, with the time it took
/// in tenths of a second when that is known.
pub open spec fn count_label(count: nat, elapsed_tenths: Option<nat>) -> Seq<char> {
    decimal(count) + " annotations"@ + match elapsed_tenths {
        Some(t) => " ("@ + decimal(t / 10) + seq!['.'] + decimal(t % 10) + "s)"@,
        None => Seq::empty(),
    }
}

/// Tenths of a second in `nanos` nanoseconds, rounded half up.
pub open spec fn tenths_of(nanos: int) -> nat {
    ((nanos + 50_000_000) / 100_000_000) as nat
}

impl ScribeState {
    pub fn new() -> (r: Self)
        ensures
            r.annotations@.len() == 0,
            r.grammar_annotations@.len() == 0,
            r.status == ScribeStatus::Idle,
            r.error is None,
            r.last_response is None,
            r.status_log@.len() == 0,
            r.idle_since is None,
            !r.pending,
            r.last_sent@.len() == 0,
            r.check_started is None,
            r.grammar_last_checked@.len() == 0,
    {
        ScribeState {
            annotations: Vec::new(),
            grammar_annotations: Vec::new(),
            status: ScribeStatus::Idle,
            error: None,
            last_response: None,
            result: Arc::new(new_mutex(None)),
            grammar_result: Arc::new(new_mutex(None)),
            status_log: Vec::new(),
            idle_since: None,
            pending: false,
            last_sent: String::new(),
            check_started: None,
            grammar_last_checked: String::new(),
        }
    }

    /// Clear display state when switching articles.
    pub fn clear_display(&mut self)
        ensures
            final(self).annotations@.len() == 0,
            final(self).status_log@.len() == 0,
            final(self).error is None,
            final(self).last_response is None,
            final(self).last_sent@.len() == 0,
            final(self).idle_since is None,
            final(self).status == ScribeStatus::Idle,
            final(self).pending == old(self).pending,
            final(self).check_started == old(self).check_started,
            same_channels(*final(self), *old(self)),
    {
        self.annotations = Vec::new();
        self.status_log = Vec::new();
        self.error = None;
        self.last_response = None;
        self.last_sent = String::new();
        self.idle_since = None;
        self.status = ScribeStatus::Idle;
    }

    /// Add a message to the status log.
    pub fn push_log(&mut self, msg: &str)
        ensures
            strings_view(final(self).status_log@) == strings_view(old(self).status_log@).push(msg@),
            final(self).annotations == old(self).annotations,
            final(self).status == old(self).status,
            final(self).error == old(self).error,
            same_check(*final(self), *old(self)),
            same_channels(*final(self), *old(self)),
    {
        let ghost before = strings_view(self.status_log@);
        self.status_log.push(String::from_str(msg));
        assert(strings_view(self.status_log@) =~= before.push(msg@));
    }

    /// Content changed: restart the idle timer and clear stale annotations.
    pub fn content_invalidated(&mut self)
        ensures
            final(self).idle_since is Some,
            final(self).annotations@.len() == 0,
            final(self).status_log@.len() == 0,
            final(self).status == old(self).status,
            final(self).error == old(self).error,
            final(self).pending == old(self).pending,
            final(self).last_sent == old(self).last_sent,
            final(self).check_started == old(self).check_started,
            same_channels(*final(self), *old(self)),
    {
        self.idle_since = Some(instant_now());
        self.annotations = Vec::new();
        self.status_log = Vec::new();
    }

    /// Move the idle timer 11 seconds back so that the next `should_check`
    /// fires (the check of Ctrl+T). Where the clock cannot go back that far
    /// (an instant too early to represent), the timer starts now instead and
    /// the check fires after the usual rest.
    pub fn force_idle(&mut self)
        ensures
            final(self).idle_since is Some,
            final(self).last_sent@.len() == 0,
            *final(self) == (ScribeState {
                idle_since: final(self).idle_since,
                last_sent: final(self).last_sent,
                ..*old(self)
            }),
    {
        let now = instant_now();
        self.idle_since = match instant_minus_secs(now, 11) {
            Some(earlier) => Some(earlier),
            None => Some(instant_now()),
        };
        self.last_sent = String::new();
    }

    /// Whether a check is due once the text has rested `idle_nanos`
    /// nanoseconds: the companion is active, no check is in flight, the rest
    /// lasted the threshold and the content differs from what was last sent.
    pub fn should_check_after(&self, content: &str, is_scribe_active: bool, idle_nanos: u128) -> (r: bool)
        ensures
            r == check_due(*self, content@, is_scribe_active, idle_nanos as int),
    {
        if !is_scribe_active || self.pending || self.idle_since.is_none() {
            return false;
        }
        if idle_nanos < 10_000_000_000 {
            return false;
        }
        let a = chars_of(content);
        let b = chars_of(self.last_sent.as_str());
        !same_chars(&a, &b)
    }

    /// True when a check should fire: idle long enough, content different
    /// from the last one sent, and no check in flight.
    pub fn should_check(&self, content: &str, is_scribe_active: bool) -> (r: bool)
        ensures
            r ==> is_scribe_active && !self.pending && self.idle_since is Some && content@ != self.last_sent@,
    {
        if !is_scribe_active || self.pending {
            return false;
        }
        let idle = match &self.idle_since {
            Some(t) => elapsed_nanos(t),
            None => return false,
        };
        self.should_check_after(content, is_scribe_active, idle)
    }

    /// Prepare a check request; the state becomes pending.
    pub fn begin_check(&mut self, content: &str, start_line: usize) -> (r: CheckRequest)
        ensures
            final(self).pending,
            final(self).status == ScribeStatus::Checking,
            strings_view(final(self).status_log@) == seq!["Checking..."@],
            final(self).check_started is Some,
            final(self).last_sent@ == content@,
            final(self).idle_since is None,
            r.content@ == content@,
            r.start_line == start_line,
            final(self).annotations == old(self).annotations,
            final(self).error == old(self).error,
            same_channels(*final(self), *old(self)),
    {
        self.pending = true;
        self.status = ScribeStatus::Checking;
        self.status_log = Vec::new();
        self.status_log.push(String::from_str("Checking..."));
        assert(strings_view(self.status_log@) =~= seq!["Checking..."@]);
        self.check_started = Some(instant_now());
        self.last_sent = String::from_str(content);
        self.idle_since = None;
        CheckRequest { content: String::from_str(content), start_line }
    }

    /// Take in a successful response when the check took `elapsed_nanos`
    /// nanoseconds (`None` when its start is unknown).
    pub fn handle_response_after(&mut self, response: &str, elapsed_nanos: Option<u128>)
        ensures
            anns_view(final(self).annotations@) == extracted_annotations(response@),
            strings_view(final(self).status_log@) == seq![
                count_label(
                    extracted_annotations(response@).len(),
                    match elapsed_nanos {
                        Some(n) => Some(tenths_of(n as int)),
                        None => None,
                    },
                ),
            ],
            final(self).status_log@.len() == 1,
            final(self).error is None,
            final(self).status == ScribeStatus::Idle,
            !final(self).pending,
            final(self).check_started is None,
            final(self).last_response is Some,
            final(self).last_sent == old(self).last_sent,
            final(self).idle_since == old(self).idle_since,
            same_channels(*final(self), *old(self)),
    {
        self.annotations = extract_annotations(response);
        let count = self.annotations.len();
        assert(count == extracted_annotations(response@).len());
        let mut label = decimal_of(count);
        push_str(&mut label, " annotations");
        let ghost head = label@;
        let ghost opt = match elapsed_nanos {
            Some(n) => Some(tenths_of(n as int)),
            None => None::<nat>,
        };
        match elapsed_nanos {
            Some(n) => {
                let tenths = n / 100_000_000 + if n % 100_000_000 >= 50_000_000 { 1 } else { 0 };
                assert(tenths == tenths_of(n as int)) by (nonlinear_arith)
                    requires
                        tenths == n / 100_000_000 + if n % 100_000_000 >= 50_000_000 { 1int } else { 0int },
                ;
                push_str(&mut label, " (");
                let whole = decimal_of_wide(tenths / 10);
                push_all(&mut label, &whole);
                label.push('.');
                let frac = decimal_of_wide(tenths % 10);
                push_all(&mut label, &frac);
                push_str(&mut label, "s)");
                assert(label@ =~= head + (" ("@ + decimal((tenths / 10) as nat) + seq!['.'] + decimal((tenths % 10) as nat) + "s)"@));
            },
            None => {
                assert(label@ =~= head + Seq::<char>::empty());
            },
        }
        assert(label@ == count_label(count as nat, opt));
        self.status_log = Vec::new();
        self.status_log.push(string_of(&label));
        assert(strings_view(self.status_log@) =~= seq![label@]);
        self.error = None;
        self.status = ScribeStatus::Idle;
        self.pending = false;
        self.check_started = None;
        self.last_response = Some(instant_now());
    }

    /// Process a successful LLM response.
    pub fn handle_response(&mut self, response: &str)
        ensures
            anns_view(final(self).annotations@) == extracted_annotations(response@),
            final(self).status_log@.len() == 1,
            old(self).check_started is None ==> strings_view(final(self).status_log@) == seq![
                count_label(extracted_annotations(response@).len(), None),
            ],
            old(self).check_started is Some ==> exists|t: nat| strings_view(final(self).status_log@) == seq![
                count_label(extracted_annotations(response@).len(), Some(t)),
            ],
            final(self).error is None,
            final(self).status == ScribeStatus::Idle,
            !final(self).pending,
            final(self).check_started is None,
            final(self).last_response is Some,
            final(self).last_sent == old(self).last_sent,
            final(self).idle_since == old(self).idle_since,
            same_channels(*final(self), *old(self)),
    {
        let elapsed = match &self.check_started {
            Some(t) => Some(elapsed_nanos(t)),
            None => None,
        };
        self.handle_response_after(response, elapsed);
    }

    /// Process a failed LLM call.
    pub fn handle_error(&mut self, err: String)
        ensures
            strings_view(final(self).status_log@) == seq!["Error: "@ + err@],
            final(self).annotations@.len() == 0,
            final(self).error == Some(err),
            final(self).status == ScribeStatus::Error,
            !final(self).pending,
            final(self).check_started is None,
            final(self).last_response == old(self).last_response,
            final(self).last_sent == old(self).last_sent,
            final(self).idle_since == old(self).idle_since,
            same_channels(*final(self), *old(self)),
    {
        let mut line = chars_of("Error: ");
        push_str(&mut line, err.as_str());
        self.status_log = Vec::new();
        self.status_log.push(string_of(&line));
        assert(strings_view(self.status_log@) =~= seq!["Error: "@ + err@]);
        self.annotations = Vec::new();
        self.error = Some(err);
        self.status = ScribeStatus::Error;
        self.pending = false;
        self.check_started = None;
    }

    /// Take in what the worker left in its slot (`None`: nothing). Only a
    /// pending check takes a result; otherwise the state stays as it is.
    pub fn take_result(&mut self, result: Option<Result<String, String>>)
        ensures
            taken(*old(self), result, *final(self)),
    {
        if !self.pending {
            return;
        }
        match result {
            Some(Ok(response)) => self.handle_response(response.as_str()),
            Some(Err(err)) => self.handle_error(err),
            None => {},
        }
    }

    /// Pick up the result of the worker thread without blocking. Only a
    /// pending check takes it; otherwise a stale result is dropped.
    pub fn poll_result(&mut self)
        ensures
            exists|result: Option<Result<String, String>>| #[trigger] taken(*old(self), result, *final(self)),
    {
        if !self.pending {
            let _ = try_take(&*self.result);
            assert(taken(*old(self), None, *self));
            return;
        }
        let slot = try_take(&*self.result);
        match slot {
            Some(content) => self.take_result(content),
            None => {
                assert(taken(*old(self), None, *self));
            },
        }
    }

    /// Whether a grammar check of `content` is to start: only when it differs
    /// from the text checked last, which it then becomes. The caller runs
    /// the checker and leaves its annotations in `grammar_result`.
    pub fn check_grammar(&mut self, content: &str) -> (r: bool)
        ensures
            r == (content@ != old(self).grammar_last_checked@),
            r ==> final(self).grammar_last_checked@ == content@,
            *final(self) == (ScribeState { grammar_last_checked: final(self).grammar_last_checked, ..*old(self) }),
            !r ==> *final(self) == *old(self),
    {
        let a = chars_of(content);
        let b = chars_of(self.grammar_last_checked.as_str());
        if same_chars(&a, &b) {
            return false;
        }
        self.grammar_last_checked = String::from_str(content);
        true
    }

    /// Pick up grammar results from the grammar checker thread.
    pub fn poll_grammar(&mut self)
        ensures
            *final(self) == (ScribeState { grammar_annotations: final(self).grammar_annotations, ..*old(self) }),
    {
        let slot = try_take(&*self.grammar_result);
        match slot {
            Some(Some(annotations)) => {
                self.grammar_annotations = annotations;
            },
            _ => {},
        }
    }

    /// All annotations (grammar first, then the companion's) sorted by line.
    pub fn all_annotations(&self) -> (r: Vec<Annotation>)
        ensures
            anns_view(r@) == sort_by_key(anns_view(self.grammar_annotations@) + anns_view(self.annotations@)),
    {
        let mut all: Vec<Annotation> = Vec::new();
        let mut i: usize = 0;
        while i < self.grammar_annotations.len()
            invariant
                i <= self.grammar_annotations@.len(),
                anns_view(all@) == anns_view(self.grammar_annotations@).take(i as int),
            decreases self.grammar_annotations@.len() - i,
        {
            let ghost before = anns_view(all@);
            all.push(copy_annotation(&self.grammar_annotations[i]));
            assert(anns_view(all@) =~= before.push(ann_view(self.grammar_annotations@[i as int])));
            i += 1;
            assert(anns_view(all@) =~= anns_view(self.grammar_annotations@).take(i as int));
        }
        let mut k: usize = 0;
        while k < self.annotations.len()
            invariant
                k <= self.annotations@.len(),
                anns_view(all@) == anns_view(self.grammar_annotations@) + anns_view(self.annotations@).take(k as int),
            decreases self.annotations@.len() - k,
        {
            let ghost before = anns_view(all@);
            all.push(copy_annotation(&self.annotations[k]));
            assert(anns_view(all@) =~= before.push(ann_view(self.annotations@[k as int])));
            k += 1;
            assert(anns_view(all@) =~= anns_view(self.grammar_annotations@) + anns_view(self.annotations@).take(k as int));
        }
        assert(anns_view(self.grammar_annotations@).take(i as int) =~= anns_view(self.grammar_annotations@));
        assert(anns_view(self.annotations@).take(k as int) =~= anns_view(self.annotations@));
        sort_annotations(all)
    }

    /// Mark the check slow once it has run `elapsed_nanos` nanoseconds past the threshold.
    pub fn update_slow_after(&mut self, elapsed_nanos: u128)
        ensures
            *final(self) == if old(self).check_started is Some && old(self).pending && elapsed_nanos
                > slow_threshold_nanos() {
                ScribeState { status: ScribeStatus::CheckingSlow, ..*old(self) }
            } else {
                *old(self)
            },
    {
        if self.check_started.is_some() && self.pending && elapsed_nanos > 15_000_000_000 {
            self.status = ScribeStatus::CheckingSlow;
        }
    }

    /// Update the status to slow if the check has been running too long.
    pub fn update_slow(&mut self)
        ensures
            *final(self) == *old(self) || (old(self).check_started is Some && old(self).pending && *final(self) == (
            ScribeState { status: ScribeStatus::CheckingSlow, ..*old(self) })),
    {
        let elapsed = match &self.check_started {
            Some(t) => elapsed_nanos(t),
            None => return,
        };
        self.update_slow_after(elapsed);
    }

    /// Whether a check is in flight.
    pub fn is_pending(&self) -> (r: bool)
        ensures
            r == self.pending,
    {
        self.pending
    }
}

impl Default for ScribeState {
    fn default() -> (r: Self)
        ensures
            r.annotations@.len() == 0,
            r.status == ScribeStatus::Idle,
            !r.pending,
    {
        Self::new()
    }
}

/// A copy of an annotation.
fn copy_annotation(a: &Annotation) -> (r: Annotation)
    ensures
        ann_view(r) == ann_view(*a),
{
    Annotation { line: a.line, tier: a.tier, message: a.message.clone() }
}

proof fn lemma_key_le_total(a: (u16, Tier, Seq<char>), b: (u16, Tier, Seq<char>))
    ensures
        key_le(a, b) || key_le(b, a),
{
}

proof fn lemma_insert_bound(s: Seq<(u16, Tier, Seq<char>)>, x: (u16, Tier, Seq<char>), y: (u16, Tier, Seq<char>))
    requires
        forall|i: int| 0 <= i < s.len() ==> key_le(#[trigger] s[i], y),
        key_le(x, y),
    ensures
        forall|i: int| 0 <= i < insert_sorted(s, x).len() ==> key_le(#[trigger] insert_sorted(s, x)[i], y),
        insert_sorted(s, x).len() == s.len() + 1,
    decreases s.len(),
{
    let r = insert_sorted(s, x);
    if s.len() == 0 {
        assert(r =~= seq![x]);
        assert forall|i: int| 0 <= i < r.len() implies key_le(#[trigger] r[i], y) by {
            assert(r[i] == x);
        }
    } else if key_le(s.last(), x) {
        assert(r =~= s.push(x));
        assert forall|i: int| 0 <= i < r.len() implies key_le(#[trigger] r[i], y) by {
            if i < s.len() {
                assert(r[i] == s[i]);
            }
        }
    } else {
        let rest = s.drop_last();
        assert forall|i: int| 0 <= i < rest.len() implies key_le(#[trigger] rest[i], y) by {
            assert(rest[i] == s[i]);
        }
        lemma_insert_bound(rest, x, y);
        let r2 = insert_sorted(rest, x);
        assert(r =~= r2.push(s.last()));
        assert forall|i: int| 0 <= i < r.len() implies key_le(#[trigger] r[i], y) by {
            if i < r2.len() {
                assert(r[i] == r2[i]);
            } else {
                assert(r[i] == s[s.len() - 1]);
            }
        }
    }
}

proof fn lemma_insert_sorted(s: Seq<(u16, Tier, Seq<char>)>, x: (u16, Tier, Seq<char>))
    requires
        key_sorted(s),
    ensures
        key_sorted(insert_sorted(s, x)),
        insert_sorted(s, x).to_multiset() == s.to_multiset().insert(x),
    decreases s.len(),
{
    broadcast use vstd::seq_lib::group_to_multiset_ensures;

    let r = insert_sorted(s, x);
    if s.len() == 0 {
        assert(r =~= Seq::<(u16, Tier, Seq<char>)>::empty().push(x));
    } else if key_le(s.last(), x) {
        assert(r =~= s.push(x));
        assert forall|i: int, j: int| 0 <= i < j < r.len() implies key_le(r[i], r[j]) by {
            if j < s.len() {
                assert(r[i] == s[i] && r[j] == s[j]);
            } else {
                assert(r[i] == s[i] && r[j] == x);
                assert(key_le(s[i], s[s.len() - 1]));
            }
        }
    } else {
        let rest = s.drop_last();
        assert(key_sorted(rest)) by {
            assert forall|i: int, j: int| 0 <= i < j < rest.len() implies key_le(rest[i], rest[j]) by {
                assert(rest[i] == s[i] && rest[j] == s[j]);
            }
        }
        lemma_insert_sorted(rest, x);
        lemma_key_le_total(s.last(), x);
        assert forall|i: int| 0 <= i < rest.len() implies key_le(#[trigger] rest[i], s.last()) by {
            assert(rest[i] == s[i]);
            assert(key_le(s[i], s[s.len() - 1]));
        }
        lemma_insert_bound(rest, x, s.last());
        let r2 = insert_sorted(rest, x);
        assert(r =~= r2.push(s.last()));
        assert forall|i: int, j: int| 0 <= i < j < r.len() implies key_le(r[i], r[j]) by {
            if j < r2.len() {
                assert(r[i] == r2[i] && r[j] == r2[j]);
            } else {
                assert(r[i] == r2[i] && r[j] == s.last());
            }
        }
        assert(s =~= rest.push(s.last()));
    }
}

/// Annotations always come out in (line, tier) order, and sorting neither
/// loses nor adds an annotation.
pub proof fn law_annotations_sorted(s: Seq<(u16, Tier, Seq<char>)>)
    ensures
        key_sorted(sort_by_key(s)),
        sort_by_key(s).to_multiset() == s.to_multiset(),
    decreases s.len(),
{
    broadcast use vstd::seq_lib::group_to_multiset_ensures;

    if s.len() > 0 {
        law_annotations_sorted(s.drop_last());
        lemma_insert_sorted(sort_by_key(s.drop_last()), s.last());
        assert(s =~= s.drop_last().push(s.last()));
    }
}

// ---- the panel ----

/// The icon of a tier.
pub open spec fn tier_icon_text(t: Tier) -> Seq<char> {
    match t {
        Tier::Error => "✗"@,
        Tier::Hint => "💡"@,
        Tier::Research => "📎"@,
    }
}

fn tier_icon(t: Tier) -> (r: &'static str)
    ensures
        r@ == tier_icon_text(t),
{
    match t {
        Tier::Error => "✗",
        Tier::Hint => "💡",
        Tier::Research => "📎",
    }
}

/// How an annotation reads in the panel: `<icon> L<line>: <message>`.
pub open spec fn annotation_text(a: (u16, Tier, Seq<char>)) -> Seq<char> {
    tier_icon_text(a.1) + " L"@ + decimal(a.0 as nat) + ": "@ + a.2
}

/// An annotation as a panel line of one span in `style`.
fn annotation_line(a: &Annotation, style: Style) -> (r: Line)
    ensures
        line_view(r) == seq![(annotation_text(ann_view(*a)), style)],
{
    let mut text = chars_of(tier_icon(a.tier));
    push_str(&mut text, " L");
    let n = decimal_of(a.line as usize);
    push_all(&mut text, &n);
    push_str(&mut text, ": ");
    push_str(&mut text, a.message.as_str());
    let line = Line { spans: vec![Span { content: string_of(&text), style }] };
    assert(line_view(line) =~= seq![(annotation_text(ann_view(*a)), style)]);
    line
}

/// The annotations as panel lines, in order.
pub fn render_lines(annotations: &[Annotation]) -> (r: Vec<Line>)
    ensures
        lines_view(r@) == anns_view(annotations@).map_values(
            |a: (u16, Tier, Seq<char>)| seq![(annotation_text(a), plain())],
        ),
{
    let mut out: Vec<Line> = Vec::new();
    let mut i: usize = 0;
    while i < annotations.len()
        invariant
            i <= annotations@.len(),
            lines_view(out@) == anns_view(annotations@.take(i as int)).map_values(
                |a: (u16, Tier, Seq<char>)| seq![(annotation_text(a), plain())],
            ),
        decreases annotations@.len() - i,
    {
        let ghost before = out@;
        let style = Style { fg: None, bold: false, italic: false, underlined: false, crossed_out: false };
        out.push(annotation_line(&annotations[i], style));
        assert(annotations@.take(i + 1) =~= annotations@.take(i as int).push(annotations@[i as int]));
        assert(lines_view(out@) =~= lines_view(before).push(seq![(annotation_text(ann_view(annotations@[i as int])), plain())]));
        assert(anns_view(annotations@.take(i + 1)).map_values(
            |a: (u16, Tier, Seq<char>)| seq![(annotation_text(a), plain())],
        ) =~= anns_view(annotations@.take(i as int)).map_values(
            |a: (u16, Tier, Seq<char>)| seq![(annotation_text(a), plain())],
        ).push(seq![(annotation_text(ann_view(annotations@[i as int])), plain())]));
        i += 1;
    }
    assert(annotations@.take(annotations@.len() as int) =~= annotations@);
    out
}

/// `x` placed in the line-sorted `s` after every annotation on its line or
/// an earlier one.
pub open spec fn insert_by_line(s: Seq<(u16, Tier, Seq<char>)>, x: (u16, Tier, Seq<char>)) -> Seq<(u16, Tier, Seq<char>)>
    decreases s.len(),
{
    if s.len() == 0 || s.last().0 <= x.0 {
        s.push(x)
    } else {
        insert_by_line(s.drop_last(), x).push(s.last())
    }
}

/// `s` sorted by line, keeping the given order on each line.
pub open spec fn sort_by_line(s: Seq<(u16, Tier, Seq<char>)>) -> Seq<(u16, Tier, Seq<char>)>
    decreases s.len(),
{
    if s.len() == 0 {
        Seq::empty()
    } else {
        insert_by_line(sort_by_line(s.drop_last()), s.last())
    }
}

/// The annotations of `s` on lines `start..=end` (`inside`), or the others.
pub open spec fn on_lines(s: Seq<(u16, Tier, Seq<char>)>, start: u16, end: u16, inside: bool) -> Seq<(u16, Tier, Seq<char>)>
    decreases s.len(),
{
    if s.len() == 0 {
        Seq::empty()
    } else {
        let prev = on_lines(s.drop_last(), start, end, inside);
        if (start <= s.last().0 <= end) == inside {
            prev.push(s.last())
        } else {
            prev
        }
    }
}

/// The panel with the annotations on lines `start..=end` first (by line,
/// plain), then the others (by line, dimmed).
pub open spec fn focus_lines(s: Seq<(u16, Tier, Seq<char>)>, start: u16, end: u16) -> Seq<Seq<SpanV>> {
    sort_by_line(on_lines(s, start, end, true)).map_values(
        |a: (u16, Tier, Seq<char>)| seq![(annotation_text(a), plain())],
    ) + sort_by_line(on_lines(s, start, end, false)).map_values(
        |a: (u16, Tier, Seq<char>)| seq![(annotation_text(a), colored(Color::DarkGray))],
    )
}

proof fn lemma_insert_by_line_at(s: Seq<(u16, Tier, Seq<char>)>, x: (u16, Tier, Seq<char>), p: int)
    requires
        0 <= p <= s.len(),
        p == 0 || s[p - 1].0 <= x.0,
        forall|k: int| p <= k < s.len() ==> (#[trigger] s[k]).0 > x.0,
    ensures
        insert_by_line(s, x) == s.insert(p, x),
    decreases s.len(),
{
    if s.len() == 0 {
        assert(s.insert(p, x) =~= seq![x]);
    } else if p == s.len() {
        assert(s.insert(p, x) =~= s.push(x));
    } else {
        lemma_insert_by_line_at(s.drop_last(), x, p);
        assert(s.insert(p, x) =~= s.drop_last().insert(p, x).push(s.last()));
    }
}

/// Puts a copy of `x` into the line-sorted `out` after every annotation on
/// its line or an earlier one.
fn insert_annotation_by_line(out: &mut Vec<Annotation>, x: &Annotation)
    ensures
        anns_view(final(out)@) == insert_by_line(anns_view(old(out)@), ann_view(*x)),
{
    let ghost s = anns_view(out@);
    let mut p = out.len();
    while p > 0 && out[p - 1].line > x.line
        invariant
            p <= out@.len(),
            s == anns_view(out@),
            forall|k: int| p <= k < s.len() ==> (#[trigger] s[k]).0 > x.line,
        decreases p,
    {
        p -= 1;
    }
    proof {
        lemma_insert_by_line_at(s, ann_view(*x), p as int);
    }
    let copy = Annotation { line: x.line, tier: x.tier, message: x.message.clone() };
    out.insert(p, copy);
    assert(anns_view(out@) =~= s.insert(p as int, ann_view(*x)));
}

/// The panel lines with focus on lines `visible_start..=visible_end`: the
/// annotations there come first, by line; the others follow, by line and
/// dimmed.
pub fn render_lines_with_focus(annotations: &[Annotation], visible_start: u16, visible_end: u16) -> (r: Vec<Line>)
    ensures
        lines_view(r@) == focus_lines(anns_view(annotations@), visible_start, visible_end),
{
    let ghost all = anns_view(annotations@);
    let mut inside: Vec<Annotation> = Vec::new();
    let mut outside: Vec<Annotation> = Vec::new();
    let mut i: usize = 0;
    while i < annotations.len()
        invariant
            i <= annotations@.len(),
            all == anns_view(annotations@),
            anns_view(inside@) == sort_by_line(on_lines(all.take(i as int), visible_start, visible_end, true)),
            anns_view(outside@) == sort_by_line(on_lines(all.take(i as int), visible_start, visible_end, false)),
        decreases annotations@.len() - i,
    {
        assert(all.take(i + 1).drop_last() =~= all.take(i as int));
        assert(all.take(i + 1).last() == ann_view(annotations@[i as int]));
        let ghost pin = on_lines(all.take(i as int), visible_start, visible_end, true);
        let ghost pout = on_lines(all.take(i as int), visible_start, visible_end, false);
        let ghost x = ann_view(annotations@[i as int]);
        assert(pin.push(x).drop_last() =~= pin);
        assert(pout.push(x).drop_last() =~= pout);
        let a = &annotations[i];
        if visible_start <= a.line && a.line <= visible_end {
            insert_annotation_by_line(&mut inside, a);
        } else {
            insert_annotation_by_line(&mut outside, a);
        }
        i += 1;
    }
    assert(all.take(annotations@.len() as int) =~= all);
    let plain_style = Style { fg: None, bold: false, italic: false, underlined: false, crossed_out: false };
    let dim = Style { fg: Some(Color::DarkGray), bold: false, italic: false, underlined: false, crossed_out: false };
    let mut out: Vec<Line> = Vec::new();
    let ghost first = anns_view(inside@);
    let ghost second = anns_view(outside@);
    let mut k: usize = 0;
    while k < inside.len()
        invariant
            k <= inside@.len(),
            first == anns_view(inside@),
            plain_style == plain(),
            lines_view(out@) == first.take(k as int).map_values(
                |a: (u16, Tier, Seq<char>)| seq![(annotation_text(a), plain())],
            ),
        decreases inside@.len() - k,
    {
        let ghost before = out@;
        assert(first[k as int] == ann_view(inside@[k as int]));
        out.push(annotation_line(&inside[k], plain_style));
        assert(lines_view(out@) =~= lines_view(before).push(seq![(annotation_text(first[k as int]), plain())]));
        assert(first.take(k + 1).map_values(|a: (u16, Tier, Seq<char>)| seq![(annotation_text(a), plain())])
            =~= first.take(k as int).map_values(|a: (u16, Tier, Seq<char>)| seq![(annotation_text(a), plain())]).push(
            seq![(annotation_text(first[k as int]), plain())],
        ));
        k += 1;
    }
    assert(first.take(first.len() as int) =~= first);
    let ghost head = out@;
    let mut k: usize = 0;
    while k < outside.len()
        invariant
            k <= outside@.len(),
            second == anns_view(outside@),
            dim == colored(Color::DarkGray),
            lines_view(out@) == lines_view(head) + second.take(k as int).map_values(
                |a: (u16, Tier, Seq<char>)| seq![(annotation_text(a), colored(Color::DarkGray))],
            ),
        decreases outside@.len() - k,
    {
        let ghost before = out@;
        assert(second[k as int] == ann_view(outside@[k as int]));
        out.push(annotation_line(&outside[k], dim));
        assert(lines_view(out@) =~= lines_view(before).push(seq![(annotation_text(second[k as int]), colored(Color::DarkGray))]));
        assert(second.take(k + 1).map_values(
            |a: (u16, Tier, Seq<char>)| seq![(annotation_text(a), colored(Color::DarkGray))],
        ) =~= second.take(k as int).map_values(
            |a: (u16, Tier, Seq<char>)| seq![(annotation_text(a), colored(Color::DarkGray))],
        ).push(seq![(annotation_text(second[k as int]), colored(Color::DarkGray))]));
        k += 1;
    }
    assert(second.take(second.len() as int) =~= second);
    out
}

} // verus!
