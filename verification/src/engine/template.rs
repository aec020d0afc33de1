use vstd::prelude::*;
use std::path::PathBuf;
use crate::text::{
    chars_of, find_chars, find_from, lemma_find_from_props, push_all, replace_all, replace_chars, slice_copy,
    string_of, same_chars,
};

verus! {

/// Template variables as (name, value) views.
pub open spec fn vars_view(vars: Seq<(&str, &str)>) -> Seq<(Seq<char>, Seq<char>)> {
    vars.map_values(|p: (&str, &str)| (p.0@, p.1@))
}

/// `template` rendered with `vars`: conditional blocks resolved, then
/// placeholders substituted.
pub open spec fn rendered(template: Seq<char>, vars: Seq<(Seq<char>, Seq<char>)>) -> Seq<char> {
    substitute(process_ifs(template, vars), vars)
}

/// The value of the first variable named `key`.
pub open spec fn lookup(vars: Seq<(Seq<char>, Seq<char>)>, key: Seq<char>) -> Option<Seq<char>>
    decreases vars.len(),
{
    if vars.len() == 0 {
        None
    } else if vars[0].0 == key {
        Some(vars[0].1)
    } else {
        lookup(vars.drop_first(), key)
    }
}

/// Whether `key` names a variable with a non-empty value.
pub open spec fn has_value(vars: Seq<(Seq<char>, Seq<char>)>, key: Seq<char>) -> bool {
    match lookup(vars, key) {
        Some(v) => v.len() > 0,
        None => false,
    }
}

/// Resolves `$if(key)$...$endif$` blocks, always the first remaining one, until
/// no complete block is left: a block keeps its inner text when `key` has a
/// non-empty value and disappears otherwise.
pub open spec fn process_ifs(s: Seq<char>, vars: Seq<(Seq<char>, Seq<char>)>) -> Seq<char>
    decreases s.len(),
{
    let a = find_from(s, "$if("@, 0);
    if a < 0 {
        s
    } else {
        let b = find_from(s, ")$"@, a + 4);
        if b < 0 {
            s
        } else {
            let e = find_from(s, "$endif$"@, b + 2);
            if e < 0 {
                s
            } else {
                let key = s.subrange(a + 4, b);
                let inner = s.subrange(b + 2, e);
                let rep = if has_value(vars, key) { inner } else { Seq::empty() };
                proof {
                    lemma_find_from_props(s, "$if("@, 0);
                    lemma_find_from_props(s, ")$"@, a + 4);
                    lemma_find_from_props(s, "$endif$"@, b + 2);
                    reveal_strlit("$if(");
                    reveal_strlit(")$");
                    reveal_strlit("$endif$");
                }
                process_ifs(s.take(a) + rep + s.skip(e + 7), vars)
            }
        }
    }
}

/// The placeholder written for variable `key`.
pub open spec fn placeholder(key: Seq<char>) -> Seq<char> {
    seq!['$'] + key + seq!['$']
}

/// Every `$key$` replaced by its value, variable by variable in order.
pub open spec fn substitute(s: Seq<char>, vars: Seq<(Seq<char>, Seq<char>)>) -> Seq<char>
    decreases vars.len(),
{
    if vars.len() == 0 {
        s
    } else {
        replace_all(substitute(s, vars.drop_last()), placeholder(vars.last().0), vars.last().1)
    }
}

/// Render a template: resolve `$if(var)$...$endif$` blocks, then substitute `$var$` placeholders.
/// The variables are bindings in order. When a key is bound twice, the first
/// binding is the one used: `$if` reads it, and its value replaces the
/// placeholder before the later binding is tried.
pub fn template_render(template: &str, vars: &[(&str, &str)]) -> (r: String)
    ensures
        r@ == substitute(process_ifs(template@, vars_view(vars@)), vars_view(vars@)),
{
    let ghost vv = vars_view(vars@);
    let if_open = chars_of("$if(");
    let if_close = chars_of(")$");
    let endif = chars_of("$endif$");
    proof {
        reveal_strlit("$if(");
        reveal_strlit(")$");
        reveal_strlit("$endif$");
    }
    let mut cur = chars_of(template);
    loop
        invariant
            if_open@ == "$if("@,
            if_close@ == ")$"@,
            endif@ == "$endif$"@,
            vv == vars_view(vars@),
            process_ifs(cur@, vv) == process_ifs(template@, vv),
        ensures
            process_ifs(cur@, vv) == process_ifs(template@, vv),
            process_ifs(cur@, vv) == cur@,
        decreases cur@.len(),
    {
        let ghost s = cur@;
        let n = cur.len();
        proof {
            reveal_strlit("$if(");
            reveal_strlit(")$");
            reveal_strlit("$endif$");
        }
        let a = match find_chars(&cur, &if_open, 0) {
            Some(a) => a,
            None => break,
        };
        proof {
            lemma_find_from_props(s, "$if("@, 0);
        }
        assert(a + 4 <= n);
        let b = match find_chars(&cur, &if_close, a + 4) {
            Some(b) => b,
            None => break,
        };
        proof {
            lemma_find_from_props(s, ")$"@, a + 4);
        }
        assert(b + 2 <= n);
        let e = match find_chars(&cur, &endif, b + 2) {
            Some(e) => e,
            None => break,
        };
        proof {
            lemma_find_from_props(s, "$endif$"@, b + 2);
        }
        assert(e + 7 <= n);
        let key = slice_copy(&cur, a + 4, b);
        let keep = lookup_nonempty(vars, &key);
        let mut next = slice_copy(&cur, 0, a);
        if keep {
            let inner = slice_copy(&cur, b + 2, e);
            push_all(&mut next, &inner);
        }
        let tail = slice_copy(&cur, e + 7, cur.len());
        push_all(&mut next, &tail);
        assert(s.subrange(0, a as int) =~= s.take(a as int));
        assert(s.subrange(e + 7, s.len() as int) =~= s.skip(e + 7));
        proof {
            let rep = if has_value(vv, key@) { s.subrange(b + 2, e as int) } else { Seq::<char>::empty() };
            assert(next@ =~= s.take(a as int) + rep + s.skip(e + 7));
        }
        cur = next;
    }
    let mut out = cur;
    let mut i: usize = 0;
    assert(vv.take(0) =~= Seq::<(Seq<char>, Seq<char>)>::empty());
    while i < vars.len()
        invariant
            i <= vars@.len(),
            vv == vars_view(vars@),
            out@ == substitute(process_ifs(template@, vv), vv.take(i as int)),
        decreases vars@.len() - i,
    {
        let (key, value) = vars[i];
        let mut ph: Vec<char> = Vec::new();
        ph.push('$');
        let kc = chars_of(key);
        push_all(&mut ph, &kc);
        ph.push('$');
        let vc = chars_of(value);
        out = replace_chars(&out, &ph, &vc);
        i += 1;
        assert(vv.take(i as int).drop_last() =~= vv.take(i - 1));
        assert(ph@ =~= placeholder(key@));
    }
    assert(vv.take(vars@.len() as int) =~= vv);
    string_of(&out)
}

/// Whether the first variable named `key` has a non-empty value.
fn lookup_nonempty(vars: &[(&str, &str)], key: &[char]) -> (r: bool)
    ensures
        r == has_value(vars_view(vars@), key@),
{
    let ghost vv = vars_view(vars@);
    let mut i: usize = 0;
    assert(vv.skip(0) =~= vv);
    while i < vars.len()
        invariant
            i <= vars@.len(),
            vv == vars_view(vars@),
            lookup(vv.skip(i as int), key@) == lookup(vv, key@),
        decreases vars@.len() - i,
    {
        let (name, value) = vars[i];
        let nc = chars_of(name);
        assert(vv.skip(i as int)[0] == (name@, value@));
        assert(vv.skip(i as int).drop_first() =~= vv.skip(i + 1));
        if same_chars(&nc, key) {
            return !value.is_empty();
        }
        i += 1;
    }
    assert(vv.skip(i as int) =~= Seq::<(Seq<char>, Seq<char>)>::empty());
    false
}

/// The index of the first `true` at or after `from`, or -1.
pub open spec fn first_true(flags: Seq<bool>, from: int) -> int
    decreases flags.len() - from,
{
    if from < 0 || from >= flags.len() {
        -1
    } else if flags[from] {
        from
    } else {
        first_true(flags, from + 1)
    }
}

/// The file to use among `candidates` (blog override, then theme, then
/// engine default), given which of them exist: the first that exists.
pub fn first_existing(candidates: &Vec<PathBuf>, exists: &Vec<bool>) -> (r: Option<PathBuf>)
    requires
        candidates@.len() == exists@.len(),
    ensures
        first_true(exists@, 0) < 0 ==> r is None,
        first_true(exists@, 0) >= 0 ==> r == Some(candidates@[first_true(exists@, 0)]),
{
    let mut i: usize = 0;
    while i < exists.len()
        invariant
            i <= exists@.len() == candidates@.len(),
            first_true(exists@, i as int) == first_true(exists@, 0),
        decreases exists@.len() - i,
    {
        if exists[i] {
            return Some(candidates[i].clone());
        }
        i += 1;
    }
    None
}

} // verus!
