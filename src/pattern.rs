//! Pattern matching of a whole stem against a template, and rewriting by a
//! replacement template.
//!
//! In a pattern, `{X}` stands for any non-empty text and `{#}` for a non-empty
//! run of ASCII digits; every other character stands for itself. Placeholders
//! take the shortest text that lets the rest of the pattern match, the earlier
//! ones first. In a replacement, `{1}` to `{9}` stand for the captured texts;
//! every other character, and a number with no capture, stands for itself.
//! A stem that the pattern does not match is left as it is.
use vstd::prelude::*;
use crate::lexer::{digit_value, is_digit};
use crate::text::{chars_of, push_all, push_range, string_of};

verus! {

pub open spec fn is_placeholder(p: Seq<char>, k: char) -> bool {
    p.len() >= 3 && p[0] == '{' && p[1] == k && p[2] == '}'
}

/// Whether `p` opens with `{X}` or `{#}`.
pub open spec fn opens_placeholder(p: Seq<char>) -> bool {
    is_placeholder(p, 'X') || is_placeholder(p, '#')
}

/// The captures of the first match of pattern `p` against the whole of `t`.
pub open spec fn match_template(p: Seq<char>, t: Seq<char>) -> Option<Seq<Seq<char>>>
    decreases p.len(), t.len() + 1,
{
    if p.len() == 0 {
        if t.len() == 0 {
            Some(seq![])
        } else {
            None
        }
    } else if opens_placeholder(p) {
        match_capture(p, t, 1)
    } else if t.len() > 0 && t[0] == p[0] {
        match_template(p.drop_first(), t.drop_first())
    } else {
        None
    }
}

/// The first match in which the placeholder that opens `p` captures `k` or
/// more characters of `t`.
pub open spec fn match_capture(p: Seq<char>, t: Seq<char>, k: nat) -> Option<Seq<Seq<char>>>
    decreases p.len(), t.len() + 1 - k,
{
    if !opens_placeholder(p) || k == 0 || k > t.len() {
        None
    } else if is_placeholder(p, '#') && !is_digit(t[k - 1]) {
        None
    } else {
        match match_template(p.skip(3), t.skip(k as int)) {
            Some(caps) => Some(seq![t.take(k as int)] + caps),
            None => match_capture(p, t, k + 1),
        }
    }
}

/// A replacement template with `{n}` filled from `caps`.
pub open spec fn expand(rep: Seq<char>, caps: Seq<Seq<char>>) -> Seq<char>
    decreases rep.len(),
{
    if rep.len() == 0 {
        seq![]
    } else if rep.len() >= 3 && rep[0] == '{' && rep[2] == '}' && '1' <= rep[1] <= '9'
        && digit_value(rep[1]) <= caps.len() {
        caps[digit_value(rep[1]) - 1] + expand(rep.skip(3), caps)
    } else {
        seq![rep[0]] + expand(rep.drop_first(), caps)
    }
}

/// `s` rewritten by `rep` where `pattern` matches it, else `s`.
pub open spec fn pattern_replace(s: Seq<char>, pattern: Seq<char>, rep: Seq<char>) -> Seq<char> {
    match match_template(pattern, s) {
        Some(caps) => expand(rep, caps),
        None => s,
    }
}

pub open spec fn texts(v: Seq<Vec<char>>) -> Seq<Seq<char>> {
    v.map_values(|c: Vec<char>| c@)
}

pub open spec fn captured(r: Option<Vec<Vec<char>>>) -> Option<Seq<Seq<char>>> {
    match r {
        Some(v) => Some(texts(v@)),
        None => None,
    }
}

fn placeholder_at(p: &Vec<char>, i: usize, k: char) -> (r: bool)
    requires
        i <= p@.len(),
    ensures
        r == is_placeholder(p@.skip(i as int), k),
{
    p.len() - i >= 3 && p[i] == '{' && p[i + 1] == k && p[i + 2] == '}'
}

/// The captures of the first match of `p[pi..]` against `t[ti..]`.
fn match_from(p: &Vec<char>, pi: usize, t: &Vec<char>, ti: usize) -> (r: Option<Vec<Vec<char>>>)
    requires
        pi <= p@.len(),
        ti <= t@.len(),
    ensures
        captured(r) == match_template(p@.skip(pi as int), t@.skip(ti as int)),
    decreases p@.len() - pi, t@.len() - ti + 1,
{
    let ghost pv = p@.skip(pi as int);
    let ghost tv = t@.skip(ti as int);
    if pi == p.len() {
        if ti == t.len() {
            let v: Vec<Vec<char>> = Vec::new();
            assert(texts(v@) =~= seq![]);
            return Some(v);
        }
        return None;
    }
    let any = placeholder_at(p, pi, 'X');
    let digits = placeholder_at(p, pi, '#');
    if !any && !digits {
        if ti < t.len() && t[ti] == p[pi] {
            assert(pv.drop_first() =~= p@.skip(pi + 1));
            assert(tv.drop_first() =~= t@.skip(ti + 1));
            return match_from(p, pi + 1, t, ti + 1);
        } else {
            return None;
        }
    }
    let next = pi + 3;
    assert(pv.skip(3) =~= p@.skip(next as int));
    let n = t.len();
    let remaining = n - ti;
    let mut k: usize = 1;
    while k <= remaining
        invariant
            pi < p@.len(),
            ti <= t@.len(),
            next == pi + 3,
            next <= p@.len(),
            n == t@.len(),
            remaining == n - ti,
            1 <= k <= remaining + 1,
            pv == p@.skip(pi as int),
            tv == t@.skip(ti as int),
            pv.skip(3) == p@.skip(next as int),
            opens_placeholder(pv),
            digits == is_placeholder(pv, '#'),
            match_template(pv, tv) == match_capture(pv, tv, k as nat),
        decreases remaining + 1 - k,
    {
        if digits && !('0' <= t[ti + k - 1] && t[ti + k - 1] <= '9') {
            assert(tv[k - 1] == t@[ti + k - 1]);
            return None;
        }
        assert(tv.skip(k as int) =~= t@.skip(ti + k));
        match match_from(p, next, t, ti + k) {
            Some(rest) => {
                let mut cap: Vec<char> = Vec::new();
                push_range(&mut cap, t, ti, ti + k);
                assert(cap@ =~= tv.take(k as int));
                let ghost rv = rest@;
                let mut all: Vec<Vec<char>> = Vec::new();
                all.push(cap);
                let mut rest = rest;
                all.append(&mut rest);
                assert(texts(all@) =~= seq![tv.take(k as int)] + texts(rv));
                return Some(all);
            },
            None => {},
        }
        if k == remaining {
            assert(match_capture(pv, tv, (k + 1) as nat) is None);
            return None;
        }
        k = k + 1;
    }
    None
}

/// The replacement template filled from the captures.
fn expand_exec(rep: &Vec<char>, caps: &Vec<Vec<char>>) -> (r: Vec<char>)
    ensures
        r@ == expand(rep@, texts(caps@)),
{
    let ghost cv = texts(caps@);
    let mut out: Vec<char> = Vec::new();
    let mut i: usize = 0;
    assert(rep@.skip(0) =~= rep@);
    assert(out@ + expand(rep@, cv) =~= expand(rep@, cv));
    while i < rep.len()
        invariant
            i <= rep@.len(),
            cv == texts(caps@),
            expand(rep@, cv) == out@ + expand(rep@.skip(i as int), cv),
        decreases rep@.len() - i,
    {
        let ghost rest = rep@.skip(i as int);
        let ghost before = out@;
        if rep.len() - i >= 3 && rep[i] == '{' && rep[i + 2] == '}' && '1' <= rep[i + 1]
            && rep[i + 1] <= '9' && ((rep[i + 1] as u32 - '0' as u32) as usize) <= caps.len() {
            let n = (rep[i + 1] as u32 - '0' as u32) as usize;
            assert(n == digit_value(rest[1]));
            push_all(&mut out, &caps[n - 1]);
            assert(rest.skip(3) =~= rep@.skip(i + 3));
            assert(before + (cv[n - 1] + expand(rest.skip(3), cv)) =~= out@ + expand(
                rep@.skip(i + 3),
                cv,
            ));
            i = i + 3;
        } else {
            out.push(rep[i]);
            assert(rest.drop_first() =~= rep@.skip(i + 1));
            assert(before + (seq![rest[0]] + expand(rest.drop_first(), cv)) =~= out@ + expand(
                rep@.skip(i + 1),
                cv,
            ));
            i = i + 1;
        }
    }
    assert(out@ + seq![] =~= out@);
    out
}

/// The stem rewritten by `replace` where `pattern` matches all of it.
pub fn apply_pattern_match(filename: &str, pattern: &str, replace: &str) -> (r: String)
    ensures
        r@ == pattern_replace(filename@, pattern@, replace@),
{
    let s = chars_of(filename);
    let p = chars_of(pattern);
    assert(p@.skip(0) =~= p@);
    assert(s@.skip(0) =~= s@);
    match match_from(&p, 0, &s, 0) {
        Some(caps) => string_of(&expand_exec(&chars_of(replace), &caps)),
        None => string_of(&s),
    }
}

} // verus!
