//! The string transforms that rules apply to a file stem.
use vstd::prelude::*;
use crate::lexer::is_digit;
use crate::rule::Position;
use crate::text::{chars_of, push_all, push_range, string_of};

verus! {

/// What `str::to_lowercase` returns for a string.
pub uninterp spec fn lower_of(s: Seq<char>) -> Seq<char>;

/// What `str::to_uppercase` returns for a string.
pub uninterp spec fn upper_of(s: Seq<char>) -> Seq<char>;

/// What `voca_rs::case::title_case` returns for a string.
pub uninterp spec fn title_of(s: Seq<char>) -> Seq<char>;

/// Each character lower-cased on its own, the results joined.
pub open spec fn lower_each(s: Seq<char>) -> Seq<char>
    decreases s.len(),
{
    if s.len() == 0 {
        seq![]
    } else {
        lower_each(s.drop_last()) + lower_of(seq![s.last()])
    }
}

/// The first character upper-cased on its own, each other one lower-cased on
/// its own.
pub open spec fn sentence_of(s: Seq<char>) -> Seq<char> {
    if s.len() == 0 {
        seq![]
    } else {
        upper_of(seq![s[0]]) + lower_each(s.drop_first())
    }
}

/// Relies on `str::to_lowercase`: the result depends on the characters alone.
#[verifier::external_body]
fn lowercase(s: &str) -> (r: String)
    ensures
        r@ == lower_of(s@),
{
    s.to_lowercase()
}

/// Relies on `str::to_uppercase`: the result depends on the characters alone.
#[verifier::external_body]
fn uppercase(s: &str) -> (r: String)
    ensures
        r@ == upper_of(s@),
{
    s.to_uppercase()
}

/// Relies on `voca_rs::case::title_case`: every word capitalized, the rest of
/// it lowered; the result depends on the characters alone.
#[verifier::external_body]
fn title_case(s: &str) -> (r: String)
    ensures
        r@ == title_of(s@),
{
    voca_rs::case::title_case(s)
}

/// Relies on `voca_rs::case::capitalize` with the rest lowered: it splits the
/// string into one-character strings, upper-cases the first with
/// `str::to_uppercase` and lower-cases each other with `str::to_lowercase`;
/// the empty string is returned as it is.
#[verifier::external_body]
fn sentence_case(s: &str) -> (r: String)
    ensures
        r@ == sentence_of(s@),
{
    voca_rs::case::capitalize(s, true)
}

/// Full lower-casing of every character.
pub fn apply_lower_case(filename: &str) -> (r: String)
    ensures
        r@ == lower_of(filename@),
{
    lowercase(filename)
}

/// Full upper-casing of every character.
pub fn apply_upper_case(filename: &str) -> (r: String)
    ensures
        r@ == upper_of(filename@),
{
    uppercase(filename)
}

/// The first letter of every word capitalized, the rest lowered.
pub fn apply_title_case(filename: &str) -> (r: String)
    ensures
        r@ == title_of(filename@),
{
    title_case(filename)
}

/// The first letter of the whole string capitalized, the rest lowered.
pub fn apply_sentence_case(filename: &str) -> (r: String)
    ensures
        r@ == sentence_of(filename@),
{
    sentence_case(filename)
}

/// Every non-overlapping occurrence of `p` in `s`, from the left, replaced by
/// `r`. An empty `p` occurs before every character and at the end.
pub open spec fn replace_all(s: Seq<char>, p: Seq<char>, r: Seq<char>) -> Seq<char>
    decreases s.len(),
{
    if p.len() == 0 {
        if s.len() == 0 {
            r
        } else {
            r + seq![s[0]] + replace_all(s.drop_first(), p, r)
        }
    } else if s.len() == 0 {
        seq![]
    } else if p.is_prefix_of(s) {
        r + replace_all(s.skip(p.len() as int), p, r)
    } else {
        seq![s[0]] + replace_all(s.drop_first(), p, r)
    }
}

/// Whether `p` occurs in `s` at index `i`.
fn occurs_at(s: &Vec<char>, p: &Vec<char>, i: usize) -> (r: bool)
    requires
        i <= s@.len(),
    ensures
        r == p@.is_prefix_of(s@.skip(i as int)),
{
    if p.len() > s.len() - i {
        return false;
    }
    let end = i + p.len();
    let mut j: usize = i;
    while j < end
        invariant
            i <= j <= end,
            end == i + p@.len(),
            end <= s@.len(),
            forall|m: int| 0 <= m < j - i ==> p@[m] == s@[i + m],
        decreases end - j,
    {
        if p[j - i] != s[j] {
            assert(p@[j - i] != s@.skip(i as int).subrange(0, p@.len() as int)[j - i]);
            return false;
        }
        j = j + 1;
    }
    assert(p@ =~= s@.skip(i as int).subrange(0, p@.len() as int));
    true
}

/// Every occurrence of `pattern` replaced by `replace`.
pub fn apply_replace(filename: &str, pattern: &str, replace: &str) -> (r: String)
    ensures
        r@ == replace_all(filename@, pattern@, replace@),
{
    let s = chars_of(filename);
    let p = chars_of(pattern);
    let rep = chars_of(replace);
    let ghost whole = replace_all(s@, p@, rep@);
    let mut out: Vec<char> = Vec::new();
    let mut i: usize = 0;
    assert(s@.skip(0) =~= s@);
    assert(out@ + whole =~= whole);
    while i < s.len()
        invariant
            i <= s@.len(),
            whole == replace_all(s@, p@, rep@),
            whole == out@ + replace_all(s@.skip(i as int), p@, rep@),
        decreases s@.len() - i,
    {
        let ghost rest = s@.skip(i as int);
        let ghost before = out@;
        assert(rest[0] == s@[i as int]);
        if p.len() == 0 {
            push_all(&mut out, &rep);
            out.push(s[i]);
            assert(rest.drop_first() =~= s@.skip(i + 1));
            assert(before + (rep@ + seq![s@[i as int]] + replace_all(rest.drop_first(), p@, rep@))
                =~= out@ + replace_all(rest.drop_first(), p@, rep@));
            i = i + 1;
        } else if occurs_at(&s, &p, i) {
            push_all(&mut out, &rep);
            assert(rest.skip(p@.len() as int) =~= s@.skip(i + p@.len()));
            assert(before + (rep@ + replace_all(rest.skip(p@.len() as int), p@, rep@)) =~= out@
                + replace_all(rest.skip(p@.len() as int), p@, rep@));
            i = i + p.len();
        } else {
            out.push(s[i]);
            assert(rest.drop_first() =~= s@.skip(i + 1));
            assert(before + (seq![s@[i as int]] + replace_all(rest.drop_first(), p@, rep@))
                =~= out@ + replace_all(rest.drop_first(), p@, rep@));
            i = i + 1;
        }
    }
    if p.len() == 0 {
        push_all(&mut out, &rep);
    }
    assert(out@ =~= whole);
    string_of(&out)
}

/// The character offset that a position stands for in a string of `len`
/// characters: the end, or an index clamped to the end.
pub open spec fn resolve(p: Position, len: nat) -> int {
    match p {
        Position::End => len as int,
        Position::Index { value } => if value > len {
            len as int
        } else {
            value as int
        },
    }
}

fn resolve_exec(p: &Position, len: usize) -> (r: usize)
    ensures
        r == resolve(*p, len as nat),
{
    match p {
        Position::End => len,
        Position::Index { value } => if *value > len {
            len
        } else {
            *value
        },
    }
}

/// `text` spliced into `s` before the resolved position.
pub open spec fn insert_at(s: Seq<char>, text: Seq<char>, p: Position) -> Seq<char> {
    let k = resolve(p, s.len());
    s.take(k) + text + s.skip(k)
}

/// `text` inserted before the character offset `position` (an offset past
/// the end appends), or appended at `End`.
pub fn apply_insert(filename: &str, text: &str, position: &Position) -> (r: String)
    ensures
        r@ == insert_at(filename@, text@, *position),
{
    let s = chars_of(filename);
    let t = chars_of(text);
    let k = resolve_exec(position, s.len());
    let mut out: Vec<char> = Vec::new();
    push_range(&mut out, &s, 0, k);
    push_all(&mut out, &t);
    push_range(&mut out, &s, k, s.len());
    assert(out@ =~= insert_at(filename@, text@, *position));
    string_of(&out)
}

/// `s` without the characters in `[from, to)`, where `to` is resolved and
/// clamped to the end; an empty range removes nothing.
pub open spec fn delete_range(s: Seq<char>, from: usize, to: Position) -> Seq<char> {
    let t = resolve(to, s.len());
    if from < t {
        s.take(from as int) + s.skip(t)
    } else {
        s
    }
}

/// The characters from offset `from` up to `to` removed.
pub fn apply_delete(filename: &str, from_idx: usize, to: &Position) -> (r: String)
    ensures
        r@ == delete_range(filename@, from_idx, *to),
{
    let s = chars_of(filename);
    let t = resolve_exec(to, s.len());
    if from_idx >= t {
        return string_of(&s);
    }
    let mut out: Vec<char> = Vec::new();
    push_range(&mut out, &s, 0, from_idx);
    push_range(&mut out, &s, t, s.len());
    assert(out@ =~= delete_range(filename@, from_idx, *to));
    string_of(&out)
}

pub open spec fn is_blank(c: char) -> bool {
    c == ' ' || c == '\t' || c == '\n' || c == '\r'
}

pub open spec fn is_ascii_lower(c: char) -> bool {
    'a' <= c <= 'z'
}

pub open spec fn is_ascii_upper(c: char) -> bool {
    'A' <= c <= 'Z'
}

/// The ASCII capital of a lower-case ASCII letter; any other character as it is.
pub open spec fn ascii_upper(c: char) -> char {
    if is_ascii_lower(c) {
        ((c as u32) - 32) as char
    } else {
        c
    }
}

fn to_ascii_upper(c: char) -> (r: char)
    ensures
        r == ascii_upper(c),
{
    if 'a' <= c && c <= 'z' {
        let u: u32 = c as u32 - 32;
        assert(u as char == ((c as u32) - 32) as char);
        char_of(u)
    } else {
        c
    }
}

/// The character of an ASCII capital's code.
fn char_of(u: u32) -> (r: char)
    requires
        65 <= u <= 90,
    ensures
        r == u as char,
{
    let b: u8 = u as u8;
    let r = b as char;
    assert(r == u as char) by {
        assert(b as u32 == u);
    }
    r
}

/// Words (runs of non-blank characters) joined, each started by a capital:
/// blanks are dropped and the first letter of each word is upper-cased.
pub open spec fn camel_join(s: Seq<char>) -> Seq<char>
    decreases s.len(),
{
    if s.len() == 0 {
        seq![]
    } else {
        let init = s.drop_last();
        let c = s.last();
        camel_join(init) + if is_blank(c) {
            seq![]
        } else if init.len() == 0 || is_blank(init.last()) {
            seq![ascii_upper(c)]
        } else {
            seq![c]
        }
    }
}

/// The words joined in camel case: `"Camel case Join"` becomes `"CamelCaseJoin"`.
pub fn apply_camel_case_join(filename: &str) -> (r: String)
    ensures
        r@ == camel_join(filename@),
{
    let s = chars_of(filename);
    let mut out: Vec<char> = Vec::new();
    let mut i: usize = 0;
    assert(s@.take(0) =~= seq![]);
    while i < s.len()
        invariant
            i <= s@.len(),
            out@ == camel_join(s@.take(i as int)),
        decreases s@.len() - i,
    {
        let c = s[i];
        let ghost before = out@;
        assert(s@.take(i + 1).drop_last() =~= s@.take(i as int));
        if c == ' ' || c == '\t' || c == '\n' || c == '\r' {
            assert(out@ =~= before + seq![]);
        } else if i == 0 || s[i - 1] == ' ' || s[i - 1] == '\t' || s[i - 1] == '\n' || s[i - 1]
            == '\r' {
            out.push(to_ascii_upper(c));
        } else {
            out.push(c);
        }
        i = i + 1;
    }
    assert(s@.take(s@.len() as int) =~= s@);
    string_of(&out)
}

/// A space put before each ASCII capital that follows a lower-case ASCII
/// letter or a digit.
pub open spec fn camel_split(s: Seq<char>) -> Seq<char>
    decreases s.len(),
{
    if s.len() == 0 {
        seq![]
    } else {
        let init = s.drop_last();
        let c = s.last();
        camel_split(init) + if is_ascii_upper(c) && init.len() > 0 && (is_ascii_lower(
            init.last(),
        ) || is_digit(init.last())) {
            seq![' ', c]
        } else {
            seq![c]
        }
    }
}

/// Camel case split into words: `"CamelCaseSplit"` becomes `"Camel Case Split"`.
pub fn apply_camel_case_split(filename: &str) -> (r: String)
    ensures
        r@ == camel_split(filename@),
{
    let s = chars_of(filename);
    let mut out: Vec<char> = Vec::new();
    let mut i: usize = 0;
    assert(s@.take(0) =~= seq![]);
    while i < s.len()
        invariant
            i <= s@.len(),
            out@ == camel_split(s@.take(i as int)),
        decreases s@.len() - i,
    {
        let c = s[i];
        assert(s@.take(i + 1).drop_last() =~= s@.take(i as int));
        if 'A' <= c && c <= 'Z' && i > 0 && (('a' <= s[i - 1] && s[i - 1] <= 'z') || ('0' <= s[i
            - 1] && s[i - 1] <= '9')) {
            out.push(' ');
        }
        out.push(c);
        i = i + 1;
    }
    assert(s@.take(s@.len() as int) =~= s@);
    string_of(&out)
}

/// A character that is awkward or forbidden in file names on common systems:
/// control characters and `/ \ : * ? " < > |`.
pub open spec fn is_unsafe(c: char) -> bool {
    c < ' ' || c == '\x7f' || c == '/' || c == '\\' || c == ':' || c == '*' || c == '?' || c
        == '"' || c == '<' || c == '>' || c == '|'
}

/// Each unsafe character replaced by `_`.
pub open spec fn sanitized(s: Seq<char>) -> Seq<char> {
    s.map_values(|c: char| if is_unsafe(c) { '_' } else { c })
}

/// Unsafe characters replaced by underscores.
pub fn apply_sanitize(filename: &str) -> (r: String)
    ensures
        r@ == sanitized(filename@),
{
    let s = chars_of(filename);
    let mut out: Vec<char> = Vec::new();
    let mut i: usize = 0;
    while i < s.len()
        invariant
            i <= s@.len(),
            out@ == sanitized(s@.take(i as int)),
        decreases s@.len() - i,
    {
        let c = s[i];
        if c < ' ' || c == '\x7f' || c == '/' || c == '\\' || c == ':' || c == '*' || c == '?'
            || c == '"' || c == '<' || c == '>' || c == '|' {
            out.push('_');
        } else {
            out.push(c);
        }
        i = i + 1;
        assert(out@ =~= sanitized(s@.take(i as int)));
    }
    assert(s@.take(s@.len() as int) =~= s@);
    string_of(&out)
}

/// Interactive tokenizing asks a person; the engine leaves the name as it is.
pub fn apply_interactive_tokenize(filename: &str) -> (r: String)
    ensures
        r@ == filename@,
{
    string_of(&chars_of(filename))
}

/// Interactive pattern matching asks a person; the engine leaves the name as
/// it is.
pub fn apply_interactive_pattern_match(filename: &str) -> (r: String)
    ensures
        r@ == filename@,
{
    string_of(&chars_of(filename))
}

} // verus!
