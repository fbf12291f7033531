//! The rule engine: rules applied to file names and paths, and the rename
//! buffer folded over a rule list.
use vstd::prelude::*;
use crate::order::{
    lemma_precedes_irreflexive,
    lemma_precedes_total,
    lemma_precedes_transitive,
    precedes,
    precedes_exec,
};
use crate::pattern::{apply_pattern_match, pattern_replace};
use crate::rule::{Rule, RuleView, rule_views};
use crate::text::{chars_of, push_all, push_range, string_of};
use crate::transform::{
    apply_camel_case_join,
    apply_camel_case_split,
    apply_delete,
    apply_insert,
    apply_interactive_pattern_match,
    apply_interactive_tokenize,
    apply_lower_case,
    apply_replace,
    apply_sanitize,
    apply_sentence_case,
    apply_title_case,
    apply_upper_case,
    camel_join,
    camel_split,
    delete_range,
    insert_at,
    lower_of,
    replace_all,
    sanitized,
    sentence_of,
    title_of,
    upper_of,
};

verus! {

/// The index of the last `c` in `s`, or -1.
pub open spec fn last_index(s: Seq<char>, c: char) -> int
    decreases s.len(),
{
    if s.len() == 0 {
        -1
    } else if s.last() == c {
        s.len() - 1
    } else {
        last_index(s.drop_last(), c)
    }
}

pub proof fn lemma_last_index(s: Seq<char>, c: char)
    ensures
        -1 <= last_index(s, c) < s.len(),
        last_index(s, c) >= 0 ==> s[last_index(s, c)] == c,
    decreases s.len(),
{
    if s.len() > 0 && s.last() != c {
        lemma_last_index(s.drop_last(), c);
    }
}

/// The index of the last `c` in `s`, if any.
fn find_last(s: &Vec<char>, c: char) -> (r: Option<usize>)
    ensures
        match r {
            Some(i) => last_index(s@, c) == i as int,
            None => last_index(s@, c) == -1,
        },
{
    let mut i = s.len();
    assert(s@.take(i as int) =~= s@);
    while i > 0
        invariant
            i <= s@.len(),
            last_index(s@, c) == last_index(s@.take(i as int), c),
        decreases i,
    {
        if s[i - 1] == c {
            return Some(i - 1);
        }
        assert(s@.take(i as int).drop_last() =~= s@.take(i - 1));
        i = i - 1;
    }
    None
}

/// A file name has an extension when it holds a `.` after its first character.
pub open spec fn has_extension(name: Seq<char>) -> bool {
    last_index(name, '.') > 0
}

/// The name without its extension.
pub open spec fn stem(name: Seq<char>) -> Seq<char> {
    if has_extension(name) {
        name.take(last_index(name, '.'))
    } else {
        name
    }
}

/// What follows the last `.` of a name that has an extension.
pub open spec fn extension(name: Seq<char>) -> Seq<char> {
    name.skip(last_index(name, '.') + 1)
}

/// The name with its extension set to `ext`; an empty `ext` clears it.
pub open spec fn with_extension(name: Seq<char>, ext: Seq<char>) -> Seq<char> {
    if ext.len() == 0 {
        stem(name)
    } else {
        stem(name) + seq!['.'] + ext
    }
}

/// The stem and, if the name has one, the extension of a file name.
fn split_name(name: &Vec<char>) -> (r: (Vec<char>, Option<Vec<char>>))
    ensures
        r.0@ == stem(name@),
        match r.1 {
            Some(e) => has_extension(name@) && e@ == extension(name@),
            None => !has_extension(name@),
        },
{
    proof {
        lemma_last_index(name@, '.');
    }
    let n = name.len();
    match find_last(name, '.') {
        Some(i) => if i > 0 {
            assert(i < n);
            let mut s: Vec<char> = Vec::new();
            push_range(&mut s, name, 0, i);
            let mut e: Vec<char> = Vec::new();
            push_range(&mut e, name, i + 1, n);
            assert(s@ =~= stem(name@));
            assert(e@ =~= extension(name@));
            (s, Some(e))
        } else {
            let mut s: Vec<char> = Vec::new();
            push_all(&mut s, name);
            (s, None)
        },
        None => {
            let mut s: Vec<char> = Vec::new();
            push_all(&mut s, name);
            assert(s@ =~= name@);
            (s, None)
        },
    }
}

/// The file name with its extension set to `extension` (an empty one clears it).
pub fn apply_extension_add(filename: &str, extension: &str) -> (r: String)
    ensures
        r@ == with_extension(filename@, extension@),
{
    let (mut s, _) = split_name(&chars_of(filename));
    let e = chars_of(extension);
    if e.len() > 0 {
        s.push('.');
        push_all(&mut s, &e);
    }
    string_of(&s)
}

/// The file name without its extension.
pub fn apply_extension_remove(filename: &str) -> (r: String)
    ensures
        r@ == stem(filename@),
{
    let (s, _) = split_name(&chars_of(filename));
    string_of(&s)
}

/// The two characters that a fixed-pair rule replaces one by the other.
pub open spec fn fixed_pair(r: Rule) -> Option<(char, char)> {
    match r {
        Rule::ReplaceSpaceDash => Some((' ', '-')),
        Rule::ReplaceSpacePeriod => Some((' ', '.')),
        Rule::ReplaceSpaceUnder => Some((' ', '_')),
        Rule::ReplaceDashPeriod => Some(('-', '.')),
        Rule::ReplaceDashSpace => Some(('-', ' ')),
        Rule::ReplaceDashUnder => Some(('-', '_')),
        Rule::ReplacePeriodDash => Some(('.', '-')),
        Rule::ReplacePeriodSpace => Some(('.', ' ')),
        Rule::ReplacePeriodUnder => Some(('.', '_')),
        Rule::ReplaceUnderDash => Some(('_', '-')),
        Rule::ReplaceUnderPeriod => Some(('_', '.')),
        Rule::ReplaceUnderSpace => Some(('_', ' ')),
        _ => None,
    }
}

/// What a rule makes of a text: of the stem for most rules, of the whole
/// file name for the two extension rules.
pub open spec fn rule_on_text(rule: RuleView, s: Seq<char>) -> Seq<char> {
    match rule {
        RuleView::Replace { pattern, replace } => replace_all(s, pattern, replace),
        RuleView::PatternMatch { pattern, replace } => pattern_replace(s, pattern, replace),
        RuleView::ExtensionAdd { extension } => with_extension(s, extension),
        RuleView::Insert { text, position } => insert_at(s, text, position),
        RuleView::Plain(r) => match fixed_pair(r) {
            Some((a, b)) => replace_all(s, seq![a], seq![b]),
            None => match r {
                Rule::LowerCase => lower_of(s),
                Rule::UpperCase => upper_of(s),
                Rule::TitleCase => title_of(s),
                Rule::SentenceCase => sentence_of(s),
                Rule::CamelCaseJoin => camel_join(s),
                Rule::CamelCaseSplit => camel_split(s),
                Rule::Sanitize => sanitized(s),
                Rule::ExtensionRemove => stem(s),
                Rule::Delete { from, to } => delete_range(s, from, to),
                _ => s,
            },
        },
    }
}

/// Replaces every `a` of `filename` by `b`.
fn replace_char(filename: &str, a: &str, b: &str) -> (r: String)
    requires
        a@.len() == 1,
        b@.len() == 1,
    ensures
        r@ == replace_all(filename@, seq![a@[0]], seq![b@[0]]),
{
    assert(a@ =~= seq![a@[0]]);
    assert(b@ =~= seq![b@[0]]);
    apply_replace(filename, a, b)
}

/// The text `rule` makes of `filename`.
pub fn apply_rule(rule: &Rule, filename: &str) -> (r: String)
    ensures
        r@ == rule_on_text(rule@, filename@),
{
    proof {
        reveal_strlit(" ");
        reveal_strlit("-");
        reveal_strlit(".");
        reveal_strlit("_");
    }
    match rule {
        Rule::LowerCase => apply_lower_case(filename),
        Rule::UpperCase => apply_upper_case(filename),
        Rule::TitleCase => apply_title_case(filename),
        Rule::SentenceCase => apply_sentence_case(filename),
        Rule::CamelCaseJoin => apply_camel_case_join(filename),
        Rule::CamelCaseSplit => apply_camel_case_split(filename),
        Rule::Sanitize => apply_sanitize(filename),
        Rule::Replace { pattern, replace } => apply_replace(filename, pattern, replace),
        Rule::ReplaceSpaceDash => replace_char(filename, " ", "-"),
        Rule::ReplaceSpacePeriod => replace_char(filename, " ", "."),
        Rule::ReplaceSpaceUnder => replace_char(filename, " ", "_"),
        Rule::ReplaceDashPeriod => replace_char(filename, "-", "."),
        Rule::ReplaceDashSpace => replace_char(filename, "-", " "),
        Rule::ReplaceDashUnder => replace_char(filename, "-", "_"),
        Rule::ReplacePeriodDash => replace_char(filename, ".", "-"),
        Rule::ReplacePeriodSpace => replace_char(filename, ".", " "),
        Rule::ReplacePeriodUnder => replace_char(filename, ".", "_"),
        Rule::ReplaceUnderDash => replace_char(filename, "_", "-"),
        Rule::ReplaceUnderPeriod => replace_char(filename, "_", "."),
        Rule::ReplaceUnderSpace => replace_char(filename, "_", " "),
        Rule::PatternMatch { pattern, replace } => apply_pattern_match(filename, pattern, replace),
        Rule::ExtensionAdd { extension } => apply_extension_add(filename, extension),
        Rule::ExtensionRemove => apply_extension_remove(filename),
        Rule::Insert { text, position } => apply_insert(filename, text, position),
        Rule::InteractiveTokenize => apply_interactive_tokenize(filename),
        Rule::InteractivePatternMatch => apply_interactive_pattern_match(filename),
        Rule::Delete { from, to } => apply_delete(filename, *from, to),
    }
}

/// The two rules that work on the extension rather than the stem.
pub open spec fn acts_on_extension(rule: RuleView) -> bool {
    rule is ExtensionAdd || rule == RuleView::Plain(Rule::ExtensionRemove)
}

/// A file name after one rule: the stem is transformed and the extension
/// kept, except for the extension rules.
pub open spec fn rename_name(rule: RuleView, name: Seq<char>) -> Seq<char> {
    if acts_on_extension(rule) {
        rule_on_text(rule, name)
    } else if has_extension(name) {
        rule_on_text(rule, stem(name)) + seq!['.'] + extension(name)
    } else {
        rule_on_text(rule, name)
    }
}

/// The file name `name` after `rule`.
pub fn rename_file_name(rule: &Rule, name: &str) -> (r: String)
    ensures
        r@ == rename_name(rule@, name@),
{
    match rule {
        Rule::ExtensionAdd { .. } | Rule::ExtensionRemove => {
            return apply_rule(rule, name);
        },
        _ => {},
    }
    let (s, ext) = split_name(&chars_of(name));
    let t = apply_rule(rule, &string_of(&s));
    match ext {
        Some(e) => {
            let mut out = chars_of(&t);
            out.push('.');
            push_all(&mut out, &e);
            string_of(&out)
        },
        None => t,
    }
}

/// The directory part of a path, up to and with its last `/`.
pub open spec fn dir_part(p: Seq<char>) -> Seq<char> {
    p.take(last_index(p, '/') + 1)
}

/// The last component of a path.
pub open spec fn file_name(p: Seq<char>) -> Seq<char> {
    p.skip(last_index(p, '/') + 1)
}

/// A last component that names an entry: not empty, `.` or `..`.
pub open spec fn is_entry_name(name: Seq<char>) -> bool {
    name.len() > 0 && name != seq!['.'] && name != seq!['.', '.']
}

/// A path after one rule: its file name renamed; a path without a file name
/// is left as it is.
pub open spec fn rename_path(rule: RuleView, p: Seq<char>) -> Seq<char> {
    if is_entry_name(file_name(p)) {
        dir_part(p) + rename_name(rule, file_name(p))
    } else {
        p
    }
}

/// A path after all the rules, in order.
pub open spec fn renamed(rules: Seq<RuleView>, p: Seq<char>) -> Seq<char>
    decreases rules.len(),
{
    if rules.len() == 0 {
        p
    } else {
        rename_path(rules.last(), renamed(rules.drop_last(), p))
    }
}

/// The path `path` after `rule`.
pub fn rename_entry(rule: &Rule, path: &str) -> (r: String)
    ensures
        r@ == rename_path(rule@, path@),
{
    let p = chars_of(path);
    proof {
        lemma_last_index(p@, '/');
    }
    let n = p.len();
    let start = match find_last(&p, '/') {
        Some(i) => {
            assert(i < n);
            i + 1
        },
        None => 0,
    };
    let mut name: Vec<char> = Vec::new();
    push_range(&mut name, &p, start, p.len());
    assert(name@ =~= file_name(path@));
    let entry = name.len() > 0 && !(name.len() == 1 && name[0] == '.') && !(name.len() == 2
        && name[0] == '.' && name[1] == '.');
    assert(entry == is_entry_name(name@)) by {
        if name@ == seq!['.'] {
            assert(name@[0] == '.');
        }
        if name@ == seq!['.', '.'] {
            assert(name@[0] == '.' && name@[1] == '.');
        }
        if name@.len() == 1 && name@[0] == '.' {
            assert(name@ =~= seq!['.']);
        }
        if name@.len() == 2 && name@[0] == '.' && name@[1] == '.' {
            assert(name@ =~= seq!['.', '.']);
        }
    }
    if !entry {
        return string_of(&p);
    }
    let new_name = rename_file_name(rule, &string_of(&name));
    let mut out: Vec<char> = Vec::new();
    push_range(&mut out, &p, 0, start);
    push_all(&mut out, &chars_of(&new_name));
    assert(out@ =~= rename_path(rule@, path@));
    string_of(&out)
}

/// The keys of the buffer strictly ascend.
pub open spec fn strictly_sorted(b: Seq<(String, String)>) -> bool {
    forall|i: int, j: int| 0 <= i < j < b.len() ==> precedes(#[trigger] b[i].0@, #[trigger] b[j].0@)
}

/// Some entry of the buffer has the key `k`.
pub open spec fn has_key(b: Seq<(String, String)>, k: Seq<char>) -> bool {
    exists|i: int| 0 <= i < b.len() && (#[trigger] b[i]).0@ == k
}

/// Some path of `files` is `k`.
pub open spec fn has_path(files: Seq<String>, k: Seq<char>) -> bool {
    exists|j: int| 0 <= j < files.len() && (#[trigger] files[j])@ == k
}

/// The keys of the buffer are exactly the paths of `files`.
pub open spec fn keys_are(b: Seq<(String, String)>, files: Seq<String>) -> bool {
    forall|k: Seq<char>| #[trigger] has_key(b, k) <==> #[trigger] has_path(files, k)
}

/// `b` is the rename buffer of `files` under `rules`: one entry per distinct
/// path, ordered by path, each mapping its path to the path after the rules.
pub open spec fn is_buffer_of(b: Seq<(String, String)>, files: Seq<String>, rules: Seq<RuleView>) -> bool {
    &&& strictly_sorted(b)
    &&& keys_are(b, files)
    &&& forall|i: int| 0 <= i < b.len() ==> (#[trigger] b[i]).1@ == renamed(rules, b[i].0@)
}

/// Every entry maps its key to itself.
pub open spec fn is_identity(b: Seq<(String, String)>) -> bool {
    forall|i: int| 0 <= i < b.len() ==> (#[trigger] b[i]).1@ == b[i].0@
}

proof fn lemma_insert_sorted(b: Seq<(String, String)>, j: int, e: (String, String))
    requires
        strictly_sorted(b),
        0 <= j <= b.len(),
        forall|k: int| 0 <= k < j ==> precedes(#[trigger] b[k].0@, e.0@),
        j < b.len() ==> precedes(e.0@, b[j].0@),
    ensures
        strictly_sorted(b.insert(j, e)),
{
    let n = b.insert(j, e);
    b.insert_ensures(j, e);
    assert forall|x: int, y: int| 0 <= x < y < n.len() implies precedes(
        #[trigger] n[x].0@,
        #[trigger] n[y].0@,
    ) by {
        if y < j {
            assert(n[x] == b[x] && n[y] == b[y]);
        } else if y == j {
            assert(n[x] == b[x]);
        } else if x < j {
            assert(n[x] == b[x] && n[y] == b[y - 1]);
        } else if x == j {
            assert(n[y] == b[y - 1]);
            if y - 1 > j {
                lemma_precedes_transitive(e.0@, b[j].0@, b[y - 1].0@);
            }
        } else {
            assert(n[x] == b[x - 1] && n[y] == b[y - 1]);
        }
    }
}

proof fn lemma_insert_keys(b: Seq<(String, String)>, j: int, e: (String, String))
    requires
        0 <= j <= b.len(),
    ensures
        forall|k: Seq<char>| #[trigger] has_key(b.insert(j, e), k) <==> (has_key(b, k) || k == e.0@),
{
    let n = b.insert(j, e);
    b.insert_ensures(j, e);
    assert forall|k: Seq<char>| #[trigger] has_key(n, k) <==> (has_key(b, k) || k == e.0@) by {
        if has_key(n, k) {
            let i = choose|i: int| 0 <= i < n.len() && (#[trigger] n[i]).0@ == k;
            if i < j {
                assert(b[i] == n[i]);
            } else if i > j {
                assert(b[i - 1] == n[i]);
            }
        }
        if has_key(b, k) {
            let i = choose|i: int| 0 <= i < b.len() && (#[trigger] b[i]).0@ == k;
            if i < j {
                assert(n[i] == b[i]);
            } else {
                assert(n[i + 1] == b[i]);
            }
        }
        if k == e.0@ {
            assert(n[j] == e);
        }
    }
}

proof fn lemma_paths_step(files: Seq<String>, i: int)
    requires
        0 <= i < files.len(),
    ensures
        forall|k: Seq<char>| #[trigger] has_path(files.take(i + 1), k) <==> (has_path(
            files.take(i),
            k,
        ) || k == files[i]@),
{
    let a = files.take(i);
    let b = files.take(i + 1);
    assert forall|k: Seq<char>| #[trigger] has_path(b, k) <==> (has_path(a, k) || k == files[i]@) by {
        if has_path(b, k) {
            let j = choose|j: int| 0 <= j < b.len() && (#[trigger] b[j])@ == k;
            if j < i {
                assert(a[j] == b[j]);
            }
        }
        if has_path(a, k) {
            let j = choose|j: int| 0 <= j < a.len() && (#[trigger] a[j])@ == k;
            assert(b[j] == a[j]);
        }
        if k == files[i]@ {
            assert(b[i] == files[i]);
        }
    }
}

/// Adds the path `f` to a sorted identity buffer, unless it is there already.
fn insert_path(buf: &mut Vec<(String, String)>, f: &String)
    requires
        strictly_sorted(old(buf)@),
        is_identity(old(buf)@),
    ensures
        strictly_sorted(final(buf)@),
        is_identity(final(buf)@),
        forall|k: Seq<char>| #[trigger] has_key(final(buf)@, k) <==> (has_key(old(buf)@, k) || k
            == f@),
{
    let fc = chars_of(f.as_str());
    let mut j: usize = 0;
    while j < buf.len() && precedes_exec(&chars_of(buf[j].0.as_str()), &fc)
        invariant
            j <= buf@.len(),
            fc@ == f@,
            forall|k: int| 0 <= k < j ==> precedes(#[trigger] buf@[k].0@, fc@),
        decreases buf@.len() - j,
    {
        j = j + 1;
    }
    let present = j < buf.len() && !precedes_exec(&fc, &chars_of(buf[j].0.as_str()));
    if present {
        proof {
            if buf@[j as int].0@ != fc@ {
                lemma_precedes_total(buf@[j as int].0@, fc@);
            }
            assert(has_key(buf@, f@));
        }
    } else {
        let entry = (f.clone(), f.clone());
        let ghost old_buf = buf@;
        proof {
            lemma_insert_sorted(buf@, j as int, entry);
            lemma_insert_keys(buf@, j as int, entry);
            buf@.insert_ensures(j as int, entry);
        }
        buf.insert(j, entry);
        assert forall|k: int| 0 <= k < buf@.len() implies (#[trigger] buf@[k]).1@ == buf@[k].0@ by {
            if k < j {
                assert(buf@[k] == old_buf[k]);
            } else if k > j {
                assert(buf@[k] == old_buf[k - 1]);
            }
        }
    }
}

/// The rename buffer of `files` before any rule: each distinct path mapped to
/// itself, in ascending order.
pub fn new_buffer(files: &[String]) -> (r: Vec<(String, String)>)
    ensures
        is_buffer_of(r@, files@, seq![]),
{
    let mut buf: Vec<(String, String)> = Vec::new();
    let mut i: usize = 0;
    assert forall|k: Seq<char>| #[trigger] has_key(buf@, k) <==> #[trigger] has_path(
        files@.take(0),
        k,
    ) by {}
    while i < files.len()
        invariant
            i <= files@.len(),
            strictly_sorted(buf@),
            is_identity(buf@),
            keys_are(buf@, files@.take(i as int)),
        decreases files@.len() - i,
    {
        insert_path(&mut buf, &files[i]);
        proof {
            lemma_paths_step(files@, i as int);
        }
        i = i + 1;
    }
    assert(files@.take(files@.len() as int) =~= files@);
    buf
}

proof fn lemma_same_keys(a: Seq<(String, String)>, b: Seq<(String, String)>)
    requires
        a.len() == b.len(),
        forall|m: int| 0 <= m < a.len() ==> (#[trigger] a[m]).0 == b[m].0,
    ensures
        strictly_sorted(a) ==> strictly_sorted(b),
        forall|k: Seq<char>| #[trigger] has_key(a, k) <==> has_key(b, k),
{
    assert forall|k: Seq<char>| #[trigger] has_key(a, k) <==> has_key(b, k) by {
        if has_key(a, k) {
            let i = choose|i: int| 0 <= i < a.len() && (#[trigger] a[i]).0@ == k;
            assert(b[i].0@ == k);
        }
        if has_key(b, k) {
            let i = choose|i: int| 0 <= i < b.len() && (#[trigger] b[i]).0@ == k;
            assert(a[i].0@ == k);
        }
    }
    if strictly_sorted(a) {
        assert forall|i: int, j: int| 0 <= i < j < b.len() implies precedes(
            #[trigger] b[i].0@,
            #[trigger] b[j].0@,
        ) by {
            assert(a[i].0 == b[i].0 && a[j].0 == b[j].0);
        }
    }
}

/// Applies one rule to the candidate path of every entry; the keys stay.
fn apply_rule_to_buffer(buf: &mut Vec<(String, String)>, rule: &Rule)
    ensures
        final(buf)@.len() == old(buf)@.len(),
        forall|m: int| 0 <= m < final(buf)@.len() ==> (#[trigger] final(buf)@[m]).0 == old(buf)@[m].0,
        forall|m: int|
            0 <= m < final(buf)@.len() ==> (#[trigger] final(buf)@[m]).1@ == rename_path(
                rule@,
                old(buf)@[m].1@,
            ),
{
    let ghost before = buf@;
    let mut k: usize = 0;
    while k < buf.len()
        invariant
            k <= buf@.len(),
            buf@.len() == before.len(),
            forall|m: int| 0 <= m < buf@.len() ==> (#[trigger] buf@[m]).0 == before[m].0,
            forall|m: int| k <= m < buf@.len() ==> #[trigger] buf@[m] == before[m],
            forall|m: int|
                0 <= m < k ==> (#[trigger] buf@[m]).1@ == rename_path(rule@, before[m].1@),
        decreases buf@.len() - k,
    {
        let next = rename_entry(rule, buf[k].1.as_str());
        let key = buf[k].0.clone();
        buf.set(k, (key, next));
        k = k + 1;
    }
}

/// The rename buffer of `files` after `rules`, applied in order to every
/// entry's candidate path.
pub fn apply_rules(rules: &[Rule], files: &[String]) -> (r: Vec<(String, String)>)
    ensures
        is_buffer_of(r@, files@, rule_views(rules@)),
{
    let ghost views = rule_views(rules@);
    let mut buf = new_buffer(files);
    let mut ri: usize = 0;
    assert(views.take(0) =~= seq![]);
    while ri < rules.len()
        invariant
            ri <= rules@.len(),
            views == rule_views(rules@),
            strictly_sorted(buf@),
            keys_are(buf@, files@),
            forall|k: int|
                0 <= k < buf@.len() ==> (#[trigger] buf@[k]).1@ == renamed(
                    views.take(ri as int),
                    buf@[k].0@,
                ),
        decreases rules@.len() - ri,
    {
        let ghost before = buf@;
        apply_rule_to_buffer(&mut buf, &rules[ri]);
        proof {
            lemma_same_keys(before, buf@);
            assert forall|k: Seq<char>| #[trigger] has_key(buf@, k) <==> #[trigger] has_path(
                files@,
                k,
            ) by {
                assert(has_key(before, k) <==> has_key(buf@, k));
            }
            assert(views.take(ri + 1).drop_last() =~= views.take(ri as int));
            assert(views.take(ri + 1).last() == rules@[ri as int]@);
            assert forall|k: int| 0 <= k < buf@.len() implies (#[trigger] buf@[k]).1@ == renamed(
                views.take(ri + 1),
                buf@[k].0@,
            ) by {
                assert(buf@[k].0 == before[k].0);
            }
        }
        ri = ri + 1;
    }
    assert(views.take(rules@.len() as int) =~= views);
    buf
}

/// With no rules, the rename buffer maps each of the paths to itself.
pub proof fn law_no_rules_identity(b: Seq<(String, String)>, files: Seq<String>)
    requires
        is_buffer_of(b, files, seq![]),
    ensures
        is_identity(b),
        keys_are(b, files),
{
}

proof fn lemma_sorted_first(b: Seq<(String, String)>, m: int)
    requires
        strictly_sorted(b),
        0 < m < b.len(),
    ensures
        b[m].0@ != b[0].0@,
{
    if b[m].0@ == b[0].0@ {
        lemma_precedes_irreflexive(b[0].0@);
    }
}

proof fn lemma_sorted_same_keys(b1: Seq<(String, String)>, b2: Seq<(String, String)>)
    requires
        strictly_sorted(b1),
        strictly_sorted(b2),
        forall|k: Seq<char>|
            #![trigger has_key(b1, k)]
            #![trigger has_key(b2, k)]
            has_key(b1, k) <==> has_key(b2, k),
    ensures
        b1.len() == b2.len(),
        forall|i: int| 0 <= i < b1.len() ==> (#[trigger] b1[i]).0@ == b2[i].0@,
    decreases b1.len(),
{
    if b1.len() == 0 {
        if b2.len() > 0 {
            assert(has_key(b2, b2[0].0@));
        }
    } else {
        assert(has_key(b1, b1[0].0@));
        assert(b2.len() > 0);
        assert(has_key(b2, b2[0].0@));
        let j = choose|j: int| 0 <= j < b2.len() && (#[trigger] b2[j]).0@ == b1[0].0@;
        let i = choose|i: int| 0 <= i < b1.len() && (#[trigger] b1[i]).0@ == b2[0].0@;
        if i > 0 && j > 0 {
            assert(precedes(b2[0].0@, b2[j].0@));
            assert(precedes(b1[0].0@, b1[i].0@));
            lemma_precedes_transitive(b1[0].0@, b2[0].0@, b1[0].0@);
            lemma_precedes_irreflexive(b1[0].0@);
        }
        let first = b1[0].0@;
        assert(first == b2[0].0@);
        let t1 = b1.drop_first();
        let t2 = b2.drop_first();
        assert forall|k: Seq<char>|
            #![trigger has_key(t1, k)]
            #![trigger has_key(t2, k)]
            has_key(t1, k) <==> has_key(t2, k) by {
            if has_key(t1, k) {
                let m = choose|m: int| 0 <= m < t1.len() && (#[trigger] t1[m]).0@ == k;
                lemma_sorted_first(b1, m + 1);
                assert(has_key(b1, k));
                let n = choose|n: int| 0 <= n < b2.len() && (#[trigger] b2[n]).0@ == k;
                assert(n != 0);
                assert(t2[n - 1] == b2[n]);
            }
            if has_key(t2, k) {
                let m = choose|m: int| 0 <= m < t2.len() && (#[trigger] t2[m]).0@ == k;
                lemma_sorted_first(b2, m + 1);
                assert(has_key(b2, k));
                let n = choose|n: int| 0 <= n < b1.len() && (#[trigger] b1[n]).0@ == k;
                assert(n != 0);
                assert(t1[n - 1] == b1[n]);
            }
        }
        lemma_sorted_same_keys(t1, t2);
        assert forall|i: int| 0 <= i < b1.len() implies (#[trigger] b1[i]).0@ == b2[i].0@ by {
            if i > 0 {
                assert(t1[i - 1] == b1[i] && t2[i - 1] == b2[i]);
            }
        }
    }
}

/// The rename buffer is determined by the paths and the rules: two buffers of
/// the same paths under the same rules hold the same entries in the same order.
pub proof fn law_buffer_determined(
    b1: Seq<(String, String)>,
    b2: Seq<(String, String)>,
    files: Seq<String>,
    rules: Seq<RuleView>,
)
    requires
        is_buffer_of(b1, files, rules),
        is_buffer_of(b2, files, rules),
    ensures
        b1.len() == b2.len(),
        forall|i: int|
            0 <= i < b1.len() ==> (#[trigger] b1[i]).0@ == b2[i].0@ && b1[i].1@ == b2[i].1@,
{
    assert forall|k: Seq<char>|
        #![trigger has_key(b1, k)]
        #![trigger has_key(b2, k)]
        has_key(b1, k) <==> has_key(b2, k) by {
        assert(has_key(b1, k) <==> has_path(files, k));
        assert(has_key(b2, k) <==> has_path(files, k));
    }
    lemma_sorted_same_keys(b1, b2);
}

} // verus!