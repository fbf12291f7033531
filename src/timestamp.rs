//! Sorting by time stamp: the dated directory that a file whose path holds a
//! date belongs in.
use vstd::prelude::*;
use crate::text::{chars_of, push_all, string_of};

verus! {

/// Settings of the time-stamp sort.
#[derive(Debug, Clone)]
pub struct TimeStampSortConfig {
    pub verbosity: crate::rename::Verbosity,
    pub dir: String,
    pub dryrun: bool,
    pub undo: bool,
    pub yes: bool,
}

impl TimeStampSortConfig {
    /// The defaults: quiet, a dry run, no undo script, asking before moving.
    pub fn new() -> (r: TimeStampSortConfig)
        ensures
            r.verbosity == crate::rename::Verbosity::Low,
            r.dir@.len() == 0,
            r.dryrun,
            !r.undo,
            !r.yes,
    {
        TimeStampSortConfig {
            verbosity: crate::rename::Verbosity::Low,
            dir: String::new(),
            dryrun: true,
            undo: false,
            yes: false,
        }
    }
}

/// A year (1000 to 2099), a month and a day in a path, each optionally
/// followed by one separator character.
pub const DATE_PATTERN: &'static str = r"\D*(1\d\d\d|20\d\d).?(0[1-9]|1[012]).?(0[1-9]|[12]\d|30|31)\D*";

/// What groups 1, 2 and 3 of the first match of the regular expression
/// `pattern` in `text` hold, when it matches.
pub uninterp spec fn regex_groups(pattern: Seq<char>, text: Seq<char>) -> Option<
    (Seq<char>, Seq<char>, Seq<char>),
>;

/// Relies on `regex::Regex::new`, `Regex::captures` and `Captures::get`: the
/// texts of groups 1 to 3 of the first match, or nothing when the pattern does
/// not compile, does not match, or leaves one of the groups unset.
#[verifier::external_body]
fn capture_groups(pattern: &str, text: &str) -> (r: Option<(String, String, String)>)
    ensures
        match r {
            Some((a, b, c)) => regex_groups(pattern@, text@) == Some((a@, b@, c@)),
            None => regex_groups(pattern@, text@) is None,
        },
{
    let re = regex::Regex::new(pattern).ok()?;
    let caps = re.captures(text)?;
    let a = caps.get(1)?.as_str().to_string();
    let b = caps.get(2)?.as_str().to_string();
    let c = caps.get(3)?.as_str().to_string();
    Some((a, b, c))
}

/// `name` under the directory `base`: joined by a `/` unless `base` is empty
/// or already ends with one.
pub open spec fn join_path(base: Seq<char>, name: Seq<char>) -> Seq<char> {
    if base.len() == 0 {
        name
    } else if base.last() == '/' {
        base + name
    } else {
        base + seq!['/'] + name
    }
}

/// The directory named `year-month-day` under `base`.
pub open spec fn dated_dir(base: Seq<char>, year: Seq<char>, month: Seq<char>, day: Seq<char>) -> Seq<
    char,
> {
    join_path(base, year + seq!['-'] + month + seq!['-'] + day)
}

/// The directory `year-month-day` under `base_dir`.
pub fn dated_directory(base_dir: &str, year: &str, month: &str, day: &str) -> (r: String)
    ensures
        r@ == dated_dir(base_dir@, year@, month@, day@),
{
    let mut out = chars_of(base_dir);
    if out.len() > 0 && out[out.len() - 1] != '/' {
        out.push('/');
    }
    push_all(&mut out, &chars_of(year));
    out.push('-');
    push_all(&mut out, &chars_of(month));
    out.push('-');
    push_all(&mut out, &chars_of(day));
    assert(out@ =~= dated_dir(base_dir@, year@, month@, day@));
    string_of(&out)
}

/// The dated directory under `base_dir` that the file at `path` belongs in,
/// when its path holds a date.
pub fn destination(base_dir: &str, path: &str) -> (r: Option<String>)
    ensures
        match regex_groups(DATE_PATTERN@, path@) {
            Some((y, m, d)) => r matches Some(dst) && dst@ == dated_dir(base_dir@, y, m, d),
            None => r is None,
        },
{
    match capture_groups(DATE_PATTERN, path) {
        Some((year, month, day)) => Some(dated_directory(base_dir, &year, &month, &day)),
        None => None,
    }
}

} // verus!
