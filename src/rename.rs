//! Mass renaming: its settings, and a rule string compiled and applied to a
//! set of paths.
use vstd::prelude::*;
use crate::engine::{apply_rules, is_buffer_of};
use crate::lexer::{
    LexError,
    Lexeme,
    Token,
    initial_model,
    keyword_text,
    lemma_lex_keyword,
    lex,
    lex_from,
    model,
    prepend,
    tokenize,
};
use crate::parser::{ParseError, parse, parse_from, parse_tokens, unit_rule};
use crate::rule::{Rule, RuleView, rule_views};

verus! {

/// How much is reported while working.
#[derive(Debug, PartialEq, Eq, Clone, Copy, Structural)]
pub enum Verbosity {
    Low,
    Medium,
    High,
    Debug,
}

/// Which directory entries are renamed.
#[derive(Debug, PartialEq, Eq, Clone, Copy, Structural)]
pub enum Mode {
    Files,
    Directories,
    All,
}

/// Settings of a mass rename.
#[derive(Debug, Clone)]
pub struct MassRenameConfig {
    pub verbosity: Verbosity,
    pub mode: Mode,
    pub dir: String,
    pub dryrun: bool,
    pub git: bool,
    pub recurse: bool,
    pub undo: bool,
    pub yes: bool,
    pub glob: Option<String>,
    pub rules_raw: Option<String>,
}

impl MassRenameConfig {
    /// The defaults: quiet, files only, a dry run that moves nothing, no git,
    /// no recursion, no undo script, asking before moving, no glob, no rules.
    pub fn new() -> (r: MassRenameConfig)
        ensures
            r.verbosity == Verbosity::Low,
            r.mode == Mode::Files,
            r.dir@.len() == 0,
            r.dryrun,
            !r.git,
            !r.recurse,
            !r.undo,
            !r.yes,
            r.glob is None,
            r.rules_raw is None,
    {
        MassRenameConfig {
            verbosity: Verbosity::Low,
            mode: Mode::Files,
            dir: String::new(),
            dryrun: true,
            git: false,
            recurse: false,
            undo: false,
            yes: false,
            glob: None,
            rules_raw: None,
        }
    }
}

/// Why a rule string could not be compiled.
#[derive(Debug, PartialEq, Eq, Clone)]
pub enum RuleError {
    Lex(LexError),
    Parse(ParseError),
}

/// The rules that a rule string spells, or the first error.
pub open spec fn compiled(input: Seq<char>) -> Result<Seq<RuleView>, RuleError> {
    match lex(input) {
        Err(e) => Err(RuleError::Lex(e)),
        Ok(ts) => match parse_tokens(ts) {
            Ok(rules) => Ok(rules),
            Err(e) => Err(RuleError::Parse(e)),
        },
    }
}

/// Tokenizes and parses a rule string.
pub fn compile(rules_raw: &str) -> (r: Result<Vec<Rule>, RuleError>)
    ensures
        match r {
            Ok(v) => compiled(rules_raw@) == Ok::<Seq<RuleView>, RuleError>(rule_views(v@)),
            Err(e) => compiled(rules_raw@) == Err::<Seq<RuleView>, RuleError>(e),
        },
{
    match tokenize(rules_raw) {
        Err(e) => Err(RuleError::Lex(e)),
        Ok(tokens) => match parse(tokens.as_slice()) {
            Ok(rules) => Ok(rules),
            Err(e) => Err(RuleError::Parse(e)),
        },
    }
}

/// The rename buffer that a rule string makes of `files`; nothing is applied
/// unless the whole string compiles.
pub fn plan(rules_raw: &str, files: &[String]) -> (r: Result<Vec<(String, String)>, RuleError>)
    ensures
        match compiled(rules_raw@) {
            Ok(rules) => r matches Ok(b) && is_buffer_of(b@, files@, rules),
            Err(e) => r == Err::<Vec<(String, String)>, RuleError>(e),
        },
{
    match compile(rules_raw) {
        Ok(rules) => Ok(apply_rules(rules.as_slice(), files)),
        Err(e) => Err(e),
    }
}

/// The texts of keyword tokens joined by commas.
pub open spec fn joined(ts: Seq<Token>) -> Seq<char>
    decreases ts.len(),
{
    if ts.len() == 0 {
        seq![]
    } else if ts.len() == 1 {
        keyword_text(ts[0])->0
    } else {
        keyword_text(ts[0])->0 + seq![','] + joined(ts.drop_first())
    }
}

/// The lexemes of tokens with a comma between each two.
pub open spec fn comma_separated(ts: Seq<Token>) -> Seq<Lexeme> {
    Seq::new(
        (2 * ts.len() - 1) as nat,
        |i: int|
            if i % 2 == 0 {
                Lexeme::Plain(ts[i / 2])
            } else {
                Lexeme::Plain(Token::Comma)
            },
    )
}

/// The rules of commands that take no argument.
pub open spec fn unit_rules(ts: Seq<Token>) -> Seq<RuleView> {
    ts.map_values(|t: Token| RuleView::Plain(unit_rule(t)->0))
}

pub open spec fn all_unit_commands(ts: Seq<Token>) -> bool {
    forall|i: int| 0 <= i < ts.len() ==> #[trigger] unit_rule(ts[i]) is Some
}

proof fn lemma_unit_has_text(t: Token)
    requires
        unit_rule(t) is Some,
    ensures
        keyword_text(t) is Some,
{
}

/// Every token has a keyword text.
pub open spec fn all_keywords(ts: Seq<Token>) -> bool {
    forall|i: int| 0 <= i < ts.len() ==> #[trigger] keyword_text(ts[i]) is Some
}

proof fn lemma_lex_joined(m: crate::lexer::LexerModel, ts: Seq<Token>)
    requires
        m.state is Init || m.state is Comma,
        ts.len() > 0,
        all_keywords(ts),
    ensures
        lex_from(m, joined(ts)) == prepend(
            if m.state is Comma {
                seq![Lexeme::Plain(Token::Comma)]
            } else {
                seq![]
            },
            Ok(comma_separated(ts)),
        ),
    decreases ts.len(),
{
    let t = ts[0];
    let w = keyword_text(t)->0;
    let pre = if m.state is Comma {
        seq![Lexeme::Plain(Token::Comma)]
    } else {
        seq![]
    };
    if ts.len() == 1 {
        lemma_lex_keyword(m, t, seq![]);
        assert(w + seq![] =~= w);
        assert(comma_separated(ts) =~= seq![Lexeme::Plain(t)]);
    } else {
        let rest = ts.drop_first();
        assert(all_keywords(rest)) by {
            assert forall|i: int| 0 <= i < rest.len() implies #[trigger] keyword_text(rest[i]) is Some by {
                assert(rest[i] == ts[i + 1]);
            }
        }
        let tail = seq![','] + joined(rest);
        assert(joined(ts) =~= w + tail);
        lemma_lex_keyword(m, t, tail);
        let s = crate::lexer::keyword_state(w)->0;
        let ms = model(s, m.text, m.number);
        let mc = model(crate::lexer::TokenizerState::Comma, m.text, m.number);
        assert(tail[0] == ',');
        assert(tail.drop_first() =~= joined(rest));
        lemma_lex_joined(mc, rest);
        assert(comma_separated(ts) =~= seq![Lexeme::Plain(t), Lexeme::Plain(Token::Comma)]
            + comma_separated(rest)) by {
            assert forall|i: int| 0 <= i < comma_separated(rest).len() implies comma_separated(
                ts,
            )[i + 2] == comma_separated(rest)[i] by {
                assert((i + 2) / 2 == i / 2 + 1);
                assert((i + 2) % 2 == i % 2);
            }
        }
        assert(lex_from(ms, tail) == prepend(
            seq![Lexeme::Plain(t)],
            lex_from(mc, tail.drop_first()),
        ));
        assert(pre + (seq![Lexeme::Plain(t)] + (seq![Lexeme::Plain(Token::Comma)]
            + comma_separated(rest))) =~= pre + comma_separated(ts));
    }
}

proof fn lemma_parse_separated(ts: Seq<Token>, k: int)
    requires
        ts.len() > 0,
        0 <= k < ts.len(),
        all_unit_commands(ts),
    ensures
        parse_from(comma_separated(ts), 2 * k) == Ok::<Seq<RuleView>, ParseError>(
            unit_rules(ts.skip(k)),
        ),
    decreases ts.len() - k,
{
    let l = comma_separated(ts);
    let t = ts[k];
    assert(l[2 * k] == Lexeme::Plain(t)) by {
        assert((2 * k) % 2 == 0);
        assert((2 * k) / 2 == k);
    }
    assert(unit_rule(t) is Some);
    assert(crate::parser::next_item(l, 2 * k) == 2 * k);
    if k + 1 < ts.len() {
        assert(l[2 * k + 1] == Lexeme::Plain(Token::Comma)) by {
            assert((2 * k + 1) % 2 == 1);
        }
        assert(l[2 * k + 2] == Lexeme::Plain(ts[k + 1])) by {
            assert((2 * k + 2) % 2 == 0);
            assert((2 * k + 2) / 2 == k + 1);
        }
        assert(unit_rule(ts[k + 1]) is Some);
        assert(crate::parser::next_item(l, 2 * k + 2) == 2 * k + 2);
        assert(crate::parser::next_item(l, 2 * k + 1) == 2 * k + 2);
        lemma_parse_separated(ts, k + 1);
        assert(parse_from(l, 2 * k + 1) == parse_from(l, 2 * (k + 1)));
        assert(unit_rules(ts.skip(k)) =~= seq![RuleView::Plain(unit_rule(t)->0)] + unit_rules(
            ts.skip(k + 1),
        ));
    } else {
        assert(crate::parser::next_item(l, 2 * k + 1) == 2 * k + 1);
        assert(unit_rules(ts.skip(k)) =~= seq![RuleView::Plain(unit_rule(t)->0)]);
        assert(seq![RuleView::Plain(unit_rule(t)->0)] + seq![] =~= seq![RuleView::Plain(
            unit_rule(t)->0,
        )]);
    }
}

/// Commands that take no argument, joined by commas into a rule string,
/// compile to exactly their rules: one each, in the same order.
pub proof fn law_commands_joined(ts: Seq<Token>)
    requires
        all_unit_commands(ts),
    ensures
        compiled(joined(ts)) == Ok::<Seq<RuleView>, RuleError>(unit_rules(ts)),
        compiled(joined(ts)) matches Ok(rules) && rules.len() == ts.len(),
{
    if ts.len() == 0 {
        assert(unit_rules(ts) =~= seq![]);
        assert(parse_from(seq![], 0) == Ok::<Seq<RuleView>, ParseError>(seq![]));
    } else {
        assert(all_keywords(ts)) by {
            assert forall|i: int| 0 <= i < ts.len() implies #[trigger] keyword_text(ts[i]) is Some by {
                lemma_unit_has_text(ts[i]);
            }
        }
        law_keywords_joined(ts);
        lemma_parse_separated(ts, 0);
        assert(ts.skip(0) =~= ts);
    }
}

/// Keywords joined by commas tokenize to exactly those keywords, in order,
/// with one comma between each two: `2n - 1` tokens for `n` keywords.
pub proof fn law_keywords_joined(ts: Seq<Token>)
    requires
        ts.len() > 0,
        all_keywords(ts),
    ensures
        lex(joined(ts)) == Ok::<Seq<Lexeme>, LexError>(comma_separated(ts)),
        comma_separated(ts).len() == 2 * ts.len() - 1,
        forall|k: int|
            0 <= k < ts.len() ==> #[trigger] comma_separated(ts)[2 * k] == Lexeme::Plain(ts[k]),
        forall|k: int|
            0 <= k < ts.len() - 1 ==> #[trigger] comma_separated(ts)[2 * k + 1] == Lexeme::Plain(
                Token::Comma,
            ),
{
    lemma_lex_joined(initial_model(), ts);
    assert(seq![] + comma_separated(ts) =~= comma_separated(ts));
    assert forall|k: int| 0 <= k < ts.len() implies #[trigger] comma_separated(ts)[2 * k] == Lexeme::Plain(
        ts[k],
    ) by {
        assert((2 * k) % 2 == 0);
        assert((2 * k) / 2 == k);
    }
    assert forall|k: int| 0 <= k < ts.len() - 1 implies #[trigger] comma_separated(ts)[2 * k + 1]
        == Lexeme::Plain(Token::Comma) by {
        assert((2 * k + 1) % 2 == 1);
    }
}

/// The empty rule string compiles to no rules, so the plan it makes of any
/// paths maps each distinct path to itself.
pub proof fn law_empty_rule_string(b: Seq<(String, String)>, files: Seq<String>)
    ensures
        compiled(seq![]) == Ok::<Seq<RuleView>, RuleError>(seq![]),
        is_buffer_of(b, files, seq![]) ==> crate::engine::is_identity(b)
            && crate::engine::keys_are(b, files),
{
    assert(parse_from(seq![], 0) == Ok::<Seq<RuleView>, ParseError>(seq![]));
}

} // verus!
