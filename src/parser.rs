//! The parser: from tokens to rules, left to right, with a fixed argument
//! table per command.
use vstd::prelude::*;
use crate::lexer::{Lexeme, Token, lexemes};
use crate::rule::{Position, Rule, RuleView, rule_views};

verus! {

/// The kind of argument a command expects.
#[derive(Debug, PartialEq, Eq, Clone, Copy, Structural)]
pub enum ArgKind {
    /// A quoted string.
    Text,
    /// A number.
    Number,
    /// `end` or a number.
    Position,
}

/// Why a token sequence is not a rule list.
#[derive(Debug, PartialEq, Eq, Clone)]
pub enum ParseError {
    /// `command` lacks an argument of kind `expected`: the tokens ended, or
    /// another kind of token stood there.
    MissingArgument { command: Token, expected: ArgKind },
    /// The token at `index` stands where a command was expected.
    UnexpectedToken { index: usize },
}

pub open spec fn is_separator(l: Lexeme) -> bool {
    l == Lexeme::Plain(Token::Comma) || l == Lexeme::Plain(Token::Space)
}

/// The first index from `i` on that holds no separator (or the length).
pub open spec fn next_item(ts: Seq<Lexeme>, i: int) -> int
    decreases ts.len() - i,
{
    if 0 <= i < ts.len() && is_separator(ts[i]) {
        next_item(ts, i + 1)
    } else {
        i
    }
}

/// A quoted string after the separators from `i`, and the index after it.
pub open spec fn text_arg(ts: Seq<Lexeme>, i: int) -> Option<(Seq<char>, int)> {
    let j = next_item(ts, i);
    if 0 <= j < ts.len() {
        match ts[j] {
            Lexeme::Quoted(s) => Some((s, j + 1)),
            _ => None,
        }
    } else {
        None
    }
}

/// A number after the separators from `i`, and the index after it.
pub open spec fn number_arg(ts: Seq<Lexeme>, i: int) -> Option<(usize, int)> {
    let j = next_item(ts, i);
    if 0 <= j < ts.len() {
        match ts[j] {
            Lexeme::Plain(Token::Number { value }) => Some((value, j + 1)),
            _ => None,
        }
    } else {
        None
    }
}

/// `end` or a number after the separators from `i`, and the index after it.
pub open spec fn position_arg(ts: Seq<Lexeme>, i: int) -> Option<(Position, int)> {
    let j = next_item(ts, i);
    if 0 <= j < ts.len() {
        match ts[j] {
            Lexeme::Plain(Token::End) => Some((Position::End, j + 1)),
            Lexeme::Plain(Token::Number { value }) => Some((Position::Index { value }, j + 1)),
            _ => None,
        }
    } else {
        None
    }
}

/// The rule of a command that takes no argument.
pub open spec fn unit_rule(t: Token) -> Option<Rule> {
    match t {
        Token::LowerCase => Some(Rule::LowerCase),
        Token::UpperCase => Some(Rule::UpperCase),
        Token::TitleCase => Some(Rule::TitleCase),
        Token::SentenceCase => Some(Rule::SentenceCase),
        Token::CamelCaseJoin => Some(Rule::CamelCaseJoin),
        Token::CamelCaseSplit => Some(Rule::CamelCaseSplit),
        Token::ExtensionRemove => Some(Rule::ExtensionRemove),
        Token::InteractiveTokenize => Some(Rule::InteractiveTokenize),
        Token::InteractivePatternMatch => Some(Rule::InteractivePatternMatch),
        Token::ReplaceSpaceDash => Some(Rule::ReplaceSpaceDash),
        Token::ReplaceSpacePeriod => Some(Rule::ReplaceSpacePeriod),
        Token::ReplaceSpaceUnder => Some(Rule::ReplaceSpaceUnder),
        Token::ReplaceDashSpace => Some(Rule::ReplaceDashSpace),
        Token::ReplaceDashPeriod => Some(Rule::ReplaceDashPeriod),
        Token::ReplaceDashUnder => Some(Rule::ReplaceDashUnder),
        Token::ReplacePeriodDash => Some(Rule::ReplacePeriodDash),
        Token::ReplacePeriodSpace => Some(Rule::ReplacePeriodSpace),
        Token::ReplacePeriodUnder => Some(Rule::ReplacePeriodUnder),
        Token::ReplaceUnderSpace => Some(Rule::ReplaceUnderSpace),
        Token::ReplaceUnderDash => Some(Rule::ReplaceUnderDash),
        Token::ReplaceUnderPeriod => Some(Rule::ReplaceUnderPeriod),
        Token::Sanitize => Some(Rule::Sanitize),
        _ => None,
    }
}

pub open spec fn missing(command: Token, expected: ArgKind) -> ParseError {
    ParseError::MissingArgument { command, expected }
}

/// A command whose two text arguments make the rule `make`.
pub open spec fn two_texts(
    ts: Seq<Lexeme>,
    j: int,
    command: Token,
    make: spec_fn(Seq<char>, Seq<char>) -> RuleView,
) -> Result<(RuleView, int), ParseError> {
    match text_arg(ts, j + 1) {
        None => Err(missing(command, ArgKind::Text)),
        Some((a, k)) => match text_arg(ts, k) {
            None => Err(missing(command, ArgKind::Text)),
            Some((b, k2)) => Ok((make(a, b), k2)),
        },
    }
}

/// The command at index `j` with its arguments, and the index after them.
pub open spec fn parse_command(ts: Seq<Lexeme>, j: int) -> Result<(RuleView, int), ParseError> {
    match ts[j] {
        Lexeme::Quoted(_) => Err(ParseError::UnexpectedToken { index: j as usize }),
        Lexeme::Plain(t) => match unit_rule(t) {
            Some(r) => Ok((RuleView::Plain(r), j + 1)),
            None => match t {
                Token::Replace => two_texts(
                    ts,
                    j,
                    t,
                    |a: Seq<char>, b: Seq<char>| RuleView::Replace { pattern: a, replace: b },
                ),
                Token::PatternMatch => two_texts(
                    ts,
                    j,
                    t,
                    |a: Seq<char>, b: Seq<char>| RuleView::PatternMatch { pattern: a, replace: b },
                ),
                Token::ExtensionAdd => match text_arg(ts, j + 1) {
                    None => Err(missing(t, ArgKind::Text)),
                    Some((a, k)) => Ok((RuleView::ExtensionAdd { extension: a }, k)),
                },
                Token::Insert => match text_arg(ts, j + 1) {
                    None => Err(missing(t, ArgKind::Text)),
                    Some((a, k)) => match position_arg(ts, k) {
                        None => Err(missing(t, ArgKind::Position)),
                        Some((p, k2)) => Ok((RuleView::Insert { text: a, position: p }, k2)),
                    },
                },
                Token::Delete => match number_arg(ts, j + 1) {
                    None => Err(missing(t, ArgKind::Number)),
                    Some((from, k)) => match position_arg(ts, k) {
                        None => Err(missing(t, ArgKind::Position)),
                        Some((p, k2)) => Ok((RuleView::Plain(Rule::Delete { from, to: p }), k2)),
                    },
                },
                _ => Err(ParseError::UnexpectedToken { index: j as usize }),
            },
        },
    }
}

/// The rules of the tokens from index `i` on, in order, or the first error.
pub open spec fn parse_from(ts: Seq<Lexeme>, i: int) -> Result<Seq<RuleView>, ParseError>
    decreases ts.len() - i,
    via parse_from_decreases
{
    let j = next_item(ts, i);
    if i < 0 || j >= ts.len() {
        Ok(seq![])
    } else {
        match parse_command(ts, j) {
            Err(e) => Err(e),
            Ok((r, k)) => match parse_from(ts, k) {
                Ok(rest) => Ok(seq![r] + rest),
                Err(e) => Err(e),
            },
        }
    }
}

#[via_fn]
proof fn parse_from_decreases(ts: Seq<Lexeme>, i: int) {
    let j = next_item(ts, i);
    if !(i < 0 || j >= ts.len()) {
        lemma_next_item(ts, i);
        lemma_command_advances(ts, j);
    }
}

/// The rules of a token sequence.
pub open spec fn parse_tokens(ts: Seq<Lexeme>) -> Result<Seq<RuleView>, ParseError> {
    parse_from(ts, 0)
}

/// A rule result seen through the rules' views.
pub open spec fn parsed(r: Result<Vec<Rule>, ParseError>) -> Result<Seq<RuleView>, ParseError> {
    match r {
        Ok(v) => Ok(rule_views(v@)),
        Err(e) => Err(e),
    }
}

proof fn lemma_next_item(ts: Seq<Lexeme>, i: int)
    requires
        0 <= i,
    ensures
        i <= next_item(ts, i),
        next_item(ts, i) < ts.len() ==> !is_separator(ts[next_item(ts, i)]),
    decreases ts.len() - i,
{
    if 0 <= i < ts.len() && is_separator(ts[i]) {
        lemma_next_item(ts, i + 1);
    }
}

proof fn lemma_command_advances(ts: Seq<Lexeme>, j: int)
    requires
        0 <= j < ts.len(),
    ensures
        parse_command(ts, j) matches Ok((r, k)) ==> k > j,
{
    lemma_next_item(ts, j + 1);
    if let Some((a, k)) = text_arg(ts, j + 1) {
        lemma_next_item(ts, k);
    }
    if let Some((a, k)) = number_arg(ts, j + 1) {
        lemma_next_item(ts, k);
    }
}

/// Skips the separators from `i` on.
fn skip_separators(tokens: &[Token], i: usize) -> (j: usize)
    requires
        i <= tokens@.len(),
    ensures
        j == next_item(lexemes(tokens@), i as int),
        i <= j <= tokens@.len(),
{
    let ghost ts = lexemes(tokens@);
    let mut j = i;
    while j < tokens.len()
        invariant
            i <= j <= tokens@.len(),
            ts == lexemes(tokens@),
            next_item(ts, j as int) == next_item(ts, i as int),
        decreases tokens@.len() - j,
    {
        match tokens[j] {
            Token::Comma | Token::Space => {
                j = j + 1;
            },
            _ => {
                return j;
            },
        }
    }
    j
}

/// A quoted-string argument after the separators from `i`.
fn read_text(tokens: &[Token], i: usize) -> (r: Option<(String, usize)>)
    requires
        i <= tokens@.len(),
    ensures
        match r {
            Some((s, k)) => text_arg(lexemes(tokens@), i as int) == Some((s@, k as int)),
            None => text_arg(lexemes(tokens@), i as int) is None,
        },
{
    let j = skip_separators(tokens, i);
    if j < tokens.len() {
        match &tokens[j] {
            Token::String { value } => Some((value.clone(), j + 1)),
            _ => None,
        }
    } else {
        None
    }
}

/// A number argument after the separators from `i`.
fn read_number(tokens: &[Token], i: usize) -> (r: Option<(usize, usize)>)
    requires
        i <= tokens@.len(),
    ensures
        match r {
            Some((v, k)) => number_arg(lexemes(tokens@), i as int) == Some((v, k as int)),
            None => number_arg(lexemes(tokens@), i as int) is None,
        },
{
    let j = skip_separators(tokens, i);
    if j < tokens.len() {
        match &tokens[j] {
            Token::Number { value } => Some((*value, j + 1)),
            _ => None,
        }
    } else {
        None
    }
}

/// An `end` or number argument after the separators from `i`.
fn read_position(tokens: &[Token], i: usize) -> (r: Option<(Position, usize)>)
    requires
        i <= tokens@.len(),
    ensures
        match r {
            Some((p, k)) => position_arg(lexemes(tokens@), i as int) == Some((p, k as int)),
            None => position_arg(lexemes(tokens@), i as int) is None,
        },
{
    let j = skip_separators(tokens, i);
    if j < tokens.len() {
        match &tokens[j] {
            Token::End => Some((Position::End, j + 1)),
            Token::Number { value } => Some((Position::Index { value: *value }, j + 1)),
            _ => None,
        }
    } else {
        None
    }
}

/// The rule of a command token that takes no argument.
fn unit_rule_of(t: &Token) -> (r: Option<Rule>)
    ensures
        r == unit_rule(*t),
{
    match t {
        Token::LowerCase => Some(Rule::LowerCase),
        Token::UpperCase => Some(Rule::UpperCase),
        Token::TitleCase => Some(Rule::TitleCase),
        Token::SentenceCase => Some(Rule::SentenceCase),
        Token::CamelCaseJoin => Some(Rule::CamelCaseJoin),
        Token::CamelCaseSplit => Some(Rule::CamelCaseSplit),
        Token::ExtensionRemove => Some(Rule::ExtensionRemove),
        Token::InteractiveTokenize => Some(Rule::InteractiveTokenize),
        Token::InteractivePatternMatch => Some(Rule::InteractivePatternMatch),
        Token::ReplaceSpaceDash => Some(Rule::ReplaceSpaceDash),
        Token::ReplaceSpacePeriod => Some(Rule::ReplaceSpacePeriod),
        Token::ReplaceSpaceUnder => Some(Rule::ReplaceSpaceUnder),
        Token::ReplaceDashSpace => Some(Rule::ReplaceDashSpace),
        Token::ReplaceDashPeriod => Some(Rule::ReplaceDashPeriod),
        Token::ReplaceDashUnder => Some(Rule::ReplaceDashUnder),
        Token::ReplacePeriodDash => Some(Rule::ReplacePeriodDash),
        Token::ReplacePeriodSpace => Some(Rule::ReplacePeriodSpace),
        Token::ReplacePeriodUnder => Some(Rule::ReplacePeriodUnder),
        Token::ReplaceUnderSpace => Some(Rule::ReplaceUnderSpace),
        Token::ReplaceUnderDash => Some(Rule::ReplaceUnderDash),
        Token::ReplaceUnderPeriod => Some(Rule::ReplaceUnderPeriod),
        Token::Sanitize => Some(Rule::Sanitize),
        _ => None,
    }
}

/// Reads the command at index `j` with its arguments.
fn read_command(tokens: &[Token], j: usize) -> (r: Result<(Rule, usize), ParseError>)
    requires
        j < tokens@.len(),
    ensures
        match r {
            Ok((rule, k)) => parse_command(lexemes(tokens@), j as int) == Ok::<
                (RuleView, int),
                ParseError,
            >((rule@, k as int)),
            Err(e) => parse_command(lexemes(tokens@), j as int) == Err::<(RuleView, int), ParseError>(
                e,
            ),
        },
{
    let ghost ts = lexemes(tokens@);
    assert(ts[j as int] == tokens@[j as int]@);
    if let Some(rule) = unit_rule_of(&tokens[j]) {
        return Ok((rule, j + 1));
    }
    match &tokens[j] {
        Token::Replace | Token::PatternMatch => {
            let command = match &tokens[j] {
                Token::Replace => Token::Replace,
                _ => Token::PatternMatch,
            };
            let (a, k) = match read_text(tokens, j + 1) {
                Some(x) => x,
                None => {
                    return Err(ParseError::MissingArgument { command, expected: ArgKind::Text });
                },
            };
            proof {
                lemma_next_item(ts, j + 1);
            }
            let (b, k2) = match read_text(tokens, k) {
                Some(x) => x,
                None => {
                    return Err(ParseError::MissingArgument { command, expected: ArgKind::Text });
                },
            };
            match command {
                Token::Replace => Ok((Rule::Replace { pattern: a, replace: b }, k2)),
                _ => Ok((Rule::PatternMatch { pattern: a, replace: b }, k2)),
            }
        },
        Token::ExtensionAdd => match read_text(tokens, j + 1) {
            Some((a, k)) => Ok((Rule::ExtensionAdd { extension: a }, k)),
            None => Err(
                ParseError::MissingArgument { command: Token::ExtensionAdd, expected: ArgKind::Text },
            ),
        },
        Token::Insert => {
            let (a, k) = match read_text(tokens, j + 1) {
                Some(x) => x,
                None => {
                    return Err(
                        ParseError::MissingArgument {
                            command: Token::Insert,
                            expected: ArgKind::Text,
                        },
                    );
                },
            };
            proof {
                lemma_next_item(ts, j + 1);
            }
            match read_position(tokens, k) {
                Some((p, k2)) => Ok((Rule::Insert { text: a, position: p }, k2)),
                None => Err(
                    ParseError::MissingArgument {
                        command: Token::Insert,
                        expected: ArgKind::Position,
                    },
                ),
            }
        },
        Token::Delete => {
            let (from, k) = match read_number(tokens, j + 1) {
                Some(x) => x,
                None => {
                    return Err(
                        ParseError::MissingArgument {
                            command: Token::Delete,
                            expected: ArgKind::Number,
                        },
                    );
                },
            };
            proof {
                lemma_next_item(ts, j + 1);
            }
            match read_position(tokens, k) {
                Some((p, k2)) => Ok((Rule::Delete { from, to: p }, k2)),
                None => Err(
                    ParseError::MissingArgument {
                        command: Token::Delete,
                        expected: ArgKind::Position,
                    },
                ),
            }
        },
        _ => Err(ParseError::UnexpectedToken { index: j }),
    }
}

/// Parses a token sequence into the rules it spells, in order.
pub fn parse(tokens: &[Token]) -> (r: Result<Vec<Rule>, ParseError>)
    ensures
        parsed(r) == parse_tokens(lexemes(tokens@)),
{
    let ghost ts = lexemes(tokens@);
    let mut rules: Vec<Rule> = Vec::new();
    let mut i: usize = 0;
    proof {
        if let Ok(rest) = parse_from(ts, 0) {
            assert(rule_views(rules@) + rest =~= rest);
        }
    }
    while i < tokens.len()
        invariant
            i <= tokens@.len(),
            ts == lexemes(tokens@),
            match parse_from(ts, i as int) {
                Ok(rest) => parse_from(ts, 0) == Ok::<Seq<RuleView>, ParseError>(
                    rule_views(rules@) + rest,
                ),
                Err(e) => parse_from(ts, 0) == Err::<Seq<RuleView>, ParseError>(e),
            },
        decreases tokens@.len() - i,
    {
        let j = skip_separators(tokens, i);
        if j >= tokens.len() {
            proof {
                assert(parse_from(ts, i as int) == Ok::<Seq<RuleView>, ParseError>(seq![]));
                assert(rule_views(rules@) + seq![] =~= rule_views(rules@));
            }
            return Ok(rules);
        }
        proof {
            lemma_next_item(ts, i as int);
            lemma_command_advances(ts, j as int);
        }
        match read_command(tokens, j) {
            Ok((rule, k)) => {
                let ghost before = rules@;
                rules.push(rule);
                proof {
                    assert(rule_views(rules@) =~= rule_views(before) + seq![rule@]);
                    if let Ok(rest) = parse_from(ts, k as int) {
                        assert(rule_views(before) + (seq![rule@] + rest) =~= rule_views(rules@)
                            + rest);
                    }
                }
                i = k;
            },
            Err(e) => {
                return Err(e);
            },
        }
    }
    proof {
        assert(parse_from(ts, i as int) == Ok::<Seq<RuleView>, ParseError>(seq![]));
        assert(rule_views(rules@) + seq![] =~= rule_views(rules@));
    }
    Ok(rules)
}

} // verus!
