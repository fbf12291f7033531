//! Rules: the typed commands of the rule language.
use vstd::prelude::*;

verus! {

/// Where in a name a rule acts: its end, or before a character offset.
#[derive(Debug, PartialEq, Eq, Clone, Copy, Structural)]
pub enum Position {
    End,
    Index { value: usize },
}

/// One parsed command with its arguments.
#[derive(Debug, PartialEq, Eq, Clone)]
pub enum Rule {
    LowerCase,
    UpperCase,
    TitleCase,
    SentenceCase,
    CamelCaseJoin,
    CamelCaseSplit,
    Replace { pattern: String, replace: String },
    ReplaceSpaceDash,
    ReplaceSpacePeriod,
    ReplaceSpaceUnder,
    ReplaceDashPeriod,
    ReplaceDashSpace,
    ReplaceDashUnder,
    ReplacePeriodDash,
    ReplacePeriodSpace,
    ReplacePeriodUnder,
    ReplaceUnderDash,
    ReplaceUnderPeriod,
    ReplaceUnderSpace,
    Sanitize,
    PatternMatch { pattern: String, replace: String },
    ExtensionAdd { extension: String },
    ExtensionRemove,
    Insert { text: String, position: Position },
    InteractiveTokenize,
    InteractivePatternMatch,
    Delete { from: usize, to: Position },
}

/// A rule as specifications see it: the rules with text arguments by the
/// characters of those arguments, every other rule as itself.
pub enum RuleView {
    Replace { pattern: Seq<char>, replace: Seq<char> },
    PatternMatch { pattern: Seq<char>, replace: Seq<char> },
    ExtensionAdd { extension: Seq<char> },
    Insert { text: Seq<char>, position: Position },
    Plain(Rule),
}

impl View for Rule {
    type V = RuleView;

    open spec fn view(&self) -> RuleView {
        match self {
            Rule::Replace { pattern, replace } => RuleView::Replace {
                pattern: pattern@,
                replace: replace@,
            },
            Rule::PatternMatch { pattern, replace } => RuleView::PatternMatch {
                pattern: pattern@,
                replace: replace@,
            },
            Rule::ExtensionAdd { extension } => RuleView::ExtensionAdd { extension: extension@ },
            Rule::Insert { text, position } => RuleView::Insert { text: text@, position: *position },
            _ => RuleView::Plain(*self),
        }
    }
}

/// The views of a rule sequence.
pub open spec fn rule_views(rules: Seq<Rule>) -> Seq<RuleView> {
    rules.map_values(|r: Rule| r@)
}

} // verus!
