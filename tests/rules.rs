use ocd::engine::{apply_extension_add, apply_extension_remove, apply_rule, apply_rules, new_buffer};
use ocd::lexer::{tokenize, LexError, Token};
use ocd::parser::{parse, ArgKind, ParseError};
use ocd::pattern::apply_pattern_match;
use ocd::rename::{compile, plan, MassRenameConfig, Mode, RuleError, Verbosity};
use ocd::rule::{Position, Rule};
use ocd::timestamp::{dated_directory, destination, TimeStampSortConfig};
use ocd::transform::{
    apply_delete, apply_insert, apply_lower_case, apply_replace, apply_sentence_case,
    apply_upper_case,
};

fn strings(v: &[&str]) -> Vec<String> {
    v.iter().map(|s| s.to_string()).collect()
}

fn pairs(v: &[(&str, &str)]) -> Vec<(String, String)> {
    v.iter().map(|(a, b)| (a.to_string(), b.to_string())).collect()
}

#[test]
fn every_keyword_alone_is_one_token() {
    let cases = [
        ("lc", Token::LowerCase),
        ("uc", Token::UpperCase),
        ("tc", Token::TitleCase),
        ("sc", Token::SentenceCase),
        ("ccj", Token::CamelCaseJoin),
        ("ccs", Token::CamelCaseSplit),
        ("r", Token::Replace),
        ("sd", Token::ReplaceSpaceDash),
        ("sp", Token::ReplaceSpacePeriod),
        ("su", Token::ReplaceSpaceUnder),
        ("dp", Token::ReplaceDashPeriod),
        ("ds", Token::ReplaceDashSpace),
        ("du", Token::ReplaceDashUnder),
        ("pd", Token::ReplacePeriodDash),
        ("ps", Token::ReplacePeriodSpace),
        ("pu", Token::ReplacePeriodUnder),
        ("ud", Token::ReplaceUnderDash),
        ("up", Token::ReplaceUnderPeriod),
        ("us", Token::ReplaceUnderSpace),
        ("s", Token::Sanitize),
        ("p", Token::PatternMatch),
        ("ea", Token::ExtensionAdd),
        ("er", Token::ExtensionRemove),
        ("i", Token::Insert),
        ("it", Token::InteractiveTokenize),
        ("ip", Token::InteractivePatternMatch),
        ("d", Token::Delete),
        ("end", Token::End),
    ];
    for (text, token) in cases {
        assert_eq!(tokenize(text).unwrap(), vec![token], "{}", text);
    }
}

#[test]
fn joined_commands_keep_count_and_order() {
    let rules = compile("sc,lc,us,ccj,er,uc").unwrap();
    assert_eq!(
        rules,
        vec![
            Rule::SentenceCase,
            Rule::LowerCase,
            Rule::ReplaceUnderSpace,
            Rule::CamelCaseJoin,
            Rule::ExtensionRemove,
            Rule::UpperCase,
        ]
    );
}

#[test]
fn lower_and_upper_case_twice_equal_once() {
    for s in ["LoWeR", "ÀÉÎõü", "straße", "ΣΑΣ", "already lower", ""] {
        let once = apply_lower_case(s);
        assert_eq!(apply_lower_case(&once), once);
        let once = apply_upper_case(s);
        assert_eq!(apply_upper_case(&once), once);
    }
}

#[test]
fn replace_is_deterministic() {
    assert_eq!(apply_replace("aa bb cc dd", " ", "-"), "aa-bb-cc-dd");
    assert_eq!(apply_replace("aa bb cc dd", " ", "-"), apply_replace("aa bb cc dd", " ", "-"));
    assert_eq!(apply_replace("aaaa", "aa", "a"), "aa");
    assert_eq!(apply_replace("abc", "", "-"), "-a-b-c-");
    assert_eq!(apply_replace("", "x", "y"), "");
}

#[test]
fn delete_clamps_upper_bound() {
    assert_eq!(apply_delete("aa bb cc", 0, &Position::Index { value: 42 }), "");
    assert_eq!(apply_delete("aa bb cc", 3, &Position::End), "aa ");
    assert_eq!(apply_delete("aa bb cc", 5, &Position::Index { value: 2 }), "aa bb cc");
    assert_eq!(apply_delete("héllo", 1, &Position::Index { value: 2 }), "hllo");
}

#[test]
fn insert_at_end_and_start() {
    assert_eq!(apply_insert("aa bb", " cc", &Position::End), "aa bb cc");
    assert_eq!(apply_insert("aa bb", "cc ", &Position::Index { value: 0 }), "cc aa bb");
    assert_eq!(apply_insert("aa bb", "!", &Position::Index { value: 99 }), "aa bb!");
    assert_eq!(apply_insert("ñu", "-", &Position::Index { value: 1 }), "ñ-u");
}

#[test]
fn empty_rule_string_and_no_rules() {
    assert_eq!(tokenize("").unwrap(), Vec::<Token>::new());
    assert_eq!(parse(&[]).unwrap(), Vec::<Rule>::new());
    let files = strings(&["/x/b.txt", "/x/a.txt"]);
    assert_eq!(
        apply_rules(&[], &files),
        pairs(&[("/x/a.txt", "/x/a.txt"), ("/x/b.txt", "/x/b.txt")])
    );
}

#[test]
fn pattern_rule_end_to_end() {
    assert_eq!(
        tokenize("p \"{#} - {X}\" \"{1}. {2}\",lc").unwrap(),
        vec![
            Token::PatternMatch,
            Token::Space,
            Token::String { value: String::from("{#} - {X}") },
            Token::Space,
            Token::String { value: String::from("{1}. {2}") },
            Token::Comma,
            Token::LowerCase,
        ]
    );
    let out = plan("p \"{#} - {X}\" \"{1}. {2}\",lc", &strings(&["/m/01 - Song.mp3"])).unwrap();
    assert_eq!(out, pairs(&[("/m/01 - Song.mp3", "/m/01. song.mp3")]));
}

#[test]
fn unfinished_keyword_fails() {
    assert_eq!(tokenize("c"), Err(LexError::UnfinishedKeyword));
    assert_eq!(tokenize("lc,cc"), Err(LexError::UnfinishedKeyword));
    assert_eq!(tokenize("en"), Err(LexError::UnfinishedKeyword));
}

#[test]
fn lexer_errors() {
    assert_eq!(tokenize("\"open"), Err(LexError::UnterminatedString));
    assert_eq!(tokenize("x"), Err(LexError::UnexpectedChar { found: 'x' }));
    assert_eq!(tokenize("lcx"), Err(LexError::UnexpectedChar { found: 'x' }));
    assert_eq!(tokenize("12a"), Err(LexError::UnexpectedChar { found: 'a' }));
    assert_eq!(tokenize("c,"), Err(LexError::UnexpectedChar { found: ',' }));
    assert_eq!(tokenize("99999999999999999999999"), Err(LexError::InvalidNumber));
}

#[test]
fn separators_each_emit_tokens() {
    assert_eq!(tokenize(",,").unwrap(), vec![Token::Comma, Token::Comma]);
    assert_eq!(
        tokenize("lc,\"a\"").unwrap(),
        vec![Token::LowerCase, Token::Comma, Token::String { value: String::from("a") }]
    );
    assert_eq!(
        tokenize("d 1   end").unwrap(),
        vec![Token::Delete, Token::Space, Token::Number { value: 1 }, Token::Space, Token::End]
    );
}

#[test]
fn parse_spec_example() {
    assert_eq!(
        compile("lc,r \"foo\" \"bar\",i \"_done\" end").unwrap(),
        vec![
            Rule::LowerCase,
            Rule::Replace { pattern: String::from("foo"), replace: String::from("bar") },
            Rule::Insert { text: String::from("_done"), position: Position::End },
        ]
    );
    assert_eq!(
        compile("d 1 3,ea \"txt\",p \"{X}\" \"{1}\"").unwrap(),
        vec![
            Rule::Delete { from: 1, to: Position::Index { value: 3 } },
            Rule::ExtensionAdd { extension: String::from("txt") },
            Rule::PatternMatch { pattern: String::from("{X}"), replace: String::from("{1}") },
        ]
    );
}

#[test]
fn parse_errors() {
    let missing = |command: Token, expected: ArgKind| {
        Err(RuleError::Parse(ParseError::MissingArgument { command, expected }))
    };
    assert_eq!(compile("r \"a\""), missing(Token::Replace, ArgKind::Text));
    assert_eq!(compile("p"), missing(Token::PatternMatch, ArgKind::Text));
    assert_eq!(compile("ea,lc"), missing(Token::ExtensionAdd, ArgKind::Text));
    assert_eq!(compile("i \"x\""), missing(Token::Insert, ArgKind::Position));
    assert_eq!(compile("i 3 end"), missing(Token::Insert, ArgKind::Text));
    assert_eq!(compile("d end"), missing(Token::Delete, ArgKind::Number));
    assert_eq!(compile("d 1 \"x\""), missing(Token::Delete, ArgKind::Position));
    assert_eq!(
        compile("lc \"x\""),
        Err(RuleError::Parse(ParseError::UnexpectedToken { index: 2 }))
    );
    assert_eq!(compile("end"), Err(RuleError::Parse(ParseError::UnexpectedToken { index: 0 })));
    assert_eq!(compile("\"a"), Err(RuleError::Lex(LexError::UnterminatedString)));
}

#[test]
fn engine_keeps_extension_and_directory() {
    let files = strings(&["dir/My File.TXT", "dir/.hidden", "dir/noext", "dir/"]);
    let out = apply_rules(&compile("lc,sd").unwrap(), &files);
    assert_eq!(
        out,
        pairs(&[
            ("dir/", "dir/"),
            ("dir/.hidden", "dir/.hidden"),
            ("dir/My File.TXT", "dir/my-file.TXT"),
            ("dir/noext", "dir/noext"),
        ])
    );
}

#[test]
fn engine_orders_and_dedups_paths() {
    let files = strings(&["b", "a", "b", "ab"]);
    let out = new_buffer(&files);
    assert_eq!(out, pairs(&[("a", "a"), ("ab", "ab"), ("b", "b")]));
}

#[test]
fn rules_apply_in_order() {
    let files = strings(&["x/a b.c"]);
    assert_eq!(apply_rules(&compile("sd,dp").unwrap(), &files), pairs(&[("x/a b.c", "x/a.b.c")]));
    assert_eq!(apply_rules(&compile("dp,sd").unwrap(), &files), pairs(&[("x/a b.c", "x/a-b.c")]));
}

#[test]
fn extension_rules() {
    assert_eq!(apply_extension_add("photo.jpg", "png"), "photo.png");
    assert_eq!(apply_extension_add("photo", "png"), "photo.png");
    assert_eq!(apply_extension_add("photo.jpg", ""), "photo");
    assert_eq!(apply_extension_remove("archive.tar.gz"), "archive.tar");
    assert_eq!(apply_extension_remove(".bashrc"), ".bashrc");
    let files = strings(&["d/a.jpg"]);
    assert_eq!(apply_rules(&compile("er,ea \"txt\"").unwrap(), &files), pairs(&[("d/a.jpg", "d/a.txt")]));
}

#[test]
fn apply_rule_on_fixed_pairs() {
    assert_eq!(apply_rule(&Rule::ReplaceUnderPeriod, "a_b_c"), "a.b.c");
    assert_eq!(apply_rule(&Rule::ReplacePeriodSpace, "a.b"), "a b");
    assert_eq!(apply_rule(&Rule::InteractiveTokenize, "Same"), "Same");
    assert_eq!(apply_rule(&Rule::Delete { from: 1, to: Position::End }, "abc"), "a");
}

#[test]
fn pattern_match_cases() {
    assert_eq!(apply_pattern_match("01 - Song", "{#} - {X}", "{1}. {2}"), "01. Song");
    assert_eq!(apply_pattern_match("Song - 01", "{#} - {X}", "{1}. {2}"), "Song - 01");
    assert_eq!(apply_pattern_match("a-b-c", "{X}-{X}", "{2}+{1}"), "b-c+a");
    assert_eq!(apply_pattern_match("ab", "{X}", "{1}{7}"), "ab{7}");
}

#[test]
fn plan_reports_errors_before_renaming() {
    let files = strings(&["a"]);
    assert_eq!(
        plan("lc,r", &files),
        Err(RuleError::Parse(ParseError::MissingArgument {
            command: Token::Replace,
            expected: ArgKind::Text
        }))
    );
    assert_eq!(plan("uc", &files).unwrap(), pairs(&[("a", "A")]));
}

#[test]
fn dated_destinations() {
    assert_eq!(
        destination("base", "photos/IMG_20190312_1200.jpg"),
        Some(String::from("base/2019-03-12"))
    );
    assert_eq!(destination("base/", "2001-12-31.txt"), Some(String::from("base/2001-12-31")));
    assert_eq!(destination("base", "notes.txt"), None);
    assert_eq!(dated_directory("", "2019", "03", "12"), "2019-03-12");
}

#[test]
fn config_defaults() {
    let c = MassRenameConfig::new();
    assert_eq!(c.verbosity, Verbosity::Low);
    assert_eq!(c.mode, Mode::Files);
    assert!(c.dryrun && !c.git && !c.recurse && !c.undo && !c.yes);
    assert!(c.glob.is_none() && c.rules_raw.is_none() && c.dir.is_empty());
    let t = TimeStampSortConfig::new();
    assert!(t.dryrun && !t.undo && !t.yes && t.dir.is_empty());
}

#[test]
fn joined_keywords_tokenize_in_order() {
    assert_eq!(
        tokenize("r,d,ea,lc,end").unwrap(),
        vec![
            Token::Replace,
            Token::Comma,
            Token::Delete,
            Token::Comma,
            Token::ExtensionAdd,
            Token::Comma,
            Token::LowerCase,
            Token::Comma,
            Token::End,
        ]
    );
}

#[test]
fn sentence_case_per_character() {
    assert_eq!(apply_sentence_case("éCOLE ÉTÉ"), "École été");
    assert_eq!(apply_sentence_case(""), "");
}
