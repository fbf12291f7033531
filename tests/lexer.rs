use ocd::lexer::{tokenize, Token};

#[test]
fn empty_test() {
    let empty: [Token; 0] = [];
    assert_eq!(&empty, tokenize("").unwrap().as_slice());
}

#[test]
fn comma_test() {
    assert_eq!(
        &[Token::Comma],
        tokenize(",").unwrap().as_slice()
    );
}

#[test]
fn space_test() {
    assert_eq!(
        &[Token::Space],
        tokenize(" ").unwrap().as_slice()
    );
}

#[test]
fn multiple_spaces_test() {
    assert_eq!(
        &[Token::Space],
        tokenize("   ").unwrap().as_slice()
    );
}

#[test]
fn string_test() {
    assert_eq!(
        &[Token::String {
            value: String::from("look, a string")
        }],
        tokenize("\"look, a string\"")
            .unwrap()
            .as_slice()
    );
}

#[test]
fn zero_test() {
    assert_eq!(
        &[Token::Number { value: 0 }],
        tokenize("0").unwrap().as_slice()
    );
}

#[test]
fn number_test() {
    assert_eq!(
        &[Token::Number { value: 10 }],
        tokenize("10").unwrap().as_slice()
    );
}

#[test]
fn large_number_test() {
    assert_eq!(
        &[Token::Number { value: 105 }],
        tokenize("105").unwrap().as_slice()
    );
}

#[test]
fn end_test() {
    assert_eq!(
        &[Token::End],
        tokenize("end").unwrap().as_slice()
    );
}

#[test]
fn lexer_pattern_match_test() {
    assert_eq!(
        &[Token::PatternMatch],
        tokenize("p").unwrap().as_slice()
    );
}

#[test]
fn lexer_lower_case_test() {
    assert_eq!(
        &[Token::LowerCase],
        tokenize("lc").unwrap().as_slice()
    );
}

#[test]
fn lexer_upper_case_test() {
    assert_eq!(
        &[Token::UpperCase],
        tokenize("uc").unwrap().as_slice()
    );
}

#[test]
fn lexer_title_case_test() {
    assert_eq!(
        &[Token::TitleCase],
        tokenize("tc").unwrap().as_slice()
    );
}

#[test]
fn lexer_sentence_case_test() {
    assert_eq!(
        &[Token::SentenceCase],
        tokenize("sc").unwrap().as_slice()
    );
}

#[test]
fn lexer_camel_case_join_test() {
    assert_eq!(
        &[Token::CamelCaseJoin],
        tokenize("ccj").unwrap().as_slice()
    );
}

#[test]
fn lexer_camel_case_split_test() {
    assert_eq!(
        &[Token::CamelCaseSplit],
        tokenize("ccs").unwrap().as_slice()
    );
}

#[test]
fn extension_add_test() {
    assert_eq!(
        &[Token::ExtensionAdd],
        tokenize("ea").unwrap().as_slice()
    );
}

#[test]
fn extension_remove_test() {
    assert_eq!(
        &[Token::ExtensionRemove],
        tokenize("er").unwrap().as_slice()
    );
}

#[test]
fn lexer_insert_test() {
    assert_eq!(
        &[Token::Insert],
        tokenize("i").unwrap().as_slice()
    );
}

#[test]
fn interactive_tokenize_test() {
    assert_eq!(
        &[Token::InteractiveTokenize],
        tokenize("it").unwrap().as_slice()
    );
}

#[test]
fn interactive_pattern_match_test() {
    assert_eq!(
        &[Token::InteractivePatternMatch],
        tokenize("ip").unwrap().as_slice()
    );
}

#[test]
fn lexer_delete_test() {
    assert_eq!(
        &[Token::Delete],
        tokenize("d").unwrap().as_slice()
    );
}

#[test]
fn lexer_replace_test() {
    assert_eq!(
        &[Token::Replace],
        tokenize("r").unwrap().as_slice()
    );
}

#[test]
fn lexer_sanitize_test() {
    assert_eq!(
        &[Token::Sanitize],
        tokenize("s").unwrap().as_slice()
    );
}

#[test]
fn lexer_replace_space_dash_test() {
    assert_eq!(
        &[Token::ReplaceSpaceDash],
        tokenize("sd").unwrap().as_slice()
    );
}

#[test]
fn lexer_replace_space_period_test() {
    assert_eq!(
        &[Token::ReplaceSpacePeriod],
        tokenize("sp").unwrap().as_slice()
    );
}

#[test]
fn replace_space_underscore_test() {
    assert_eq!(
        &[Token::ReplaceSpaceUnder],
        tokenize("su").unwrap().as_slice()
    );
}

#[test]
fn lexer_replace_dash_space_test() {
    assert_eq!(
        &[Token::ReplaceDashSpace],
        tokenize("ds").unwrap().as_slice()
    );
}

#[test]
fn lexer_replace_dash_period_test() {
    assert_eq!(
        &[Token::ReplaceDashPeriod],
        tokenize("dp").unwrap().as_slice()
    );
}

#[test]
fn lexer_replace_dash_under_test() {
    assert_eq!(
        &[Token::ReplaceDashUnder],
        tokenize("du").unwrap().as_slice()
    );
}

#[test]
fn lexer_replace_period_space_test() {
    assert_eq!(
        &[Token::ReplacePeriodSpace],
        tokenize("ps").unwrap().as_slice()
    );
}

#[test]
fn lexer_replace_period_dash_test() {
    assert_eq!(
        &[Token::ReplacePeriodDash],
        tokenize("pd").unwrap().as_slice()
    );
}

#[test]
fn lexer_replace_period_under_test() {
    assert_eq!(
        &[Token::ReplacePeriodUnder],
        tokenize("pu").unwrap().as_slice()
    );
}

#[test]
fn lexer_replace_under_space_test() {
    assert_eq!(
        &[Token::ReplaceUnderSpace],
        tokenize("us").unwrap().as_slice()
    );
}

#[test]
fn lexer_replace_under_dash_test() {
    assert_eq!(
        &[Token::ReplaceUnderDash],
        tokenize("ud").unwrap().as_slice()
    );
}

#[test]
fn replace_underscore_period_test() {
    assert_eq!(
        &[Token::ReplaceUnderPeriod],
        tokenize("up").unwrap().as_slice()
    );
}

#[test]
fn pattern_match_with_pattern_test() {
    assert_eq!(
        &[
            Token::PatternMatch,
            Token::Space,
            Token::String {
                value: String::from("{#} - {X}")
            },
            Token::Space,
            Token::String {
                value: String::from("{1}. {2}")
            },
            Token::Comma,
            Token::LowerCase,
        ],
        tokenize("p \"{#} - {X}\" \"{1}. {2}\",lc")
            .unwrap()
            .as_slice()
    );
}

#[test]
fn all_case_changes_test() {
    assert_eq!(
        &[
            Token::LowerCase,
            Token::Comma,
            Token::UpperCase,
            Token::Comma,
            Token::TitleCase,
            Token::Comma,
            Token::SentenceCase,
        ],
        tokenize("lc,uc,tc,sc").unwrap().as_slice()
    );
}

#[test]
fn all_replace_changes_test() {
    assert_eq!(
        &[
            Token::ReplaceDashPeriod,
            Token::Comma,
            Token::ReplaceDashSpace,
            Token::Comma,
            Token::ReplaceDashUnder,
            Token::Comma,
            Token::ReplacePeriodDash,
            Token::Comma,
            Token::ReplacePeriodSpace,
            Token::Comma,
            Token::ReplacePeriodUnder,
            Token::Comma,
            Token::ReplaceSpaceDash,
            Token::Comma,
            Token::ReplaceSpacePeriod,
            Token::Comma,
            Token::ReplaceSpaceUnder,
            Token::Comma,
            Token::ReplaceUnderDash,
            Token::Comma,
            Token::ReplaceUnderPeriod,
            Token::Comma,
            Token::ReplaceUnderSpace,
        ],
        tokenize("dp,ds,du,pd,ps,pu,sd,sp,su,ud,up,us")
            .unwrap()
            .as_slice()
    );
}

#[test]
fn all_extension_changes_test() {
    assert_eq!(
        &[
            Token::ExtensionRemove,
            Token::Comma,
            Token::ExtensionAdd,
            Token::Space,
            Token::String {
                value: String::from("txt")
            },
        ],
        tokenize("er,ea \"txt\"")
            .unwrap()
            .as_slice()
    );
}

#[test]
fn insert_with_pattern_test() {
    assert_eq!(
        &[
            Token::Insert,
            Token::Space,
            Token::String {
                value: String::from("text")
            },
            Token::Space,
            Token::End,
            Token::Comma,
            Token::Insert,
            Token::Space,
            Token::String {
                value: String::from("text")
            },
            Token::Space,
            Token::Number { value: 0 }
        ],
        tokenize("i \"text\" end,i \"text\" 0")
            .unwrap()
            .as_slice()
    );
}
