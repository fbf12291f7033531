use ocd::rule::Position;
use ocd::transform::{
    apply_camel_case_join, apply_camel_case_split, apply_delete, apply_insert, apply_lower_case,
    apply_replace, apply_sanitize, apply_sentence_case, apply_title_case, apply_upper_case,
};
use ocd::pattern::apply_pattern_match;

#[test]
fn mod_lower_case_test() {
    assert_eq!(apply_lower_case("LoWeRcAsE"), "lowercase")
}

#[test]
fn mod_upper_case_test() {
    assert_eq!(apply_upper_case("UpPeRcAsE"), "UPPERCASE")
}

#[test]
fn mod_title_case_test() {
    assert_eq!(
        apply_title_case("a title has multiple words"),
        "A Title Has Multiple Words"
    );
    assert_eq!(
        apply_title_case("A TITLE HAS MULTIPLE WORDS"),
        "A Title Has Multiple Words"
    )
}

#[test]
fn mod_sentence_case_test() {
    assert_eq!(
        apply_sentence_case("a sentence has multiple words"),
        "A sentence has multiple words"
    );
    assert_eq!(
        apply_sentence_case("A SENTENCE HAS MULTIPLE WORDS"),
        "A sentence has multiple words"
    );
    assert_eq!(
        apply_sentence_case("A sEnTeNcE HaS mUlTiPlE wOrDs"),
        "A sentence has multiple words"
    )
}

#[test]
fn mod_camel_case_join_test() {
    assert_eq!(apply_camel_case_join("Camel case Join"), "CamelCaseJoin")
}

#[test]
fn mod_camel_case_split_test() {
    assert_eq!(apply_camel_case_split("CamelCaseSplit"), "Camel Case Split")
}

#[test]
fn mod_replace_test() {
    assert_eq!(apply_replace("aa bbccdd ee", "cc", "ff"), "aa bbffdd ee")
}

#[test]
fn mod_replace_space_dash_test() {
    assert_eq!(apply_replace("aa bb cc dd", " ", "-"), "aa-bb-cc-dd")
}

#[test]
fn mod_replace_space_period_test() {
    assert_eq!(apply_replace("aa bb cc dd", " ", "."), "aa.bb.cc.dd")
}

#[test]
fn replace_space_under_test() {
    assert_eq!(apply_replace("aa bb cc dd", " ", "_"), "aa_bb_cc_dd")
}

#[test]
fn mod_replace_dash_period_test() {
    assert_eq!(apply_replace("aa-bb-cc-dd", "-", "."), "aa.bb.cc.dd")
}

#[test]
fn mod_replace_dash_space_test() {
    assert_eq!(apply_replace("aa-bb-cc-dd", "-", " "), "aa bb cc dd")
}

#[test]
fn mod_replace_dash_under_test() {
    assert_eq!(apply_replace("aa-bb-cc-dd", "-", "_"), "aa_bb_cc_dd")
}

#[test]
fn mod_replace_period_dash_test() {
    assert_eq!(apply_replace("aa.bb.cc.dd", ".", "-"), "aa-bb-cc-dd")
}

#[test]
fn mod_replace_period_space_test() {
    assert_eq!(apply_replace("aa.bb.cc.dd", ".", " "), "aa bb cc dd")
}

#[test]
fn mod_replace_period_under_test() {
    assert_eq!(apply_replace("aa.bb.cc.dd", ".", "_"), "aa_bb_cc_dd")
}

#[test]
fn mod_replace_under_dash_test() {
    assert_eq!(apply_replace("aa_bb_cc_dd", "_", "-"), "aa-bb-cc-dd")
}

#[test]
fn replace_under_period_test() {
    assert_eq!(apply_replace("aa_bb_cc_dd", "_", "."), "aa.bb.cc.dd")
}

#[test]
fn mod_replace_under_space_test() {
    assert_eq!(apply_replace("aa_bb_cc_dd", "_", " "), "aa bb cc dd")
}

#[test]
fn mod_sanitize_test() {
    assert_eq!(apply_sanitize("a/b:c*d?e\"f<g>h|i\\j"), "a_b_c_d_e_f_g_h_i_j");
    assert_eq!(apply_sanitize("tab\there"), "tab_here");
    assert_eq!(apply_sanitize("plain name-1.x"), "plain name-1.x");
}

#[test]
fn mod_pattern_match_test() {
    assert_eq!(apply_pattern_match("aa bb", "{X} {X}", "{2} {1}"), "bb aa");
}

#[test]
fn mod_insert_test() {
    assert_eq!(apply_insert("aa bb", " cc", &Position::End), "aa bb cc");
    assert_eq!(
        apply_insert("aa bb", " cc", &Position::Index { value: 2 }),
        "aa cc bb"
    );
    assert_eq!(
        apply_insert("aa bb", "cc ", &Position::Index { value: 0 }),
        "cc aa bb"
    );
}

#[test]
fn mod_delete_test() {
    assert_eq!(apply_delete("aa bb cc", 0, &Position::End), "");
    assert_eq!(
        apply_delete("aa bb cc", 0, &Position::Index { value: 3 }),
        "bb cc"
    );
    assert_eq!(
        apply_delete("aa bb cc", 0, &Position::Index { value: 42 }),
        ""
    );
}
