use mashup::env::Environment;
use mashup::piece::{identify, mashup_pieces, IdentPiece};
use mashup::text::{decimal, from_chars, map_char, matches_at, substitute, to_chars, trim};

fn chars(s: &str) -> Vec<char> {
    s.chars().collect()
}

fn text(v: Vec<char>) -> String {
    v.into_iter().collect()
}

#[test]
fn identify_strips_quotes_and_maps_hyphens() {
    assert_eq!(identify("\"Bar-Baz\""), "Bar_Baz");
    assert_eq!(identify("'x'"), "x");
    assert_eq!(identify("'-'"), "_");
    assert_eq!(identify("\"\""), "");
    assert_eq!(identify("\"a\\\"\""), "a\\");
    assert_eq!(identify("\"\"\"a-b\"c\"\""), "a_b\"c");
    assert_eq!(identify("\"it's\""), "it's");
    assert_eq!(identify("'\"'"), "\"");
}

#[test]
fn identify_leaves_other_literals_as_they_are() {
    assert_eq!(identify("0"), "0");
    assert_eq!(identify("1_000u32"), "1_000u32");
    assert_eq!(identify("-1"), "-1");
    assert_eq!(identify("b\"a-b\""), "b\"a-b\"");
    assert_eq!(identify("r\"a-b\""), "r\"a-b\"");
    assert_eq!(identify(""), "");
}

#[test]
fn pieces_join_in_order() {
    let pieces = vec![
        IdentPiece::Ident("A".to_string()),
        IdentPiece::Underscore,
        IdentPiece::Ident("B".to_string()),
    ];
    assert_eq!(mashup_pieces(&pieces), "A_B");
    let lifetime = vec![
        IdentPiece::Quote,
        IdentPiece::Ident("d".to_string()),
        IdentPiece::Ident("e".to_string()),
    ];
    assert_eq!(mashup_pieces(&lifetime), "'de");
    let mixed = vec![
        IdentPiece::Ident("CONST".to_string()),
        IdentPiece::Literal("0".to_string()),
        IdentPiece::Literal("\"x-y\"".to_string()),
        IdentPiece::Literal("'c'".to_string()),
    ];
    assert_eq!(mashup_pieces(&mixed), "CONST0x_yc");
    assert_eq!(mashup_pieces(&Vec::new()), "");
}

#[test]
fn joining_two_runs_joins_their_identifiers() {
    let front = vec![IdentPiece::Ident("Lib".to_string()), IdentPiece::Underscore];
    let back = vec![
        IdentPiece::Literal("\"ma-sh\"".to_string()),
        IdentPiece::Quote,
    ];
    let mut all = front.clone();
    all.extend(back.clone());
    assert_eq!(
        mashup_pieces(&all),
        format!("{}{}", mashup_pieces(&front), mashup_pieces(&back))
    );
    assert_eq!(mashup_pieces(&all), "Lib_ma_sh'");
}

#[test]
fn strings_and_characters_convert_both_ways() {
    assert_eq!(to_chars("a\u{e9}\u{1F600}'"), chars("a\u{e9}\u{1F600}'"));
    assert_eq!(from_chars(&chars("a\u{e9}\u{1F600}'")), "a\u{e9}\u{1F600}'");
    assert_eq!(from_chars(&Vec::new()), "");
}

#[test]
fn substitute_replaces_from_the_left_without_overlap() {
    let sub = |t: &str, p: &str, v: &str| text(substitute(&chars(t), &chars(p), &chars(v)));
    assert_eq!(sub("a__xb__x", "__x", "NAME"), "aNAMEbNAME");
    assert_eq!(sub("aaaa", "aa", "b"), "bb");
    assert_eq!(sub("aaa", "aa", "b"), "ba");
    assert_eq!(sub("abc", "abcd", "x"), "abc");
    assert_eq!(sub("abc", "", "x"), "abc");
    assert_eq!(sub("", "a", "x"), "");
    assert_eq!(sub("xay", "a", "aa"), "xaay");
    assert_eq!(sub(" $v0:tt $v1:tt", ":tt", ""), " $v0 $v1");
}

#[test]
fn matches_at_compares_in_place() {
    assert!(matches_at(&chars("hello"), &chars("ll"), 2));
    assert!(!matches_at(&chars("hello"), &chars("ll"), 3));
    assert!(!matches_at(&chars("hello"), &chars("lox"), 3));
    assert!(matches_at(&chars("hello"), &chars(""), 5));
    assert!(!matches_at(&chars("hello"), &chars(""), 6));
}

#[test]
fn trim_removes_the_runs_at_both_ends() {
    assert_eq!(text(trim(&chars("\"\"a\"b\"\"\""), '"')), "a\"b");
    assert_eq!(text(trim(&chars("\"\"\""), '"')), "");
    assert_eq!(text(trim(&chars("abc"), '"')), "abc");
    assert_eq!(text(trim(&chars(""), '"')), "");
    assert_eq!(text(trim(&chars("'a"), '\'')), "a");
}

#[test]
fn map_char_changes_one_character() {
    assert_eq!(text(map_char(&chars("a-b--c_"), '-', '_')), "a_b__c_");
}

#[test]
fn decimal_writes_numerals_without_leading_zeros() {
    assert_eq!(text(decimal(0)), "0");
    assert_eq!(text(decimal(7)), "7");
    assert_eq!(text(decimal(10)), "10");
    assert_eq!(text(decimal(1234567890)), "1234567890");
}

#[test]
fn the_first_variable_of_a_name_counts() {
    let mut env = Environment::new();
    assert_eq!(env.resolve("A"), None);
    env.set("A".to_string(), "1".to_string());
    env.set("B".to_string(), "2".to_string());
    env.set("A".to_string(), "3".to_string());
    assert_eq!(env.resolve("A"), Some(&"1".to_string()));
    assert_eq!(env.resolve("B"), Some(&"2".to_string()));
    assert_eq!(env.resolve("a"), None);
}
