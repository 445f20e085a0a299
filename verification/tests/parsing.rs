use mashup::env::Environment;
use mashup::error::Error;
use mashup::parse::parse;
use mashup::piece::IdentPiece;
use mashup::stream::tokenize;
use mashup::table::Input;
use mashup::token::{Delimiter, Spacing, Token};
use proc_macro2::TokenStream;
use std::str::FromStr;

fn try_mapping(source: &str, env: &Environment) -> Result<Input, Error> {
    let tts = TokenStream::from_str(source).unwrap();
    parse(&tts, env)
}

fn mapping(source: &str) -> Input {
    try_mapping(source, &Environment::new()).unwrap()
}

fn refusal(source: &str) -> Error {
    try_mapping(source, &Environment::new()).unwrap_err()
}

fn ident(text: &str) -> IdentPiece {
    IdentPiece::Ident(text.to_string())
}

fn literal(text: &str) -> IdentPiece {
    IdentPiece::Literal(text.to_string())
}

#[test]
fn tokenize_reads_nested_groups() {
    let tokens = tokenize("fn \"k\"() { a += 'x [1] }").unwrap();
    let expected = vec![
        Token::Ident("fn".to_string()),
        Token::Literal("\"k\"".to_string()),
        Token::Group(Delimiter::Parenthesis, vec![]),
        Token::Group(
            Delimiter::Brace,
            vec![
                Token::Ident("a".to_string()),
                Token::Punct('+', Spacing::Joint),
                Token::Punct('=', Spacing::Alone),
                Token::Punct('\'', Spacing::Joint),
                Token::Ident("x".to_string()),
                Token::Group(Delimiter::Bracket, vec![Token::Literal("1".to_string())]),
            ],
        ),
    ];
    assert_eq!(tokens, expected);
}

#[test]
fn tokenize_refuses_what_does_not_lex() {
    assert_eq!(tokenize("( a"), None);
    assert_eq!(tokenize("\"open"), None);
}

#[test]
fn a_record_holds_key_tokens_text_and_pieces() {
    let input = mapping("m[\"rocket\" A] = ROCKET_ A 'x' 7 _ ;");
    assert_eq!(input.len(), 1);
    let m = input.get("m").unwrap();
    assert!(m.attrs.is_empty());
    assert_eq!(m.patterns.len(), 1);
    let pattern = &m.patterns[0];
    assert_eq!(pattern.tag.tokens, tokenize("\"rocket\" A").unwrap());
    assert_eq!(pattern.tag.text, "\"rocket\" A");
    assert_eq!(
        pattern.pieces,
        vec![
            ident("ROCKET_"),
            ident("A"),
            literal("'x'"),
            literal("7"),
            ident("_"),
        ]
    );
    assert_eq!(pattern.mashup(), "ROCKET_Ax7_");
}

#[test]
fn the_text_of_key_tokens_is_their_rendering() {
    let input = mapping("m[a(b){c}[d] += e] = x;");
    let tag = &input.get("m").unwrap().patterns[0].tag;
    assert_eq!(tag.text, "a ( b ) { c } [ d ] += e");
}

#[test]
fn a_quote_is_a_piece_of_its_own() {
    let input = mapping("m[k] = 'd e;");
    let pattern = &input.get("m").unwrap().patterns[0];
    assert_eq!(
        pattern.pieces,
        vec![IdentPiece::Quote, ident("d"), ident("e")]
    );
    assert_eq!(pattern.mashup(), "'de");
}

#[test]
fn a_raw_identifier_piece_loses_its_prefix() {
    let input = mapping("m[k] = a r#type r#env;");
    let pattern = &input.get("m").unwrap().patterns[0];
    assert_eq!(pattern.pieces, vec![ident("a"), ident("type"), ident("env")]);
    assert_eq!(pattern.mashup(), "atypeenv");
}

#[test]
fn records_of_one_name_gather_in_order() {
    let input = mapping("m[a] = A; n[a] = N; m[b] = B;");
    assert_eq!(input.len(), 2);
    assert_eq!(input.entry(0).unwrap().name, "m");
    assert_eq!(input.entry(1).unwrap().name, "n");
    let m = input.get("m").unwrap();
    assert_eq!(m.patterns.len(), 2);
    assert_eq!(m.patterns[0].mashup(), "A");
    assert_eq!(m.patterns[1].mashup(), "B");
    assert_eq!(input.get("n").unwrap().patterns.len(), 1);
    assert!(input.get("o").is_none());
    assert!(input.entry(2).is_none());
    assert_eq!(input.find("n"), Some(1));
    assert_eq!(input.find("o"), None);
}

#[test]
fn attributes_go_to_the_next_name() {
    let input = mapping(
        "#[macro_export] m1[w] = W; m1[x] = X; #[macro_export] #[doc(hidden)] m2[y] = Y; #[late] m1[z] = Z;",
    );
    let m1 = input.get("m1").unwrap();
    let texts: Vec<&str> = m1.attrs.iter().map(|a| a.text.as_str()).collect();
    assert_eq!(texts, vec!["macro_export", "late"]);
    assert_eq!(m1.attrs[0].tokens, tokenize("macro_export").unwrap());
    let m2 = input.get("m2").unwrap();
    let texts: Vec<&str> = m2.attrs.iter().map(|a| a.text.as_str()).collect();
    assert_eq!(texts, vec!["macro_export", "doc ( hidden )"]);
}

#[test]
fn a_doc_comment_is_an_attribute() {
    let input = mapping("/// Needs better documentation.\nm[k] = a;");
    let m = input.get("m").unwrap();
    assert_eq!(m.attrs.len(), 1);
    assert_eq!(m.attrs[0].text, "doc = \" Needs better documentation.\"");
}

#[test]
fn attributes_without_a_record_are_dropped() {
    let input = mapping("m[k] = a; #[orphan]");
    assert_eq!(input.len(), 1);
    assert!(input.get("m").unwrap().attrs.is_empty());
}

#[test]
fn an_empty_key_and_no_pieces_are_read_as_written() {
    let input = mapping("m[] = ;");
    let pattern = &input.get("m").unwrap().patterns[0];
    assert!(pattern.tag.tokens.is_empty());
    assert!(pattern.pieces.is_empty());
    assert_eq!(pattern.mashup(), "");
}

#[test]
fn env_not_followed_by_a_bang_is_an_identifier() {
    let input = mapping("m[k] = env;");
    assert_eq!(
        input.get("m").unwrap().patterns[0].pieces,
        vec![ident("env")]
    );
}

#[test]
fn an_environment_lookup_becomes_a_string_literal() {
    let mut env = Environment::new();
    env.set("HOME_DIR".to_string(), "a\"b\\c-d".to_string());
    env.set("HOME_DIR".to_string(), "second".to_string());
    let input = try_mapping("m[k] = Lib env!(\"HOME-DIR\") tail;", &env).unwrap();
    let pattern = &input.get("m").unwrap().patterns[0];
    assert_eq!(
        pattern.pieces,
        vec![ident("Lib"), literal("\"a\\\"b\\\\c-d\""), ident("tail")]
    );
    assert_eq!(pattern.mashup(), "Liba\\\"b\\\\c_dtail");
}

#[test]
fn an_environment_lookup_identifies_the_name_it_is_given() {
    let mut env = Environment::new();
    env.set("my_var".to_string(), "value".to_string());
    let input = try_mapping("m[k] = env!(\"my-var\");", &env).unwrap();
    assert_eq!(input.get("m").unwrap().patterns[0].mashup(), "value");
}

#[test]
fn an_unset_variable_is_refused_by_name() {
    let mut env = Environment::new();
    env.set("OTHER".to_string(), "x".to_string());
    assert_eq!(
        try_mapping("m[k] = Lib env!(\"MASHUP_MISSING\");", &env),
        Err(Error::UnresolvedEnv("\"MASHUP_MISSING\"".to_string()))
    );
    assert_eq!(
        mashup::mashup_macro_impl("m[k] = Lib env!(\"MASHUP_MISSING\");", &env),
        Err(Error::UnresolvedEnv("\"MASHUP_MISSING\"".to_string()))
    );
}

#[test]
fn a_malformed_environment_lookup_is_refused() {
    assert_eq!(refusal("m[k] = env!;"), Error::UnexpectedInput(5));
    assert_eq!(refusal("m[k] = env![\"X\"];"), Error::UnexpectedInput(5));
    assert_eq!(refusal("m[k] = env!();"), Error::UnexpectedInput(5));
    assert_eq!(refusal("m[k] = env!(X);"), Error::UnexpectedInput(5));
    assert_eq!(refusal("m[k] = env!"), Error::UnexpectedInput(5));
}

#[test]
fn an_environment_lookup_takes_a_single_string_literal() {
    let mut env = Environment::new();
    env.set("A".to_string(), "a".to_string());
    env.set("c".to_string(), "c".to_string());
    env.set("5".to_string(), "five".to_string());
    let refused = |source: &str| try_mapping(source, &env).unwrap_err();
    assert_eq!(refused("m[k] = env!(\"A\" b);"), Error::UnexpectedInput(5));
    assert_eq!(refused("m[k] = env!(\"A\", \"A\");"), Error::UnexpectedInput(5));
    assert_eq!(refused("m[k] = env!('c');"), Error::UnexpectedInput(5));
    assert_eq!(refused("m[k] = env!(5);"), Error::UnexpectedInput(5));
    assert_eq!(refused("m[k] = env!(r\"A\");"), Error::UnexpectedInput(5));
    assert_eq!(refused("m[k] = env!((\"A\"));"), Error::UnexpectedInput(5));
    assert_eq!(refused("m[k] = x env!{\"A\"};"), Error::UnexpectedInput(6));
    let input = try_mapping("m[k] = env!(\"A\");", &env).unwrap();
    assert_eq!(input.get("m").unwrap().patterns[0].mashup(), "a");
}

#[test]
fn a_plain_value_stands_between_quotes_as_it_is() {
    let mut env = Environment::new();
    env.set("V".to_string(), "it's ~plain-ASCII! #1".to_string());
    let input = try_mapping("m[k] = env!(\"V\");", &env).unwrap();
    let pattern = &input.get("m").unwrap().patterns[0];
    assert_eq!(pattern.pieces, vec![literal("\"it's ~plain-ASCII! #1\"")]);
    assert_eq!(pattern.mashup(), "it's ~plain_ASCII! #1");
}

#[test]
fn an_unset_variable_in_a_later_record_is_refused() {
    let mut env = Environment::new();
    env.set("SET".to_string(), "x".to_string());
    let source = "#[a] m[k] = a env!(\"SET\") b; n[k] = c; #[b] m[l] = d 'e env!(\"MASHUP_MISSING\") f; o[k] = +;";
    assert_eq!(
        try_mapping(source, &env),
        Err(Error::UnresolvedEnv("\"MASHUP_MISSING\"".to_string()))
    );
}

#[test]
fn messages_name_what_was_found() {
    assert_eq!(Error::Lex.message(), "mashup input does not lex");
    assert_eq!(
        Error::UnexpectedInput(0).message(),
        "unexpected mashup input at token 0"
    );
    assert_eq!(
        Error::UnexpectedInput(1207).message(),
        "unexpected mashup input at token 1207"
    );
    assert_eq!(Error::UnexpectedOp('+').message(), "unexpected op '+'");
    assert_eq!(
        Error::UnterminatedRecord.message(),
        "unterminated mashup record"
    );
    assert_eq!(
        Error::UnresolvedEnv("\"MASHUP_MISSING\"".to_string()).message(),
        "unresolvable mashup env var \"MASHUP_MISSING\""
    );
    assert_eq!(
        refusal("m[k] = env!(\"MASHUP_MISSING\");").message(),
        "unresolvable mashup env var \"MASHUP_MISSING\""
    );
}

#[test]
fn the_first_violation_decides() {
    assert_eq!(
        refusal("m[k] = env!(\"MASHUP_MISSING\") + ;"),
        Error::UnresolvedEnv("\"MASHUP_MISSING\"".to_string())
    );
    assert_eq!(
        refusal("m[k] = + env!(\"MASHUP_MISSING\");"),
        Error::UnexpectedOp('+')
    );
}

#[test]
fn other_punctuation_among_the_pieces_is_refused() {
    assert_eq!(refusal("m[k] = a + b;"), Error::UnexpectedOp('+'));
    assert_eq!(refusal("m[k] = a = b;"), Error::UnexpectedOp('='));
    assert_eq!(refusal("m[k] == a;"), Error::UnexpectedOp('='));
}

#[test]
fn a_group_among_the_pieces_is_refused() {
    assert_eq!(refusal("m[k] = (CONST 0);"), Error::UnexpectedInput(3));
    assert_eq!(refusal("m[k] = a [b];"), Error::UnexpectedInput(4));
}

#[test]
fn a_record_without_its_semicolon_is_refused() {
    assert_eq!(refusal("m[k] = a b"), Error::UnterminatedRecord);
    assert_eq!(refusal("m[k] ="), Error::UnterminatedRecord);
    assert_eq!(refusal("m[k] = a; n[k] = b"), Error::UnterminatedRecord);
}

#[test]
fn a_malformed_record_head_is_refused() {
    assert_eq!(refusal("\"m\"[k] = a;"), Error::UnexpectedInput(0));
    assert_eq!(refusal("[k] = a;"), Error::UnexpectedInput(0));
    assert_eq!(refusal("; m[k] = a;"), Error::UnexpectedInput(0));
    assert_eq!(refusal("m"), Error::UnexpectedInput(1));
    assert_eq!(refusal("m k = a;"), Error::UnexpectedInput(1));
    assert_eq!(refusal("m(k) = a;"), Error::UnexpectedInput(1));
    assert_eq!(refusal("m{k} = a;"), Error::UnexpectedInput(1));
    assert_eq!(refusal("m[k]"), Error::UnexpectedInput(2));
    assert_eq!(refusal("m[k] a;"), Error::UnexpectedInput(2));
    assert_eq!(refusal("m[k] : a;"), Error::UnexpectedInput(2));
    assert_eq!(refusal("a[k] = x; m[k] a;"), Error::UnexpectedInput(7));
}

#[test]
fn a_malformed_attribute_is_refused() {
    assert_eq!(refusal("# m[k] = a;"), Error::UnexpectedInput(1));
    assert_eq!(refusal("#(attr) m[k] = a;"), Error::UnexpectedInput(1));
    assert_eq!(refusal("#"), Error::UnexpectedInput(1));
    assert_eq!(refusal("![attr] m[k] = a;"), Error::UnexpectedInput(0));
}

#[test]
fn text_that_does_not_lex_is_refused() {
    assert_eq!(
        mashup::mashup_macro_impl("m[k = a;", &Environment::new()),
        Err(Error::Lex)
    );
}

#[test]
fn macros_of_other_names_do_not_change_a_macro() {
    let alone = mapping("#[a] m[x] = A B C; m[y] = D;");
    let among = mapping("n[x] = N; #[a] m[x] = A B C; #[b] n[y] = O; o[x] = P; m[y] = D; n[z] = Q;");
    assert_eq!(alone.get("m"), among.get("m"));
}

#[test]
fn capture_keeps_tokens_and_text() {
    let tts = TokenStream::from_str("a ( b ) => [ c ]").unwrap();
    let fragment = mashup::fragment::Fragment::capture(&tts);
    assert_eq!(fragment.tokens, tokenize("a ( b ) => [ c ]").unwrap());
    assert_eq!(fragment.tokens, mashup::stream::convert(&tts));
    assert_eq!(fragment.text, "a ( b ) => [ c ]");
    let empty = mashup::fragment::Fragment::capture(&TokenStream::from_str("").unwrap());
    assert!(empty.tokens.is_empty());
    assert_eq!(empty.text, "");
}

#[test]
fn make_macros_writes_nothing_for_an_empty_table() {
    assert_eq!(mashup::make_macros(&Input::new()), "");
    assert_eq!(mashup::make_macros(&mapping("#[x]")), "");
}

#[test]
fn parse_str_lexes_and_parses() {
    let env = Environment::new();
    let from_text = mashup::parse::parse_str("#[a] m[k] = a b;", &env);
    assert_eq!(from_text, try_mapping("#[a] m[k] = a b;", &env));
    assert_eq!(
        mashup::parse::parse_str("m[k] = a b", &env),
        Err(Error::UnterminatedRecord)
    );
    assert_eq!(mashup::parse::parse_str("m[k] = a b)", &env), Err(Error::Lex));
}
