use mashup::env::Environment;
use mashup::parse::parse;
use mashup::stream::tokenize;
use mashup::table::Input;
use mashup::token::{clone_tokens, token_eq, tokens_eq, Delimiter, Spacing, Token};
use proc_macro2::TokenStream;
use std::str::FromStr;

fn mapping(source: &str) -> Input {
    let tts = TokenStream::from_str(source).unwrap();
    parse(&tts, &Environment::new()).unwrap()
}

fn tokens(source: &str) -> Vec<Token> {
    tokenize(source).unwrap()
}

fn expand(input: &Input, name: &str, source: &str) -> Vec<Token> {
    input.get(name).unwrap().expand(&tokens(source)).unwrap()
}

/// The bracket structure of a token sequence, written with brackets alone.
fn nesting(tokens: &[Token]) -> String {
    let mut out = String::new();
    for token in tokens {
        if let Token::Group(delimiter, inner) = token {
            let (open, close) = match delimiter {
                Delimiter::Parenthesis => ("(", ")"),
                Delimiter::Brace => ("{", "}"),
                Delimiter::Bracket => ("[", "]"),
                Delimiter::Invisible => continue,
            };
            out.push_str(open);
            out.push_str(&nesting(inner));
            out.push_str(close);
        }
    }
    out
}

#[test]
fn a_key_is_replaced_at_every_depth() {
    let input = mapping("m[\"k\"] = a b c;");
    let expanded = expand(&input, "m", "\"k\" ( \"k\" [ x { \"k\" \"k\" } ] ) y \"k\"");
    assert_eq!(expanded, tokens("abc ( abc [ x { abc abc } ] ) y abc"));
}

#[test]
fn input_without_a_key_comes_out_as_it_went_in() {
    let input = mapping("m[\"k\"] = a b c;");
    let source = "fn f<'a>(x: &'a [u8; 4]) -> Vec<u8> { x.iter().map(|b| b + 1).collect() }";
    assert_eq!(expand(&input, "m", source), tokens(source));
    assert_eq!(expand(&input, "m", ""), Vec::<Token>::new());
}

#[test]
fn the_nesting_of_the_input_is_kept() {
    let input = mapping("m[K] = A; m[L M] = B;");
    let source = "K ( [ K ] { L M ( ) } ) [ ] { { K L M } K }";
    let expanded = expand(&input, "m", source);
    assert_eq!(nesting(&expanded), "([]{()})[]{{}}");
    assert_eq!(nesting(&expanded), nesting(&tokens(source)));
    assert_eq!(expanded, tokens("A ( [ A ] { B ( ) } ) [ ] { { A B } A }"));
}

#[test]
fn a_key_of_several_tokens_matches_as_a_whole() {
    let input = mapping("m[\"rocket\" A] = ROCKET_ A;");
    let expanded = expand(&input, "m", "\"rocket\" B \"rocket\" A A \"rocket\"");
    assert_eq!(expanded, tokens("\"rocket\" B ROCKET_A A \"rocket\""));
}

#[test]
fn a_key_does_not_reach_across_the_end_of_a_group() {
    let input = mapping("m[a b] = X;");
    let expanded = expand(&input, "m", "( a ) b a ( b ) a b");
    assert_eq!(expanded, tokens("( a ) b a ( b ) X"));
}

#[test]
fn the_first_registered_of_equal_keys_wins() {
    let first = mapping("m[K] = A B C; m[K] = D E F;");
    let other = mapping("m[K] = A B C; m[K] = G;");
    let only = mapping("m[K] = A B C;");
    let source = "K ( K ) [ x K ]";
    assert_eq!(expand(&first, "m", source), tokens("ABC ( ABC ) [ x ABC ]"));
    assert_eq!(expand(&first, "m", source), expand(&other, "m", source));
    assert_eq!(expand(&first, "m", source), expand(&only, "m", source));
}

#[test]
fn of_overlapping_keys_the_first_registered_wins() {
    let long_first = mapping("m[a b] = LONG; m[a] = SHORT;");
    let short_first = mapping("m[a] = SHORT; m[a b] = LONG;");
    assert_eq!(expand(&long_first, "m", "a b a"), tokens("LONG SHORT"));
    assert_eq!(expand(&short_first, "m", "a b a"), tokens("SHORT b SHORT"));
}

#[test]
fn a_key_that_begins_with_a_group_never_matches() {
    let input = mapping("m[(a) b] = X; m[a] = Y;");
    assert_eq!(expand(&input, "m", "(a) b"), tokens("(Y) b"));
}

#[test]
fn a_key_may_hold_a_group_behind_its_first_token() {
    let input = mapping("m[\"T\" (i)] = A a;");
    assert_eq!(expand(&input, "m", "\"T\"(i) \"T\"(j)"), tokens("Aa \"T\"(j)"));
}

#[test]
fn spacing_is_part_of_a_punctuation_token() {
    let input = mapping("m[+] = PLUS;");
    let expanded = expand(&input, "m", "a + b += c");
    let mut expected = tokens("a PLUS b");
    expected.push(Token::Punct('+', Spacing::Joint));
    expected.push(Token::Punct('=', Spacing::Alone));
    expected.push(Token::Ident("c".to_string()));
    assert_eq!(expanded, expected);
}

#[test]
fn an_invisible_group_is_a_single_token() {
    let input = mapping("m[a] = X;");
    let m = input.get("m").unwrap();
    let inside = Token::Group(Delimiter::Invisible, tokens("a"));
    let expanded = m.expand(&vec![inside.clone(), Token::Ident("a".to_string())]);
    assert_eq!(expanded, Some(vec![inside, Token::Ident("X".to_string())]));
}

#[test]
fn a_macro_with_an_empty_key_expands_nothing() {
    let input = mapping("m[a] = X; m[] = Y;");
    let m = input.get("m").unwrap();
    assert!(m.any_empty_key());
    assert_eq!(m.expand(&tokens("a b")), None);
    assert_eq!(m.expand(&tokens("")), None);
    assert!(!mapping("m[a] = X;").get("m").unwrap().any_empty_key());
}

fn replace(tokens: &[Token]) -> Vec<Token> {
    tokens
        .iter()
        .map(|t| match t {
            Token::Group(d, inner) => Token::Group(*d, replace(inner)),
            Token::Ident(text) if text == "a" => Token::Ident("X".to_string()),
            Token::Literal(text) if text == "\"b\"" => Token::Ident("Y".to_string()),
            other => other.clone(),
        })
        .collect()
}

#[test]
fn single_token_keys_replace_token_by_token() {
    let input = mapping("m[a] = X; m[\"b\"] = Y; m[a] = Z;");
    let source = "a \"b\" c ( a [ \"b\" { c a } ] )";
    assert_eq!(expand(&input, "m", source), replace(&tokens(source)));
}

#[test]
fn token_equality_is_structural() {
    let a = tokens("f ( x , [ 1 ] ) += 'a");
    let b = tokens("f(x,[1])+= 'a");
    let c = tokens("f ( x , [ 2 ] ) += 'a");
    let d = tokens("f ( x , ( 1 ) ) += 'a");
    assert!(tokens_eq(&a, &b));
    assert!(!tokens_eq(&a, &c));
    assert!(!tokens_eq(&a, &d));
    assert!(!tokens_eq(&a, &tokens("f ( x , [ 1 ] )")));
    assert!(token_eq(&a[1], &b[1]));
    assert!(!token_eq(&a[1], &c[1]));
    assert!(!token_eq(&a[0], &a[1]));
    assert!(!token_eq(
        &Token::Ident("x".to_string()),
        &Token::Literal("x".to_string())
    ));
    assert!(!token_eq(
        &Token::Punct('+', Spacing::Alone),
        &Token::Punct('+', Spacing::Joint)
    ));
    assert_eq!(clone_tokens(&a), a);
    assert_eq!(a.clone(), a);
}

/// What is left of the input while the rules of the generated macro run.
enum Item {
    Token(Token),
    Close(Delimiter),
}

/// Runs the rules of the generated macro, step by step, on a stack of
/// frames.
fn run_rules(input: &Input, name: &str, source: &str) -> Vec<Token> {
    let m = input.get(name).unwrap();
    let mut frames: Vec<Vec<Token>> = vec![Vec::new()];
    let mut rest: Vec<Item> = tokens(source).into_iter().map(Item::Token).collect();
    rest.reverse();
    while let Some(item) = rest.pop() {
        match item {
            Item::Token(Token::Group(d, inner)) if d != Delimiter::Invisible => {
                frames.push(Vec::new());
                rest.push(Item::Close(d));
                rest.extend(inner.into_iter().rev().map(Item::Token));
            }
            Item::Close(d) => {
                let closed = frames.pop().unwrap();
                frames.last_mut().unwrap().push(Token::Group(d, closed));
            }
            Item::Token(first) => {
                let mut ahead = vec![first.clone()];
                for item in rest.iter().rev() {
                    match item {
                        Item::Token(t) => ahead.push(t.clone()),
                        Item::Close(_) => break,
                    }
                }
                let hit = m.patterns.iter().find(|p| {
                    let key = &p.tag.tokens;
                    !key.is_empty() && key.len() <= ahead.len() && ahead[..key.len()] == key[..]
                });
                match hit {
                    Some(p) => {
                        for _ in 1..p.tag.tokens.len() {
                            rest.pop();
                        }
                        frames.last_mut().unwrap().push(Token::Ident(p.mashup()));
                    }
                    None => frames.last_mut().unwrap().push(first),
                }
            }
        }
    }
    assert_eq!(frames.len(), 1);
    frames.pop().unwrap()
}

#[test]
fn the_rules_on_frames_compute_the_expansion() {
    let input = mapping(
        "m[\"k\"] = a b c; m[x y] = X '-' Y; m[x] = Z; m[\"T\" (i)] = A a; m['life time] = 'd e;",
    );
    let sources = [
        "",
        "\"k\"",
        "impl Struct { fn \"k\"() {} }",
        "x y x ( x y [ x { y } ] ) \"T\"(i) \"T\"(j)",
        "struct S<'life time> { q: &'life time str, }",
        "( ( ( ) ) [ ] { x } ) x",
        "a ( x ) y x",
    ];
    for source in sources {
        assert_eq!(run_rules(&input, "m", source), expand(&input, "m", source));
    }
}
