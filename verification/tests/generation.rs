use mashup::env::Environment;
use mashup::generate::make_macro;
use mashup::parse::parse;
use mashup::table::{Input, SubstitutionMacro};
use proc_macro2::TokenStream;
use std::str::FromStr;

fn mapping(source: &str) -> Input {
    let tts = TokenStream::from_str(source).unwrap();
    parse(&tts, &Environment::new()).unwrap()
}

const ONE_PATTERN: &str = " macro_rules! m { \n\
\x20       // Open parenthesis.\n\
\x20       (@($($v:tt)*) ($($stack:tt)*) ($($first:tt)*) $($rest:tt)*) => {\n\
\x20           m! {\n\
\x20               @($($v)*) (() $($stack)*) $($first)* __mashup_close_paren $($rest)*\n\
\x20           }\n\
\x20       };\n\
\n\
\x20       // Open square bracket.\n\
\x20       (@($($v:tt)*) ($($stack:tt)*) [$($first:tt)*] $($rest:tt)*) => {\n\
\x20           m! {\n\
\x20               @($($v)*) (() $($stack)*) $($first)* __mashup_close_bracket $($rest)*\n\
\x20           }\n\
\x20       };\n\
\n\
\x20       // Open curly brace.\n\
\x20       (@($($v:tt)*) ($($stack:tt)*) {$($first:tt)*} $($rest:tt)*) => {\n\
\x20           m! {\n\
\x20               @($($v)*) (() $($stack)*) $($first)* __mashup_close_brace $($rest)*\n\
\x20           }\n\
\x20       };\n\
\n\
\x20       // Close parenthesis.\n\
\x20       (@($($v:tt)*) (($($close:tt)*) ($($top:tt)*) $($stack:tt)*) __mashup_close_paren $($rest:tt)*) => {\n\
\x20           m! {\n\
\x20               @($($v)*) (($($top)* ($($close)*)) $($stack)*) $($rest)*\n\
\x20           }\n\
\x20       };\n\
\n\
\x20       // Close square bracket.\n\
\x20       (@($($v:tt)*) (($($close:tt)*) ($($top:tt)*) $($stack:tt)*) __mashup_close_bracket $($rest:tt)*) => {\n\
\x20           m! {\n\
\x20               @($($v)*) (($($top)* [$($close)*]) $($stack)*) $($rest)*\n\
\x20           }\n\
\x20       };\n\
\n\
\x20       // Close curly brace.\n\
\x20       (@($($v:tt)*) (($($close:tt)*) ($($top:tt)*) $($stack:tt)*) __mashup_close_brace $($rest:tt)*) => {\n\
\x20           m! {\n\
\x20               @($($v)*) (($($top)* {$($close)*}) $($stack)*) $($rest)*\n\
\x20           }\n\
\x20       };\n\
\x20       \n\
\x20           // Replace target tokens with concatenated ident.\n\
\x20           (@( $v0:tt) (($($top:tt)*) $($stack:tt)*) \"k\" $($rest:tt)*) => {\n\
\x20               m! {\n\
\x20                   @( $v0) (($($top)* $v0) $($stack)*) $($rest)*\n\
\x20               }\n\
\x20           };\n\
\x20           \n\
\x20       // Munch a token that is not one of the targets.\n\
\x20       (@($($v:tt)*) (($($top:tt)*) $($stack:tt)*) $first:tt $($rest:tt)*) => {\n\
\x20           m! {\n\
\x20               @($($v)*) (($($top)* $first) $($stack)*) $($rest)*\n\
\x20           }\n\
\x20       };\n\
\n\
\x20       // Done.\n\
\x20       (@($($v:tt)*) (($($top:tt)+))) => {\n\
\x20           $($top)+\n\
\x20       };\n\
\n\
\x20       // Launch.\n\
\x20       ($($tt:tt)*) => {\n\
\x20           m! {\n\
\x20               @( abc) (()) $($tt)*\n\
\x20           }\n\
\x20       }\n\
\x20        }";

const TWO_PATTERNS: &str = "#[macro_export]#[doc ( hidden )] macro_rules! route { \n\
\x20       // Open parenthesis.\n\
\x20       (@($($v:tt)*) ($($stack:tt)*) ($($first:tt)*) $($rest:tt)*) => {\n\
\x20           route! {\n\
\x20               @($($v)*) (() $($stack)*) $($first)* __mashup_close_paren $($rest)*\n\
\x20           }\n\
\x20       };\n\
\n\
\x20       // Open square bracket.\n\
\x20       (@($($v:tt)*) ($($stack:tt)*) [$($first:tt)*] $($rest:tt)*) => {\n\
\x20           route! {\n\
\x20               @($($v)*) (() $($stack)*) $($first)* __mashup_close_bracket $($rest)*\n\
\x20           }\n\
\x20       };\n\
\n\
\x20       // Open curly brace.\n\
\x20       (@($($v:tt)*) ($($stack:tt)*) {$($first:tt)*} $($rest:tt)*) => {\n\
\x20           route! {\n\
\x20               @($($v)*) (() $($stack)*) $($first)* __mashup_close_brace $($rest)*\n\
\x20           }\n\
\x20       };\n\
\n\
\x20       // Close parenthesis.\n\
\x20       (@($($v:tt)*) (($($close:tt)*) ($($top:tt)*) $($stack:tt)*) __mashup_close_paren $($rest:tt)*) => {\n\
\x20           route! {\n\
\x20               @($($v)*) (($($top)* ($($close)*)) $($stack)*) $($rest)*\n\
\x20           }\n\
\x20       };\n\
\n\
\x20       // Close square bracket.\n\
\x20       (@($($v:tt)*) (($($close:tt)*) ($($top:tt)*) $($stack:tt)*) __mashup_close_bracket $($rest:tt)*) => {\n\
\x20           route! {\n\
\x20               @($($v)*) (($($top)* [$($close)*]) $($stack)*) $($rest)*\n\
\x20           }\n\
\x20       };\n\
\n\
\x20       // Close curly brace.\n\
\x20       (@($($v:tt)*) (($($close:tt)*) ($($top:tt)*) $($stack:tt)*) __mashup_close_brace $($rest:tt)*) => {\n\
\x20           route! {\n\
\x20               @($($v)*) (($($top)* {$($close)*}) $($stack)*) $($rest)*\n\
\x20           }\n\
\x20       };\n\
\x20       \n\
\x20           // Replace target tokens with concatenated ident.\n\
\x20           (@( $v0:tt $v1:tt) (($($top:tt)*) $($stack:tt)*) \"rocket\" A $($rest:tt)*) => {\n\
\x20               route! {\n\
\x20                   @( $v0 $v1) (($($top)* $v0) $($stack)*) $($rest)*\n\
\x20               }\n\
\x20           };\n\
\x20           \n\
\x20           // Replace target tokens with concatenated ident.\n\
\x20           (@( $v0:tt $v1:tt) (($($top:tt)*) $($stack:tt)*) \"rocket\" B $($rest:tt)*) => {\n\
\x20               route! {\n\
\x20                   @( $v0 $v1) (($($top)* $v1) $($stack)*) $($rest)*\n\
\x20               }\n\
\x20           };\n\
\x20           \n\
\x20       // Munch a token that is not one of the targets.\n\
\x20       (@($($v:tt)*) (($($top:tt)*) $($stack:tt)*) $first:tt $($rest:tt)*) => {\n\
\x20           route! {\n\
\x20               @($($v)*) (($($top)* $first) $($stack)*) $($rest)*\n\
\x20           }\n\
\x20       };\n\
\n\
\x20       // Done.\n\
\x20       (@($($v:tt)*) (($($top:tt)+))) => {\n\
\x20           $($top)+\n\
\x20       };\n\
\n\
\x20       // Launch.\n\
\x20       ($($tt:tt)*) => {\n\
\x20           route! {\n\
\x20               @( ROCKET_A ROCKET_B) (()) $($tt)*\n\
\x20           }\n\
\x20       }\n\
\x20        }";

const NO_PATTERN: &str = " macro_rules! e { \n\
\x20       // Open parenthesis.\n\
\x20       (@($($v:tt)*) ($($stack:tt)*) ($($first:tt)*) $($rest:tt)*) => {\n\
\x20           e! {\n\
\x20               @($($v)*) (() $($stack)*) $($first)* __mashup_close_paren $($rest)*\n\
\x20           }\n\
\x20       };\n\
\n\
\x20       // Open square bracket.\n\
\x20       (@($($v:tt)*) ($($stack:tt)*) [$($first:tt)*] $($rest:tt)*) => {\n\
\x20           e! {\n\
\x20               @($($v)*) (() $($stack)*) $($first)* __mashup_close_bracket $($rest)*\n\
\x20           }\n\
\x20       };\n\
\n\
\x20       // Open curly brace.\n\
\x20       (@($($v:tt)*) ($($stack:tt)*) {$($first:tt)*} $($rest:tt)*) => {\n\
\x20           e! {\n\
\x20               @($($v)*) (() $($stack)*) $($first)* __mashup_close_brace $($rest)*\n\
\x20           }\n\
\x20       };\n\
\n\
\x20       // Close parenthesis.\n\
\x20       (@($($v:tt)*) (($($close:tt)*) ($($top:tt)*) $($stack:tt)*) __mashup_close_paren $($rest:tt)*) => {\n\
\x20           e! {\n\
\x20               @($($v)*) (($($top)* ($($close)*)) $($stack)*) $($rest)*\n\
\x20           }\n\
\x20       };\n\
\n\
\x20       // Close square bracket.\n\
\x20       (@($($v:tt)*) (($($close:tt)*) ($($top:tt)*) $($stack:tt)*) __mashup_close_bracket $($rest:tt)*) => {\n\
\x20           e! {\n\
\x20               @($($v)*) (($($top)* [$($close)*]) $($stack)*) $($rest)*\n\
\x20           }\n\
\x20       };\n\
\n\
\x20       // Close curly brace.\n\
\x20       (@($($v:tt)*) (($($close:tt)*) ($($top:tt)*) $($stack:tt)*) __mashup_close_brace $($rest:tt)*) => {\n\
\x20           e! {\n\
\x20               @($($v)*) (($($top)* {$($close)*}) $($stack)*) $($rest)*\n\
\x20           }\n\
\x20       };\n\
\x20       \n\
\x20       // Munch a token that is not one of the targets.\n\
\x20       (@($($v:tt)*) (($($top:tt)*) $($stack:tt)*) $first:tt $($rest:tt)*) => {\n\
\x20           e! {\n\
\x20               @($($v)*) (($($top)* $first) $($stack)*) $($rest)*\n\
\x20           }\n\
\x20       };\n\
\n\
\x20       // Done.\n\
\x20       (@($($v:tt)*) (($($top:tt)+))) => {\n\
\x20           $($top)+\n\
\x20       };\n\
\n\
\x20       // Launch.\n\
\x20       ($($tt:tt)*) => {\n\
\x20           e! {\n\
\x20               @() (()) $($tt)*\n\
\x20           }\n\
\x20       }\n\
\x20        }";

#[test]
fn make_macro_writes_one_pattern() {
    let input = mapping("m[\"k\"] = a b c;");
    let text = make_macro("m", input.get("m").unwrap());
    assert_eq!(text, ONE_PATTERN);
}

#[test]
fn make_macro_writes_attributes_and_patterns_in_order() {
    let input = mapping(
        "#[macro_export] #[doc(hidden)] route[\"rocket\" A] = ROCKET_ A; route[\"rocket\" B] = ROCKET_ B;",
    );
    let text = make_macro("route", input.get("route").unwrap());
    assert_eq!(text, TWO_PATTERNS);
}

#[test]
fn make_macro_without_patterns_has_only_the_fixed_rules() {
    let empty = SubstitutionMacro {
        attrs: Vec::new(),
        patterns: Vec::new(),
    };
    assert_eq!(make_macro("e", &empty), NO_PATTERN);
}

#[test]
fn make_macro_numbers_slots_in_decimal() {
    let mut source = String::new();
    for i in 0..11 {
        source.push_str(&format!("m[k{}] = id {};", i, i));
    }
    let input = mapping(&source);
    let text = make_macro("m", input.get("m").unwrap());
    assert!(text.contains("@( $v0:tt $v1:tt $v2:tt $v3:tt $v4:tt $v5:tt $v6:tt $v7:tt $v8:tt $v9:tt $v10:tt)"));
    assert!(text.contains("(($($top)* $v10) $($stack)*)"));
    assert!(text.contains("@( id0 id1 id2 id3 id4 id5 id6 id7 id8 id9 id10) (())"));
}

#[test]
fn generated_text_lexes_as_one_macro_definition() {
    let input = mapping("#[macro_export] m[\"k\"] = a b c;");
    let text = make_macro("m", input.get("m").unwrap());
    let tokens = mashup::stream::tokenize(&text).unwrap();
    // `#`, `[macro_export]`, `macro_rules`, `!`, `m`, `{ rules }`
    assert_eq!(tokens.len(), 6);
}

#[test]
fn mashup_macro_impl_writes_every_macro_in_order_of_first_use() {
    let text = mashup::mashup_macro_impl(
        "n[x] = D E F; m[x] = A B C; n[y] = G;",
        &Environment::new(),
    )
    .unwrap();
    let input = mapping("n[x] = D E F; m[x] = A B C; n[y] = G;");
    let expected = format!(
        "{}{}",
        make_macro("n", input.get("n").unwrap()),
        make_macro("m", input.get("m").unwrap())
    );
    assert_eq!(text, expected);
    assert_eq!(input.entry(0).unwrap().name, "n");
    assert_eq!(input.entry(1).unwrap().name, "m");
    assert_eq!(input.get("n").unwrap().patterns.len(), 2);
}
