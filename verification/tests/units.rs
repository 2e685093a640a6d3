use cfgc::chars_to_string;
use cfgc::coerce;
use cfgc::consume_token;
use cfgc::lex_characters;
use cfgc::parse_i64_chars;
use cfgc::parse_source;
use cfgc::str_to_chars;
use cfgc::JsonLeaf;
use cfgc::ResolveStep;
use cfgc::Resolver;
use cfgc::Token;
use cfgc::TokenType;
use cfgc::TokenTraverse;

fn chars(s: &str) -> Vec<char> {
    s.chars().collect()
}

fn lex(s: &str) -> Vec<String> {
    lex_characters(&chars(s))
}

fn classify(s: &str) -> Token {
    consume_token(s.to_string())
}

#[test]
fn lexer_splits_on_spaces_and_newlines() {
    assert_eq!(lex("a b\nc"), vec!["a", "b", "c"]);
}

#[test]
fn lexer_keeps_spaces_inside_strings() {
    assert_eq!(lex("v = \"two words\""), vec!["v", "=", "\"two words\""]);
}

#[test]
fn lexer_folds_newline_in_string_to_space() {
    assert_eq!(lex("\"two\nwords\""), vec!["\"two words\""]);
}

#[test]
fn lexer_strips_line_comments() {
    assert_eq!(lex("a // b c\nd"), vec!["a", "d"]);
}

#[test]
fn lexer_comment_consumes_its_newline() {
    // The comment swallows the newline too, so the words around it join.
    assert_eq!(lex("ab// x\ncd"), vec!["abcd"]);
}

#[test]
fn lexer_comment_starts_inside_string() {
    // By design a comment begins even inside a string literal, and with no
    // newline after it the rest of the text is consumed.
    assert_eq!(lex("\"a // b\" c"), vec!["\"a "]);
}

#[test]
fn lexer_flushes_trailing_word() {
    assert_eq!(lex("last"), vec!["last"]);
    assert_eq!(lex("last   "), vec!["last"]);
    assert_eq!(lex("  \n "), Vec::<String>::new());
}

#[test]
fn classifier_strips_string_quotes() {
    let t = classify("\"hello\"");
    assert_eq!(t.tokentype, TokenType::StringLiteral);
    assert_eq!(t.token, "hello");
}

#[test]
fn classifier_strips_comma_before_closing_quote() {
    let t = classify("\"hello,\"");
    assert_eq!(t.tokentype, TokenType::StringLiteral);
    assert_eq!(t.token, "hello");
}

#[test]
fn classifier_keeps_label_brackets() {
    let t = classify("[Point]");
    assert_eq!(t.tokentype, TokenType::Label);
    assert_eq!(t.token, "[Point]");
}

#[test]
fn classifier_number_strips_trailing_comma() {
    let t = classify("15,");
    assert_eq!(t.tokentype, TokenType::NumberLiteral);
    assert_eq!(t.token, "15");
}

#[test]
fn classifier_hash_starts_a_number() {
    let t = classify("#7");
    assert_eq!(t.tokentype, TokenType::NumberLiteral);
    assert_eq!(t.token, "#7");
}

#[test]
fn classifier_bools_are_normalized() {
    let t = classify("true");
    assert_eq!(t.tokentype, TokenType::BoolLiteral);
    assert_eq!(t.token, "true");
    // Any word starting with `fals` reads as the canonical `false`.
    let f = classify("falsy");
    assert_eq!(f.tokentype, TokenType::BoolLiteral);
    assert_eq!(f.token, "false");
}

#[test]
fn classifier_keywords() {
    assert_eq!(classify("type").tokentype, TokenType::TypeIdentifier);
    assert_eq!(classify("number").tokentype, TokenType::TypeNumber);
    assert_eq!(classify("bool").tokentype, TokenType::TypeBool);
    assert_eq!(classify("string").tokentype, TokenType::TypeString);
    assert_eq!(classify("map").tokentype, TokenType::TypeMap);
    assert_eq!(classify("list").tokentype, TokenType::TypeList);
    assert_eq!(classify("use").tokentype, TokenType::Import);
    assert_eq!(classify("from").tokentype, TokenType::FromKeyword);
    assert_eq!(classify("=").tokentype, TokenType::Equals);
    assert_eq!(classify(":").tokentype, TokenType::TypeAssignment);
    assert_eq!(classify("{").tokentype, TokenType::CurlyBracketStart);
    assert_eq!(classify("}").tokentype, TokenType::CurlyBracketEnd);
}

#[test]
fn classifier_identifier_strips_trailing_colon() {
    let t = classify("name:");
    assert_eq!(t.tokentype, TokenType::PossibleIdentifier);
    assert_eq!(t.token, "name");
}

#[test]
fn token_kind_tests() {
    let lit = classify("\"x\"");
    assert!(TokenTraverse::token_is_literal(lit));
    let num = classify("3");
    assert!(TokenTraverse::token_is_literal(num));
    let ident = classify("x");
    assert!(!TokenTraverse::token_is_literal(ident));
    let kw = classify("bool");
    assert!(TokenTraverse::token_is_type(kw));
    let mapkw = classify("map");
    assert!(TokenTraverse::token_is_type(mapkw));
    let listkw = classify("list");
    assert!(!TokenTraverse::token_is_type(listkw));
}

#[test]
fn parse_i64_accepts_signs_and_bounds() {
    assert_eq!(parse_i64_chars(&chars("0")), Some(0));
    assert_eq!(parse_i64_chars(&chars("+5")), Some(5));
    assert_eq!(parse_i64_chars(&chars("-7")), Some(-7));
    assert_eq!(parse_i64_chars(&chars("0123")), Some(123));
    assert_eq!(parse_i64_chars(&chars("9223372036854775807")), Some(i64::MAX));
    assert_eq!(parse_i64_chars(&chars("-9223372036854775808")), Some(i64::MIN));
    assert_eq!(parse_i64_chars(&chars("9223372036854775808")), None);
    assert_eq!(parse_i64_chars(&chars("-9223372036854775809")), None);
    assert_eq!(parse_i64_chars(&chars("")), None);
    assert_eq!(parse_i64_chars(&chars("-")), None);
    assert_eq!(parse_i64_chars(&chars("12a")), None);
    assert_eq!(parse_i64_chars(&chars("1.5")), None);
}

#[test]
fn coercion_order_int_bool_string() {
    match coerce(&"41".to_string()) {
        JsonLeaf::Int(v) => assert_eq!(v, 41),
        other => panic!("expected an integer, got {}", leaf_name(&other)),
    }
    match coerce(&"true".to_string()) {
        JsonLeaf::Bool(b) => assert!(b),
        other => panic!("expected a boolean, got {}", leaf_name(&other)),
    }
    match coerce(&"True".to_string()) {
        JsonLeaf::Str(s) => assert_eq!(s, "True"),
        other => panic!("expected a string, got {}", leaf_name(&other)),
    }
    match coerce(&"9223372036854775808".to_string()) {
        JsonLeaf::Str(s) => assert_eq!(s, "9223372036854775808"),
        other => panic!("expected a string, got {}", leaf_name(&other)),
    }
}

fn leaf_name(l: &JsonLeaf) -> &'static str {
    match l {
        JsonLeaf::Int(_) => "an integer",
        JsonLeaf::Bool(_) => "a boolean",
        JsonLeaf::Str(_) => "a string",
    }
}

#[test]
fn char_string_round_trip() {
    let v = str_to_chars("grün ≈ mix");
    assert_eq!(chars_to_string(&v), "grün ≈ mix");
}

#[test]
fn one_import_parsed_once_for_many_objects() {
    let src = "use T from \"lib.cfg\"\na : T { }\nb : T { }\nc : T { }\n";
    let unit = parse_source(&chars(src)).unwrap();
    let mut resolver = Resolver::new(unit);
    let mut requests = 0;
    let objects = loop {
        match resolver.step() {
            ResolveStep::NeedFile(p) => {
                requests += 1;
                assert_eq!(p, "lib.cfg");
                resolver.supply(p, &chars("type T { v = 1 }\n")).unwrap();
            },
            ResolveStep::Done(objs) => break objs,
            ResolveStep::Failed(e) => panic!("unexpected failure: {:?}", e),
        }
    };
    // Three objects refer to the same path; the file is asked for, and so
    // parsed, exactly once.
    assert_eq!(requests, 1);
    assert_eq!(objects.len(), 3);
}

#[test]
fn supplying_a_cached_path_changes_nothing() {
    let src = "use T from \"lib.cfg\"\na : T { }\n";
    let unit = parse_source(&chars(src)).unwrap();
    let mut resolver = Resolver::new(unit);
    match resolver.step() {
        ResolveStep::NeedFile(p) => {
            resolver.supply(p.clone(), &chars("type T { v = 1 }\n")).unwrap();
            // A second supply of the same path is ignored, not re-parsed.
            resolver.supply(p, &chars("type T { v = 2 }\n")).unwrap();
        },
        other => panic!("expected a file request, got {}", step_name(&other)),
    }
    match resolver.step() {
        ResolveStep::Done(objs) => {
            assert_eq!(objs.len(), 1);
            assert_eq!(objs[0].fields.len(), 1);
            assert_eq!(objs[0].fields[0].value.token, "1");
        },
        other => panic!("expected completion, got {}", step_name(&other)),
    }
}

fn step_name(s: &ResolveStep) -> &'static str {
    match s {
        ResolveStep::NeedFile(_) => "a file request",
        ResolveStep::Done(_) => "completion",
        ResolveStep::Failed(_) => "a failure",
    }
}
