use cfgc::compile;
use cfgc::CompileError;
use cfgc::ImportText;

fn chars(s: &str) -> Vec<char> {
    s.chars().collect()
}

fn compile_str(src: &str) -> Result<String, CompileError> {
    compile(&chars(src), &Vec::new())
}

#[test]
fn point_with_label() {
    let src = "type Point { x : number y : number }\n[Point]\norigin { x = 0 y = 0 }\n";
    let out = compile_str(src).unwrap();
    assert_eq!(out, "{\"origin\":{\"x\":0,\"y\":0}}");
}

#[test]
fn default_field_fills_empty_object() {
    let src = "type User { active = true }\nadmin : User { }\n";
    let out = compile_str(src).unwrap();
    assert_eq!(out, "{\"admin\":{\"active\":true}}");
}

#[test]
fn bare_global_field() {
    let out = compile_str("count = 5\n").unwrap();
    assert_eq!(out, "{\"count\":5}");
}

#[test]
fn unknown_type_is_fatal() {
    let src = "thing : Phantom { x = 1 }\n";
    match compile_str(src) {
        Err(CompileError::UnknownType { name }) => assert_eq!(name, "Phantom"),
        other => panic!("expected an unknown-type error, got {:?}", other),
    }
}

#[test]
fn missing_required_field_is_fatal() {
    let src = "type S { status : string }\nsvc : S { }\n";
    match compile_str(src) {
        Err(CompileError::MissingRequiredField { field, object }) => {
            assert_eq!(field, "status");
            assert_eq!(object, "svc");
        },
        other => panic!("expected a missing-required-field error, got {:?}", other),
    }
}

#[test]
fn identical_inputs_identical_output() {
    let src = "type Point { x : number y : number }\n[Point]\na { x = 1 y = 2 }\nb { x = 3 y = 4 }\nname = \"top\"\n";
    let one = compile_str(src).unwrap();
    let two = compile_str(src).unwrap();
    assert_eq!(one, two);
}

#[test]
fn literals_round_trip_coerced() {
    let src = "type T { a = 1 }\no : T { a = 7 b = \"text\" c = true d = \"0x10\" }\n";
    let out = compile_str(src).unwrap();
    assert_eq!(out, "{\"o\":{\"a\":7,\"b\":\"text\",\"c\":true,\"d\":\"0x10\"}}");
}

#[test]
fn override_beats_default() {
    let src = "type T { mode = \"auto\" size = 4 }\no : T { mode = \"manual\" }\n";
    let out = compile_str(src).unwrap();
    assert_eq!(out, "{\"o\":{\"mode\":\"manual\",\"size\":4}}");
}

#[test]
fn no_overrides_gives_all_type_fields() {
    let src = "type T { a = 1 b = 2 c = 3 }\no : T { }\n";
    let out = compile_str(src).unwrap();
    assert_eq!(out, "{\"o\":{\"a\":1,\"b\":2,\"c\":3}}");
}

#[test]
fn label_covers_following_objects() {
    let src = "type A { kind = \"a\" }\ntype B { kind = \"b\" }\n[A]\none { }\ntwo { }\nthree : B { }\nfour { }\n[B]\nfive { }\n";
    let out = compile_str(src).unwrap();
    assert_eq!(
        out,
        "{\"one\":{\"kind\":\"a\"},\"two\":{\"kind\":\"a\"},\"three\":{\"kind\":\"b\"},\"four\":{\"kind\":\"a\"},\"five\":{\"kind\":\"b\"}}"
    );
}

#[test]
fn label_of_unknown_type_is_fatal() {
    match compile_str("[Missing]\no { x = 1 }\n") {
        Err(CompileError::UnknownType { name }) => assert_eq!(name, "Missing"),
        other => panic!("expected an unknown-type error, got {:?}", other),
    }
}

#[test]
fn untyped_object_without_label_is_dropped() {
    let src = "plain { x = 1 }\ncount = 2\n";
    let out = compile_str(src).unwrap();
    assert_eq!(out, "{\"count\":2}");
}

#[test]
fn later_write_wins_for_same_key() {
    let src = "v = 1\nv = 2\n";
    let out = compile_str(src).unwrap();
    assert_eq!(out, "{\"v\":2}");
}

#[test]
fn string_literal_keeps_spaces() {
    let src = "greeting = \"hello world\"\n";
    let out = compile_str(src).unwrap();
    assert_eq!(out, "{\"greeting\":\"hello world\"}");
}

#[test]
fn comments_are_stripped() {
    let src = "// a comment line\ncount = 5 // trailing words\n";
    let out = compile_str(src).unwrap();
    assert_eq!(out, "{\"count\":5}");
}

#[test]
fn unterminated_string_is_fatal() {
    match compile_str("name = \"broken\n") {
        Err(CompileError::Lex) => {},
        other => panic!("expected a lexing error, got {:?}", other),
    }
}

#[test]
fn stray_token_is_fatal() {
    match compile_str("} count = 5\n") {
        Err(CompileError::Syntax { found }) => assert_eq!(found, "}"),
        other => panic!("expected a syntax error, got {:?}", other),
    }
}

#[test]
fn import_resolves_through_provided_text() {
    let src = "use Widget from \"widgets.cfg\"\nw : Widget { }\n";
    let imports = vec![ImportText {
        path: "widgets.cfg".to_string(),
        text: chars("type Widget { size = 3 }\n"),
    }];
    let out = compile(&chars(src), &imports).unwrap();
    assert_eq!(out, "{\"w\":{\"size\":3}}");
}

#[test]
fn missing_import_text_is_fatal() {
    let src = "use Widget from \"widgets.cfg\"\nw : Widget { }\n";
    match compile(&chars(src), &Vec::new()) {
        Err(CompileError::ImportIo { path }) => assert_eq!(path, "widgets.cfg"),
        other => panic!("expected an import input error, got {:?}", other),
    }
}

#[test]
fn import_cycle_is_fatal() {
    let src = "use T from \"a.cfg\"\no : T { }\n";
    let imports = vec![
        ImportText { path: "a.cfg".to_string(), text: chars("use T from \"b.cfg\"\n") },
        ImportText { path: "b.cfg".to_string(), text: chars("use T from \"a.cfg\"\n") },
    ];
    match compile(&chars(src), &imports) {
        Err(CompileError::ImportCycle { .. }) => {},
        other => panic!("expected an import-cycle error, got {:?}", other),
    }
}

#[test]
fn transitive_import_chain_resolves() {
    let src = "use T from \"a.cfg\"\no : T { }\n";
    let imports = vec![
        ImportText { path: "a.cfg".to_string(), text: chars("use T from \"b.cfg\"\n") },
        ImportText { path: "b.cfg".to_string(), text: chars("type T { v = 9 }\n") },
    ];
    let out = compile(&chars(src), &imports).unwrap();
    assert_eq!(out, "{\"o\":{\"v\":9}}");
}

#[test]
fn type_not_in_imported_file_is_fatal() {
    let src = "use T from \"a.cfg\"\no : T { }\n";
    let imports = vec![ImportText {
        path: "a.cfg".to_string(),
        text: chars("type Other { v = 1 }\n"),
    }];
    match compile(&chars(src), &imports) {
        Err(CompileError::UnknownType { name }) => assert_eq!(name, "T"),
        other => panic!("expected an unknown-type error, got {:?}", other),
    }
}

#[test]
fn typed_field_with_attached_colon() {
    let src = "type S { status: string }\ns : S { status = \"ok\" }\n";
    let out = compile_str(src).unwrap();
    assert_eq!(out, "{\"s\":{\"status\":\"ok\"}}");
}

#[test]
fn least_integer_is_emitted_as_a_number() {
    // A quoted literal still coerces by its text, so the least 64-bit
    // integer reaches the emitter; it must come out as a plain number.
    let src = "low = \"-9223372036854775808\"\nneg = \"-7\"\n";
    let out = compile_str(src).unwrap();
    assert_eq!(out, "{\"low\":-9223372036854775808,\"neg\":-7}");
}

#[test]
fn least_integer_inside_an_object() {
    let src = "type T { v = 1 }\no : T { v = \"-9223372036854775808\" }\n";
    let out = compile_str(src).unwrap();
    assert_eq!(out, "{\"o\":{\"v\":-9223372036854775808}}");
}

#[test]
fn empty_source_gives_empty_document() {
    let out = compile_str("").unwrap();
    assert_eq!(out, "{}");
}
