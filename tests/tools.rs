use ssd::{
    canonical_mapping, check_round_trip, namespace_for_file, parse_key_val, parse_raw, pretty,
    raw_service_to_service, to_comparable, AstElement, Attribute, Namespace, ParseErrorType,
    RoundTripError, ServiceAstElement, TypePath,
};

#[test]
fn namespace_from_relative_path() {
    assert_eq!(namespace_for_file("a/b/file.svc").components, vec!["a", "b", "file"]);
    assert_eq!(namespace_for_file("./x//y.tar.gz").components, vec!["x", "y.tar"]);
    assert_eq!(namespace_for_file(".hidden").components, vec![".hidden"]);
    assert!(namespace_for_file("").components.is_empty());
}

#[test]
fn key_value_definitions() {
    assert_eq!(parse_key_val("a=b=c"), ("a".to_string(), "b=c".to_string()));
    assert_eq!(parse_key_val("flag"), ("flag".to_string(), String::new()));
    assert_eq!(parse_key_val("=v"), (String::new(), "v".to_string()));
}

#[test]
fn mapping_keys_in_both_forms() {
    let entries = vec![
        (
            TypePath::Segments(vec!["a".to_string(), "b".to_string()]),
            TypePath::Joined("c::d".to_string()),
        ),
        (
            TypePath::Joined("x".to_string()),
            TypePath::Segments(vec!["y".to_string(), "z".to_string()]),
        ),
    ];
    assert_eq!(
        canonical_mapping(&entries),
        vec![
            ("a::b".to_string(), "c::d".to_string()),
            ("x".to_string(), "y::z".to_string())
        ]
    );
}

#[test]
fn round_trip_check_accepts_canonical_output() {
    let src = "/// doc\nimport a::b;\n#[x(k = \"v\")]\nservice S {\n/// dep\ndepends on L;\n/// f\nfn f(a: u8) -> 4 of u8;\nevent e();\n};\n";
    let raw = parse_raw(src).unwrap();
    let text = check_round_trip(&raw).unwrap();
    assert_eq!(text, pretty(&raw));
}

#[test]
fn round_trip_check_reports_source_duplicates() {
    let raw = parse_raw("service S { event e(); event e(); };").unwrap();
    match check_round_trip(&raw) {
        Err(RoundTripError::Source(e)) => assert!(matches!(
            e.error_type,
            ParseErrorType::DuplicateDeclaration(ssd::DeclarationKind::Event, _)
        )),
        other => panic!("unexpected {other:?}"),
    }
}

#[test]
fn round_trip_check_reports_unparsable_text() {
    let raw = vec![AstElement::Comment("a".to_string()), AstElement::Import(ssd::Import::new(Namespace::new("1bad"), vec![]))];
    assert!(matches!(check_round_trip(&raw), Err(RoundTripError::Reparse(_))));
}

#[test]
fn comparable_form_assembles_services() {
    let raw = parse_raw("service S { /// c\n fn f(); };").unwrap();
    let c = to_comparable(&raw).unwrap();
    assert_eq!(c.len(), 1);
    match &c[0] {
        ssd::ComparableAstElement::Service(n, s) => {
            assert_eq!(n, "S");
            assert_eq!(s.functions[0].1.comments, vec!["c".to_string()]);
        }
        _ => panic!("expected a service"),
    }
}

#[test]
fn service_assembly_keeps_dependency_order() {
    let body = vec![
        ServiceAstElement::Dependency(ssd::Dependency::new(Namespace::new("B"), vec![])),
        ServiceAstElement::Comment("note".to_string()),
        ServiceAstElement::Dependency(ssd::Dependency::new(Namespace::new("A"), vec![])),
    ];
    let s = raw_service_to_service(&body, &[]).unwrap();
    assert_eq!(s.dependencies[0].name, Namespace::new("B"));
    assert_eq!(s.dependencies[1].name, Namespace::new("A"));
    assert_eq!(s.dependencies[1].comments, vec!["note".to_string()]);
}

#[test]
fn attribute_constructor_and_rendering() {
    let a = Attribute::new(
        Namespace::new("serde::rename"),
        vec![("to".to_string(), Some("x".to_string())), ("flag".to_string(), None)],
    );
    assert_eq!(ssd::attributes_to_string(&[a]), "#[serde::rename(to = \"x\", flag)]");
}

#[test]
fn enum_rendering_with_values() {
    let raw = parse_raw("enum E { A = -3, #[x] B, };").unwrap();
    assert_eq!(pretty(&raw), "enum E {\n\tA = -3,\n\t#[x] B,\n};\n");
}

#[test]
fn empty_input_renders_empty() {
    let raw = parse_raw("   \n").unwrap();
    assert!(raw.is_empty());
    assert_eq!(pretty(&raw), "");
}

#[test]
fn attribute_display_form() {
    let a = Attribute::new(
        Namespace::new("a::b"),
        vec![("x".to_string(), Some("1".to_string())), ("y".to_string(), None)],
    );
    assert_eq!(a.to_string(), "a::b(x = 1, y)");
    assert_eq!(Attribute::new(Namespace::new("z"), vec![]).to_string(), "z");
    let d = ssd::Dependency::new(Namespace::new("p::q"), vec![]);
    assert_eq!(d.to_string(), "p::q");
}

fn string_type() -> ssd::TypeName {
    ssd::TypeName::new(Namespace::new("string"), false, None, vec![])
}

#[test]
fn service_text_ends_at_closing_brace() {
    let s = string_type();
    let body = vec![
        ServiceAstElement::Dependency(ssd::Dependency::new(Namespace::new("Logger"), vec![])),
        ServiceAstElement::Function(
            "greet".to_string(),
            ssd::Function::new(vec![("name".to_string(), s.clone())], Some(s.clone()), vec![]),
        ),
        ServiceAstElement::Event(
            "greeted".to_string(),
            ssd::Event::new(vec![("name".to_string(), s)], vec![]),
        ),
    ];
    assert_eq!(
        ssd::service_to_string("Greeter", &body, &[]),
        "service Greeter {\n\tdepends on Logger;\n\n\tfn greet(name: string) -> string;\n\n\tevent greeted(name: string);\n};"
    );
}

#[test]
fn enum_text_ends_at_closing_brace() {
    let en = ssd::Enum::new(
        vec![
            ("Red".to_string(), ssd::EnumValue::new(Some(1), vec![])),
            (
                "Green".to_string(),
                ssd::EnumValue::new(None, vec![Attribute::new(Namespace::new("a"), vec![])]),
            ),
        ],
        vec![],
    );
    assert_eq!(ssd::enum_to_string("Color", &en), "enum Color {\n\tRed = 1,\n\t#[a] Green,\n};");
}

#[test]
fn datatype_text_ends_at_closing_brace() {
    let d = ssd::DataType::new(vec![("x".to_string(), string_type())], vec![]);
    assert_eq!(ssd::datatype_to_string("P", &d), "data P {\n\tx: string,\n};");
}

#[test]
fn multi_line_comment_is_printed_line_by_line() {
    let t = string_type().with_comments(&mut vec!["one\ntwo".to_string()]);
    let d = ssd::DataType::new(vec![("x".to_string(), t)], vec![]);
    assert_eq!(
        ssd::datatype_to_string("P", &d),
        "data P {\n\t/// one\n\t/// two\n\tx: string,\n};"
    );
}

#[test]
fn error_messages() {
    let e = parse_raw("import ;").unwrap_err();
    assert_eq!(e.to_string(), "Import incomplete. (;)");
    let e = parse_raw("data A { x: , };").unwrap_err();
    assert_eq!(e.to_string(), "Type missing after x. (, };)");
    let e = ssd::parse("enum E { A, };\nenum E { B, };", Namespace::new("n")).unwrap_err();
    assert_eq!(e.to_string(), "Duplicate enum E! (E)");
    let e = parse_raw("struct A {};").unwrap_err();
    assert_eq!(e.to_string(), "Unexpected element struct (struct A {};)");
}

#[test]
fn every_handles_is_noted() {
    let mut notes = Vec::new();
    let src = "service A { handles a(); fn b(); };\nservice B { handles c(); };";
    ssd::parse_raw_with_notes(src, &mut notes).unwrap();
    assert_eq!(notes, vec![12, 48]);
}

#[test]
fn duplicate_message_shows_span() {
    let e = ssd::ParseError::new(
        ParseErrorType::DuplicateDeclaration(ssd::DeclarationKind::DataType, "a".to_string()),
        "#".to_string(),
    );
    assert_eq!(e.to_string(), "Duplicate datatype a! (#)");
}
