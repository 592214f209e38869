use ssd::{
    parse, parse_raw, parse_raw_with_notes, pretty, update_types, AstElement, DeclarationKind,
    Namespace, ParseErrorType, ServiceAstElement, SsdModule, TypeName,
};

const EXAMPLE: &str = "import some::other::module;
data Point { x: f32, y: f32, };
enum Color { Red = 1, Green, Blue, };
service Greeter {
    depends on Logger;
    fn greet(name: string) -> string;
    event greeted(name: string);
};
";

fn ns(s: &str) -> Namespace {
    Namespace::new(s)
}

fn module_of(src: &str) -> SsdModule {
    parse(src, Namespace::new("test")).expect("the source parses")
}

fn check_example(m: &SsdModule) {
    assert_eq!(m.imports.len(), 1);
    assert_eq!(m.imports[0].path, ns("some::other::module"));

    assert_eq!(m.data_types.len(), 1);
    assert_eq!(m.data_types[0].0, "Point");
    let props = &m.data_types[0].1.properties;
    assert_eq!(props.len(), 2);
    assert_eq!(props[0].0, "x");
    assert_eq!(props[0].1.typ, ns("f32"));
    assert_eq!(props[1].0, "y");
    assert_eq!(props[1].1.typ, ns("f32"));

    assert_eq!(m.enums.len(), 1);
    assert_eq!(m.enums[0].0, "Color");
    let values: Vec<(String, Option<i64>)> = m.enums[0]
        .1
        .values
        .iter()
        .map(|(n, v)| (n.clone(), v.value))
        .collect();
    assert_eq!(
        values,
        vec![
            ("Red".to_string(), Some(1)),
            ("Green".to_string(), None),
            ("Blue".to_string(), None)
        ]
    );

    assert_eq!(m.services.len(), 1);
    assert_eq!(m.services[0].0, "Greeter");
    let svc = &m.services[0].1;
    assert_eq!(svc.dependencies.len(), 1);
    assert_eq!(svc.dependencies[0].name, ns("Logger"));
    assert_eq!(svc.functions.len(), 1);
    assert_eq!(svc.functions[0].0, "greet");
    let greet = &svc.functions[0].1;
    assert_eq!(greet.arguments.len(), 1);
    assert_eq!(greet.arguments[0].0, "name");
    assert_eq!(greet.arguments[0].1.typ, ns("string"));
    assert_eq!(greet.return_type.as_ref().unwrap().typ, ns("string"));
    assert_eq!(svc.events.len(), 1);
    assert_eq!(svc.events[0].0, "greeted");
    let greeted = &svc.events[0].1;
    assert_eq!(greeted.arguments.len(), 1);
    assert_eq!(greeted.arguments[0].1.typ, ns("string"));
}

#[test]
fn end_to_end_example() {
    let m = module_of(EXAMPLE);
    check_example(&m);
}

#[test]
fn end_to_end_example_round_trip() {
    let raw = parse_raw(EXAMPLE).unwrap();
    let text = pretty(&raw);
    let again = module_of(&text);
    check_example(&again);
    assert_eq!(again, module_of(EXAMPLE));
}

#[test]
fn printing_is_idempotent_on_example() {
    let once = pretty(&parse_raw(EXAMPLE).unwrap());
    let twice = pretty(&parse_raw(&once).unwrap());
    assert_eq!(once, twice);
}

#[test]
fn duplicate_data_types_are_an_error() {
    let err = parse("data Foo { a: u8, };\ndata Foo { b: u8, };\n", ns("x")).unwrap_err();
    assert_eq!(
        err.error_type,
        ParseErrorType::DuplicateDeclaration(DeclarationKind::DataType, "Foo".to_string())
    );
}

#[test]
fn duplicate_functions_are_an_error() {
    let err = parse("service S { fn a(); fn a(); };", ns("x")).unwrap_err();
    assert_eq!(
        err.error_type,
        ParseErrorType::DuplicateDeclaration(DeclarationKind::Function, "a".to_string())
    );
}

fn first_property_type(src: &str) -> TypeName {
    let m = module_of(src);
    m.data_types[0].1.properties[0].1.clone()
}

#[test]
fn fixed_list_type() {
    let t = first_property_type("data A { a: 5 of u8, };");
    assert_eq!((t.typ, t.is_list, t.count), (ns("u8"), true, Some(5)));
}

#[test]
fn dynamic_list_type() {
    let t = first_property_type("data A { a: list of u8, };");
    assert_eq!((t.typ, t.is_list, t.count), (ns("u8"), true, None));
}

#[test]
fn scalar_type() {
    let t = first_property_type("data A { a: u8, };");
    assert_eq!((t.typ, t.is_list, t.count), (ns("u8"), false, None));
}

#[test]
fn whitespace_between_count_and_of() {
    let t = first_property_type("data A { a: 12    of   a::b, };");
    assert_eq!((t.typ, t.is_list, t.count), (ns("a::b"), true, Some(12)));
}

#[test]
fn type_mapping_rewrites_property() {
    let m = module_of("data A { x: Foo, };");
    let m = update_types(m, &[("Foo".to_string(), "Bar".to_string())]);
    assert_eq!(m.data_types[0].1.properties[0].0, "x");
    assert_eq!(m.data_types[0].1.properties[0].1.typ, ns("Bar"));
}

#[test]
fn type_mapping_empty_table_keeps_module() {
    let m = module_of(EXAMPLE);
    let same = update_types(m.clone(), &[]);
    assert_eq!(same, m);
}

#[test]
fn type_mapping_reaches_services() {
    let m = module_of(EXAMPLE);
    let m = update_types(m, &[("string".to_string(), "std::String".to_string())]);
    let greet = &m.services[0].1.functions[0].1;
    assert_eq!(greet.arguments[0].1.typ, ns("std::String"));
    assert_eq!(greet.return_type.as_ref().unwrap().typ, ns("std::String"));
    assert_eq!(m.services[0].1.events[0].1.arguments[0].1.typ, ns("std::String"));
    assert_eq!(m.data_types[0].1.properties[0].1.typ, ns("f32"));
}

#[test]
fn comments_attach_to_next_declaration() {
    let raw = parse_raw("/// top\ndata A {\n /// first\n a: u8,\n};").unwrap();
    assert!(matches!(&raw[0], AstElement::Comment(c) if c == "top"));
    match &raw[1] {
        AstElement::DataType(name, d) => {
            assert_eq!(name, "A");
            assert_eq!(d.properties[0].1.comments, vec!["first".to_string()]);
        }
        _ => panic!("expected a data type"),
    }
}

#[test]
fn service_comments_attach_after_assembly() {
    let m = module_of("service S {\n /// says hi\n fn hi();\n};");
    assert_eq!(m.services[0].1.functions[0].1.comments, vec!["says hi".to_string()]);
}

#[test]
fn handles_is_accepted_and_noted() {
    let mut notes = Vec::new();
    let raw = parse_raw_with_notes("service S { handles a(); };", &mut notes).unwrap();
    assert_eq!(notes, vec![12]);
    match &raw[0] {
        AstElement::Service(_, body, _) => {
            assert!(matches!(&body[0], ServiceAstElement::Function(n, _) if n == "a"));
        }
        _ => panic!("expected a service"),
    }
}

#[test]
fn enum_values_signed_and_bounds() {
    let m = module_of("enum E { A = -5, B = 9223372036854775807, C = -9223372036854775808, };");
    let vals: Vec<Option<i64>> = m.enums[0].1.values.iter().map(|v| v.1.value).collect();
    assert_eq!(vals, vec![Some(-5), Some(i64::MAX), Some(i64::MIN)]);
}

#[test]
fn enum_value_out_of_range() {
    let err = parse_raw("enum E { A = 9223372036854775808, };").unwrap_err();
    assert_eq!(
        err.error_type,
        ParseErrorType::InvalidEnumValue("9223372036854775808".to_string())
    );
}

#[test]
fn attributes_parse_and_render() {
    let src = "#[a, b::c(x = \"1\", y)]\ndata A {\n\t#[z]\n\tf: u8,\n};\n";
    let raw = parse_raw(src).unwrap();
    assert_eq!(pretty(&raw), src);
}

#[test]
fn pretty_exact_text() {
    let raw = parse_raw(EXAMPLE).unwrap();
    let expected = "import some::other::module;\n\
\n\
data Point {\n\tx: f32,\n\ty: f32,\n};\n\
\n\
enum Color {\n\tRed = 1,\n\tGreen,\n\tBlue,\n};\n\
\n\
service Greeter {\n\tdepends on Logger;\n\n\tfn greet(name: string) -> string;\n\n\tevent greeted(name: string);\n};\n";
    assert_eq!(pretty(&raw), expected);
}

#[test]
fn pretty_comment_separation() {
    let raw = parse_raw("import a;\nimport b;\n/// c\ndata D {};").unwrap();
    assert_eq!(pretty(&raw), "import a;\nimport b;\n\n/// c\ndata D {\n};\n");
}

#[test]
fn pretty_list_types() {
    let raw = parse_raw("service S { fn f(a: 3 of u8, b: list of x::y) -> list of z; };").unwrap();
    assert_eq!(
        pretty(&raw),
        "service S {\n\n\tfn f(a: 3 of u8, b: list of x::y) -> list of z;\n\n};\n"
    );
}

#[test]
fn error_incomplete_import() {
    let err = parse_raw("import ;").unwrap_err();
    assert_eq!(err.error_type, ParseErrorType::IncompleteImport);
    assert_eq!(err.span, ";");
}

#[test]
fn error_missing_type() {
    let err = parse_raw("data A { x: , };").unwrap_err();
    assert_eq!(err.error_type, ParseErrorType::MissingType("x".to_string()));
}

#[test]
fn error_unexpected_element() {
    let err = parse_raw("struct A {};").unwrap_err();
    assert_eq!(err.error_type, ParseErrorType::UnexpectedElement("struct".to_string()));
}

#[test]
fn error_incomplete_service() {
    let err = parse_raw("service S { depends on A; ").unwrap_err();
    assert_eq!(err.error_type, ParseErrorType::IncompleteService);
}

#[test]
fn namespace_split_and_join() {
    let n = Namespace::new("a::b::c");
    assert_eq!(n.components, vec!["a", "b", "c"]);
    assert_eq!(n.to_string(), "a::b::c");
    assert_eq!(Namespace::new("").components, vec![""]);
}

const SAMPLE: &str = "import abc::def;

/// A data type.
#[serde(rename = \"x\")]
data Rect {
    /// the corner
    x: i32,
    y: 4 of i32,
    #[optional]
    tags: list of string,
};

enum Kind {
    A = -1,
    /// second
    B,
};

service Shapes {
    depends on abc::Store;
    /// area of a rect
    fn area(#[by_ref] r: Rect) -> f64;
    handles old(k: Kind);
    event changed(r: Rect, k: Kind);
};
";

#[test]
fn test_simple() {
    let m = parse(SAMPLE, Namespace::new("__test__")).unwrap();
    assert_eq!(m.namespace, Namespace::new("__test__"));
    assert_eq!(m.imports.len(), 1);
    assert_eq!(m.data_types[0].0, "Rect");
    assert_eq!(m.data_types[0].1.attributes[0].parameters[0].value.as_deref(), Some("x"));
    assert_eq!(m.data_types[0].1.properties[0].1.comments, vec!["the corner".to_string()]);
    assert_eq!(m.data_types[0].1.properties[1].1.count, Some(4));
    assert!(m.data_types[0].1.properties[2].1.is_list);
    assert_eq!(m.enums[0].1.values[1].1.comments, vec!["second".to_string()]);
    let svc = &m.services[0].1;
    assert_eq!(svc.functions.len(), 2);
    assert_eq!(svc.functions[0].1.comments, vec!["area of a rect".to_string()]);
    assert_eq!(svc.functions[0].1.arguments[0].1.attributes[0].name, Namespace::new("by_ref"));
    assert_eq!(svc.functions[1].0, "old");
    assert_eq!(svc.events[0].1.arguments.len(), 2);
}

#[test]
fn test_raw() {
    let raw = parse_raw(SAMPLE).unwrap();
    assert_eq!(raw.len(), 5);
    assert!(matches!(&raw[0], AstElement::Import(_)));
    assert!(matches!(&raw[1], AstElement::Comment(c) if c == "A data type."));
    assert!(matches!(&raw[2], AstElement::DataType(n, _) if n == "Rect"));
    assert!(matches!(&raw[3], AstElement::Enum(n, _) if n == "Kind"));
    match &raw[4] {
        AstElement::Service(n, body, _) => {
            assert_eq!(n, "Shapes");
            assert_eq!(body.len(), 5);
            assert!(matches!(&body[1], ServiceAstElement::Comment(c) if c == "area of a rect"));
        }
        _ => panic!("expected a service"),
    }
    let text = pretty(&raw);
    assert_eq!(pretty(&parse_raw(&text).unwrap()), text);
}
