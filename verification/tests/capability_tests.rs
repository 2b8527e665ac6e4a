use mog::capability::{mogdecl_type_to_type, parse_capability_decl, parse_capability_decls};
use mog::types::{FloatKind, IntegerKind, Type};

#[test]
fn parse_process_capability() {
    let src = r#"
        capability process {
            async fn sleep(ms: int) -> int;
            fn getenv(name: string) -> string;
            fn exit(code: int) -> int;
        }
    "#;
    let decl = parse_capability_decl(src).expect("should parse");
    assert_eq!(decl.name, "process");
    assert_eq!(decl.functions.len(), 3);

    assert_eq!(decl.functions[0].name, "sleep");
    assert!(decl.functions[0].is_async);
    assert_eq!(decl.functions[0].params.len(), 1);
    assert_eq!(decl.functions[0].params[0].0, "ms");
    assert_eq!(decl.functions[0].return_type, Type::int_type());

    assert_eq!(decl.functions[1].name, "getenv");
    assert!(!decl.functions[1].is_async);
    assert_eq!(decl.functions[1].return_type, Type::String);
}

#[test]
fn parse_log_capability_no_return_types() {
    let src = r#"
        capability log {
            fn info(message: string);
            fn warn(message: string);
        }
    "#;
    let decl = parse_capability_decl(src).expect("should parse");
    assert_eq!(decl.name, "log");
    assert_eq!(decl.functions.len(), 2);
    assert_eq!(decl.functions[0].return_type, Type::Void);
}

#[test]
fn parse_with_comments() {
    let src = r#"
        // This is a comment
        # Another comment style
        capability http {
            async fn get(url: string) -> string;
        }
    "#;
    let decl = parse_capability_decl(src).expect("should parse");
    assert_eq!(decl.name, "http");
    assert_eq!(decl.functions.len(), 1);
}

#[test]
fn empty_input_returns_none() {
    assert!(parse_capability_decl("").is_none());
    assert!(parse_capability_decl("// just a comment").is_none());
}

#[test]
fn mogdecl_type_mapping() {
    assert_eq!(mogdecl_type_to_type("int"), Type::int_type());
    assert_eq!(mogdecl_type_to_type("float"), Type::float());
    assert_eq!(mogdecl_type_to_type("bool"), Type::Bool);
    assert_eq!(mogdecl_type_to_type("string"), Type::String);
    assert_eq!(mogdecl_type_to_type("none"), Type::Void);
    assert_eq!(
        mogdecl_type_to_type("Result<int>"),
        Type::Result(Box::new(Type::int_type()))
    );
}

#[test]
fn mogdecl_type_mapping_custom_and_nested() {
    assert_eq!(mogdecl_type_to_type("Widget"), Type::Custom("Widget".to_string()));
    assert_eq!(
        mogdecl_type_to_type("Result<Result<bool>>"),
        Type::Result(Box::new(Type::Result(Box::new(Type::Bool))))
    );
    assert_eq!(mogdecl_type_to_type("Result<>"), Type::Result(Box::new(Type::Custom(String::new()))));
    assert_eq!(mogdecl_type_to_type("Result<"), Type::Custom("Result<".to_string()));
    assert_eq!(mogdecl_type_to_type("float"), Type::Float(FloatKind::F64));
    assert_eq!(mogdecl_type_to_type("int"), Type::Integer(IntegerKind::I64));
}

#[test]
fn parse_all_capabilities_in_order() {
    let src = "capability a { fn f(); }\nnoise here\ncapability b { async fn g(x: ?int, y: Result<string>) -> Result; }";
    let decls = parse_capability_decls(src).expect("should parse");
    assert_eq!(decls.len(), 2);
    assert_eq!(decls[0].name, "a");
    assert_eq!(decls[0].functions[0].name, "f");
    assert_eq!(decls[0].functions[0].return_type, Type::Void);
    assert_eq!(decls[1].name, "b");
    let g = &decls[1].functions[0];
    assert!(g.is_async);
    assert_eq!(g.params.len(), 2);
    assert_eq!(g.params[0].0, "x");
    assert_eq!(g.params[0].1, Type::int_type());
    assert_eq!(g.params[1].1, Type::Result(Box::new(Type::String)));
    assert_eq!(g.return_type, Type::Result(Box::new(Type::Void)));
}

#[test]
fn malformed_declaration_is_an_error() {
    assert!(parse_capability_decls("capability { fn f(); }").is_err());
    assert!(parse_capability_decls("capability x { fn (); }").is_err());
    assert!(parse_capability_decls("capability x { fn f(a int); }").is_err());
    assert!(parse_capability_decls("capability x { fn f();").is_err());
    assert!(parse_capability_decl("capability x { fn f(a int); }").is_none());
}

#[test]
fn capability_without_closing_brace_at_end() {
    // The body ends at the end of input, but the closing brace is still required.
    assert!(parse_capability_decls("capability x {").is_err());
    assert_eq!(parse_capability_decls("// nothing").unwrap().len(), 0);
}

#[test]
fn decl_error_messages() {
    assert_eq!(
        parse_capability_decls("capability fs").unwrap_err(),
        "Expected Punct '{', got Eof ''"
    );
    assert_eq!(
        parse_capability_decls("capability fs {").unwrap_err(),
        "Expected Punct '}', got Eof ''"
    );
    assert_eq!(
        parse_capability_decls("capability fs { fn read(p string); }").unwrap_err(),
        "Expected Punct ':', got Ident 'string'"
    );
    let ds = parse_capability_decls("fn x(); capability a {}").unwrap();
    assert_eq!(ds.len(), 1);
    assert_eq!(ds[0].name, "a");
    assert!(ds[0].functions.is_empty());
}
