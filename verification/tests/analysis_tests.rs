use mog::analyzer::{SemanticAnalyzer, SemanticError};
use mog::lexer::tokenize;
use mog::parser::parse;
use mog::token::{Token, TokenType};

fn analyze_src(src: &str) -> Vec<SemanticError> {
    let tokens: Vec<Token> = tokenize(src)
        .into_iter()
        .filter(|t| t.token_type != TokenType::Whitespace && t.token_type != TokenType::Comment)
        .collect();
    let ast = parse(&tokens).expect("source should parse");
    let mut analyzer = SemanticAnalyzer::new();
    analyzer.analyze(&ast)
}

fn messages(errors: &[SemanticError]) -> Vec<String> {
    errors.iter().map(|e| e.message.clone()).collect()
}

fn has_error_containing(errors: &[SemanticError], substr: &str) -> bool {
    errors
        .iter()
        .any(|e| e.message.to_lowercase().contains(&substr.to_lowercase()))
}

#[test]
fn test_valid_program_no_errors() {
    let errors = analyze_src("fn main() -> int { return 0; }");
    assert!(errors.is_empty(), "Expected no errors, got: {:?}", messages(&errors));
}

#[test]
fn test_undeclared_variable() {
    let errors = analyze_src("fn main() -> int { x = y + 1; return 0; }");
    assert!(
        has_error_containing(&errors, "undefined")
            || has_error_containing(&errors, "undeclared")
            || has_error_containing(&errors, "not declared"),
        "Expected an error about undeclared variable, got: {:?}",
        messages(&errors)
    );
}

#[test]
fn undeclared_names_are_reported_in_order() {
    let errors = analyze_src("fn main() -> int { z := y + w; return 0; }");
    assert_eq!(
        messages(&errors),
        vec!["Undefined variable 'y'".to_string(), "Undefined variable 'w'".to_string()]
    );
    assert_eq!(errors[0].span.unwrap().start.line, 1);
}

#[test]
fn test_variable_declaration_and_use() {
    let errors = analyze_src("fn main() -> int { x := 5; y := x + 1; return y; }");
    assert!(errors.is_empty(), "Expected no errors, got: {:?}", messages(&errors));
}

#[test]
fn test_scope_isolation() {
    let src = r#"
fn main() -> int {
    if 1 {
        inner := 42;
    }
    y := inner;
    return 0;
}
"#;
    let errors = analyze_src(src);
    assert_eq!(messages(&errors), vec!["Undefined variable 'inner'".to_string()]);
    assert_eq!(errors[0].span.unwrap().start.line, 6);
}

#[test]
fn test_while_loop_valid() {
    let errors = analyze_src("fn main() -> int { i := 10; while i { i = i - 1; } return 0; }");
    assert!(errors.is_empty(), "Expected no errors for valid while loop, got: {:?}", messages(&errors));
}

#[test]
fn test_break_outside_loop() {
    let errors = analyze_src("fn main() -> int { break; return 0; }");
    assert_eq!(
        messages(&errors),
        vec!["break statement can only be used inside a loop".to_string()]
    );
}

#[test]
fn break_and_continue_inside_loops_are_accepted() {
    let errors =
        analyze_src("fn main() -> int { i := 3; while i { i = i - 1; break; } for j in 0..3 { continue; } return 0; }");
    assert!(errors.is_empty(), "got: {:?}", messages(&errors));
}

#[test]
fn continue_outside_loop_is_an_error() {
    let errors = analyze_src("fn main() -> int { continue; return 0; }");
    assert_eq!(
        messages(&errors),
        vec!["continue statement can only be used inside a loop".to_string()]
    );
}

#[test]
fn return_outside_function_is_an_error() {
    let errors = analyze_src("return 0;");
    assert_eq!(messages(&errors), vec!["Return statement outside function".to_string()]);
}

#[test]
fn assigning_to_a_function_is_an_error() {
    let errors = analyze_src("fn f() -> int { return 1; } fn main() -> int { f = 2; return 0; }");
    assert_eq!(messages(&errors), vec!["Cannot assign to Function 'f'".to_string()]);
}

#[test]
fn assigning_to_a_parameter_is_an_error() {
    let errors = analyze_src("fn f(a: int) -> int { a = 2; return a; }");
    assert_eq!(messages(&errors), vec!["Cannot assign to Parameter 'a'".to_string()]);
}

#[test]
fn test_struct_definition_and_use() {
    let src = r#"
struct Point { x: int, y: int }

fn main() -> int {
    p := Point { x: 10, y: 20 };
    return p.x;
}
"#;
    let errors = analyze_src(src);
    assert!(errors.is_empty(), "got: {:?}", messages(&errors));
}

#[test]
fn test_builtin_functions() {
    let src = r#"
fn main() -> int {
    print("hello");
    println("world");
    return 0;
}
"#;
    let errors = analyze_src(src);
    assert!(errors.is_empty(), "got: {:?}", messages(&errors));
}

#[test]
fn calling_an_unknown_function_is_an_error() {
    let errors = analyze_src("fn main() -> int { frobnicate(1); return 0; }");
    assert_eq!(messages(&errors), vec!["Undefined function 'frobnicate'".to_string()]);
}

#[test]
fn test_async_function_valid() {
    let src = r#"
async fn do_work() -> int {
    return 42;
}

async fn main() -> int {
    result := await do_work();
    return result;
}
"#;
    let errors = analyze_src(src);
    assert!(errors.is_empty(), "got: {:?}", messages(&errors));
}

#[test]
fn await_outside_async_function_is_an_error() {
    let src = r#"
async fn do_work() -> int {
    return 42;
}

fn main() -> int {
    result := await do_work();
    return result;
}
"#;
    let errors = analyze_src(src);
    assert_eq!(
        messages(&errors),
        vec!["await can only be used inside an async function".to_string()]
    );
}

#[test]
fn test_requires_declaration() {
    let src = r#"
requires fs;

fn main() -> int {
    return 0;
}
"#;
    let errors = analyze_src(src);
    assert!(errors.is_empty(), "got: {:?}", messages(&errors));
}

#[test]
fn parameter_without_default_after_default_is_an_error() {
    let errors = analyze_src("fn f(a: int = 1, b: int) -> int { return b; }");
    assert_eq!(
        messages(&errors),
        vec![
            "Parameter 'b' must have a default value because it follows a parameter with a default value"
                .to_string()
        ]
    );
}

#[test]
fn names_declared_in_a_function_do_not_leak_out() {
    let errors = analyze_src("fn f(a: int) -> int { b := a; return b; } fn main() -> int { return b; }");
    assert_eq!(messages(&errors), vec!["Undefined variable 'b'".to_string()]);
}

#[test]
fn analysis_starts_afresh_each_time() {
    let tokens: Vec<Token> = tokenize("fn main() -> int { break; return 0; }")
        .into_iter()
        .filter(|t| t.token_type != TokenType::Whitespace && t.token_type != TokenType::Comment)
        .collect();
    let ast = parse(&tokens).expect("source should parse");
    let mut analyzer = SemanticAnalyzer::new();
    let first = analyzer.analyze(&ast);
    let second = analyzer.analyze(&ast);
    assert_eq!(messages(&first), messages(&second));
    assert_eq!(messages(analyzer.errors()), messages(&second));
}

#[test]
fn test_function_call_unknown_named_arg() {
    let errors = analyze_src(
        "fn add(a: int, b: int) -> int { return a + b; } fn main() -> int { return add(1, 2, c: 3); }",
    );
    assert!(
        has_error_containing(&errors, "unknown named argument"),
        "Expected an error about unknown named argument, got: {:?}",
        messages(&errors)
    );
    assert_eq!(
        messages(&errors),
        vec!["Unknown named argument 'c' in call to 'add'".to_string()]
    );
}

#[test]
fn missing_required_argument_is_reported() {
    let errors = analyze_src(
        "fn add(a: int, b: int) -> int { return a + b; } fn main() -> int { return add(b: 2); }",
    );
    assert_eq!(
        messages(&errors),
        vec!["Missing required argument 'a' in call to 'add'".to_string()]
    );
}

#[test]
fn named_arguments_matching_parameters_are_accepted() {
    let errors = analyze_src(
        "fn add(a: int, b: int) -> int { return a + b; } fn main() -> int { return add(1, b: 2); }",
    );
    assert!(errors.is_empty(), "got: {:?}", messages(&errors));
}

#[test]
fn unknown_struct_type_is_reported() {
    let errors = analyze_src("fn main() -> int { p := Nope { x: 1 }; return 0; }");
    assert_eq!(messages(&errors), vec!["Undefined struct type 'Nope'".to_string()]);
}

#[test]
fn names_inside_template_and_map_literals_are_resolved() {
    let errors = analyze_src("fn main() -> int { m := { a: q }; return 0; }");
    assert_eq!(messages(&errors), vec!["Undefined variable 'q'".to_string()]);
}

#[test]
fn front_end_and_analysis_detect_undefined_variable() {
    let source = r#"fn main() -> int { x := undefined_var; return 0; }"#;
    let front = mog::compiler::compile_front_end(source);
    assert!(front.errors.is_empty());
    let program = front.program.expect("source should parse");
    let mut analyzer = SemanticAnalyzer::new();
    let errors = analyzer.analyze(&program);
    assert!(!errors.is_empty(), "should have errors for undefined variable");
    assert_eq!(messages(&errors), vec!["Undefined variable 'undefined_var'".to_string()]);
}

fn analyze_with_fs(src: &str) -> Vec<SemanticError> {
    let tokens: Vec<Token> = tokenize(src)
        .into_iter()
        .filter(|t| t.token_type != TokenType::Whitespace && t.token_type != TokenType::Comment)
        .collect();
    let ast = parse(&tokens).expect("source should parse");
    let decl = mog::capability::parse_capability_decl("capability fs { fn read(p: string) -> string; }")
        .expect("declaration should parse");
    let mut analyzer = SemanticAnalyzer::new();
    analyzer.set_capability_decls(vec![("fs".to_string(), decl)]);
    analyzer.analyze(&ast)
}

#[test]
fn capability_calls_are_checked_against_declarations() {
    let ok = analyze_with_fs("requires fs;\nfn main() -> int { x := fs.read(\"a\"); return 0; }");
    assert!(ok.is_empty(), "got: {:?}", messages(&ok));
    let missing = analyze_with_fs("requires fs;\nfn main() -> int { fs.remove(\"a\"); return 0; }");
    assert_eq!(messages(&missing), vec!["Capability 'fs' has no function 'remove'".to_string()]);
    let too_many = analyze_with_fs("requires fs;\nfn main() -> int { fs.read(\"a\", \"b\"); return 0; }");
    assert_eq!(
        messages(&too_many),
        vec!["fs.read() expects at most 1 arguments, got 2".to_string()]
    );
}

#[test]
fn calls_on_undeclared_capabilities_are_not_checked() {
    let errors = analyze_with_fs("fn main() -> int { return 0; }");
    assert!(errors.is_empty());
    let errors = analyze_src("requires net;\nfn main() -> int { net.open(1); return 0; }");
    assert!(errors.is_empty(), "got: {:?}", messages(&errors));
}

#[test]
fn casts_passed_to_posix_buffer_functions_are_warned_about() {
    let tokens: Vec<Token> = tokenize("fn main() -> int { n := read(3, cast<i64>(0), 8); return 0; }")
        .into_iter()
        .filter(|t| t.token_type != TokenType::Whitespace && t.token_type != TokenType::Comment)
        .collect();
    let ast = parse(&tokens).expect("source should parse");
    let mut analyzer = SemanticAnalyzer::new();
    let errors = analyzer.analyze(&ast);
    assert!(errors.is_empty(), "got: {:?}", messages(&errors));
    assert_eq!(
        messages(analyzer.warnings()),
        vec!["Avoid cast<i64>() with POSIX buffer parameters. Pass arrays directly instead of casting to i64."
            .to_string()]
    );
}
