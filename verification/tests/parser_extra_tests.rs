use mog::ast::{ExprKind, Statement, StatementKind};
use mog::lexer::tokenize;
use mog::parser::{parse_tokens, unwrap_statements};
use mog::token::Token;

fn parse_all(src: &str) -> Result<Statement, String> {
    let tokens: Vec<Token> = tokenize(src);
    parse_tokens(&tokens)
}

fn stmts(p: &Statement) -> &Vec<Statement> {
    match &p.kind {
        StatementKind::Program { statements, .. } => statements,
        _ => panic!("expected Program"),
    }
}

#[test]
fn empty_program_scope() {
    let p = parse_all("  /* nothing */ ").unwrap();
    match &p.kind {
        StatementKind::Program { statements, scope_id } => {
            assert!(statements.is_empty());
            assert_eq!(scope_id, "scope_1");
        }
        _ => panic!("expected Program"),
    }
    assert_eq!(p.span.start.line, 1);
    assert_eq!(p.span.end.index, 0);
}

#[test]
fn program_span_ends_at_last_token() {
    let p = parse_all("x = 1;\n").unwrap();
    assert_eq!(p.span.end.index, 6);
}

#[test]
fn single_block_is_unwrapped() {
    let p = parse_all("{ x = 1; }").unwrap();
    let s = stmts(&p);
    assert_eq!(s.len(), 1);
    assert!(matches!(s[0].kind, StatementKind::ExpressionStatement { .. }));
}

#[test]
fn unwrap_keeps_other_lists() {
    assert!(unwrap_statements(vec![]).is_empty());
}

#[test]
fn mixed_operators_are_rejected() {
    assert!(parse_all("x: int = 1 + 2 * 3;").is_err());
    assert!(parse_all("x: int = 1 - 2 - 3;").is_err());
    assert!(parse_all("x: int = (1 - 2) - 3;").is_ok());
}

#[test]
fn operator_errors_name_the_operators() {
    assert_eq!(
        parse_all("x: int = 1 + 2 * 3;").unwrap_err(),
        "Cannot mix operators '+' and '*' without parentheses at line 1"
    );
    assert_eq!(
        parse_all("x: int = 1 - 2 - 3;").unwrap_err(),
        "Operator '-' is not associative; use parentheses at line 1"
    );
    assert_eq!(
        parse_all("y := 0;\nx: int = 1 * 2 + 3;").unwrap_err(),
        "Cannot mix operators '*' and '+' without parentheses at line 2"
    );
}

#[test]
fn parenthesized_operators_nest() {
    let p = parse_all("x: int = (1 + 2) * 3;").unwrap();
    match &stmts(&p)[0].kind {
        StatementKind::VariableDeclaration { value, .. } => match &value.as_ref().unwrap().kind {
            ExprKind::BinaryExpression { operator, left, .. } => {
                assert_eq!(operator, "*");
                assert!(matches!(&left.kind, ExprKind::BinaryExpression { operator, .. } if operator == "+"));
            }
            other => panic!("expected a binary expression, got {:?}", other),
        },
        other => panic!("expected a declaration, got {:?}", other),
    }
}

#[test]
fn stray_closing_brace_is_an_error() {
    assert!(parse_all("}").is_err());
    assert!(parse_all("x = 1; }").is_err());
}

#[test]
fn syntax_errors_name_the_line() {
    let e = parse_all("fn f(\n  a int) {}").unwrap_err();
    assert!(e.contains("at line 2"), "{}", e);
}

#[test]
fn implicit_return_in_function_body() {
    let p = parse_all("fn sq(n: int) -> int { n * n }").unwrap();
    match &stmts(&p)[0].kind {
        StatementKind::FunctionDeclaration { body, .. } => {
            assert_eq!(body.statements.len(), 1);
            assert!(matches!(body.statements[0].kind, StatementKind::Return { value: Some(_) }));
        }
        _ => panic!("expected function"),
    }
}

#[test]
fn template_string_interpolation() {
    let p = parse_all("x: string = f\"a {b} c\";").unwrap();
    match &stmts(&p)[0].kind {
        StatementKind::VariableDeclaration { value: Some(v), .. } => match &v.kind {
            ExprKind::TemplateLiteral { parts } => assert_eq!(parts.len(), 3),
            k => panic!("expected template, got {:?}", k),
        },
        _ => panic!("expected declaration"),
    }
}

#[test]
fn deep_nesting_is_refused() {
    let src = format!("x = {}1{};", "(".repeat(400), ")".repeat(400));
    assert!(parse_all(&src).is_err());
    let src = format!("x = {}1{};", "(".repeat(20), ")".repeat(20));
    assert!(parse_all(&src).is_ok());
}
