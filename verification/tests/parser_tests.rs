use mog::ast::{ExprKind, MatchPattern, Statement, StatementKind};
use mog::lexer::tokenize;
use mog::parser::parse;
use mog::token::{Token, TokenType};

fn parse_src(src: &str) -> Statement {
    let tokens: Vec<Token> = tokenize(src)
        .into_iter()
        .filter(|t| t.token_type != TokenType::Whitespace && t.token_type != TokenType::Comment)
        .collect();
    parse(&tokens).expect("source should parse")
}

/// Extract the statements from a Program node.
fn program_stmts(program: &Statement) -> &Vec<Statement> {
    match &program.kind {
        StatementKind::Program { statements, .. } => statements,
        _ => panic!("expected Program, got {:?}", program.kind),
    }
}

// 1. Variable declaration with type annotation: `x: int = 5;`
#[test]
fn test_variable_declaration_typed() {
    let program = parse_src("x: int = 5;");
    let stmts = program_stmts(&program);
    assert_eq!(stmts.len(), 1);
    if let StatementKind::VariableDeclaration {
        name,
        var_type,
        value,
    } = &stmts[0].kind
    {
        assert_eq!(name, "x");
        assert!(var_type.is_some());
        assert!(value.is_some());
        if let ExprKind::NumberLiteral { value: val, .. } = &value.as_ref().unwrap().kind {
            assert_eq!(val, "5");
        } else {
            panic!("expected NumberLiteral");
        }
    } else {
        panic!("expected VariableDeclaration, got {:?}", stmts[0].kind);
    }
}

// 2. Variable declaration with walrus operator: `x: int := 5;`
#[test]
fn test_variable_declaration_walrus() {
    let program = parse_src("x: int := 5;");
    let stmts = program_stmts(&program);
    assert_eq!(stmts.len(), 1);
    if let StatementKind::VariableDeclaration {
        name,
        var_type,
        value,
    } = &stmts[0].kind
    {
        assert_eq!(name, "x");
        assert!(var_type.is_some());
        assert!(value.is_some());
    } else {
        panic!("expected VariableDeclaration, got {:?}", stmts[0].kind);
    }
}

// 3. Assignment expression: `x = 10;`
#[test]
fn test_assignment() {
    let program = parse_src("x = 10;");
    let stmts = program_stmts(&program);
    assert_eq!(stmts.len(), 1);
    if let StatementKind::ExpressionStatement { expression } = &stmts[0].kind {
        if let ExprKind::AssignmentExpression { name, value, .. } = &expression.kind {
            assert_eq!(name.as_deref(), Some("x"));
            if let ExprKind::NumberLiteral { value: val, .. } = &value.kind {
                assert_eq!(val, "10");
            } else {
                panic!("expected NumberLiteral in assignment value");
            }
        } else {
            panic!("expected AssignmentExpression, got {:?}", expression.kind);
        }
    } else {
        panic!("expected ExpressionStatement, got {:?}", stmts[0].kind);
    }
}

// 4. Function declaration
#[test]
fn test_function_declaration() {
    let program = parse_src("fn add(a: int, b: int) -> int { return a + b; }");
    let stmts = program_stmts(&program);
    assert_eq!(stmts.len(), 1);
    if let StatementKind::FunctionDeclaration {
        name,
        params,
        body,
        is_public,
        ..
    } = &stmts[0].kind
    {
        assert_eq!(name, "add");
        assert_eq!(params.len(), 2);
        assert_eq!(params[0].name, "a");
        assert_eq!(params[1].name, "b");
        assert!(!is_public);
        assert!(!body.statements.is_empty());
    } else {
        panic!("expected FunctionDeclaration, got {:?}", stmts[0].kind);
    }
}

// 5. Public function
#[test]
fn test_pub_function() {
    let program = parse_src("pub fn greet() -> string { return \"hi\"; }");
    let stmts = program_stmts(&program);
    assert_eq!(stmts.len(), 1);
    if let StatementKind::FunctionDeclaration {
        name, is_public, ..
    } = &stmts[0].kind
    {
        assert_eq!(name, "greet");
        assert!(is_public);
    } else {
        panic!("expected FunctionDeclaration, got {:?}", stmts[0].kind);
    }
}

// 6. Struct definition
#[test]
fn test_struct_definition() {
    let program = parse_src("struct Point { x: int; y: int; }");
    let stmts = program_stmts(&program);
    assert_eq!(stmts.len(), 1);
    if let StatementKind::StructDefinition {
        name,
        fields,
        is_public,
    } = &stmts[0].kind
    {
        assert_eq!(name, "Point");
        assert_eq!(fields.len(), 2);
        assert_eq!(fields[0].name, "x");
        assert_eq!(fields[1].name, "y");
        assert!(!is_public);
    } else {
        panic!("expected StructDefinition, got {:?}", stmts[0].kind);
    }
}

// 7. If-else conditional
#[test]
fn test_if_else() {
    let program = parse_src("if x > 0 { return 1; } else { return 0; }");
    let stmts = program_stmts(&program);
    assert_eq!(stmts.len(), 1);
    if let StatementKind::Conditional {
        condition,
        true_branch,
        false_branch,
    } = &stmts[0].kind
    {
        // condition is a binary expression
        if let ExprKind::BinaryExpression { operator, .. } = &condition.kind {
            assert_eq!(operator, ">");
        } else {
            panic!("expected BinaryExpression in condition");
        }
        assert!(!true_branch.statements.is_empty());
        assert!(false_branch.is_some());
    } else {
        panic!("expected Conditional, got {:?}", stmts[0].kind);
    }
}

// 8. While loop
#[test]
fn test_while_loop() {
    let program = parse_src("while x > 0 { x = x - 1; }");
    let stmts = program_stmts(&program);
    assert_eq!(stmts.len(), 1);
    if let StatementKind::WhileLoop { test, body } = &stmts[0].kind {
        if let ExprKind::BinaryExpression { operator, .. } = &test.kind {
            assert_eq!(operator, ">");
        } else {
            panic!("expected BinaryExpression in while test");
        }
        assert!(!body.statements.is_empty());
    } else {
        panic!("expected WhileLoop, got {:?}", stmts[0].kind);
    }
}

// 9. For-in-range loop
#[test]
fn test_for_in_range() {
    let program = parse_src("for i in 0..10 { x = i; }");
    let stmts = program_stmts(&program);
    assert_eq!(stmts.len(), 1);
    if let StatementKind::ForInRange {
        variable,
        start,
        end,
        body,
    } = &stmts[0].kind
    {
        assert_eq!(variable, "i");
        if let ExprKind::NumberLiteral { value, .. } = &start.kind {
            assert_eq!(value, "0");
        } else {
            panic!("expected NumberLiteral for range start");
        }
        if let ExprKind::NumberLiteral { value, .. } = &end.kind {
            assert_eq!(value, "10");
        } else {
            panic!("expected NumberLiteral for range end");
        }
        assert!(!body.statements.is_empty());
    } else {
        panic!("expected ForInRange, got {:?}", stmts[0].kind);
    }
}

// 10. For-each loop
#[test]
fn test_for_each_loop() {
    let program = parse_src("for item in items { x = item; }");
    let stmts = program_stmts(&program);
    assert_eq!(stmts.len(), 1);
    if let StatementKind::ForEachLoop {
        variable,
        array,
        body,
        ..
    } = &stmts[0].kind
    {
        assert_eq!(variable, "item");
        if let ExprKind::Identifier { name } = &array.kind {
            assert_eq!(name, "items");
        } else {
            panic!("expected Identifier for iterable");
        }
        assert!(!body.statements.is_empty());
    } else {
        panic!("expected ForEachLoop, got {:?}", stmts[0].kind);
    }
}

// 11. For-in-index loop
#[test]
fn test_for_in_index() {
    let program = parse_src("for i, item in items { x = item; }");
    let stmts = program_stmts(&program);
    assert_eq!(stmts.len(), 1);
    if let StatementKind::ForInIndex {
        index_variable,
        value_variable,
        iterable,
        body,
    } = &stmts[0].kind
    {
        assert_eq!(index_variable, "i");
        assert_eq!(value_variable, "item");
        if let ExprKind::Identifier { name } = &iterable.kind {
            assert_eq!(name, "items");
        } else {
            panic!("expected Identifier for iterable");
        }
        assert!(!body.statements.is_empty());
    } else {
        panic!("expected ForInIndex, got {:?}", stmts[0].kind);
    }
}

// 12. Match expression
#[test]
fn test_match_expression() {
    let program = parse_src("x: int = match y { 1 => 10, _ => 0 };");
    let stmts = program_stmts(&program);
    assert_eq!(stmts.len(), 1);
    if let StatementKind::VariableDeclaration { name, value, .. } = &stmts[0].kind {
        assert_eq!(name, "x");
        let val = value.as_ref().unwrap();
        if let ExprKind::MatchExpression { subject, arms } = &val.kind {
            if let ExprKind::Identifier { name } = &subject.kind {
                assert_eq!(name, "y");
            } else {
                panic!("expected Identifier as match subject");
            }
            assert_eq!(arms.len(), 2);
            assert_eq!(arms[1].pattern, MatchPattern::WildcardPattern);
        } else {
            panic!("expected MatchExpression, got {:?}", val.kind);
        }
    } else {
        panic!("expected VariableDeclaration, got {:?}", stmts[0].kind);
    }
}

// 13. Binary expression chaining (same operator, left-to-right)
// Mog forbids mixing different operators without parentheses.
// Same associative operators can chain: `1 + 2 + 3` is `(1 + 2) + 3`.
#[test]
fn test_binary_expression_chaining() {
    let program = parse_src("x: int = 1 + 2 + 3;");
    let stmts = program_stmts(&program);
    assert_eq!(stmts.len(), 1);
    if let StatementKind::VariableDeclaration { value, .. } = &stmts[0].kind {
        let val = value.as_ref().unwrap();
        // Outermost: (1 + 2) + 3
        if let ExprKind::BinaryExpression {
            operator,
            left,
            right,
        } = &val.kind
        {
            assert_eq!(operator, "+");
            // right is 3
            if let ExprKind::NumberLiteral { value: v, .. } = &right.kind {
                assert_eq!(v, "3");
            } else {
                panic!("expected NumberLiteral on right");
            }
            // left is (1 + 2)
            if let ExprKind::BinaryExpression {
                operator: inner_op, ..
            } = &left.kind
            {
                assert_eq!(inner_op, "+");
            } else {
                panic!("expected nested BinaryExpression on left side");
            }
        } else {
            panic!("expected BinaryExpression, got {:?}", val.kind);
        }
    } else {
        panic!("expected VariableDeclaration");
    }
}

// 14. Function call
#[test]
fn test_function_call() {
    let program = parse_src("print(\"hello\");");
    let stmts = program_stmts(&program);
    assert_eq!(stmts.len(), 1);
    if let StatementKind::ExpressionStatement { expression } = &stmts[0].kind {
        if let ExprKind::CallExpression {
            callee, arguments, ..
        } = &expression.kind
        {
            if let ExprKind::Identifier { name } = &callee.kind {
                assert_eq!(name, "print");
            } else {
                panic!("expected Identifier callee");
            }
            assert_eq!(arguments.len(), 1);
            if let ExprKind::StringLiteral { value } = &arguments[0].kind {
                assert_eq!(value, "hello");
            } else {
                panic!("expected StringLiteral argument");
            }
        } else {
            panic!("expected CallExpression, got {:?}", expression.kind);
        }
    } else {
        panic!("expected ExpressionStatement, got {:?}", stmts[0].kind);
    }
}

// 15. Member expression
#[test]
fn test_member_expression() {
    let program = parse_src("point.x;");
    let stmts = program_stmts(&program);
    assert_eq!(stmts.len(), 1);
    if let StatementKind::ExpressionStatement { expression } = &stmts[0].kind {
        if let ExprKind::MemberExpression { object, property } = &expression.kind {
            if let ExprKind::Identifier { name } = &object.kind {
                assert_eq!(name, "point");
            } else {
                panic!("expected Identifier object");
            }
            assert_eq!(property, "x");
        } else {
            panic!("expected MemberExpression, got {:?}", expression.kind);
        }
    } else {
        panic!("expected ExpressionStatement, got {:?}", stmts[0].kind);
    }
}

// 16. Array literal
#[test]
fn test_array_literal() {
    let program = parse_src("x: [int] = [1, 2, 3];");
    let stmts = program_stmts(&program);
    assert_eq!(stmts.len(), 1);
    if let StatementKind::VariableDeclaration { name, value, .. } = &stmts[0].kind {
        assert_eq!(name, "x");
        let val = value.as_ref().unwrap();
        if let ExprKind::ArrayLiteral { elements } = &val.kind {
            assert_eq!(elements.len(), 3);
        } else {
            panic!("expected ArrayLiteral, got {:?}", val.kind);
        }
    } else {
        panic!("expected VariableDeclaration");
    }
}

// 17. Map literal inside parenthesized expression
#[test]
fn test_map_literal() {
    // Use parens to force expression context, since bare `{` starts a block
    let program = parse_src("x = ({ name: \"alice\", age: 30 });");
    let stmts = program_stmts(&program);
    assert_eq!(stmts.len(), 1);
    if let StatementKind::ExpressionStatement { expression } = &stmts[0].kind {
        if let ExprKind::AssignmentExpression { value, .. } = &expression.kind {
            if let ExprKind::MapLiteral { entries } = &value.kind {
                assert_eq!(entries.len(), 2);
                assert_eq!(entries[0].key, "name");
                assert_eq!(entries[1].key, "age");
            } else {
                panic!("expected MapLiteral, got {:?}", value.kind);
            }
        } else {
            panic!("expected AssignmentExpression, got {:?}", expression.kind);
        }
    } else {
        panic!("expected ExpressionStatement, got {:?}", stmts[0].kind);
    }
}

// 18. Return statement
#[test]
fn test_return_statement() {
    let program = parse_src("fn foo() -> int { return 42; }");
    let stmts = program_stmts(&program);
    assert_eq!(stmts.len(), 1);
    if let StatementKind::FunctionDeclaration { body, .. } = &stmts[0].kind {
        assert_eq!(body.statements.len(), 1);
        if let StatementKind::Return { value } = &body.statements[0].kind {
            assert!(value.is_some());
            if let ExprKind::NumberLiteral { value: val, .. } = &value.as_ref().unwrap().kind {
                assert_eq!(val, "42");
            } else {
                panic!("expected NumberLiteral in return value");
            }
        } else {
            panic!("expected Return statement");
        }
    } else {
        panic!("expected FunctionDeclaration");
    }
}

// 19. Async function declaration
#[test]
fn test_async_function() {
    let program = parse_src("async fn fetch() -> string { return \"data\"; }");
    let stmts = program_stmts(&program);
    assert_eq!(stmts.len(), 1);
    if let StatementKind::AsyncFunctionDeclaration {
        name,
        params,
        is_public,
        ..
    } = &stmts[0].kind
    {
        assert_eq!(name, "fetch");
        assert!(params.is_empty());
        assert!(!is_public);
    } else {
        panic!("expected AsyncFunctionDeclaration, got {:?}", stmts[0].kind);
    }
}

// 20. Requires declaration
#[test]
fn parser_test_requires_declaration() {
    let program = parse_src("requires fs;");
    let stmts = program_stmts(&program);
    assert_eq!(stmts.len(), 1);
    if let StatementKind::RequiresDeclaration { capabilities } = &stmts[0].kind {
        assert_eq!(capabilities.len(), 1);
        assert_eq!(capabilities[0], "fs");
    } else {
        panic!("expected RequiresDeclaration, got {:?}", stmts[0].kind);
    }
}

// 21. Lambda expression
#[test]
fn test_lambda() {
    let program = parse_src("x: fn(int) -> int = fn(a: int) -> int { return a; };");
    let stmts = program_stmts(&program);
    assert_eq!(stmts.len(), 1);
    if let StatementKind::VariableDeclaration { value, .. } = &stmts[0].kind {
        let val = value.as_ref().unwrap();
        if let ExprKind::Lambda { params, body, .. } = &val.kind {
            assert_eq!(params.len(), 1);
            assert_eq!(params[0].name, "a");
            assert!(!body.statements.is_empty());
        } else {
            panic!("expected Lambda, got {:?}", val.kind);
        }
    } else {
        panic!("expected VariableDeclaration");
    }
}

// 22. String literal
#[test]
fn test_string_literal() {
    let program = parse_src("x: string = \"hello\";");
    let stmts = program_stmts(&program);
    assert_eq!(stmts.len(), 1);
    if let StatementKind::VariableDeclaration { name, value, .. } = &stmts[0].kind {
        assert_eq!(name, "x");
        let val = value.as_ref().unwrap();
        if let ExprKind::StringLiteral { value: s } = &val.kind {
            assert_eq!(s, "hello");
        } else {
            panic!("expected StringLiteral, got {:?}", val.kind);
        }
    } else {
        panic!("expected VariableDeclaration");
    }
}

// 23. Boolean literal
#[test]
fn test_boolean_literal() {
    let program = parse_src("x: bool = true;");
    let stmts = program_stmts(&program);
    assert_eq!(stmts.len(), 1);
    if let StatementKind::VariableDeclaration { value, .. } = &stmts[0].kind {
        let val = value.as_ref().unwrap();
        if let ExprKind::BooleanLiteral { value: b } = &val.kind {
            assert!(*b);
        } else {
            panic!("expected BooleanLiteral, got {:?}", val.kind);
        }
    } else {
        panic!("expected VariableDeclaration");
    }
}

// 24. Multiple statements in program
#[test]
fn test_multiple_statements() {
    let program = parse_src("x: int = 1; y: int = 2;");
    let stmts = program_stmts(&program);
    assert_eq!(stmts.len(), 2);
    if let StatementKind::VariableDeclaration { name, .. } = &stmts[0].kind {
        assert_eq!(name, "x");
    } else {
        panic!("expected first VariableDeclaration");
    }
    if let StatementKind::VariableDeclaration { name, .. } = &stmts[1].kind {
        assert_eq!(name, "y");
    } else {
        panic!("expected second VariableDeclaration");
    }
}

// 25. Empty program
#[test]
fn test_empty_program() {
    let program = parse_src("");
    if let StatementKind::Program { statements, .. } = &program.kind {
        assert!(statements.is_empty());
    } else {
        panic!("expected Program");
    }
}

// 26. Break and continue
#[test]
fn test_break_and_continue() {
    let program = parse_src("while true { break; continue; }");
    let stmts = program_stmts(&program);
    assert_eq!(stmts.len(), 1);
    if let StatementKind::WhileLoop { body, .. } = &stmts[0].kind {
        assert_eq!(body.statements.len(), 2);
        assert!(matches!(body.statements[0].kind, StatementKind::Break));
        assert!(matches!(body.statements[1].kind, StatementKind::Continue));
    } else {
        panic!("expected WhileLoop");
    }
}

// 27. Index expression
#[test]
fn test_index_expression() {
    let program = parse_src("arr[0];");
    let stmts = program_stmts(&program);
    assert_eq!(stmts.len(), 1);
    if let StatementKind::ExpressionStatement { expression } = &stmts[0].kind {
        if let ExprKind::IndexExpression { object, index } = &expression.kind {
            if let ExprKind::Identifier { name } = &object.kind {
                assert_eq!(name, "arr");
            } else {
                panic!("expected Identifier for indexed object");
            }
            if let ExprKind::NumberLiteral { value, .. } = &index.kind {
                assert_eq!(value, "0");
            } else {
                panic!("expected NumberLiteral for index");
            }
        } else {
            panic!("expected IndexExpression, got {:?}", expression.kind);
        }
    } else {
        panic!("expected ExpressionStatement");
    }
}

// 28. Unary expression
#[test]
fn test_unary_expression() {
    let program = parse_src("x: int = -5;");
    let stmts = program_stmts(&program);
    assert_eq!(stmts.len(), 1);
    if let StatementKind::VariableDeclaration { value, .. } = &stmts[0].kind {
        let val = value.as_ref().unwrap();
        if let ExprKind::UnaryExpression { operator, operand } = &val.kind {
            assert_eq!(operator, "-");
            if let ExprKind::NumberLiteral { value: v, .. } = &operand.kind {
                assert_eq!(v, "5");
            } else {
                panic!("expected NumberLiteral in unary operand");
            }
        } else {
            panic!("expected UnaryExpression, got {:?}", val.kind);
        }
    } else {
        panic!("expected VariableDeclaration");
    }
}

// 29. Requires with multiple capabilities
#[test]
fn test_requires_multiple_capabilities() {
    let program = parse_src("requires fs, net;");
    let stmts = program_stmts(&program);
    assert_eq!(stmts.len(), 1);
    if let StatementKind::RequiresDeclaration { capabilities } = &stmts[0].kind {
        assert_eq!(capabilities.len(), 2);
        assert_eq!(capabilities[0], "fs");
        assert_eq!(capabilities[1], "net");
    } else {
        panic!("expected RequiresDeclaration");
    }
}

// 30. Nested function calls (method chaining)
#[test]
fn test_method_chaining() {
    let program = parse_src("foo.bar(1).baz(2);");
    let stmts = program_stmts(&program);
    assert_eq!(stmts.len(), 1);
    if let StatementKind::ExpressionStatement { expression } = &stmts[0].kind {
        // outermost should be a call to .baz(2)
        if let ExprKind::CallExpression {
            callee, arguments, ..
        } = &expression.kind
        {
            assert_eq!(arguments.len(), 1);
            // callee should be a MemberExpression: (...).baz
            if let ExprKind::MemberExpression { property, object } = &callee.kind {
                assert_eq!(property, "baz");
                // object should be a call to .bar(1)
                if let ExprKind::CallExpression {
                    callee: inner_callee,
                    ..
                } = &object.kind
                {
                    if let ExprKind::MemberExpression { property: p, .. } = &inner_callee.kind {
                        assert_eq!(p, "bar");
                    } else {
                        panic!("expected inner MemberExpression");
                    }
                } else {
                    panic!("expected inner CallExpression");
                }
            } else {
                panic!("expected MemberExpression, got {:?}", callee.kind);
            }
        } else {
            panic!("expected CallExpression, got {:?}", expression.kind);
        }
    } else {
        panic!("expected ExpressionStatement");
    }
}
