use mog::lexer::tokenize;
use mog::token::TokenType;

#[test]
fn test_empty_input() {
    let tokens = tokenize("");
    assert!(tokens.is_empty());
}

#[test]
fn test_whitespace() {
    let tokens = tokenize("  \n\t");
    assert_eq!(tokens.len(), 1);
    assert_eq!(tokens[0].token_type, TokenType::Whitespace);
    assert_eq!(tokens[0].value, "  \n\t");
}

#[test]
fn test_keywords() {
    let tokens = tokenize("fn return if else while for");
    let kw_tokens: Vec<_> = tokens
        .iter()
        .filter(|t| t.token_type != TokenType::Whitespace)
        .collect();
    assert_eq!(kw_tokens.len(), 6);
    assert_eq!(kw_tokens[0].token_type, TokenType::Fn);
    assert_eq!(kw_tokens[1].token_type, TokenType::Return);
    assert_eq!(kw_tokens[2].token_type, TokenType::If);
    assert_eq!(kw_tokens[3].token_type, TokenType::Else);
    assert_eq!(kw_tokens[4].token_type, TokenType::While);
    assert_eq!(kw_tokens[5].token_type, TokenType::For);
}

#[test]
fn test_operators() {
    let tokens = tokenize("+ - * / == != <= >= := -> =>");
    let op_tokens: Vec<_> = tokens
        .iter()
        .filter(|t| t.token_type != TokenType::Whitespace)
        .collect();
    assert_eq!(op_tokens[0].token_type, TokenType::Plus);
    assert_eq!(op_tokens[1].token_type, TokenType::Minus);
    assert_eq!(op_tokens[2].token_type, TokenType::Times);
    assert_eq!(op_tokens[3].token_type, TokenType::Divide);
    assert_eq!(op_tokens[4].token_type, TokenType::Equal);
    assert_eq!(op_tokens[5].token_type, TokenType::NotEqual);
    assert_eq!(op_tokens[6].token_type, TokenType::LessEqual);
    assert_eq!(op_tokens[7].token_type, TokenType::GreaterEqual);
    assert_eq!(op_tokens[8].token_type, TokenType::Assign);
    assert_eq!(op_tokens[9].token_type, TokenType::Arrow);
    assert_eq!(op_tokens[10].token_type, TokenType::FatArrow);
}

#[test]
fn test_numbers() {
    let tokens = tokenize("42 3.14 0xFF 0b1010 0o77 1e10");
    let num_tokens: Vec<_> = tokens
        .iter()
        .filter(|t| t.token_type != TokenType::Whitespace)
        .collect();
    assert_eq!(num_tokens.len(), 6);
    for t in &num_tokens {
        assert_eq!(t.token_type, TokenType::Number);
    }
    assert_eq!(num_tokens[0].value, "42");
    assert_eq!(num_tokens[1].value, "3.14");
    assert_eq!(num_tokens[2].value, "0xFF");
    assert_eq!(num_tokens[3].value, "0b1010");
    assert_eq!(num_tokens[4].value, "0o77");
    assert_eq!(num_tokens[5].value, "1e10");
}

#[test]
fn test_string_literals() {
    let tokens = tokenize(r#""hello" 'world'"#);
    let str_tokens: Vec<_> = tokens
        .iter()
        .filter(|t| t.token_type != TokenType::Whitespace)
        .collect();
    assert_eq!(str_tokens.len(), 2);
    assert_eq!(str_tokens[0].token_type, TokenType::StringLit);
    assert_eq!(str_tokens[0].value, "\"hello\"");
    assert_eq!(str_tokens[1].token_type, TokenType::StringLit);
    assert_eq!(str_tokens[1].value, "'world'");
}

#[test]
fn test_single_line_comment() {
    let tokens = tokenize("// this is a comment\n42");
    assert_eq!(tokens[0].token_type, TokenType::Comment);
    assert_eq!(tokens[0].value, "// this is a comment");
}

#[test]
fn test_multi_line_comment() {
    let tokens = tokenize("/* hello */");
    assert_eq!(tokens[0].token_type, TokenType::Comment);
    assert_eq!(tokens[0].value, "/* hello */");
}

#[test]
fn test_nested_comment() {
    let tokens = tokenize("/* outer /* inner */ still outer */");
    assert_eq!(tokens[0].token_type, TokenType::Comment);
    assert_eq!(tokens[0].value, "/* outer /* inner */ still outer */");
}

#[test]
fn test_types() {
    let tokens = tokenize("i32 u64 f32 bool string ptr i32[]");
    let type_tokens: Vec<_> = tokens
        .iter()
        .filter(|t| t.token_type != TokenType::Whitespace)
        .collect();
    assert_eq!(type_tokens.len(), 7);
    for t in &type_tokens {
        assert_eq!(
            t.token_type,
            TokenType::TypeToken,
            "failed for {:?}",
            t.value
        );
    }
}

#[test]
fn test_identifier_not_keyword() {
    let tokens = tokenize("foobar fn_name return_value");
    let id_tokens: Vec<_> = tokens
        .iter()
        .filter(|t| t.token_type != TokenType::Whitespace)
        .collect();
    assert_eq!(id_tokens.len(), 3);
    for t in &id_tokens {
        assert_eq!(t.token_type, TokenType::Identifier);
    }
}

#[test]
fn test_underscore() {
    let tokens = tokenize("_");
    assert_eq!(tokens[0].token_type, TokenType::Underscore);
}

#[test]
fn test_fstring() {
    let tokens = tokenize(r#"f"hello {name}""#);
    let non_ws: Vec<_> = tokens
        .iter()
        .filter(|t| t.token_type != TokenType::Whitespace)
        .collect();
    assert_eq!(non_ws[0].token_type, TokenType::TemplateStringStart);
    assert_eq!(non_ws[1].token_type, TokenType::TemplateStringPart);
    assert_eq!(non_ws[1].value, "hello ");
    assert_eq!(non_ws[2].token_type, TokenType::TemplateInterpStart);
    assert_eq!(non_ws[3].token_type, TokenType::TemplateStringPart);
    assert_eq!(non_ws[3].value, "name");
    assert_eq!(non_ws[4].token_type, TokenType::TemplateInterpEnd);
    assert_eq!(non_ws[5].token_type, TokenType::TemplateStringEnd);
}

#[test]
fn test_delimiters() {
    let tokens = tokenize("()[]{},:;.");
    let types: Vec<_> = tokens.iter().map(|t| t.token_type).collect();
    assert_eq!(
        types,
        vec![
            TokenType::LParen,
            TokenType::RParen,
            TokenType::LBracket,
            TokenType::RBracket,
            TokenType::LBrace,
            TokenType::RBrace,
            TokenType::Comma,
            TokenType::Colon,
            TokenType::Semicolon,
            TokenType::Dot,
        ]
    );
}

#[test]
fn test_range() {
    let tokens = tokenize("0..10");
    let non_ws: Vec<_> = tokens
        .iter()
        .filter(|t| t.token_type != TokenType::Whitespace)
        .collect();
    assert_eq!(non_ws[0].token_type, TokenType::Number);
    assert_eq!(non_ws[0].value, "0");
    assert_eq!(non_ws[1].token_type, TokenType::Range);
    assert_eq!(non_ws[2].token_type, TokenType::Number);
    assert_eq!(non_ws[2].value, "10");
}

#[test]
fn test_position_tracking() {
    let tokens = tokenize("fn foo");
    assert_eq!(tokens[0].span.start.line, 1);
    assert_eq!(tokens[0].span.start.column, 1);
    // "fn" ends at column 3 (exclusive)
    assert_eq!(tokens[0].span.end.column, 3);
}

#[test]
fn test_hash_comment() {
    let tokens = tokenize("# comment\n42");
    assert_eq!(tokens[0].token_type, TokenType::Comment);
    assert_eq!(tokens[0].value, "# comment");
}

#[test]
fn test_bitwise_operators() {
    let tokens = tokenize("& | ^ ~ << >>");
    let op_tokens: Vec<_> = tokens
        .iter()
        .filter(|t| t.token_type != TokenType::Whitespace)
        .collect();
    assert_eq!(op_tokens[0].token_type, TokenType::BitwiseAnd);
    assert_eq!(op_tokens[1].token_type, TokenType::BitwiseOr);
    assert_eq!(op_tokens[2].token_type, TokenType::BitwiseXor);
    assert_eq!(op_tokens[3].token_type, TokenType::BitwiseNot);
    assert_eq!(op_tokens[4].token_type, TokenType::LShift);
    assert_eq!(op_tokens[5].token_type, TokenType::RShift);
}

#[test]
fn test_logical_operators() {
    let tokens = tokenize("&& ||");
    let op_tokens: Vec<_> = tokens
        .iter()
        .filter(|t| t.token_type != TokenType::Whitespace)
        .collect();
    assert_eq!(op_tokens[0].token_type, TokenType::LogicalAnd);
    assert_eq!(op_tokens[1].token_type, TokenType::LogicalOr);
}

#[test]
fn test_all_keywords() {
    let input = "fn return if else while for to in break continue cast as not struct soa requires optional LLM type match try catch ok err some none is tensor async await spawn package import pub with true false";
    let tokens = tokenize(input);
    let kw_tokens: Vec<_> = tokens
        .iter()
        .filter(|t| t.token_type != TokenType::Whitespace)
        .collect();
    let expected = vec![
        TokenType::Fn,
        TokenType::Return,
        TokenType::If,
        TokenType::Else,
        TokenType::While,
        TokenType::For,
        TokenType::To,
        TokenType::In,
        TokenType::Break,
        TokenType::Continue,
        TokenType::Cast,
        TokenType::As,
        TokenType::Not,
        TokenType::Struct,
        TokenType::Soa,
        TokenType::Requires,
        TokenType::Optional,
        TokenType::Llm,
        TokenType::TypeKw,
        TokenType::Match,
        TokenType::Try,
        TokenType::Catch,
        TokenType::OkKw,
        TokenType::ErrKw,
        TokenType::SomeKw,
        TokenType::NoneKw,
        TokenType::Is,
        TokenType::Tensor,
        TokenType::Async,
        TokenType::Await,
        TokenType::Spawn,
        TokenType::Package,
        TokenType::Import,
        TokenType::Pub,
        TokenType::With,
        TokenType::True,
        TokenType::False,
    ];
    assert_eq!(kw_tokens.len(), expected.len());
    for (i, t) in kw_tokens.iter().enumerate() {
        assert_eq!(t.token_type, expected[i], "keyword {} mismatch", t.value);
    }
}

#[test]
fn test_float_no_trailing_digits() {
    // "3." should parse as number "3."
    let tokens = tokenize("3.");
    let non_ws: Vec<_> = tokens
        .iter()
        .filter(|t| t.token_type != TokenType::Whitespace)
        .collect();
    assert_eq!(non_ws[0].token_type, TokenType::Number);
    assert_eq!(non_ws[0].value, "3.");
}

#[test]
fn test_string_with_escapes() {
    let tokens = tokenize(r#""hello\nworld""#);
    assert_eq!(tokens[0].token_type, TokenType::StringLit);
    assert_eq!(tokens[0].value, r#""hello\nworld""#);
}

#[test]
fn test_question_mark() {
    let tokens = tokenize("?");
    assert_eq!(tokens[0].token_type, TokenType::QuestionMark);
}

#[test]
fn test_bf16_type() {
    let tokens = tokenize("bf16");
    assert_eq!(tokens[0].token_type, TokenType::TypeToken);
    assert_eq!(tokens[0].value, "bf16");
}

#[test]
fn test_type_with_array_suffix() {
    let tokens = tokenize("i32[][]");
    assert_eq!(tokens[0].token_type, TokenType::TypeToken);
    assert_eq!(tokens[0].value, "i32[][]");
}

#[test]
fn float_is_a_type_name() {
    let ts: Vec<_> = tokenize("x: float = 1.0;")
        .into_iter()
        .filter(|t| t.token_type != TokenType::Whitespace)
        .collect();
    assert_eq!(ts[2].token_type, TokenType::TypeToken);
    assert_eq!(ts[2].value, "float");
    let ts = tokenize("float[] floats");
    assert_eq!(ts[0].token_type, TokenType::TypeToken);
    assert_eq!(ts[0].value, "float[]");
    assert_eq!(ts[2].token_type, TokenType::Identifier);
}
