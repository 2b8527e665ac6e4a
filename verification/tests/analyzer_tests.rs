use mog::analyzer::{SemanticAnalyzer, SymbolKind, SymbolTable};
use mog::ast::{Position, Span};
use mog::capability::parse_capability_decl;
use mog::types::Type;

#[test]
fn symbol_table_scopes() {
    let mut t = SymbolTable::new();
    assert_eq!(t.current_depth(), 1);
    t.declare("x", SymbolKind::Variable, Some(Type::Bool));
    t.push_scope();
    assert_eq!(t.current_depth(), 2);
    t.declare("x", SymbolKind::Parameter, Some(Type::String));
    let s = t.lookup("x").expect("declared");
    assert_eq!(s.symbol_kind, SymbolKind::Parameter);
    assert_eq!(s.depth, 2);
    t.pop_scope();
    let s = t.lookup("x").expect("declared");
    assert_eq!(s.symbol_kind, SymbolKind::Variable);
    assert_eq!(s.declared_type, Some(Type::Bool));
    assert!(t.lookup("y").is_none());
    // The outermost scope is never closed.
    t.pop_scope();
    assert_eq!(t.current_depth(), 1);
}

#[test]
fn redeclaration_keeps_first() {
    let mut t = SymbolTable::new();
    t.declare("f", SymbolKind::Function, None);
    t.declare("f", SymbolKind::Variable, Some(Type::Bool));
    let s = t.lookup("f").unwrap();
    assert_eq!(s.symbol_kind, SymbolKind::Function);
    assert!(s.declared_type.is_none());
}

#[test]
fn inferred_type_goes_to_innermost() {
    let mut t = SymbolTable::new();
    t.declare("v", SymbolKind::Variable, None);
    t.push_scope();
    t.declare("v", SymbolKind::Variable, None);
    t.set_current_type("v", Type::String);
    assert_eq!(t.lookup("v").unwrap().inferred_type, Some(Type::String));
    t.pop_scope();
    assert_eq!(t.lookup("v").unwrap().inferred_type, None);
    t.set_current_type("missing", Type::Bool);
    assert!(t.lookup("missing").is_none());
}

#[test]
fn analyzer_state() {
    let mut a = SemanticAnalyzer::new();
    let d1 = parse_capability_decl("capability fs { fn read(p: string) -> string; }").unwrap();
    let d2 = parse_capability_decl("capability fs { fn write(p: string); }").unwrap();
    a.set_capability_decls(vec![("fs".to_string(), d1), ("fs".to_string(), d2)]);
    let pos = Position { line: 1, column: 1, index: 0 };
    a.emit_error("bad".to_string(), Span { start: pos, end: pos });
    a.emit_warning("hmm".to_string(), Span { start: pos, end: pos });
    assert_eq!(a.errors().len(), 1);
    assert_eq!(a.errors()[0].message, "bad");
    assert_eq!(a.errors()[0].span, Some(Span { start: pos, end: pos }));
    assert_eq!(a.warnings().len(), 1);
    assert_eq!(a.warnings()[0].message, "hmm");
}

use mog::analyzer::{is_posix_buffer_fn, is_string_like};
use mog::types::UnsignedKind;

#[test]
fn posix_buffer_functions() {
    assert!(is_posix_buffer_fn("read"));
    assert!(is_posix_buffer_fn("mknod"));
    assert!(!is_posix_buffer_fn("open"));
    assert!(!is_posix_buffer_fn("close"));
}

#[test]
fn string_like_types() {
    assert!(is_string_like(&Type::String));
    assert!(is_string_like(&Type::Pointer(None)));
    assert!(is_string_like(&Type::Array {
        element_type: Box::new(Type::Unsigned(UnsignedKind::U8)),
        dimensions: vec![],
    }));
    assert!(!is_string_like(&Type::Array {
        element_type: Box::new(Type::Unsigned(UnsignedKind::U8)),
        dimensions: vec![4],
    }));
    assert!(!is_string_like(&Type::Bool));
}

#[test]
fn builtins_are_declared() {
    let mut a = SemanticAnalyzer::new();
    a.declare_posix_builtins();
    let t = a.resolve_custom_type(&Type::Custom("PI".to_string()));
    assert_eq!(t, Type::Float(mog::types::FloatKind::F64));
    let t = a.resolve_custom_type(&Type::Custom("Nope".to_string()));
    assert_eq!(t, Type::Custom("Nope".to_string()));
    let arr = Type::Array { element_type: Box::new(Type::Custom("E".to_string())), dimensions: vec![2] };
    assert_eq!(
        a.resolve_array_custom(&arr),
        Type::Array { element_type: Box::new(Type::Float(mog::types::FloatKind::F64)), dimensions: vec![2] }
    );
    assert_eq!(a.get_capability_decls().len(), 0);
}

use mog::ast::{Expr, ExprKind};
use mog::types::{FloatKind, IntegerKind};

fn at_origin() -> Span {
    let pos = Position { line: 2, column: 5, index: 9 };
    Span { start: pos, end: pos }
}

#[test]
fn identifier_types() {
    let mut a = SemanticAnalyzer::new();
    a.declare_posix_builtins();
    // `PI` is declared with type f64.
    assert_eq!(a.visit_identifier("PI", at_origin()), Some(Type::Float(FloatKind::F64)));
    assert!(a.errors().is_empty());
    // An unknown name is an error with no type.
    assert_eq!(a.visit_identifier("nope", at_origin()), None);
    assert_eq!(a.errors().len(), 1);
    assert_eq!(a.errors()[0].message, "Undefined variable 'nope'");
    assert_eq!(a.errors()[0].span, Some(at_origin()));
}

#[test]
fn number_literal_types() {
    let a = SemanticAnalyzer::new();
    assert_eq!(a.visit_number_literal("42", None), Some(Type::Integer(IntegerKind::I64)));
    assert_eq!(a.visit_number_literal("4.2", None), Some(Type::Float(FloatKind::F64)));
    assert_eq!(a.visit_number_literal("1e9", None), Some(Type::Float(FloatKind::F64)));
    assert_eq!(a.visit_number_literal("1E9", None), Some(Type::Float(FloatKind::F64)));
    assert_eq!(a.visit_number_literal("0xff", None), Some(Type::Integer(IntegerKind::I64)));
    let u8t = Type::Unsigned(UnsignedKind::U8);
    assert_eq!(a.visit_number_literal("7", Some(&u8t)), Some(Type::Unsigned(UnsignedKind::U8)));
}

#[test]
fn match_binding_types() {
    let a = SemanticAnalyzer::new();
    let res = Some(Type::Result(Box::new(Type::String)));
    assert_eq!(a.get_binding_type(&res, "ok"), Type::String);
    assert_eq!(a.get_binding_type(&res, "err"), Type::Integer(IntegerKind::I64));
    let opt = Some(Type::Optional(Box::new(Type::Bool)));
    assert_eq!(a.get_binding_type(&opt, "some"), Type::Bool);
    assert_eq!(a.get_binding_type(&opt, "none"), Type::Integer(IntegerKind::I64));
    assert_eq!(a.get_binding_type(&None, "ok"), Type::Integer(IntegerKind::I64));
}

#[test]
fn method_call_types() {
    let a = SemanticAnalyzer::new();
    assert_eq!(a.resolve_string_method_call("upper"), Some(Type::String));
    assert_eq!(
        a.resolve_string_method_call("split"),
        Some(Type::Array { element_type: Box::new(Type::String), dimensions: vec![0] })
    );
    assert_eq!(a.resolve_string_method_call("contains"), Some(Type::Integer(IntegerKind::I64)));
    assert_eq!(a.resolve_string_method_call("len"), Some(Type::Unsigned(UnsignedKind::U64)));
    assert_eq!(a.resolve_string_method_call("frobnicate"), None);

    let floats = Type::Array { element_type: Box::new(Type::Float(FloatKind::F64)), dimensions: vec![] };
    assert_eq!(a.resolve_array_method_call(&floats, "pop", &[]), Some(Type::Float(FloatKind::F64)));
    assert_eq!(a.resolve_array_method_call(&floats, "push", &[]), Some(Type::Integer(IntegerKind::I64)));
    assert_eq!(a.resolve_array_method_call(&floats, "join", &[]), Some(Type::String));
    assert_eq!(a.resolve_array_method_call(&floats, "map", &[]), Some(floats.clone()));
    let arg = Expr { kind: ExprKind::BooleanLiteral { value: true }, span: at_origin() };
    assert_eq!(a.resolve_array_method_call(&floats, "at", &[arg]), Some(Type::Float(FloatKind::F64)));
    assert_eq!(a.resolve_array_method_call(&floats, "at", &[]), None);
    assert_eq!(a.resolve_array_method_call(&Type::Bool, "pop", &[]), Some(Type::Integer(IntegerKind::I64)));

    assert_eq!(a.resolve_map_method_call("has"), Some(Type::Integer(IntegerKind::I64)));
    assert_eq!(a.resolve_map_method_call("len"), Some(Type::Unsigned(UnsignedKind::U64)));
    assert_eq!(a.resolve_map_method_call("keys"), None);

    let t = Type::Tensor { dtype: Box::new(Type::Float(FloatKind::F32)), shape: None };
    assert_eq!(a.resolve_tensor_method_call(&t, "sum"), Some(Type::Float(FloatKind::F64)));
    assert_eq!(a.resolve_tensor_method_call(&t, "argmax"), Some(Type::Integer(IntegerKind::I64)));
    assert_eq!(a.resolve_tensor_method_call(&t, "reshape"), Some(t.clone()));
    assert_eq!(a.resolve_tensor_method_call(&t, "anything"), Some(t.clone()));
}

#[test]
fn builtin_signatures() {
    let mut t = SemanticAnalyzer::new();
    t.declare_posix_builtins();
    let ptr = Type::Pointer(None);
    let i64t = Type::Integer(IntegerKind::I64);
    assert_eq!(
        t.visit_identifier("table_get", at_origin()),
        Some(Type::Function {
            param_types: vec![ptr.clone(), i64t.clone(), i64t.clone()],
            return_type: Box::new(i64t.clone()),
        })
    );
    assert_eq!(
        t.visit_identifier("rewinddir", at_origin()),
        Some(Type::Function { param_types: vec![i64t.clone()], return_type: Box::new(Type::Void) })
    );
    assert_eq!(
        t.visit_identifier("async_read_line", at_origin()),
        Some(Type::Function {
            param_types: vec![],
            return_type: Box::new(Type::Future(Box::new(ptr.clone()))),
        })
    );
    assert_eq!(
        t.visit_identifier("matmul", at_origin()),
        Some(Type::Tensor { dtype: Box::new(Type::Float(FloatKind::F32)), shape: None })
    );
    assert!(t.errors().is_empty());
}

#[test]
fn scope_round_trip_restores_lookups() {
    let mut t = SymbolTable::new();
    t.declare("x", SymbolKind::Variable, Some(Type::Bool));
    t.push_scope();
    t.declare("x", SymbolKind::Variable, Some(Type::String));
    t.declare("y", SymbolKind::Variable, None);
    t.pop_scope();
    assert_eq!(t.lookup("x").unwrap().declared_type, Some(Type::Bool));
    assert!(t.lookup("y").is_none());
    assert_eq!(t.current_depth(), 1);
}
