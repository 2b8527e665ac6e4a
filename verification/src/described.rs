//! When a syntax tree is the one a description of the grammar gives.
//!
//! The grammar (in `grammar` and `syntax`) describes what is read with
//! values over sequences; these predicates say that a tree of `ast` values
//! has exactly that shape, text and spans.

use vstd::prelude::*;

use crate::ast::{
    Block, Expr, ExprKind, FieldDef, FunctionParam, IfElseBranch, MapEntry, MatchArm, MatchPattern,
    NamedArg, Statement, StatementKind, StructFieldInit, TemplatePart,
};
use crate::grammar::{
    scope_name, type_is, ArmD, BlockD, ElseD, ExprD, ExprKindD, ParamD, PartD, PatternD, StmtD,
    StmtKindD,
};
use crate::type_names::resolves;
use crate::types::Type;

verus! {

/// The expression `e` is the one `d` describes.
#[verifier::opaque]
pub open spec fn expr_is(e: Expr, d: ExprD) -> bool
    decreases d,
{
    &&& e.span == d.span
    &&& match e.kind {
        ExprKind::Identifier { name } => match d.kind {
            ExprKindD::Identifier(n) => name@ == n,
            _ => false,
        },
        ExprKind::NumberLiteral { value, literal_type } => match d.kind {
            ExprKindD::Number(t) => value@ == t && literal_type is None,
            _ => false,
        },
        ExprKind::BooleanLiteral { value } => match d.kind {
            ExprKindD::Bool(b) => value == b,
            _ => false,
        },
        ExprKind::StringLiteral { value } => match d.kind {
            ExprKindD::Str(t) => value@ == t,
            _ => false,
        },
        ExprKind::TemplateLiteral { parts } => match d.kind {
            ExprKindD::Template(ps) => parts_are(parts@, ps),
            _ => false,
        },
        ExprKind::ArrayLiteral { elements } => match d.kind {
            ExprKindD::Array(ds) => exprs_are(elements@, ds),
            _ => false,
        },
        ExprKind::ArrayFill { value, count } => match d.kind {
            ExprKindD::Fill(a, c) => expr_is(*value, *a) && expr_is(*count, *c),
            _ => false,
        },
        ExprKind::MapLiteral { entries } => match d.kind {
            ExprKindD::MapLit(es) => entries_are(entries@, es),
            _ => false,
        },
        ExprKind::StructLiteral { struct_name, fields } => match d.kind {
            ExprKindD::StructLit(n, fs) => match struct_name {
                Some(x) => x@ == n && inits_are(fields@, fs),
                None => false,
            },
            _ => false,
        },
        ExprKind::SoAConstructor { struct_name, capacity } => match d.kind {
            ExprKindD::SoA(n, c) => struct_name@ == n && capacity == c,
            _ => false,
        },
        ExprKind::TensorConstruction { dtype, args } => match d.kind {
            ExprKindD::Tensor(t, ds) => dtype == t && exprs_are(args@, ds),
            _ => false,
        },
        ExprKind::BinaryExpression { operator, left, right } => match d.kind {
            ExprKindD::Binary(op, l, r) => operator@ == op && expr_is(*left, *l) && expr_is(
                *right,
                *r,
            ),
            _ => false,
        },
        ExprKind::UnaryExpression { operator, operand } => match d.kind {
            ExprKindD::Unary(op, x) => operator@ == op && expr_is(*operand, *x),
            _ => false,
        },
        ExprKind::AssignmentExpression { name, target, value } => match d.kind {
            ExprKindD::AssignName(n, v) => match name {
                Some(x) => x@ == n && target is None && expr_is(*value, *v),
                None => false,
            },
            ExprKindD::AssignTarget(t, v) => match target {
                Some(x) => name is None && expr_is(*x, *t) && expr_is(*value, *v),
                None => false,
            },
            _ => false,
        },
        ExprKind::CallExpression { callee, arguments, named_args } => match d.kind {
            ExprKindD::Call(c, args, named) => expr_is(*callee, *c) && exprs_are(arguments@, args)
                && match named {
                None => named_args is None,
                Some(ns) => match named_args {
                    Some(v) => named_are(v@, ns),
                    None => false,
                },
            },
            _ => false,
        },
        ExprKind::MemberExpression { object, property } => match d.kind {
            ExprKindD::Member(o, p) => property@ == p && expr_is(*object, *o),
            _ => false,
        },
        ExprKind::IndexExpression { object, index } => match d.kind {
            ExprKindD::Index(o, i) => expr_is(*object, *o) && expr_is(*index, *i),
            _ => false,
        },
        ExprKind::SliceExpression { object, start, end, step } => match d.kind {
            ExprKindD::Slice(o, a, b) => step is None && expr_is(*object, *o) && expr_is(*start, *a)
                && expr_is(*end, *b),
            _ => false,
        },
        ExprKind::Lambda { params, return_type, body } => match d.kind {
            ExprKindD::Lambda(ps, rt, b) => params_are(params@, ps) && type_is(return_type, rt)
                && block_is(body, b),
            _ => false,
        },
        ExprKind::BlockExpression { block } => match d.kind {
            ExprKindD::BlockExpr(b) => block_is(block, b),
            _ => false,
        },
        ExprKind::CastExpression { target_type, value, source_type } => match d.kind {
            ExprKindD::Cast(t, v) => source_type is None && type_is(target_type, t) && expr_is(
                *value,
                *v,
            ),
            _ => false,
        },
        ExprKind::IfExpression { condition, true_branch, false_branch } => match d.kind {
            ExprKindD::If(c, tb, eb) => expr_is(*condition, *c) && block_is(true_branch, tb)
                && match (eb, false_branch) {
                (ElseD::Block(b), IfElseBranch::Block(x)) => block_is(x, b),
                (ElseD::If(x), IfElseBranch::IfExpression(y)) => expr_is(*y, *x),
                _ => false,
            },
            _ => false,
        },
        ExprKind::MatchExpression { subject, arms } => match d.kind {
            ExprKindD::Match(s, ams) => expr_is(*subject, *s) && arms_are(arms@, ams),
            _ => false,
        },
        ExprKind::OkExpression { value } => match d.kind {
            ExprKindD::OkE(v) => expr_is(*value, *v),
            _ => false,
        },
        ExprKind::ErrExpression { value } => match d.kind {
            ExprKindD::ErrE(v) => expr_is(*value, *v),
            _ => false,
        },
        ExprKind::SomeExpression { value } => match d.kind {
            ExprKindD::SomeE(v) => expr_is(*value, *v),
            _ => false,
        },
        ExprKind::NoneExpression => d.kind is NoneE,
        ExprKind::PropagateExpression { value } => match d.kind {
            ExprKindD::Propagate(v) => expr_is(*value, *v),
            _ => false,
        },
        ExprKind::IsSomeExpression { value, binding } => match d.kind {
            ExprKindD::IsSome(v, b) => binding@ == b && expr_is(*value, *v),
            _ => false,
        },
        ExprKind::IsNoneExpression { value } => match d.kind {
            ExprKindD::IsNone(v) => expr_is(*value, *v),
            _ => false,
        },
        ExprKind::IsOkExpression { value, binding } => match d.kind {
            ExprKindD::IsOk(v, b) => binding@ == b && expr_is(*value, *v),
            _ => false,
        },
        ExprKind::IsErrExpression { value, binding } => match d.kind {
            ExprKindD::IsErr(v, b) => binding@ == b && expr_is(*value, *v),
            _ => false,
        },
        ExprKind::AwaitExpression { argument } => match d.kind {
            ExprKindD::Await(v) => expr_is(*argument, *v),
            _ => false,
        },
        ExprKind::SpawnExpression { argument } => match d.kind {
            ExprKindD::Spawn(v) => expr_is(*argument, *v),
            _ => false,
        },
        _ => false,
    }
}

/// Each expression of `v` is the one `ds` describes at its place.
#[verifier::opaque]
pub open spec fn exprs_are(v: Seq<Expr>, ds: Seq<ExprD>) -> bool
    decreases ds,
{
    &&& v.len() == ds.len()
    &&& forall|i: int| 0 <= i < ds.len() ==> expr_is(#[trigger] v[i], ds[i])
}

#[verifier::opaque]
pub open spec fn parts_are(v: Seq<TemplatePart>, ds: Seq<PartD>) -> bool
    decreases ds,
{
    &&& v.len() == ds.len()
    &&& forall|i: int| 0 <= i < ds.len() ==> part_is(#[trigger] v[i], ds[i])
}

#[verifier::opaque]
pub open spec fn entries_are(v: Seq<MapEntry>, ds: Seq<(Seq<char>, ExprD)>) -> bool
    decreases ds,
{
    &&& v.len() == ds.len()
    &&& forall|i: int|
        0 <= i < ds.len() ==> (#[trigger] v[i]).key@ == ds[i].0 && expr_is(v[i].value, ds[i].1)
}

#[verifier::opaque]
pub open spec fn inits_are(v: Seq<StructFieldInit>, ds: Seq<(Seq<char>, ExprD)>) -> bool
    decreases ds,
{
    &&& v.len() == ds.len()
    &&& forall|i: int|
        0 <= i < ds.len() ==> (#[trigger] v[i]).name@ == ds[i].0 && expr_is(v[i].value, ds[i].1)
}

#[verifier::opaque]
pub open spec fn named_are(v: Seq<NamedArg>, ds: Seq<(Seq<char>, ExprD)>) -> bool
    decreases ds,
{
    &&& v.len() == ds.len()
    &&& forall|i: int|
        0 <= i < ds.len() ==> (#[trigger] v[i]).name@ == ds[i].0 && expr_is(v[i].value, ds[i].1)
}

#[verifier::opaque]
pub open spec fn arms_are(v: Seq<MatchArm>, ds: Seq<ArmD>) -> bool
    decreases ds,
{
    &&& v.len() == ds.len()
    &&& forall|i: int| 0 <= i < ds.len() ==> arm_is(#[trigger] v[i], ds[i])
}

/// Each field has the name and the type named at its place in `ds`.
pub open spec fn fields_are(v: Seq<FieldDef>, ds: Seq<(Seq<char>, Seq<char>)>) -> bool {
    &&& v.len() == ds.len()
    &&& forall|i: int|
        0 <= i < ds.len() ==> (#[trigger] v[i]).name@ == ds[i].0 && resolves(
            v[i].field_type,
            ds[i].1,
        )
}

#[verifier::opaque]
pub open spec fn part_is(p: TemplatePart, d: PartD) -> bool
    decreases d,
{
    match (d, p) {
        (PartD::Text(t), TemplatePart::String(x)) => x@ == t,
        (PartD::Expr(x), TemplatePart::Expr(y)) => expr_is(y, x),
        _ => false,
    }
}

#[verifier::opaque]
pub open spec fn param_is(p: FunctionParam, d: ParamD) -> bool
    decreases d,
{
    &&& p.name@ == d.name
    &&& type_is(p.param_type, d.ty)
    &&& match (d.default, p.default_value) {
        (None, None) => true,
        (Some(x), Some(y)) => expr_is(y, x),
        _ => false,
    }
}

#[verifier::opaque]
pub open spec fn params_are(v: Seq<FunctionParam>, ds: Seq<ParamD>) -> bool
    decreases ds,
{
    &&& v.len() == ds.len()
    &&& forall|i: int| 0 <= i < ds.len() ==> param_is(#[trigger] v[i], ds[i])
}

#[verifier::opaque]
pub open spec fn pattern_is(p: MatchPattern, d: PatternD) -> bool
    decreases d,
{
    match (d, p) {
        (PatternD::Literal(x), MatchPattern::LiteralPattern(y)) => expr_is(y, x),
        (PatternD::Wildcard, MatchPattern::WildcardPattern) => true,
        (PatternD::Variant(n, b), MatchPattern::VariantPattern { name, binding }) => name@ == n
            && match (b, binding) {
            (None, None) => true,
            (Some(x), Some(y)) => y@ == x,
            _ => false,
        },
        _ => false,
    }
}

#[verifier::opaque]
pub open spec fn arm_is(a: MatchArm, d: ArmD) -> bool
    decreases d,
{
    pattern_is(a.pattern, d.pattern) && expr_is(a.body, d.body)
}

/// The block `b` is the one `d` describes: its statements, its scope name
/// `scope_N`, and its span.
#[verifier::opaque]
pub open spec fn block_is(b: Block, d: BlockD) -> bool
    decreases d,
{
    &&& stmts_are(b.statements@, d.stmts)
    &&& b.scope_id@ == scope_name(d.scope)
    &&& b.span == d.span
}

pub open spec fn strings_are(v: Seq<String>, ds: Seq<Seq<char>>) -> bool {
    &&& v.len() == ds.len()
    &&& forall|i: int| 0 <= i < ds.len() ==> (#[trigger] v[i])@ == ds[i]
}

#[verifier::opaque]
pub open spec fn opt_block_is(b: Option<Block>, d: Option<BlockD>) -> bool
    decreases d,
{
    match (d, b) {
        (None, None) => true,
        (Some(x), Some(y)) => block_is(y, x),
        _ => false,
    }
}

/// The statement `s` is the one `d` describes.
#[verifier::opaque]
pub open spec fn stmt_is(s: Statement, d: StmtD) -> bool
    decreases d,
{
    &&& s.span == d.span
    &&& match s.kind {
        StatementKind::Program { statements, scope_id } => match d.kind {
            StmtKindD::Program(ss, n) => stmts_are(statements@, ss) && scope_id@ == scope_name(n),
            _ => false,
        },
        StatementKind::PackageDeclaration { name } => match d.kind {
            StmtKindD::Package(n) => name@ == n,
            _ => false,
        },
        StatementKind::ImportDeclaration { paths } => match d.kind {
            StmtKindD::Import(ps) => strings_are(paths@, ps),
            _ => false,
        },
        StatementKind::StructDefinition { name, fields, is_public } => match d.kind {
            StmtKindD::Struct(n, fs, p) => name@ == n && is_public == p && fields_are(fields@, fs),
            _ => false,
        },
        StatementKind::VariableDeclaration { name, var_type, value } => match d.kind {
            StmtKindD::VarDecl(n, t, e) => match (var_type, value) {
                (Some(x), Some(v)) => name@ == n && type_is(x, t) && expr_is(*v, e),
                _ => false,
            },
            _ => false,
        },
        StatementKind::ExpressionStatement { expression } => match d.kind {
            StmtKindD::ExprStmt(e) => expr_is(*expression, e),
            _ => false,
        },
        StatementKind::Block { statements, scope_id } => match d.kind {
            StmtKindD::Block(ss, n) => stmts_are(statements@, ss) && scope_id@ == scope_name(n),
            _ => false,
        },
        StatementKind::Return { value } => match d.kind {
            StmtKindD::Return(o) => match (o, value) {
                (None, None) => true,
                (Some(x), Some(v)) => expr_is(*v, x),
                _ => false,
            },
            _ => false,
        },
        StatementKind::Conditional { condition, true_branch, false_branch } => match d.kind {
            StmtKindD::Cond(c, tb, fb) => expr_is(*condition, c) && block_is(true_branch, tb)
                && opt_block_is(false_branch, fb),
            _ => false,
        },
        StatementKind::WhileLoop { test, body } => match d.kind {
            StmtKindD::While(t, b) => expr_is(*test, t) && block_is(body, b),
            _ => false,
        },
        StatementKind::ForLoop { variable, start, end, body } => match d.kind {
            StmtKindD::For(v, a, e, b) => variable@ == v && expr_is(*start, a) && expr_is(*end, e)
                && block_is(body, b),
            _ => false,
        },
        StatementKind::ForEachLoop { variable, var_type, array, body } => match d.kind {
            StmtKindD::ForEach(v, tn, a, b) => variable@ == v && expr_is(*array, a) && block_is(
                body,
                b,
            ) && match (tn, var_type) {
                (None, None) => true,
                (Some(n), Some(t)) => resolves(t, n),
                _ => false,
            },
            _ => false,
        },
        StatementKind::ForInRange { variable, start, end, body } => match d.kind {
            StmtKindD::ForRange(v, a, e, b) => variable@ == v && expr_is(*start, a) && expr_is(
                *end,
                e,
            ) && block_is(body, b),
            _ => false,
        },
        StatementKind::ForInIndex { index_variable, value_variable, iterable, body } => match d.kind {
            StmtKindD::ForIndex(iv, vv, it, b) => index_variable@ == iv && value_variable@ == vv
                && expr_is(*iterable, it) && block_is(body, b),
            _ => false,
        },
        StatementKind::Break => d.kind is Break,
        StatementKind::Continue => d.kind is Continue,
        StatementKind::FunctionDeclaration { name, params, return_type, body, is_public } => match d.kind {
            StmtKindD::Func(n, ps, rt, b, p, a) => !a && name@ == n && params_are(params@, ps)
                && type_is(return_type, rt) && block_is(body, b) && is_public == p,
            _ => false,
        },
        StatementKind::AsyncFunctionDeclaration { name, params, return_type, body, is_public } =>
            match d.kind {
            StmtKindD::Func(n, ps, rt, b, p, a) => a && name@ == n && params_are(params@, ps)
                && type_is(return_type, rt) && block_is(body, b) && is_public == p,
            _ => false,
        },
        StatementKind::RequiresDeclaration { capabilities } => match d.kind {
            StmtKindD::Requires(cs) => strings_are(capabilities@, cs),
            _ => false,
        },
        StatementKind::OptionalDeclaration { capabilities } => match d.kind {
            StmtKindD::Optional(cs) => strings_are(capabilities@, cs),
            _ => false,
        },
        StatementKind::TryCatch { try_body, error_var, catch_body } => match d.kind {
            StmtKindD::TryCatch(b1, ev, b2) => block_is(try_body, b1) && error_var@ == ev
                && block_is(catch_body, b2),
            _ => false,
        },
        StatementKind::WithBlock { context, body } => match d.kind {
            StmtKindD::With(c, b) => expr_is(*context, c) && block_is(body, b),
            _ => false,
        },
        StatementKind::TypeAliasDeclaration { name, aliased_type } => match d.kind {
            StmtKindD::Alias(n, t) => match aliased_type {
                Type::TypeAlias { name: an, aliased_type: inner } => name@ == n && an@ == n
                    && type_is(*inner, t),
                _ => false,
            },
            _ => false,
        },
        _ => false,
    }
}

/// Both absent, or the statement is the one described.
pub open spec fn opt_stmt_is(s: Option<Statement>, d: Option<StmtD>) -> bool {
    match (d, s) {
        (None, None) => true,
        (Some(x), Some(y)) => stmt_is(y, x),
        _ => false,
    }
}

#[verifier::opaque]
pub open spec fn stmts_are(v: Seq<Statement>, ds: Seq<StmtD>) -> bool
    decreases ds,
{
    &&& v.len() == ds.len()
    &&& forall|i: int| 0 <= i < ds.len() ==> stmt_is(#[trigger] v[i], ds[i])
}

// ---------------------------------------------------------------------------
// One-step unfoldings
// ---------------------------------------------------------------------------

/// `expr_is`, one level unfolded.
pub open spec fn expr_is_unfolded(e: Expr, d: ExprD) -> bool {
    &&& e.span == d.span
    &&& match e.kind {
        ExprKind::Identifier { name } => match d.kind {
            ExprKindD::Identifier(n) => name@ == n,
            _ => false,
        },
        ExprKind::NumberLiteral { value, literal_type } => match d.kind {
            ExprKindD::Number(t) => value@ == t && literal_type is None,
            _ => false,
        },
        ExprKind::BooleanLiteral { value } => match d.kind {
            ExprKindD::Bool(b) => value == b,
            _ => false,
        },
        ExprKind::StringLiteral { value } => match d.kind {
            ExprKindD::Str(t) => value@ == t,
            _ => false,
        },
        ExprKind::TemplateLiteral { parts } => match d.kind {
            ExprKindD::Template(ps) => parts_are(parts@, ps),
            _ => false,
        },
        ExprKind::ArrayLiteral { elements } => match d.kind {
            ExprKindD::Array(ds) => exprs_are(elements@, ds),
            _ => false,
        },
        ExprKind::ArrayFill { value, count } => match d.kind {
            ExprKindD::Fill(a, c) => expr_is(*value, *a) && expr_is(*count, *c),
            _ => false,
        },
        ExprKind::MapLiteral { entries } => match d.kind {
            ExprKindD::MapLit(es) => entries_are(entries@, es),
            _ => false,
        },
        ExprKind::StructLiteral { struct_name, fields } => match d.kind {
            ExprKindD::StructLit(n, fs) => match struct_name {
                Some(x) => x@ == n && inits_are(fields@, fs),
                None => false,
            },
            _ => false,
        },
        ExprKind::SoAConstructor { struct_name, capacity } => match d.kind {
            ExprKindD::SoA(n, c) => struct_name@ == n && capacity == c,
            _ => false,
        },
        ExprKind::TensorConstruction { dtype, args } => match d.kind {
            ExprKindD::Tensor(t, ds) => dtype == t && exprs_are(args@, ds),
            _ => false,
        },
        ExprKind::BinaryExpression { operator, left, right } => match d.kind {
            ExprKindD::Binary(op, l, r) => operator@ == op && expr_is(*left, *l) && expr_is(
                *right,
                *r,
            ),
            _ => false,
        },
        ExprKind::UnaryExpression { operator, operand } => match d.kind {
            ExprKindD::Unary(op, x) => operator@ == op && expr_is(*operand, *x),
            _ => false,
        },
        ExprKind::AssignmentExpression { name, target, value } => match d.kind {
            ExprKindD::AssignName(n, v) => match name {
                Some(x) => x@ == n && target is None && expr_is(*value, *v),
                None => false,
            },
            ExprKindD::AssignTarget(t, v) => match target {
                Some(x) => name is None && expr_is(*x, *t) && expr_is(*value, *v),
                None => false,
            },
            _ => false,
        },
        ExprKind::CallExpression { callee, arguments, named_args } => match d.kind {
            ExprKindD::Call(c, args, named) => expr_is(*callee, *c) && exprs_are(arguments@, args)
                && match named {
                None => named_args is None,
                Some(ns) => match named_args {
                    Some(v) => named_are(v@, ns),
                    None => false,
                },
            },
            _ => false,
        },
        ExprKind::MemberExpression { object, property } => match d.kind {
            ExprKindD::Member(o, p) => property@ == p && expr_is(*object, *o),
            _ => false,
        },
        ExprKind::IndexExpression { object, index } => match d.kind {
            ExprKindD::Index(o, i) => expr_is(*object, *o) && expr_is(*index, *i),
            _ => false,
        },
        ExprKind::SliceExpression { object, start, end, step } => match d.kind {
            ExprKindD::Slice(o, a, b) => step is None && expr_is(*object, *o) && expr_is(*start, *a)
                && expr_is(*end, *b),
            _ => false,
        },
        ExprKind::Lambda { params, return_type, body } => match d.kind {
            ExprKindD::Lambda(ps, rt, b) => params_are(params@, ps) && type_is(return_type, rt)
                && block_is(body, b),
            _ => false,
        },
        ExprKind::BlockExpression { block } => match d.kind {
            ExprKindD::BlockExpr(b) => block_is(block, b),
            _ => false,
        },
        ExprKind::CastExpression { target_type, value, source_type } => match d.kind {
            ExprKindD::Cast(t, v) => source_type is None && type_is(target_type, t) && expr_is(
                *value,
                *v,
            ),
            _ => false,
        },
        ExprKind::IfExpression { condition, true_branch, false_branch } => match d.kind {
            ExprKindD::If(c, tb, eb) => expr_is(*condition, *c) && block_is(true_branch, tb)
                && match (eb, false_branch) {
                (ElseD::Block(b), IfElseBranch::Block(x)) => block_is(x, b),
                (ElseD::If(x), IfElseBranch::IfExpression(y)) => expr_is(*y, *x),
                _ => false,
            },
            _ => false,
        },
        ExprKind::MatchExpression { subject, arms } => match d.kind {
            ExprKindD::Match(s, ams) => expr_is(*subject, *s) && arms_are(arms@, ams),
            _ => false,
        },
        ExprKind::OkExpression { value } => match d.kind {
            ExprKindD::OkE(v) => expr_is(*value, *v),
            _ => false,
        },
        ExprKind::ErrExpression { value } => match d.kind {
            ExprKindD::ErrE(v) => expr_is(*value, *v),
            _ => false,
        },
        ExprKind::SomeExpression { value } => match d.kind {
            ExprKindD::SomeE(v) => expr_is(*value, *v),
            _ => false,
        },
        ExprKind::NoneExpression => d.kind is NoneE,
        ExprKind::PropagateExpression { value } => match d.kind {
            ExprKindD::Propagate(v) => expr_is(*value, *v),
            _ => false,
        },
        ExprKind::IsSomeExpression { value, binding } => match d.kind {
            ExprKindD::IsSome(v, b) => binding@ == b && expr_is(*value, *v),
            _ => false,
        },
        ExprKind::IsNoneExpression { value } => match d.kind {
            ExprKindD::IsNone(v) => expr_is(*value, *v),
            _ => false,
        },
        ExprKind::IsOkExpression { value, binding } => match d.kind {
            ExprKindD::IsOk(v, b) => binding@ == b && expr_is(*value, *v),
            _ => false,
        },
        ExprKind::IsErrExpression { value, binding } => match d.kind {
            ExprKindD::IsErr(v, b) => binding@ == b && expr_is(*value, *v),
            _ => false,
        },
        ExprKind::AwaitExpression { argument } => match d.kind {
            ExprKindD::Await(v) => expr_is(*argument, *v),
            _ => false,
        },
        ExprKind::SpawnExpression { argument } => match d.kind {
            ExprKindD::Spawn(v) => expr_is(*argument, *v),
            _ => false,
        },
        _ => false,
    }
}

pub proof fn lemma_expr_is(e: Expr, d: ExprD)
    ensures
        expr_is(e, d) == expr_is_unfolded(e, d),
{
    reveal_with_fuel(arms_are, 1);
    reveal_with_fuel(block_is, 1);
    reveal_with_fuel(entries_are, 1);
    reveal_with_fuel(expr_is, 1);
    reveal_with_fuel(exprs_are, 1);
    reveal_with_fuel(inits_are, 1);
    reveal_with_fuel(named_are, 1);
    reveal_with_fuel(params_are, 1);
    reveal_with_fuel(parts_are, 1);
}

/// `exprs_are`, one level unfolded.
pub open spec fn exprs_are_unfolded(v: Seq<Expr>, ds: Seq<ExprD>) -> bool {
    &&& v.len() == ds.len()
    &&& forall|i: int| 0 <= i < ds.len() ==> expr_is(#[trigger] v[i], ds[i])
}

pub proof fn lemma_exprs_are(v: Seq<Expr>, ds: Seq<ExprD>)
    ensures
        exprs_are(v, ds) == exprs_are_unfolded(v, ds),
{
    reveal_with_fuel(expr_is, 1);
    reveal_with_fuel(exprs_are, 1);
}

/// `parts_are`, one level unfolded.
pub open spec fn parts_are_unfolded(v: Seq<TemplatePart>, ds: Seq<PartD>) -> bool {
    &&& v.len() == ds.len()
    &&& forall|i: int| 0 <= i < ds.len() ==> part_is(#[trigger] v[i], ds[i])
}

pub proof fn lemma_parts_are(v: Seq<TemplatePart>, ds: Seq<PartD>)
    ensures
        parts_are(v, ds) == parts_are_unfolded(v, ds),
{
    reveal_with_fuel(part_is, 1);
    reveal_with_fuel(parts_are, 1);
}

/// `entries_are`, one level unfolded.
pub open spec fn entries_are_unfolded(v: Seq<MapEntry>, ds: Seq<(Seq<char>, ExprD)>) -> bool {
    &&& v.len() == ds.len()
    &&& forall|i: int|
        0 <= i < ds.len() ==> (#[trigger] v[i]).key@ == ds[i].0 && expr_is(v[i].value, ds[i].1)
}

pub proof fn lemma_entries_are(v: Seq<MapEntry>, ds: Seq<(Seq<char>, ExprD)>)
    ensures
        entries_are(v, ds) == entries_are_unfolded(v, ds),
{
    reveal_with_fuel(entries_are, 1);
    reveal_with_fuel(expr_is, 1);
}

/// `inits_are`, one level unfolded.
pub open spec fn inits_are_unfolded(v: Seq<StructFieldInit>, ds: Seq<(Seq<char>, ExprD)>) -> bool {
    &&& v.len() == ds.len()
    &&& forall|i: int|
        0 <= i < ds.len() ==> (#[trigger] v[i]).name@ == ds[i].0 && expr_is(v[i].value, ds[i].1)
}

pub proof fn lemma_inits_are(v: Seq<StructFieldInit>, ds: Seq<(Seq<char>, ExprD)>)
    ensures
        inits_are(v, ds) == inits_are_unfolded(v, ds),
{
    reveal_with_fuel(expr_is, 1);
    reveal_with_fuel(inits_are, 1);
}

/// `named_are`, one level unfolded.
pub open spec fn named_are_unfolded(v: Seq<NamedArg>, ds: Seq<(Seq<char>, ExprD)>) -> bool {
    &&& v.len() == ds.len()
    &&& forall|i: int|
        0 <= i < ds.len() ==> (#[trigger] v[i]).name@ == ds[i].0 && expr_is(v[i].value, ds[i].1)
}

pub proof fn lemma_named_are(v: Seq<NamedArg>, ds: Seq<(Seq<char>, ExprD)>)
    ensures
        named_are(v, ds) == named_are_unfolded(v, ds),
{
    reveal_with_fuel(expr_is, 1);
    reveal_with_fuel(named_are, 1);
}

/// `arms_are`, one level unfolded.
pub open spec fn arms_are_unfolded(v: Seq<MatchArm>, ds: Seq<ArmD>) -> bool {
    &&& v.len() == ds.len()
    &&& forall|i: int| 0 <= i < ds.len() ==> arm_is(#[trigger] v[i], ds[i])
}

pub proof fn lemma_arms_are(v: Seq<MatchArm>, ds: Seq<ArmD>)
    ensures
        arms_are(v, ds) == arms_are_unfolded(v, ds),
{
    reveal_with_fuel(arm_is, 1);
    reveal_with_fuel(arms_are, 1);
}

/// `part_is`, one level unfolded.
pub open spec fn part_is_unfolded(p: TemplatePart, d: PartD) -> bool {
    match (d, p) {
        (PartD::Text(t), TemplatePart::String(x)) => x@ == t,
        (PartD::Expr(x), TemplatePart::Expr(y)) => expr_is(y, x),
        _ => false,
    }
}

pub proof fn lemma_part_is(p: TemplatePart, d: PartD)
    ensures
        part_is(p, d) == part_is_unfolded(p, d),
{
    reveal_with_fuel(expr_is, 1);
    reveal_with_fuel(part_is, 1);
}

/// `param_is`, one level unfolded.
pub open spec fn param_is_unfolded(p: FunctionParam, d: ParamD) -> bool {
    &&& p.name@ == d.name
    &&& type_is(p.param_type, d.ty)
    &&& match (d.default, p.default_value) {
        (None, None) => true,
        (Some(x), Some(y)) => expr_is(y, x),
        _ => false,
    }
}

pub proof fn lemma_param_is(p: FunctionParam, d: ParamD)
    ensures
        param_is(p, d) == param_is_unfolded(p, d),
{
    reveal_with_fuel(expr_is, 1);
    reveal_with_fuel(param_is, 1);
}

/// `params_are`, one level unfolded.
pub open spec fn params_are_unfolded(v: Seq<FunctionParam>, ds: Seq<ParamD>) -> bool {
    &&& v.len() == ds.len()
    &&& forall|i: int| 0 <= i < ds.len() ==> param_is(#[trigger] v[i], ds[i])
}

pub proof fn lemma_params_are(v: Seq<FunctionParam>, ds: Seq<ParamD>)
    ensures
        params_are(v, ds) == params_are_unfolded(v, ds),
{
    reveal_with_fuel(param_is, 1);
    reveal_with_fuel(params_are, 1);
}

/// `pattern_is`, one level unfolded.
pub open spec fn pattern_is_unfolded(p: MatchPattern, d: PatternD) -> bool {
    match (d, p) {
        (PatternD::Literal(x), MatchPattern::LiteralPattern(y)) => expr_is(y, x),
        (PatternD::Wildcard, MatchPattern::WildcardPattern) => true,
        (PatternD::Variant(n, b), MatchPattern::VariantPattern { name, binding }) => name@ == n
            && match (b, binding) {
            (None, None) => true,
            (Some(x), Some(y)) => y@ == x,
            _ => false,
        },
        _ => false,
    }
}

pub proof fn lemma_pattern_is(p: MatchPattern, d: PatternD)
    ensures
        pattern_is(p, d) == pattern_is_unfolded(p, d),
{
    reveal_with_fuel(expr_is, 1);
    reveal_with_fuel(pattern_is, 1);
}

/// `arm_is`, one level unfolded.
pub open spec fn arm_is_unfolded(a: MatchArm, d: ArmD) -> bool {
    pattern_is(a.pattern, d.pattern) && expr_is(a.body, d.body)
}

pub proof fn lemma_arm_is(a: MatchArm, d: ArmD)
    ensures
        arm_is(a, d) == arm_is_unfolded(a, d),
{
    reveal_with_fuel(arm_is, 1);
    reveal_with_fuel(expr_is, 1);
    reveal_with_fuel(pattern_is, 1);
}

/// `block_is`, one level unfolded.
pub open spec fn block_is_unfolded(b: Block, d: BlockD) -> bool {
    &&& stmts_are(b.statements@, d.stmts)
    &&& b.scope_id@ == scope_name(d.scope)
    &&& b.span == d.span
}

pub proof fn lemma_block_is(b: Block, d: BlockD)
    ensures
        block_is(b, d) == block_is_unfolded(b, d),
{
    reveal_with_fuel(block_is, 1);
    reveal_with_fuel(stmts_are, 1);
}

/// `opt_block_is`, one level unfolded.
pub open spec fn opt_block_is_unfolded(b: Option<Block>, d: Option<BlockD>) -> bool {
    match (d, b) {
        (None, None) => true,
        (Some(x), Some(y)) => block_is(y, x),
        _ => false,
    }
}

pub proof fn lemma_opt_block_is(b: Option<Block>, d: Option<BlockD>)
    ensures
        opt_block_is(b, d) == opt_block_is_unfolded(b, d),
{
    reveal_with_fuel(block_is, 1);
    reveal_with_fuel(opt_block_is, 1);
}

/// `stmt_is`, one level unfolded.
pub open spec fn stmt_is_unfolded(s: Statement, d: StmtD) -> bool {
    &&& s.span == d.span
    &&& match s.kind {
        StatementKind::Program { statements, scope_id } => match d.kind {
            StmtKindD::Program(ss, n) => stmts_are(statements@, ss) && scope_id@ == scope_name(n),
            _ => false,
        },
        StatementKind::PackageDeclaration { name } => match d.kind {
            StmtKindD::Package(n) => name@ == n,
            _ => false,
        },
        StatementKind::ImportDeclaration { paths } => match d.kind {
            StmtKindD::Import(ps) => strings_are(paths@, ps),
            _ => false,
        },
        StatementKind::StructDefinition { name, fields, is_public } => match d.kind {
            StmtKindD::Struct(n, fs, p) => name@ == n && is_public == p && fields_are(fields@, fs),
            _ => false,
        },
        StatementKind::VariableDeclaration { name, var_type, value } => match d.kind {
            StmtKindD::VarDecl(n, t, e) => match (var_type, value) {
                (Some(x), Some(v)) => name@ == n && type_is(x, t) && expr_is(*v, e),
                _ => false,
            },
            _ => false,
        },
        StatementKind::ExpressionStatement { expression } => match d.kind {
            StmtKindD::ExprStmt(e) => expr_is(*expression, e),
            _ => false,
        },
        StatementKind::Block { statements, scope_id } => match d.kind {
            StmtKindD::Block(ss, n) => stmts_are(statements@, ss) && scope_id@ == scope_name(n),
            _ => false,
        },
        StatementKind::Return { value } => match d.kind {
            StmtKindD::Return(o) => match (o, value) {
                (None, None) => true,
                (Some(x), Some(v)) => expr_is(*v, x),
                _ => false,
            },
            _ => false,
        },
        StatementKind::Conditional { condition, true_branch, false_branch } => match d.kind {
            StmtKindD::Cond(c, tb, fb) => expr_is(*condition, c) && block_is(true_branch, tb)
                && opt_block_is(false_branch, fb),
            _ => false,
        },
        StatementKind::WhileLoop { test, body } => match d.kind {
            StmtKindD::While(t, b) => expr_is(*test, t) && block_is(body, b),
            _ => false,
        },
        StatementKind::ForLoop { variable, start, end, body } => match d.kind {
            StmtKindD::For(v, a, e, b) => variable@ == v && expr_is(*start, a) && expr_is(*end, e)
                && block_is(body, b),
            _ => false,
        },
        StatementKind::ForEachLoop { variable, var_type, array, body } => match d.kind {
            StmtKindD::ForEach(v, tn, a, b) => variable@ == v && expr_is(*array, a) && block_is(
                body,
                b,
            ) && match (tn, var_type) {
                (None, None) => true,
                (Some(n), Some(t)) => resolves(t, n),
                _ => false,
            },
            _ => false,
        },
        StatementKind::ForInRange { variable, start, end, body } => match d.kind {
            StmtKindD::ForRange(v, a, e, b) => variable@ == v && expr_is(*start, a) && expr_is(
                *end,
                e,
            ) && block_is(body, b),
            _ => false,
        },
        StatementKind::ForInIndex { index_variable, value_variable, iterable, body } => match d.kind {
            StmtKindD::ForIndex(iv, vv, it, b) => index_variable@ == iv && value_variable@ == vv
                && expr_is(*iterable, it) && block_is(body, b),
            _ => false,
        },
        StatementKind::Break => d.kind is Break,
        StatementKind::Continue => d.kind is Continue,
        StatementKind::FunctionDeclaration { name, params, return_type, body, is_public } => match d.kind {
            StmtKindD::Func(n, ps, rt, b, p, a) => !a && name@ == n && params_are(params@, ps)
                && type_is(return_type, rt) && block_is(body, b) && is_public == p,
            _ => false,
        },
        StatementKind::AsyncFunctionDeclaration { name, params, return_type, body, is_public } =>
            match d.kind {
            StmtKindD::Func(n, ps, rt, b, p, a) => a && name@ == n && params_are(params@, ps)
                && type_is(return_type, rt) && block_is(body, b) && is_public == p,
            _ => false,
        },
        StatementKind::RequiresDeclaration { capabilities } => match d.kind {
            StmtKindD::Requires(cs) => strings_are(capabilities@, cs),
            _ => false,
        },
        StatementKind::OptionalDeclaration { capabilities } => match d.kind {
            StmtKindD::Optional(cs) => strings_are(capabilities@, cs),
            _ => false,
        },
        StatementKind::TryCatch { try_body, error_var, catch_body } => match d.kind {
            StmtKindD::TryCatch(b1, ev, b2) => block_is(try_body, b1) && error_var@ == ev
                && block_is(catch_body, b2),
            _ => false,
        },
        StatementKind::WithBlock { context, body } => match d.kind {
            StmtKindD::With(c, b) => expr_is(*context, c) && block_is(body, b),
            _ => false,
        },
        StatementKind::TypeAliasDeclaration { name, aliased_type } => match d.kind {
            StmtKindD::Alias(n, t) => match aliased_type {
                Type::TypeAlias { name: an, aliased_type: inner } => name@ == n && an@ == n
                    && type_is(*inner, t),
                _ => false,
            },
            _ => false,
        },
        _ => false,
    }
}

pub proof fn lemma_stmt_is(s: Statement, d: StmtD)
    ensures
        stmt_is(s, d) == stmt_is_unfolded(s, d),
{
    reveal_with_fuel(block_is, 1);
    reveal_with_fuel(expr_is, 1);
    reveal_with_fuel(opt_block_is, 1);
    reveal_with_fuel(params_are, 1);
    reveal_with_fuel(stmt_is, 1);
    reveal_with_fuel(stmts_are, 1);
}

/// `stmts_are`, one level unfolded.
pub open spec fn stmts_are_unfolded(v: Seq<Statement>, ds: Seq<StmtD>) -> bool {
    &&& v.len() == ds.len()
    &&& forall|i: int| 0 <= i < ds.len() ==> stmt_is(#[trigger] v[i], ds[i])
}

pub proof fn lemma_stmts_are(v: Seq<Statement>, ds: Seq<StmtD>)
    ensures
        stmts_are(v, ds) == stmts_are_unfolded(v, ds),
{
    reveal_with_fuel(stmt_is, 1);
    reveal_with_fuel(stmts_are, 1);
}

/// An expression has the span of its description.
pub proof fn lemma_expr_span(e: Expr, d: ExprD)
    requires
        expr_is(e, d),
    ensures
        e.span == d.span,
{
    reveal_with_fuel(expr_is, 1);
}

// ---------------------------------------------------------------------------
// Lists grow one item at a time
// ---------------------------------------------------------------------------

pub proof fn lemma_exprs_push(v: Seq<Expr>, ds: Seq<ExprD>, x: Expr, d: ExprD)
    requires
        exprs_are(v, ds),
        expr_is(x, d),
    ensures
        exprs_are(v.push(x), ds.push(d)),
{
    lemma_exprs_are(v, ds);
    lemma_exprs_are(v.push(x), ds.push(d));
    assert forall|i: int| 0 <= i < ds.push(d).len() implies expr_is(
        #[trigger] v.push(x)[i],
        ds.push(d)[i],
    ) by {
        if i < v.len() {
            assert(v.push(x)[i] == v[i]);
        }
    }
}

pub proof fn lemma_stmts_push(v: Seq<Statement>, ds: Seq<StmtD>, x: Statement, d: StmtD)
    requires
        stmts_are(v, ds),
        stmt_is(x, d),
    ensures
        stmts_are(v.push(x), ds.push(d)),
{
    lemma_stmts_are(v, ds);
    lemma_stmts_are(v.push(x), ds.push(d));
    assert forall|i: int| 0 <= i < ds.push(d).len() implies stmt_is(
        #[trigger] v.push(x)[i],
        ds.push(d)[i],
    ) by {
        if i < v.len() {
            assert(v.push(x)[i] == v[i]);
        }
    }
}

pub proof fn lemma_params_push(v: Seq<FunctionParam>, ds: Seq<ParamD>, x: FunctionParam, d: ParamD)
    requires
        params_are(v, ds),
        param_is(x, d),
    ensures
        params_are(v.push(x), ds.push(d)),
{
    lemma_params_are(v, ds);
    lemma_params_are(v.push(x), ds.push(d));
    assert forall|i: int| 0 <= i < ds.push(d).len() implies param_is(
        #[trigger] v.push(x)[i],
        ds.push(d)[i],
    ) by {
        if i < v.len() {
            assert(v.push(x)[i] == v[i]);
        }
    }
}

pub proof fn lemma_arms_push(v: Seq<MatchArm>, ds: Seq<ArmD>, x: MatchArm, d: ArmD)
    requires
        arms_are(v, ds),
        arm_is(x, d),
    ensures
        arms_are(v.push(x), ds.push(d)),
{
    lemma_arms_are(v, ds);
    lemma_arms_are(v.push(x), ds.push(d));
    assert forall|i: int| 0 <= i < ds.push(d).len() implies arm_is(
        #[trigger] v.push(x)[i],
        ds.push(d)[i],
    ) by {
        if i < v.len() {
            assert(v.push(x)[i] == v[i]);
        }
    }
}

pub proof fn lemma_parts_push(v: Seq<TemplatePart>, ds: Seq<PartD>, x: TemplatePart, d: PartD)
    requires
        parts_are(v, ds),
        part_is(x, d),
    ensures
        parts_are(v.push(x), ds.push(d)),
{
    lemma_parts_are(v, ds);
    lemma_parts_are(v.push(x), ds.push(d));
    assert forall|i: int| 0 <= i < ds.push(d).len() implies part_is(
        #[trigger] v.push(x)[i],
        ds.push(d)[i],
    ) by {
        if i < v.len() {
            assert(v.push(x)[i] == v[i]);
        }
    }
}

pub proof fn lemma_entries_push(
    v: Seq<MapEntry>,
    ds: Seq<(Seq<char>, ExprD)>,
    x: MapEntry,
    d: ExprD,
)
    requires
        entries_are(v, ds),
        expr_is(x.value, d),
    ensures
        entries_are(v.push(x), ds.push((x.key@, d))),
{
    lemma_entries_are(v, ds);
    lemma_entries_are(v.push(x), ds.push((x.key@, d)));
    assert forall|i: int| 0 <= i < ds.len() + 1 implies (#[trigger] v.push(x)[i]).key@ == ds.push(
        (x.key@, d),
    )[i].0 && expr_is(v.push(x)[i].value, ds.push((x.key@, d))[i].1) by {
        if i < v.len() {
            assert(v.push(x)[i] == v[i]);
        }
    }
}

pub proof fn lemma_inits_push(
    v: Seq<StructFieldInit>,
    ds: Seq<(Seq<char>, ExprD)>,
    x: StructFieldInit,
    d: ExprD,
)
    requires
        inits_are(v, ds),
        expr_is(x.value, d),
    ensures
        inits_are(v.push(x), ds.push((x.name@, d))),
{
    lemma_inits_are(v, ds);
    lemma_inits_are(v.push(x), ds.push((x.name@, d)));
    assert forall|i: int| 0 <= i < ds.len() + 1 implies (#[trigger] v.push(x)[i]).name@
        == ds.push((x.name@, d))[i].0 && expr_is(v.push(x)[i].value, ds.push((x.name@, d))[i].1) by {
        if i < v.len() {
            assert(v.push(x)[i] == v[i]);
        }
    }
}

pub proof fn lemma_named_push(v: Seq<NamedArg>, ds: Seq<(Seq<char>, ExprD)>, x: NamedArg, d: ExprD)
    requires
        named_are(v, ds),
        expr_is(x.value, d),
    ensures
        named_are(v.push(x), ds.push((x.name@, d))),
{
    lemma_named_are(v, ds);
    lemma_named_are(v.push(x), ds.push((x.name@, d)));
    assert forall|i: int| 0 <= i < ds.len() + 1 implies (#[trigger] v.push(x)[i]).name@
        == ds.push((x.name@, d))[i].0 && expr_is(v.push(x)[i].value, ds.push((x.name@, d))[i].1) by {
        if i < v.len() {
            assert(v.push(x)[i] == v[i]);
        }
    }
}

/// Empty lists are described by empty descriptions.
pub proof fn lemma_empty_lists()
    ensures
        exprs_are(Seq::empty(), Seq::empty()),
        stmts_are(Seq::empty(), Seq::empty()),
        params_are(Seq::empty(), Seq::empty()),
        arms_are(Seq::empty(), Seq::empty()),
        parts_are(Seq::empty(), Seq::empty()),
        entries_are(Seq::empty(), Seq::empty()),
        inits_are(Seq::empty(), Seq::empty()),
        named_are(Seq::empty(), Seq::empty()),
{
    lemma_exprs_are(Seq::empty(), Seq::empty());
    lemma_stmts_are(Seq::empty(), Seq::empty());
    lemma_params_are(Seq::empty(), Seq::empty());
    lemma_arms_are(Seq::empty(), Seq::empty());
    lemma_parts_are(Seq::empty(), Seq::empty());
    lemma_entries_are(Seq::empty(), Seq::empty());
    lemma_inits_are(Seq::empty(), Seq::empty());
    lemma_named_are(Seq::empty(), Seq::empty());
}

} // verus!
