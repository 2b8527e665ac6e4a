//! The rules of name resolution and control flow that semantic analysis
//! applies to a syntax tree, stated as a walk over the tree.
//!
//! A walk carries the scopes of declared names (each scope a map from name
//! to the kind of symbol it stands for, the innermost last), whether a loop,
//! a function and an async function enclose the point reached, the
//! errors found so far with their spans, and the parameters of the
//! functions declared so far.

use vstd::prelude::*;

use crate::analyzer::{posix_buffer_fn, undefined_message, SymbolInfo, SymbolKind};
use crate::capability::{CapabilityDecl, CapabilityFn};
use crate::type_names::decimal;
use crate::ast::{
    ExprKind, Expr, FieldDef, FunctionParam, IfElseBranch, MapEntry, MatchArm, MatchPattern, NamedArg, Span,
    Statement, StatementKind, StructFieldInit, TemplatePart,
};

verus! {

/// The state of a walk.
pub struct Walk {
    pub env: Seq<Map<Seq<char>, SymbolKind>>,
    pub in_loop: bool,
    pub in_function: bool,
    pub in_async: bool,
    pub errors: Seq<(Seq<char>, Option<Span>)>,
    /// For each function declared so far (the latest declaration of a
    /// name wins), its parameters' names and whether each has a default.
    pub params: Map<Seq<char>, Seq<(Seq<char>, bool)>>,
    /// The capabilities the program has named as required or optional.
    pub caps: Set<Seq<char>>,
    /// The capability declarations known, by capability name.
    pub decls: Map<Seq<char>, CapabilityDecl>,
    /// The warnings found so far with their spans.
    pub warnings: Seq<(Seq<char>, Option<Span>)>,
}

/// The names `s` declares with their kinds; searching from the end, as the
/// symbol table does, the later of two entries with one name wins.
pub open spec fn scope_names(s: Seq<SymbolInfo>) -> Map<Seq<char>, SymbolKind>
    decreases s.len(),
{
    if s.len() == 0 {
        Map::empty()
    } else {
        scope_names(s.drop_last()).insert(s.last().name@, s.last().symbol_kind)
    }
}

/// The scopes of a symbol table as maps from name to kind.
pub open spec fn env_of(st: Seq<Seq<SymbolInfo>>) -> Seq<Map<Seq<char>, SymbolKind>> {
    st.map_values(|s: Seq<SymbolInfo>| scope_names(s))
}

/// The kind of symbol `n` stands for in the innermost scope declaring it.
pub open spec fn env_lookup(env: Seq<Map<Seq<char>, SymbolKind>>, n: Seq<char>) -> Option<SymbolKind>
    decreases env.len(),
{
    if env.len() == 0 {
        None
    } else if env.last().dom().contains(n) {
        Some(env.last()[n])
    } else {
        env_lookup(env.drop_last(), n)
    }
}

/// `env` with `n` declared as `k` in the innermost scope, unless that scope
/// declares it already.
pub open spec fn env_declare(env: Seq<Map<Seq<char>, SymbolKind>>, n: Seq<char>, k: SymbolKind) -> Seq<Map<Seq<char>, SymbolKind>> {
    if env.len() == 0 || env.last().dom().contains(n) {
        env
    } else {
        env.update(env.len() - 1, env.last().insert(n, k))
    }
}

/// `env` without its innermost scope, unless that is the only one.
pub open spec fn env_pop(env: Seq<Map<Seq<char>, SymbolKind>>) -> Seq<Map<Seq<char>, SymbolKind>> {
    if env.len() > 1 {
        env.drop_last()
    } else {
        env
    }
}

/// The walk with error `m` at `sp` recorded.
pub open spec fn err(w: Walk, m: Seq<char>, sp: Span) -> Walk {
    Walk { errors: w.errors.push((m, Some(sp))), ..w }
}

pub open spec fn cast_warning_message() -> Seq<char> {
    "Avoid cast<i64>() with POSIX buffer parameters. Pass arrays directly instead of casting to i64."@
}

/// A warning at each argument of `es` that is a cast.
pub open spec fn w_cast_warnings(w: Walk, es: Seq<Expr>) -> Walk
    decreases es.len(),
{
    if es.len() == 0 {
        w
    } else {
        let w1 = w_cast_warnings(w, es.drop_last());
        if es.last().kind is CastExpression {
            Walk { warnings: w1.warnings.push((cast_warning_message(), Some(es.last().span))), ..w1 }
        } else {
            w1
        }
    }
}

/// The walk with `n` declared as `k`.
pub open spec fn declare_in(w: Walk, n: Seq<char>, k: SymbolKind) -> Walk {
    Walk { env: env_declare(w.env, n, k), ..w }
}

/// The walk with a new innermost scope.
pub open spec fn pushed(w: Walk) -> Walk {
    Walk { env: w.env.push(Map::empty()), ..w }
}

/// The walk with its innermost scope closed.
pub open spec fn popped(w: Walk) -> Walk {
    Walk { env: env_pop(w.env), ..w }
}

/// What `n` stands for at this point of the walk.
pub open spec fn lookup_in(w: Walk, n: Seq<char>) -> Option<SymbolKind> {
    env_lookup(w.env, n)
}

/// A symbol kind as the analyzer prints it.
pub open spec fn kind_text(k: SymbolKind) -> Seq<char> {
    match k {
        SymbolKind::Variable => "Variable"@,
        SymbolKind::Function => "Function"@,
        SymbolKind::Parameter => "Parameter"@,
        SymbolKind::Type => "Type"@,
    }
}

pub open spec fn assign_message(k: SymbolKind, n: Seq<char>) -> Seq<char> {
    "Cannot assign to "@ + kind_text(k) + " '"@ + n + "'"@
}

pub open spec fn undefined_fn_message(n: Seq<char>) -> Seq<char> {
    "Undefined function '"@ + n + "'"@
}

pub open spec fn infer_message(n: Seq<char>) -> Seq<char> {
    "Cannot infer type for variable '"@ + n + "'"@
}

pub open spec fn default_message(n: Seq<char>) -> Seq<char> {
    "Parameter '"@ + n + "' must have a default value because it follows a parameter with a default value"@
}

pub open spec fn void_field_message(n: Seq<char>) -> Seq<char> {
    "Struct field '"@ + n + "' cannot have void type"@
}

pub open spec fn arity_message(n: Seq<char>) -> Seq<char> {
    n + "() expects exactly 1 argument (an array of futures)"@
}

pub open spec fn cond_assign_message() -> Seq<char> {
    "Assignment (:=) cannot be used as a condition. Use == for comparison."@
}

/// An error at `c` when `c`, used as a condition, is an assignment.
pub open spec fn check_cond(w: Walk, c: Expr) -> Walk {
    if c.kind is AssignmentExpression {
        err(w, cond_assign_message(), c.span)
    } else {
        w
    }
}

/// Some parameter of `ps` has a default value.
pub open spec fn any_default(ps: Seq<FunctionParam>) -> bool {
    exists|i: int| 0 <= i < ps.len() && (#[trigger] ps[i]).default_value is Some
}

/// Records each capability of `cs` and declares it as a variable.
pub open spec fn w_names(w: Walk, cs: Seq<String>) -> Walk
    decreases cs.len(),
{
    if cs.len() == 0 {
        w
    } else {
        let w1 = w_names(w, cs.drop_last());
        declare_in(Walk { caps: w1.caps.insert(cs.last()@), ..w1 }, cs.last()@, SymbolKind::Variable)
    }
}

/// The first function of `fs` named `f`.
pub open spec fn first_fn(fs: Seq<CapabilityFn>, f: Seq<char>) -> Option<CapabilityFn>
    decreases fs.len(),
{
    if fs.len() == 0 {
        None
    } else if fs[0].name@ == f {
        Some(fs[0])
    } else {
        first_fn(fs.drop_first(), f)
    }
}

pub open spec fn no_function_message(cap: Seq<char>, f: Seq<char>) -> Seq<char> {
    "Capability '"@ + cap + "' has no function '"@ + f + "'"@
}

pub open spec fn too_many_args_message(cap: Seq<char>, f: Seq<char>, max: nat, got: nat) -> Seq<char> {
    cap + "."@ + f + "() expects at most "@ + decimal(max) + " arguments, got "@ + decimal(got)
}

/// A call of function `f` of capability `cap` with `nargs` arguments, at
/// `sp`: when the capability's declaration is known, the function must be
/// declared there and take at least `nargs` parameters.
pub open spec fn w_cap_call(w: Walk, cap: Seq<char>, f: Seq<char>, nargs: nat, sp: Span) -> Walk {
    if w.decls.dom().contains(cap) {
        match first_fn(w.decls[cap].functions@, f) {
            None => err(w, no_function_message(cap, f), sp),
            Some(fd) => if nargs > fd.params@.len() {
                err(w, too_many_args_message(cap, f, fd.params@.len(), nargs), sp)
            } else {
                w
            },
        }
    } else {
        w
    }
}

/// An error at `sp` for each field of `fs` of type `void`.
pub open spec fn w_fields(w: Walk, fs: Seq<FieldDef>, sp: Span) -> Walk
    decreases fs.len(),
{
    if fs.len() == 0 {
        w
    } else {
        let w1 = w_fields(w, fs.drop_last(), sp);
        if fs.last().field_type is Void {
            err(w1, void_field_message(fs.last().name@), sp)
        } else {
            w1
        }
    }
}

/// Declares the parameters of a lambda, in order.
pub open spec fn w_lambda_params(w: Walk, ps: Seq<FunctionParam>) -> Walk
    decreases ps.len(),
{
    if ps.len() == 0 {
        w
    } else {
        declare_in(w_lambda_params(w, ps.drop_last()), ps.last().name@, SymbolKind::Parameter)
    }
}

/// The statements `ss` in order.
pub open spec fn w_stmts(w: Walk, ss: Seq<Statement>) -> Walk
    decreases ss, 0int,
{
    if ss.len() == 0 {
        w
    } else {
        w_stmt(w_stmts(w, ss.subrange(0, ss.len() - 1)), ss[ss.len() - 1])
    }
}

/// The statements `ss` in a scope of their own.
pub open spec fn w_block(w: Walk, ss: Seq<Statement>) -> Walk
    decreases ss, 1int,
{
    popped(w_stmts(pushed(w), ss))
}

/// The body `ss` of a loop, in a scope of its own.
pub open spec fn w_loop(w: Walk, ss: Seq<Statement>) -> Walk
    decreases ss, 2int,
{
    let inner = w_block(Walk { in_loop: true, ..w }, ss);
    Walk { in_loop: w.in_loop, ..inner }
}

/// After a block used as a value: its last statement's expression, when it
/// is an expression statement, is checked once more.
pub open spec fn w_tail(w: Walk, ss: Seq<Statement>) -> Walk
    decreases ss, 1int,
{
    if ss.len() > 0 {
        match ss[ss.len() - 1].kind {
            StatementKind::ExpressionStatement { expression } => w_expr(w, *expression),
            _ => w,
        }
    } else {
        w
    }
}

/// The names of parameters `ps` and whether each has a default value.
pub open spec fn param_view(ps: Seq<FunctionParam>) -> Seq<(Seq<char>, bool)> {
    ps.map_values(|p: FunctionParam| (p.name@, p.default_value is Some))
}

pub open spec fn unknown_arg_message(a: Seq<char>, f: Seq<char>) -> Seq<char> {
    "Unknown named argument '"@ + a + "' in call to '"@ + f + "'"@
}

pub open spec fn missing_arg_message(a: Seq<char>, f: Seq<char>) -> Seq<char> {
    "Missing required argument '"@ + a + "' in call to '"@ + f + "'"@
}

/// An error at its value for each named argument of `na` that no
/// parameter of `info` (the parameters of function `f`) is named after.
pub open spec fn unknown_named(w: Walk, f: Seq<char>, info: Seq<(Seq<char>, bool)>, na: Seq<NamedArg>) -> Walk
    decreases na.len(),
{
    if na.len() == 0 {
        w
    } else {
        let w1 = unknown_named(w, f, info, na.drop_last());
        let a = na.last();
        if info.map_values(|p: (Seq<char>, bool)| p.0).contains(a.name@) {
            w1
        } else {
            err(w1, unknown_arg_message(a.name@, f), a.value.span)
        }
    }
}

/// An error at `sp` for each parameter of `info` (the parameters of
/// function `f`) without a default that neither one of `npos` positional
/// arguments nor a named argument of `na` supplies.
pub open spec fn missing_required(w: Walk, f: Seq<char>, info: Seq<(Seq<char>, bool)>, npos: int, na: Seq<NamedArg>, sp: Span) -> Walk
    decreases info.len(),
{
    if info.len() == 0 {
        w
    } else {
        let w1 = missing_required(w, f, info.drop_last(), npos, na, sp);
        let i = info.len() - 1;
        let p = info.last();
        if i >= npos && !na.map_values(|a: NamedArg| a.name@).contains(p.0) && !p.1 {
            err(w1, missing_arg_message(p.0, f), sp)
        } else {
            w1
        }
    }
}

/// The values of named arguments `na`, in order.
pub open spec fn w_named(w: Walk, na: Seq<NamedArg>) -> Walk
    decreases na, 0int,
{
    if na.len() == 0 {
        w
    } else {
        w_expr(w_named(w, na.subrange(0, na.len() - 1)), na[na.len() - 1].value)
    }
}

/// The parameters of a function at `sp`: default values are checked, a
/// parameter without one after one with one is an error, and each is
/// declared.
pub open spec fn w_params(w: Walk, ps: Seq<FunctionParam>, sp: Span) -> Walk
    decreases ps, 0int,
{
    if ps.len() == 0 {
        w
    } else {
        let prefix = ps.subrange(0, ps.len() - 1);
        let p = ps[ps.len() - 1];
        let w1 = w_params(w, prefix, sp);
        let w2 = match p.default_value {
            Some(d) => w_expr(w1, d),
            None => if any_default(prefix) {
                err(w1, default_message(p.name@), sp)
            } else {
                w1
            },
        };
        declare_in(w2, p.name@, SymbolKind::Parameter)
    }
}

/// A function declaration `s`: the function is declared and its
/// parameters recorded, then its parameters and body are checked in a scope of their own, inside a
/// function (an async one for an async declaration); errors on parameters
/// are reported at the declaration.
pub open spec fn w_function(w: Walk, s: Statement) -> Walk
    decreases s, 2int,
{
    match s.kind {
        StatementKind::FunctionDeclaration { name, params, body, .. } => {
            let w0 = declare_in(w, name@, SymbolKind::Function);
            let w1 = Walk { params: w0.params.insert(name@, param_view(params@)), ..w0 };
            let w2 = Walk { in_function: true, ..w1 };
            let w3 = w_params(pushed(w2), params@, s.span);
            let w4 = popped(w_block(w3, body.statements@));
            Walk { in_function: w.in_function, in_async: w.in_async, ..w4 }
        },
        StatementKind::AsyncFunctionDeclaration { name, params, body, .. } => {
            let w0 = declare_in(w, name@, SymbolKind::Function);
            let w1 = Walk { params: w0.params.insert(name@, param_view(params@)), ..w0 };
            let w2 = Walk { in_function: true, in_async: true, ..w1 };
            let w3 = w_params(pushed(w2), params@, s.span);
            let w4 = popped(w_block(w3, body.statements@));
            Walk { in_function: w.in_function, in_async: w.in_async, ..w4 }
        },
        _ => w,
    }
}

/// The expressions `es` in order.
pub open spec fn w_exprs(w: Walk, es: Seq<Expr>) -> Walk
    decreases es, 0int,
{
    if es.len() == 0 {
        w
    } else {
        w_expr(w_exprs(w, es.subrange(0, es.len() - 1)), es[es.len() - 1])
    }
}

/// The walk unchanged inside a loop, else with error `m` at `sp`.
pub open spec fn in_loop_or(w: Walk, m: Seq<char>, sp: Span) -> Walk {
    if w.in_loop {
        w
    } else {
        err(w, m, sp)
    }
}

/// A statement.
pub open spec fn w_stmt(w: Walk, s: Statement) -> Walk
    decreases s, 3int,
{
    match s.kind {
        StatementKind::Program { statements, .. } => w_stmts(w, statements@),
        StatementKind::PackageDeclaration { .. } => w,
        StatementKind::ImportDeclaration { .. } => w,
        StatementKind::StructDefinition { name, fields, .. } => declare_in(
            w_fields(w, fields@, s.span),
            name@,
            SymbolKind::Type,
        ),
        StatementKind::VariableDeclaration { name, var_type, value } => match value {
            Some(v) => declare_in(w_expr(w, *v), name@, SymbolKind::Variable),
            None => if var_type is Some {
                declare_in(w, name@, SymbolKind::Variable)
            } else {
                err(w, infer_message(name@), s.span)
            },
        },
        StatementKind::Assignment { name, value } => match lookup_in(w, name@) {
            None => w_expr(err(w, undefined_message(name@), s.span), *value),
            Some(k) => if k == SymbolKind::Variable {
                w_expr(w, *value)
            } else {
                w_expr(err(w, assign_message(k, name@), s.span), *value)
            },
        },
        StatementKind::ExpressionStatement { expression } => w_expr(w, *expression),
        StatementKind::Block { statements, .. } => w_block(w, statements@),
        StatementKind::Return { value } => {
            let w1 = if w.in_function {
                w
            } else {
                err(w, "Return statement outside function"@, s.span)
            };
            match value {
                Some(v) => w_expr(w1, *v),
                None => w1,
            }
        },
        StatementKind::Conditional { condition, true_branch, false_branch } => {
            let w2 = check_cond(w_expr(w, *condition), *condition);
            let w3 = match condition.kind {
                ExprKind::IsSomeExpression { binding, .. } => popped(
                    w_stmts(declare_in(pushed(w2), binding@, SymbolKind::Variable), true_branch.statements@),
                ),
                ExprKind::IsOkExpression { binding, .. } => popped(
                    w_stmts(declare_in(pushed(w2), binding@, SymbolKind::Variable), true_branch.statements@),
                ),
                ExprKind::IsErrExpression { binding, .. } => popped(
                    w_stmts(declare_in(pushed(w2), binding@, SymbolKind::Variable), true_branch.statements@),
                ),
                _ => w_block(w2, true_branch.statements@),
            };
            match false_branch {
                Some(fb) => w_block(w3, fb.statements@),
                None => w3,
            }
        },
        StatementKind::WhileLoop { test, body } => w_loop(
            check_cond(w_expr(w, *test), *test),
            body.statements@,
        ),
        StatementKind::ForLoop { variable, start, end, body } => popped(
            w_loop(
                declare_in(pushed(w_expr(w_expr(w, *start), *end)), variable@, SymbolKind::Variable),
                body.statements@,
            ),
        ),
        StatementKind::ForEachLoop { variable, array, body, .. } => popped(
            w_loop(declare_in(pushed(w_expr(w, *array)), variable@, SymbolKind::Variable), body.statements@),
        ),
        StatementKind::ForInRange { variable, start, end, body } => popped(
            w_loop(
                declare_in(pushed(w_expr(w_expr(w, *start), *end)), variable@, SymbolKind::Variable),
                body.statements@,
            ),
        ),
        StatementKind::ForInIndex { index_variable, value_variable, iterable, body } => popped(
            w_loop(
                declare_in(
                    declare_in(pushed(w_expr(w, *iterable)), index_variable@, SymbolKind::Variable),
                    value_variable@,
                    SymbolKind::Variable,
                ),
                body.statements@,
            ),
        ),
        StatementKind::ForInMap { key_variable, value_variable, map, body } => popped(
            w_loop(
                declare_in(
                    declare_in(pushed(w_expr(w, *map)), key_variable@, SymbolKind::Variable),
                    value_variable@,
                    SymbolKind::Variable,
                ),
                body.statements@,
            ),
        ),
        StatementKind::Break => in_loop_or(w, "break statement can only be used inside a loop"@, s.span),
        StatementKind::Continue => in_loop_or(
            w,
            "continue statement can only be used inside a loop"@,
            s.span,
        ),
        StatementKind::FunctionDeclaration { .. } => w_function(w, s),
        StatementKind::AsyncFunctionDeclaration { .. } => w_function(w, s),
        StatementKind::RequiresDeclaration { capabilities } => w_names(w, capabilities@),
        StatementKind::OptionalDeclaration { capabilities } => w_names(w, capabilities@),
        StatementKind::TryCatch { try_body, error_var, catch_body } => popped(
            w_stmts(
                declare_in(pushed(w_block(w, try_body.statements@)), error_var@, SymbolKind::Variable),
                catch_body.statements@,
            ),
        ),
        StatementKind::WithBlock { context, body } => w_block(w_expr(w, *context), body.statements@),
        StatementKind::TypeAliasDeclaration { name, .. } => declare_in(w, name@, SymbolKind::Type),
    }
}

/// The interpolated expressions of template parts `ps`, in order.
pub open spec fn w_parts(w: Walk, ps: Seq<TemplatePart>) -> Walk
    decreases ps, 0int,
{
    if ps.len() == 0 {
        w
    } else {
        let w1 = w_parts(w, ps.subrange(0, ps.len() - 1));
        match ps[ps.len() - 1] {
            TemplatePart::Expr(x) => w_expr(w1, x),
            TemplatePart::String(_) => w1,
        }
    }
}

/// The values of map entries `es`, in order.
pub open spec fn w_entries(w: Walk, es: Seq<MapEntry>) -> Walk
    decreases es, 0int,
{
    if es.len() == 0 {
        w
    } else {
        w_expr(w_entries(w, es.subrange(0, es.len() - 1)), es[es.len() - 1].value)
    }
}

/// The values of struct field initializers `fs`, in order.
pub open spec fn w_inits(w: Walk, fs: Seq<StructFieldInit>) -> Walk
    decreases fs, 0int,
{
    if fs.len() == 0 {
        w
    } else {
        w_expr(w_inits(w, fs.subrange(0, fs.len() - 1)), fs[fs.len() - 1].value)
    }
}

/// A match arm: a literal pattern is checked, a variant pattern's binding
/// is declared in a scope of its own around the arm's body.
pub open spec fn w_arm(w: Walk, a: MatchArm) -> Walk
    decreases a, 1int,
{
    match a.pattern {
        MatchPattern::VariantPattern { binding: Some(b), .. } => popped(
            w_expr(declare_in(pushed(w), b@, SymbolKind::Variable), a.body),
        ),
        MatchPattern::LiteralPattern(l) => w_expr(w_expr(w, l), a.body),
        _ => w_expr(w, a.body),
    }
}

/// The arms `arms`, in order.
pub open spec fn w_arms(w: Walk, arms: Seq<MatchArm>) -> Walk
    decreases arms, 0int,
{
    if arms.len() == 0 {
        w
    } else {
        w_arm(w_arms(w, arms.subrange(0, arms.len() - 1)), arms[arms.len() - 1])
    }
}

pub open spec fn undefined_struct_message(n: Seq<char>) -> Seq<char> {
    "Undefined struct type '"@ + n + "'"@
}

pub open spec fn not_struct_message(n: Seq<char>) -> Seq<char> {
    "'"@ + n + "' is not a struct type"@
}

/// An expression.
pub open spec fn w_expr(w: Walk, e: Expr) -> Walk
    decreases e, 3int,
{
    match e.kind {
        ExprKind::Identifier { name } => if lookup_in(w, name@) is Some {
            w
        } else {
            err(w, undefined_message(name@), e.span)
        },
        ExprKind::ArrayLiteral { elements } => w_exprs(w, elements@),
        ExprKind::ArrayFill { value, count } => w_expr(w_expr(w, *count), *value),
        ExprKind::TensorConstruction { args, .. } => w_exprs(w, args@),
        ExprKind::BinaryExpression { left, right, .. } => w_expr(w_expr(w, *left), *right),
        ExprKind::UnaryExpression { operand, .. } => w_expr(w, *operand),
        ExprKind::AssignmentExpression { name, target, value } => {
            let w1 = w_expr(w, *value);
            match name {
                Some(n) => match lookup_in(w1, n@) {
                    None => declare_in(w1, n@, SymbolKind::Variable),
                    Some(k) => if k == SymbolKind::Variable {
                        w1
                    } else {
                        err(w1, assign_message(k, n@), e.span)
                    },
                },
                None => match target {
                    Some(t) => match t.kind {
                        ExprKind::IndexExpression { object, index } => w_expr(w_expr(w1, *object), *index),
                        ExprKind::MemberExpression { object, .. } => w_expr(w1, *object),
                        _ => w_expr(w1, *t),
                    },
                    None => w1,
                },
            }
        },
        ExprKind::CallExpression { callee, arguments, named_args } => match callee.kind {
            ExprKind::Identifier { name } => if name@ == "all"@ || name@ == "race"@ {
                if arguments.len() != 1 {
                    err(w, arity_message(name@), e.span)
                } else {
                    w_exprs(w, arguments@)
                }
            } else {
                match lookup_in(w, name@) {
                    None => err(w, undefined_fn_message(name@), e.span),
                    Some(k) => {
                        let w0 = if posix_buffer_fn(name@) {
                            w_cast_warnings(w, arguments@)
                        } else {
                            w
                        };
                        let w1 = w_exprs(w0, arguments@);
                        if k == SymbolKind::Function {
                            match named_args {
                                Some(na) => {
                                    let w2 = w_named(w1, na@);
                                    if w2.params.dom().contains(name@) {
                                        let info = w2.params[name@];
                                        missing_required(
                                            unknown_named(w2, name@, info, na@),
                                            name@,
                                            info,
                                            arguments.len() as int,
                                            na@,
                                            e.span,
                                        )
                                    } else {
                                        w2
                                    }
                                },
                                None => w1,
                            }
                        } else {
                            w1
                        }
                    },
                }
            },
            ExprKind::MemberExpression { object, property } => {
                let plain = w_exprs(w_expr(w, *object), arguments@);
                let plain_all = match named_args {
                    Some(na) => w_named(plain, na@),
                    None => plain,
                };
                match object.kind {
                    ExprKind::Identifier { name: cap } => if w.caps.contains(cap@) {
                        w_cap_call(w_exprs(w, arguments@), cap@, property@, arguments@.len(), e.span)
                    } else {
                        plain_all
                    },
                    _ => plain_all,
                }
            },
            _ => w_expr(w, *callee),
        },
        ExprKind::MemberExpression { object, .. } => w_expr(w, *object),
        ExprKind::IndexExpression { object, index } => w_expr(w_expr(w, *object), *index),
        ExprKind::SliceExpression { object, start, end, step } => {
            let w1 = w_expr(w_expr(w_expr(w, *object), *start), *end);
            match step {
                Some(st) => w_expr(w1, *st),
                None => w1,
            }
        },
        ExprKind::Lambda { params, body, .. } => {
            let w1 = w_lambda_params(pushed(Walk { in_function: true, ..w }), params@);
            let w2 = popped(w_block(w1, body.statements@));
            Walk { in_function: w.in_function, ..w2 }
        },
        ExprKind::BlockExpression { block } => w_tail(w_block(w, block.statements@), block.statements@),
        ExprKind::CastExpression { value, .. } => w_expr(w, *value),
        ExprKind::IfExpression { condition, true_branch, false_branch } => {
            let w1 = w_expr(w, *condition);
            let w2 = w_tail(w_block(w1, true_branch.statements@), true_branch.statements@);
            match false_branch {
                IfElseBranch::IfExpression(n) => w_expr(w2, *n),
                IfElseBranch::Block(b) => w_tail(w_block(w2, b.statements@), b.statements@),
            }
        },
        ExprKind::MatchExpression { subject, arms } => w_arms(w_expr(w, *subject), arms@),
        ExprKind::TemplateLiteral { parts } => w_parts(w, parts@),
        ExprKind::MapLiteral { entries } => w_entries(w, entries@),
        ExprKind::StructLiteral { struct_name, fields } => match struct_name {
            Some(n) => match lookup_in(w, n@) {
                None => err(w, undefined_struct_message(n@), e.span),
                Some(k) => if k == SymbolKind::Type {
                    w_inits(w, fields@)
                } else {
                    err(w, not_struct_message(n@), e.span)
                },
            },
            None => w_inits(w, fields@),
        },
        ExprKind::OkExpression { value } => w_expr(w, *value),
        ExprKind::ErrExpression { value } => w_expr(w, *value),
        ExprKind::SomeExpression { value } => w_expr(w, *value),
        ExprKind::PropagateExpression { value } => w_expr(w, *value),
        ExprKind::IsSomeExpression { value, .. } => w_expr(w, *value),
        ExprKind::IsNoneExpression { value } => w_expr(w, *value),
        ExprKind::IsOkExpression { value, .. } => w_expr(w, *value),
        ExprKind::IsErrExpression { value, .. } => w_expr(w, *value),
        ExprKind::AwaitExpression { argument } => w_expr(
            if w.in_async {
                w
            } else {
                err(w, "await can only be used inside an async function"@, e.span)
            },
            *argument,
        ),
        ExprKind::SpawnExpression { argument } => w_expr(
            if w.in_async {
                w
            } else {
                err(w, "spawn can only be used inside an async function"@, e.span)
            },
            *argument,
        ),
        ExprKind::LLMExpression { prompt, model_size, reasoning_effort, context, .. } => w_expr(
            w_expr(w_expr(w_expr(w, *prompt), *model_size), *reasoning_effort),
            *context,
        ),
        _ => w,
    }
}

// ---------------------------------------------------------------------------
// The walk and the symbol table
// ---------------------------------------------------------------------------

/// A name is in `scope_names(s)` exactly when the table's search finds it,
/// with the kind of the entry found.
pub proof fn lemma_scope_names(s: Seq<SymbolInfo>, n: Seq<char>)
    ensures
        scope_names(s).dom().contains(n) <==> crate::analyzer::index_in_scope(s, n) >= 0,
        crate::analyzer::index_in_scope(s, n) >= 0 ==> scope_names(s)[n] == s[crate::analyzer::index_in_scope(
            s,
            n,
        )].symbol_kind,
    decreases s.len(),
{
    if s.len() > 0 {
        lemma_scope_names(s.drop_last(), n);
        crate::analyzer::lemma_index_in_scope(s.drop_last(), n);
    }
}

/// Looking a name up in the walk's scopes agrees with the table's lookup.
pub proof fn lemma_env_lookup(st: Seq<Seq<SymbolInfo>>, n: Seq<char>, k: int)
    requires
        -1 <= k < st.len(),
    ensures
        ({
            let j = crate::analyzer::scope_of(st, n, k);
            match env_lookup(env_of(st.take(k + 1)), n) {
                None => j < 0,
                Some(kind) => j >= 0 && kind == st[j][crate::analyzer::index_in_scope(st[j], n)].symbol_kind,
            }
        }),
    decreases k + 1,
{
    let e = env_of(st.take(k + 1));
    if k >= 0 {
        assert(e.last() == scope_names(st[k]));
        assert(e.drop_last() =~= env_of(st.take(k)));
        lemma_scope_names(st[k], n);
        lemma_env_lookup(st, n, k - 1);
    }
}

/// The walk's lookup agrees with `resolve`.
pub proof fn lemma_lookup_resolve(st: Seq<Seq<SymbolInfo>>, n: Seq<char>)
    ensures
        match crate::analyzer::resolve(st, n) {
            None => env_lookup(env_of(st), n) is None,
            Some(s) => env_lookup(env_of(st), n) == Some(s.symbol_kind),
        },
{
    lemma_env_lookup(st, n, st.len() - 1);
    assert(st.take(st.len() as int) =~= st);
}

/// Opening a scope in the table opens one in the walk.
pub proof fn lemma_env_push(st: Seq<Seq<SymbolInfo>>)
    ensures
        env_of(st.push(Seq::<SymbolInfo>::empty())) == env_of(st).push(Map::<Seq<char>, SymbolKind>::empty()),
{
    assert(scope_names(Seq::<SymbolInfo>::empty()) =~= Map::<Seq<char>, SymbolKind>::empty());
    assert(env_of(st.push(Seq::<SymbolInfo>::empty())) =~= env_of(st).push(
        Map::<Seq<char>, SymbolKind>::empty(),
    ));
}

/// Closing a scope in the table closes one in the walk.
pub proof fn lemma_env_pop(st: Seq<Seq<SymbolInfo>>)
    requires
        st.len() > 1,
    ensures
        env_of(st.drop_last()) == env_of(st).drop_last(),
{
    assert(env_of(st.drop_last()) =~= env_of(st).drop_last());
}


// ---------------------------------------------------------------------------
// Scopes close behind blocks
// ---------------------------------------------------------------------------

/// `b` has the scopes of `a` but for the innermost one's contents.
pub open spec fn inner_only(a: Walk, b: Walk) -> bool {
    &&& b.env.len() == a.env.len()
    &&& b.env.drop_last() == a.env.drop_last()
}

proof fn lemma_declare_inner(w: Walk, n: Seq<char>, k: SymbolKind)
    requires
        w.env.len() >= 1,
    ensures
        inner_only(w, declare_in(w, n, k)),
{
    assert(declare_in(w, n, k).env.drop_last() =~= w.env.drop_last());
}

proof fn lemma_pushed_popped(w: Walk, x: Walk)
    requires
        w.env.len() >= 1,
        inner_only(pushed(w), x),
    ensures
        popped(x).env == w.env,
{
    assert(pushed(w).env.drop_last() =~= w.env);
}

proof fn lemma_names_inner(w: Walk, cs: Seq<String>)
    requires
        w.env.len() >= 1,
    ensures
        inner_only(w, w_names(w, cs)),
    decreases cs.len(),
{
    if cs.len() > 0 {
        lemma_names_inner(w, cs.drop_last());
        let w1 = w_names(w, cs.drop_last());
        lemma_declare_inner(Walk { caps: w1.caps.insert(cs.last()@), ..w1 }, cs.last()@, SymbolKind::Variable);
    }
}

proof fn lemma_fields_inner(w: Walk, fs: Seq<FieldDef>, sp: Span)
    ensures
        w_fields(w, fs, sp).env == w.env,
    decreases fs.len(),
{
    if fs.len() > 0 {
        lemma_fields_inner(w, fs.drop_last(), sp);
    }
}

proof fn lemma_lambda_params_inner(w: Walk, ps: Seq<FunctionParam>)
    requires
        w.env.len() >= 1,
    ensures
        inner_only(w, w_lambda_params(w, ps)),
    decreases ps.len(),
{
    if ps.len() > 0 {
        lemma_lambda_params_inner(w, ps.drop_last());
        lemma_declare_inner(w_lambda_params(w, ps.drop_last()), ps.last().name@, SymbolKind::Parameter);
    }
}

proof fn lemma_cast_warnings_inner(w: Walk, es: Seq<Expr>)
    ensures
        w_cast_warnings(w, es).env == w.env,
    decreases es.len(),
{
    if es.len() > 0 {
        lemma_cast_warnings_inner(w, es.drop_last());
    }
}

proof fn lemma_unknown_inner(w: Walk, f: Seq<char>, info: Seq<(Seq<char>, bool)>, na: Seq<NamedArg>)
    ensures
        unknown_named(w, f, info, na).env == w.env,
    decreases na.len(),
{
    if na.len() > 0 {
        lemma_unknown_inner(w, f, info, na.drop_last());
    }
}

proof fn lemma_missing_inner(w: Walk, f: Seq<char>, info: Seq<(Seq<char>, bool)>, npos: int, na: Seq<NamedArg>, sp: Span)
    ensures
        missing_required(w, f, info, npos, na, sp).env == w.env,
    decreases info.len(),
{
    if info.len() > 0 {
        lemma_missing_inner(w, f, info.drop_last(), npos, na, sp);
    }
}

proof fn lemma_stmts_inner(w: Walk, ss: Seq<Statement>)
    requires
        w.env.len() >= 1,
    ensures
        inner_only(w, w_stmts(w, ss)),
    decreases ss, 0int,
{
    if ss.len() > 0 {
        let pre = ss.subrange(0, ss.len() - 1);
        lemma_stmts_inner(w, pre);
        lemma_stmt_inner(w_stmts(w, pre), ss[ss.len() - 1]);
    }
}

proof fn lemma_block_inner(w: Walk, ss: Seq<Statement>)
    requires
        w.env.len() >= 1,
    ensures
        w_block(w, ss).env == w.env,
    decreases ss, 1int,
{
    lemma_stmts_inner(pushed(w), ss);
    lemma_pushed_popped(w, w_stmts(pushed(w), ss));
}

proof fn lemma_loop_inner(w: Walk, ss: Seq<Statement>)
    requires
        w.env.len() >= 1,
    ensures
        w_loop(w, ss).env == w.env,
    decreases ss, 2int,
{
    lemma_block_inner(Walk { in_loop: true, ..w }, ss);
}

proof fn lemma_tail_inner(w: Walk, ss: Seq<Statement>)
    requires
        w.env.len() >= 1,
    ensures
        inner_only(w, w_tail(w, ss)),
    decreases ss, 1int,
{
    if ss.len() > 0 {
        match ss[ss.len() - 1].kind {
            StatementKind::ExpressionStatement { expression } => {
                lemma_expr_inner(w, *expression);
            },
            _ => {},
        }
    }
}

proof fn lemma_params_inner(w: Walk, ps: Seq<FunctionParam>, sp: Span)
    requires
        w.env.len() >= 1,
    ensures
        inner_only(w, w_params(w, ps, sp)),
    decreases ps, 0int,
{
    if ps.len() > 0 {
        let prefix = ps.subrange(0, ps.len() - 1);
        let p = ps[ps.len() - 1];
        lemma_params_inner(w, prefix, sp);
        let w1 = w_params(w, prefix, sp);
        let w2 = match p.default_value {
            Some(d) => w_expr(w1, d),
            None => if any_default(prefix) {
                err(w1, default_message(p.name@), sp)
            } else {
                w1
            },
        };
        match p.default_value {
            Some(d) => {
                lemma_expr_inner(w1, d);
            },
            None => {},
        }
        lemma_declare_inner(w2, p.name@, SymbolKind::Parameter);
    }
}

proof fn lemma_function_inner(w: Walk, s: Statement)
    requires
        w.env.len() >= 1,
    ensures
        inner_only(w, w_function(w, s)),
    decreases s, 2int,
{
    match s.kind {
        StatementKind::FunctionDeclaration { name, params, body, .. } => {
            let w0 = declare_in(w, name@, SymbolKind::Function);
            lemma_declare_inner(w, name@, SymbolKind::Function);
            let w1 = Walk { params: w0.params.insert(name@, param_view(params@)), ..w0 };
            let w2 = Walk { in_function: true, ..w1 };
            lemma_params_inner(pushed(w2), params@, s.span);
            let w3 = w_params(pushed(w2), params@, s.span);
            lemma_block_inner(w3, body.statements@);
            lemma_pushed_popped(w2, w_block(w3, body.statements@));
        },
        StatementKind::AsyncFunctionDeclaration { name, params, body, .. } => {
            let w0 = declare_in(w, name@, SymbolKind::Function);
            lemma_declare_inner(w, name@, SymbolKind::Function);
            let w1 = Walk { params: w0.params.insert(name@, param_view(params@)), ..w0 };
            let w2 = Walk { in_function: true, in_async: true, ..w1 };
            lemma_params_inner(pushed(w2), params@, s.span);
            let w3 = w_params(pushed(w2), params@, s.span);
            lemma_block_inner(w3, body.statements@);
            lemma_pushed_popped(w2, w_block(w3, body.statements@));
        },
        _ => {},
    }
}

proof fn lemma_exprs_inner(w: Walk, es: Seq<Expr>)
    requires
        w.env.len() >= 1,
    ensures
        inner_only(w, w_exprs(w, es)),
    decreases es, 0int,
{
    if es.len() > 0 {
        let pre = es.subrange(0, es.len() - 1);
        lemma_exprs_inner(w, pre);
        lemma_expr_inner(w_exprs(w, pre), es[es.len() - 1]);
    }
}

proof fn lemma_named_inner(w: Walk, na: Seq<NamedArg>)
    requires
        w.env.len() >= 1,
    ensures
        inner_only(w, w_named(w, na)),
    decreases na, 0int,
{
    if na.len() > 0 {
        let pre = na.subrange(0, na.len() - 1);
        lemma_named_inner(w, pre);
        lemma_expr_inner(w_named(w, pre), na[na.len() - 1].value);
    }
}

proof fn lemma_parts_inner(w: Walk, ps: Seq<TemplatePart>)
    requires
        w.env.len() >= 1,
    ensures
        inner_only(w, w_parts(w, ps)),
    decreases ps, 0int,
{
    if ps.len() > 0 {
        let pre = ps.subrange(0, ps.len() - 1);
        lemma_parts_inner(w, pre);
        match ps[ps.len() - 1] {
            TemplatePart::Expr(x) => {
                lemma_expr_inner(w_parts(w, pre), x);
            },
            TemplatePart::String(_) => {},
        }
    }
}

proof fn lemma_entries_inner(w: Walk, es: Seq<MapEntry>)
    requires
        w.env.len() >= 1,
    ensures
        inner_only(w, w_entries(w, es)),
    decreases es, 0int,
{
    if es.len() > 0 {
        let pre = es.subrange(0, es.len() - 1);
        lemma_entries_inner(w, pre);
        lemma_expr_inner(w_entries(w, pre), es[es.len() - 1].value);
    }
}

proof fn lemma_inits_inner(w: Walk, fs: Seq<StructFieldInit>)
    requires
        w.env.len() >= 1,
    ensures
        inner_only(w, w_inits(w, fs)),
    decreases fs, 0int,
{
    if fs.len() > 0 {
        let pre = fs.subrange(0, fs.len() - 1);
        lemma_inits_inner(w, pre);
        lemma_expr_inner(w_inits(w, pre), fs[fs.len() - 1].value);
    }
}

proof fn lemma_arm_inner(w: Walk, a: MatchArm)
    requires
        w.env.len() >= 1,
    ensures
        inner_only(w, w_arm(w, a)),
    decreases a, 1int,
{
    match a.pattern {
        MatchPattern::VariantPattern { binding: Some(b), .. } => {
            let w1 = declare_in(pushed(w), b@, SymbolKind::Variable);
            lemma_declare_inner(pushed(w), b@, SymbolKind::Variable);
            lemma_expr_inner(w1, a.body);
            lemma_pushed_popped(w, w_expr(w1, a.body));
        },
        MatchPattern::LiteralPattern(l) => {
            lemma_expr_inner(w, l);
            lemma_expr_inner(w_expr(w, l), a.body);
        },
        _ => {
            lemma_expr_inner(w, a.body);
        },
    }
}

proof fn lemma_arms_inner(w: Walk, arms: Seq<MatchArm>)
    requires
        w.env.len() >= 1,
    ensures
        inner_only(w, w_arms(w, arms)),
    decreases arms, 0int,
{
    if arms.len() > 0 {
        let pre = arms.subrange(0, arms.len() - 1);
        lemma_arms_inner(w, pre);
        lemma_arm_inner(w_arms(w, pre), arms[arms.len() - 1]);
    }
}

#[verifier::spinoff_prover]
#[verifier::rlimit(60)]
proof fn lemma_stmt_inner(w: Walk, s: Statement)
    requires
        w.env.len() >= 1,
    ensures
        inner_only(w, w_stmt(w, s)),
    decreases s, 3int,
{
    match s.kind {
        StatementKind::Program { statements, .. } => {
            lemma_stmts_inner(w, statements@);
        },
        StatementKind::StructDefinition { name, fields, .. } => {
            lemma_fields_inner(w, fields@, s.span);
            lemma_declare_inner(w_fields(w, fields@, s.span), name@, SymbolKind::Type);
        },
        StatementKind::VariableDeclaration { name, var_type, value } => {
            match value {
                Some(v) => {
                    lemma_expr_inner(w, *v);
                    lemma_declare_inner(w_expr(w, *v), name@, SymbolKind::Variable);
                },
                None => {
                    lemma_declare_inner(w, name@, SymbolKind::Variable);
                },
            }
        },
        StatementKind::Assignment { name, value } => {
            lemma_expr_inner(w, *value);
            lemma_expr_inner(err(w, undefined_message(name@), s.span), *value);
            match lookup_in(w, name@) {
                Some(k) => {
                    lemma_expr_inner(err(w, assign_message(k, name@), s.span), *value);
                },
                None => {},
            }
        },
        StatementKind::ExpressionStatement { expression } => {
            lemma_expr_inner(w, *expression);
        },
        StatementKind::Block { statements, .. } => {
            lemma_block_inner(w, statements@);
        },
        StatementKind::Return { value } => {
            let w1 = if w.in_function {
                w
            } else {
                err(w, "Return statement outside function"@, s.span)
            };
            match value {
                Some(v) => {
                    lemma_expr_inner(w1, *v);
                },
                None => {},
            }
        },
        StatementKind::Conditional { condition, true_branch, false_branch } => {
            lemma_expr_inner(w, *condition);
            let w2 = check_cond(w_expr(w, *condition), *condition);
            let w3 = match condition.kind {
                ExprKind::IsSomeExpression { binding, .. } => popped(
                    w_stmts(declare_in(pushed(w2), binding@, SymbolKind::Variable), true_branch.statements@),
                ),
                ExprKind::IsOkExpression { binding, .. } => popped(
                    w_stmts(declare_in(pushed(w2), binding@, SymbolKind::Variable), true_branch.statements@),
                ),
                ExprKind::IsErrExpression { binding, .. } => popped(
                    w_stmts(declare_in(pushed(w2), binding@, SymbolKind::Variable), true_branch.statements@),
                ),
                _ => w_block(w2, true_branch.statements@),
            };
            match condition.kind {
                ExprKind::IsSomeExpression { binding, .. } => {
                    lemma_declare_inner(pushed(w2), binding@, SymbolKind::Variable);
                    lemma_stmts_inner(declare_in(pushed(w2), binding@, SymbolKind::Variable), true_branch.statements@);
                    lemma_pushed_popped(w2, w_stmts(declare_in(pushed(w2), binding@, SymbolKind::Variable), true_branch.statements@));
                },
                ExprKind::IsOkExpression { binding, .. } => {
                    lemma_declare_inner(pushed(w2), binding@, SymbolKind::Variable);
                    lemma_stmts_inner(declare_in(pushed(w2), binding@, SymbolKind::Variable), true_branch.statements@);
                    lemma_pushed_popped(w2, w_stmts(declare_in(pushed(w2), binding@, SymbolKind::Variable), true_branch.statements@));
                },
                ExprKind::IsErrExpression { binding, .. } => {
                    lemma_declare_inner(pushed(w2), binding@, SymbolKind::Variable);
                    lemma_stmts_inner(declare_in(pushed(w2), binding@, SymbolKind::Variable), true_branch.statements@);
                    lemma_pushed_popped(w2, w_stmts(declare_in(pushed(w2), binding@, SymbolKind::Variable), true_branch.statements@));
                },
                _ => {
                    lemma_block_inner(w2, true_branch.statements@);
                },
            }
            match false_branch {
                Some(fb) => {
                    lemma_block_inner(w3, fb.statements@);
                },
                None => {},
            }
        },
        StatementKind::WhileLoop { test, body } => {
            lemma_expr_inner(w, *test);
            lemma_loop_inner(check_cond(w_expr(w, *test), *test), body.statements@);
        },
        StatementKind::ForLoop { variable, start, end, body } => {
            lemma_expr_inner(w, *start);
            lemma_expr_inner(w_expr(w, *start), *end);
            let w1 = w_expr(w_expr(w, *start), *end);
            lemma_declare_inner(pushed(w1), variable@, SymbolKind::Variable);
            let w2 = declare_in(pushed(w1), variable@, SymbolKind::Variable);
            lemma_loop_inner(w2, body.statements@);
            lemma_pushed_popped(w1, w_loop(w2, body.statements@));
        },
        StatementKind::ForEachLoop { variable, array, body, .. } => {
            lemma_expr_inner(w, *array);
            let w1 = w_expr(w, *array);
            lemma_declare_inner(pushed(w1), variable@, SymbolKind::Variable);
            let w2 = declare_in(pushed(w1), variable@, SymbolKind::Variable);
            lemma_loop_inner(w2, body.statements@);
            lemma_pushed_popped(w1, w_loop(w2, body.statements@));
        },
        StatementKind::ForInRange { variable, start, end, body } => {
            lemma_expr_inner(w, *start);
            lemma_expr_inner(w_expr(w, *start), *end);
            let w1 = w_expr(w_expr(w, *start), *end);
            lemma_declare_inner(pushed(w1), variable@, SymbolKind::Variable);
            let w2 = declare_in(pushed(w1), variable@, SymbolKind::Variable);
            lemma_loop_inner(w2, body.statements@);
            lemma_pushed_popped(w1, w_loop(w2, body.statements@));
        },
        StatementKind::ForInIndex { index_variable, value_variable, iterable, body } => {
            lemma_expr_inner(w, *iterable);
            let w1 = w_expr(w, *iterable);
            lemma_declare_inner(pushed(w1), index_variable@, SymbolKind::Variable);
            let w2 = declare_in(pushed(w1), index_variable@, SymbolKind::Variable);
            lemma_declare_inner(w2, value_variable@, SymbolKind::Variable);
            let w3 = declare_in(w2, value_variable@, SymbolKind::Variable);
            lemma_loop_inner(w3, body.statements@);
            lemma_pushed_popped(w1, w_loop(w3, body.statements@));
        },
        StatementKind::ForInMap { key_variable, value_variable, map, body } => {
            lemma_expr_inner(w, *map);
            let w1 = w_expr(w, *map);
            lemma_declare_inner(pushed(w1), key_variable@, SymbolKind::Variable);
            let w2 = declare_in(pushed(w1), key_variable@, SymbolKind::Variable);
            lemma_declare_inner(w2, value_variable@, SymbolKind::Variable);
            let w3 = declare_in(w2, value_variable@, SymbolKind::Variable);
            lemma_loop_inner(w3, body.statements@);
            lemma_pushed_popped(w1, w_loop(w3, body.statements@));
        },
        StatementKind::FunctionDeclaration { .. } => {
            lemma_function_inner(w, s);
        },
        StatementKind::AsyncFunctionDeclaration { .. } => {
            lemma_function_inner(w, s);
        },
        StatementKind::RequiresDeclaration { capabilities } => {
            lemma_names_inner(w, capabilities@);
        },
        StatementKind::OptionalDeclaration { capabilities } => {
            lemma_names_inner(w, capabilities@);
        },
        StatementKind::TryCatch { try_body, error_var, catch_body } => {
            lemma_block_inner(w, try_body.statements@);
            let w1 = w_block(w, try_body.statements@);
            lemma_declare_inner(pushed(w1), error_var@, SymbolKind::Variable);
            let w2 = declare_in(pushed(w1), error_var@, SymbolKind::Variable);
            lemma_stmts_inner(w2, catch_body.statements@);
            lemma_pushed_popped(w1, w_stmts(w2, catch_body.statements@));
        },
        StatementKind::WithBlock { context, body } => {
            lemma_expr_inner(w, *context);
            lemma_block_inner(w_expr(w, *context), body.statements@);
        },
        StatementKind::TypeAliasDeclaration { name, .. } => {
            lemma_declare_inner(w, name@, SymbolKind::Type);
        },
        _ => {},
    }
}

#[verifier::spinoff_prover]
#[verifier::rlimit(60)]
proof fn lemma_expr_inner(w: Walk, e: Expr)
    requires
        w.env.len() >= 1,
    ensures
        inner_only(w, w_expr(w, e)),
    decreases e, 3int,
{
    match e.kind {
        ExprKind::ArrayLiteral { elements } => {
            lemma_exprs_inner(w, elements@);
        },
        ExprKind::ArrayFill { value, count } => {
            lemma_expr_inner(w, *count);
            lemma_expr_inner(w_expr(w, *count), *value);
        },
        ExprKind::TensorConstruction { args, .. } => {
            lemma_exprs_inner(w, args@);
        },
        ExprKind::BinaryExpression { left, right, .. } => {
            lemma_expr_inner(w, *left);
            lemma_expr_inner(w_expr(w, *left), *right);
        },
        ExprKind::UnaryExpression { operand, .. } => {
            lemma_expr_inner(w, *operand);
        },
        ExprKind::AssignmentExpression { name, target, value } => {
            lemma_expr_inner(w, *value);
            let w1 = w_expr(w, *value);
            match name {
                Some(n) => {
                    lemma_declare_inner(w1, n@, SymbolKind::Variable);
                },
                None => match target {
                    Some(t) => match t.kind {
                        ExprKind::IndexExpression { object, index } => {
                            lemma_expr_inner(w1, *object);
                            lemma_expr_inner(w_expr(w1, *object), *index);
                        },
                        ExprKind::MemberExpression { object, .. } => {
                            lemma_expr_inner(w1, *object);
                        },
                        _ => {
                            lemma_expr_inner(w1, *t);
                        },
                    },
                    None => {},
                },
            }
        },
        ExprKind::CallExpression { callee, arguments, named_args } => match callee.kind {
            ExprKind::Identifier { name } => {
                lemma_cast_warnings_inner(w, arguments@);
                let w0 = if posix_buffer_fn(name@) {
                    w_cast_warnings(w, arguments@)
                } else {
                    w
                };
                lemma_exprs_inner(w0, arguments@);
                lemma_exprs_inner(w, arguments@);
                let w1 = w_exprs(w0, arguments@);
                match named_args {
                    Some(na) => {
                        lemma_named_inner(w1, na@);
                        let w2 = w_named(w1, na@);
                        if w2.params.dom().contains(name@) {
                            let info = w2.params[name@];
                            lemma_unknown_inner(w2, name@, info, na@);
                            lemma_missing_inner(
                                unknown_named(w2, name@, info, na@),
                                name@,
                                info,
                                arguments.len() as int,
                                na@,
                                e.span,
                            );
                        }
                    },
                    None => {},
                }
            },
            ExprKind::MemberExpression { object, .. } => {
                lemma_expr_inner(w, *object);
                lemma_exprs_inner(w_expr(w, *object), arguments@);
                match named_args {
                    Some(na) => {
                        lemma_named_inner(w_exprs(w_expr(w, *object), arguments@), na@);
                    },
                    None => {},
                }
                lemma_exprs_inner(w, arguments@);
            },
            _ => {
                lemma_expr_inner(w, *callee);
            },
        },
        ExprKind::MemberExpression { object, .. } => {
            lemma_expr_inner(w, *object);
        },
        ExprKind::IndexExpression { object, index } => {
            lemma_expr_inner(w, *object);
            lemma_expr_inner(w_expr(w, *object), *index);
        },
        ExprKind::SliceExpression { object, start, end, step } => {
            lemma_expr_inner(w, *object);
            lemma_expr_inner(w_expr(w, *object), *start);
            lemma_expr_inner(w_expr(w_expr(w, *object), *start), *end);
            let w1 = w_expr(w_expr(w_expr(w, *object), *start), *end);
            match step {
                Some(st) => {
                    lemma_expr_inner(w1, *st);
                },
                None => {},
            }
        },
        ExprKind::Lambda { params, body, .. } => {
            let w0 = Walk { in_function: true, ..w };
            lemma_lambda_params_inner(pushed(w0), params@);
            let w1 = w_lambda_params(pushed(w0), params@);
            lemma_block_inner(w1, body.statements@);
            lemma_pushed_popped(w0, w_block(w1, body.statements@));
        },
        ExprKind::BlockExpression { block } => {
            lemma_block_inner(w, block.statements@);
            lemma_tail_inner(w_block(w, block.statements@), block.statements@);
        },
        ExprKind::CastExpression { value, .. } => {
            lemma_expr_inner(w, *value);
        },
        ExprKind::IfExpression { condition, true_branch, false_branch } => {
            lemma_expr_inner(w, *condition);
            let w1 = w_expr(w, *condition);
            lemma_block_inner(w1, true_branch.statements@);
            lemma_tail_inner(w_block(w1, true_branch.statements@), true_branch.statements@);
            let w2 = w_tail(w_block(w1, true_branch.statements@), true_branch.statements@);
            match false_branch {
                IfElseBranch::IfExpression(n) => {
                    lemma_expr_inner(w2, *n);
                },
                IfElseBranch::Block(b) => {
                    lemma_block_inner(w2, b.statements@);
                    lemma_tail_inner(w_block(w2, b.statements@), b.statements@);
                },
            }
        },
        ExprKind::MatchExpression { subject, arms } => {
            lemma_expr_inner(w, *subject);
            lemma_arms_inner(w_expr(w, *subject), arms@);
        },
        ExprKind::TemplateLiteral { parts } => {
            lemma_parts_inner(w, parts@);
        },
        ExprKind::MapLiteral { entries } => {
            lemma_entries_inner(w, entries@);
        },
        ExprKind::StructLiteral { fields, .. } => {
            lemma_inits_inner(w, fields@);
        },
        ExprKind::OkExpression { value } => {
            lemma_expr_inner(w, *value);
        },
        ExprKind::ErrExpression { value } => {
            lemma_expr_inner(w, *value);
        },
        ExprKind::SomeExpression { value } => {
            lemma_expr_inner(w, *value);
        },
        ExprKind::PropagateExpression { value } => {
            lemma_expr_inner(w, *value);
        },
        ExprKind::IsSomeExpression { value, .. } => {
            lemma_expr_inner(w, *value);
        },
        ExprKind::IsNoneExpression { value } => {
            lemma_expr_inner(w, *value);
        },
        ExprKind::IsOkExpression { value, .. } => {
            lemma_expr_inner(w, *value);
        },
        ExprKind::IsErrExpression { value, .. } => {
            lemma_expr_inner(w, *value);
        },
        ExprKind::AwaitExpression { argument } => {
            lemma_expr_inner(w, *argument);
            lemma_expr_inner(err(w, "await can only be used inside an async function"@, e.span), *argument);
        },
        ExprKind::SpawnExpression { argument } => {
            lemma_expr_inner(w, *argument);
            lemma_expr_inner(err(w, "spawn can only be used inside an async function"@, e.span), *argument);
        },
        ExprKind::LLMExpression { prompt, model_size, reasoning_effort, context, .. } => {
            lemma_expr_inner(w, *prompt);
            let w1 = w_expr(w, *prompt);
            lemma_expr_inner(w1, *model_size);
            let w2 = w_expr(w1, *model_size);
            lemma_expr_inner(w2, *reasoning_effort);
            lemma_expr_inner(w_expr(w2, *reasoning_effort), *context);
        },
        _ => {},
    }
}

/// Scope isolation: what a block declares is not visible after it. Walking
/// a block leaves the scopes exactly as they were before it, so every name
/// resolves after the block as it did before.
pub proof fn law_block_scopes_restored(w: Walk, ss: Seq<Statement>)
    requires
        w.env.len() >= 1,
    ensures
        w_block(w, ss).env == w.env,
        forall|n: Seq<char>| #[trigger] lookup_in(w_block(w, ss), n) == lookup_in(w, n),
{
    lemma_block_inner(w, ss);
}

/// Analysis of a statement never changes the number of open scopes, nor
/// any scope but the innermost one.
pub proof fn law_statement_keeps_outer_scopes(w: Walk, s: Statement)
    requires
        w.env.len() >= 1,
    ensures
        w_stmt(w, s).env.len() == w.env.len(),
        w_stmt(w, s).env.drop_last() == w.env.drop_last(),
{
    lemma_stmt_inner(w, s);
}


// ---------------------------------------------------------------------------
// Loop bodies are inside a loop
// ---------------------------------------------------------------------------

/// Every statement of `ss` is a `break` or a `continue`.
pub open spec fn jumps_only(ss: Seq<Statement>) -> bool {
    forall|i: int| 0 <= i < ss.len() ==> (#[trigger] ss[i]).kind is Break || ss[i].kind is Continue
}

/// `e` is a number literal.
pub open spec fn number_literal(e: Expr) -> bool {
    e.kind is NumberLiteral
}

/// `s` is a loop of one of the six kinds whose header expressions are
/// number literals and whose body holds only `break` and `continue`.
pub open spec fn jumping_loop(s: Statement) -> bool {
    match s.kind {
        StatementKind::WhileLoop { test, body } => number_literal(*test) && jumps_only(body.statements@),
        StatementKind::ForLoop { start, end, body, .. } => number_literal(*start) && number_literal(*end)
            && jumps_only(body.statements@),
        StatementKind::ForEachLoop { array, body, .. } => number_literal(*array) && jumps_only(
            body.statements@,
        ),
        StatementKind::ForInRange { start, end, body, .. } => number_literal(*start) && number_literal(
            *end,
        ) && jumps_only(body.statements@),
        StatementKind::ForInIndex { iterable, body, .. } => number_literal(*iterable) && jumps_only(
            body.statements@,
        ),
        StatementKind::ForInMap { map, body, .. } => number_literal(*map) && jumps_only(body.statements@),
        _ => false,
    }
}

proof fn lemma_jumps_in_loop(w: Walk, ss: Seq<Statement>)
    requires
        w.in_loop,
        jumps_only(ss),
    ensures
        w_stmts(w, ss) == w,
    decreases ss.len(),
{
    if ss.len() > 0 {
        let pre = ss.subrange(0, ss.len() - 1);
        assert(jumps_only(pre)) by {
            assert forall|i: int| 0 <= i < pre.len() implies (#[trigger] pre[i]).kind is Break
                || pre[i].kind is Continue by {
                assert(pre[i] == ss[i]);
            }
        }
        lemma_jumps_in_loop(w, pre);
        let last = ss[ss.len() - 1];
        assert(last.kind is Break || last.kind is Continue);
        assert(w_stmt(w, last) == w);
        assert(w_stmts(w, ss) == w_stmt(w_stmts(w, pre), last));
    }
}

proof fn lemma_loop_of_jumps(w: Walk, ss: Seq<Statement>)
    requires
        jumps_only(ss),
    ensures
        w_loop(w, ss).errors == w.errors,
{
    lemma_jumps_in_loop(pushed(Walk { in_loop: true, ..w }), ss);
}

/// `break` and `continue` directly in the body of any loop (`while`,
/// counted `for`, `for ... in` over an array, a range, indices or a map)
/// are inside a loop: whether or not a loop encloses the loop statement,
/// walking it records no error.
pub proof fn law_loop_bodies_allow_jumps(w: Walk, s: Statement)
    requires
        jumping_loop(s),
    ensures
        w_stmt(w, s).errors == w.errors,
{
    match s.kind {
        StatementKind::WhileLoop { test, body } => {
            assert(w_expr(w, *test) == w);
            assert(check_cond(w, *test) == w);
            lemma_loop_of_jumps(w, body.statements@);
        },
        StatementKind::ForLoop { variable, start, end, body } => {
            assert(w_expr(w, *start) == w);
            assert(w_expr(w, *end) == w);
            lemma_loop_of_jumps(declare_in(pushed(w), variable@, SymbolKind::Variable), body.statements@);
        },
        StatementKind::ForEachLoop { variable, array, body, .. } => {
            assert(w_expr(w, *array) == w);
            lemma_loop_of_jumps(declare_in(pushed(w), variable@, SymbolKind::Variable), body.statements@);
        },
        StatementKind::ForInRange { variable, start, end, body } => {
            assert(w_expr(w, *start) == w);
            assert(w_expr(w, *end) == w);
            lemma_loop_of_jumps(declare_in(pushed(w), variable@, SymbolKind::Variable), body.statements@);
        },
        StatementKind::ForInIndex { index_variable, value_variable, iterable, body } => {
            assert(w_expr(w, *iterable) == w);
            lemma_loop_of_jumps(
                declare_in(
                    declare_in(pushed(w), index_variable@, SymbolKind::Variable),
                    value_variable@,
                    SymbolKind::Variable,
                ),
                body.statements@,
            );
        },
        StatementKind::ForInMap { key_variable, value_variable, map, body } => {
            assert(w_expr(w, *map) == w);
            lemma_loop_of_jumps(
                declare_in(
                    declare_in(pushed(w), key_variable@, SymbolKind::Variable),
                    value_variable@,
                    SymbolKind::Variable,
                ),
                body.statements@,
            );
        },
        _ => {},
    }
}


/// `break` and `continue` outside every loop, and `return` outside every
/// function, are each reported once, at the statement, with their
/// messages; inside a loop (a function) they are accepted.
pub proof fn law_jumps_need_their_context(w: Walk, s: Statement)
    ensures
        s.kind is Break ==> w_stmt(w, s).errors == (if w.in_loop {
            w.errors
        } else {
            w.errors.push(("break statement can only be used inside a loop"@, Some(s.span)))
        }),
        s.kind is Continue ==> w_stmt(w, s).errors == (if w.in_loop {
            w.errors
        } else {
            w.errors.push(("continue statement can only be used inside a loop"@, Some(s.span)))
        }),
        s.kind == (StatementKind::Return { value: None }) ==> w_stmt(w, s).errors == (if w.in_function {
            w.errors
        } else {
            w.errors.push(("Return statement outside function"@, Some(s.span)))
        }),
{
}

/// A name that no open scope declares is reported once, at the identifier,
/// as undefined; a declared one is accepted.
pub proof fn law_undefined_names_reported(w: Walk, e: Expr)
    requires
        e.kind is Identifier,
    ensures
        w_expr(w, e).errors == (if env_lookup(w.env, e.kind->Identifier_name@) is Some {
            w.errors
        } else {
            w.errors.push((undefined_message(e.kind->Identifier_name@), Some(e.span)))
        }),
{
}

} // verus!
