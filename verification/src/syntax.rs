//! The syntax of Mog's statements and expressions, stated over token views.
//!
//! Each `g_*` function reads from a parse state and gives a description of
//! what it read with the state after it, or `None` where the input is not
//! in the language. The descriptions are those of `grammar`; `described`
//! says when a syntax tree is the one a description gives.
//!
//! Functions that read a list carry what was read so far in `acc`; they
//! go on only while the position moves forward.

use vstd::prelude::*;

use crate::ast::Span;
use crate::grammar::{
    adv, at_kind, binop_at, eat, g_array_name, g_fn_type, g_param_type, g_ret_type, g_soa,
    g_suffix, g_tensor_dtype, g_type_ann, join, last_pos, new_scope, next_kind, non_ws, prev_span,
    start_state, take, take_type_or_ident, wspan, ArmD, BlockD, ElseD, ExprD, ExprKindD, ParamD,
    PartD, PatternD, StmtD, StmtKindD, TokV, TypeD, PS,
};
use crate::lexer_spec::{lex, utf8_len};
use crate::parser::{associative_op, quoted_inner};
use crate::token::TokenType;
use crate::type_names::decode_escapes;

verus! {

// ---------------------------------------------------------------------------
// Small pieces
// ---------------------------------------------------------------------------

pub open spec fn at_end(ts: Seq<TokV>, s: PS) -> bool {
    s.pos >= ts.len()
}

/// The position moved forward and stays within the input.
pub open spec fn progress(ts: Seq<TokV>, s: PS, s2: PS) -> bool {
    s.pos < s2.pos <= ts.len()
}

/// Reads a token of kind `k`.
pub open spec fn expect(ts: Seq<TokV>, s: PS, k: TokenType) -> Option<PS> {
    if at_kind(ts, s, k) {
        Some(adv(s))
    } else {
        None
    }
}

pub open spec fn ex(kind: ExprKindD, span: Span) -> ExprD {
    ExprD { kind, span }
}

/// A declaration: it carries the span of the whole input.
pub open spec fn decl(ts: Seq<TokV>, kind: StmtKindD) -> StmtD {
    StmtD { kind, span: wspan(ts) }
}

pub open spec fn some_stmt(r: Option<(StmtD, PS)>) -> Option<(Option<StmtD>, PS)> {
    match r {
        None => None,
        Some((st, s2)) => Some((Some(st), s2)),
    }
}

pub open spec fn push_opt(acc: Seq<StmtD>, o: Option<StmtD>) -> Seq<StmtD> {
    match o {
        Some(st) => acc.push(st),
        None => acc,
    }
}

pub open spec fn eq_text() -> Seq<char> {
    seq!['=']
}

pub open spec fn none_word() -> Seq<char> {
    seq!['n', 'o', 'n', 'e']
}

pub open spec fn zero_text() -> Seq<char> {
    seq!['0']
}

/// A program that is one block of one statement is that statement.
pub open spec fn unwrapped_d(ds: Seq<StmtD>) -> Seq<StmtD> {
    if ds.len() == 1 {
        match ds[0].kind {
            StmtKindD::Block(inner, _) => if inner.len() == 1 {
                inner
            } else {
                ds
            },
            _ => ds,
        }
    } else {
        ds
    }
}

/// A function body that is one expression statement returns it.
pub open spec fn implicit_d(ds: Seq<StmtD>) -> Seq<StmtD> {
    if ds.len() == 1 {
        match ds[0].kind {
            StmtKindD::ExprStmt(e) => seq![StmtD { kind: StmtKindD::Return(Some(e)), span: ds[0].span }],
            _ => ds,
        }
    } else {
        ds
    }
}

/// The text inside the quotes of a string token.
pub open spec fn g_quoted(ts: Seq<TokV>, s: PS) -> Option<(Seq<char>, PS)> {
    match take(ts, s, TokenType::StringLit) {
        None => None,
        Some((raw, s1)) => match quoted_inner(raw) {
            Some(x) => Some((x, s1)),
            None => None,
        },
    }
}

/// The value of the string token at the position: quotes removed, escapes
/// decoded.
pub open spec fn g_string_value(ts: Seq<TokV>, s: PS) -> Option<(Seq<char>, PS)> {
    match quoted_inner(ts[s.pos].text) {
        Some(inner) => Some((decode_escapes(inner), adv(s))),
        None => None,
    }
}

/// Semicolons before a statement.
pub open spec fn skip_semis(ts: Seq<TokV>, s: PS) -> PS
    decreases ts.len() - s.pos,
{
    if at_kind(ts, s, TokenType::Semicolon) {
        skip_semis(ts, adv(s))
    } else {
        s
    }
}

// ---------------------------------------------------------------------------
// Programs and declarations
// ---------------------------------------------------------------------------

/// A whole program: statements to the end of input, in the first scope.
pub open spec fn g_program(ts: Seq<TokV>, s: PS, depth: nat) -> Option<(StmtD, PS)> {
    if depth == 0 {
        None
    } else {
        match g_prog_loop(ts, s, (depth - 1) as nat, Seq::empty()) {
            None => None,
            Some((stmts, s1)) => match new_scope(s1) {
                None => None,
                Some((n, s2)) => Some((decl(ts, StmtKindD::Program(unwrapped_d(stmts), n)), s2)),
            },
        }
    }
}

pub open spec fn g_prog_loop(ts: Seq<TokV>, s: PS, d: nat, acc: Seq<StmtD>) -> Option<
    (Seq<StmtD>, PS),
>
    decreases ts.len() - s.pos,
{
    if at_end(ts, s) {
        Some((acc, s))
    } else if at_kind(ts, s, TokenType::RBrace) {
        None
    } else {
        match g_statement(ts, s, d) {
            None => None,
            Some((o, s1)) => if progress(ts, s, s1) {
                g_prog_loop(ts, s1, d, push_opt(acc, o))
            } else {
                None
            },
        }
    }
}

pub open spec fn g_package(ts: Seq<TokV>, s: PS) -> Option<(StmtD, PS)> {
    match take(ts, s, TokenType::Identifier) {
        None => None,
        Some((name, s1)) => Some(
            (decl(ts, StmtKindD::Package(name)), eat(ts, s1, TokenType::Semicolon)),
        ),
    }
}

/// Paths of a grouped import, up to `)`.
pub open spec fn g_import_loop(ts: Seq<TokV>, s: PS, acc: Seq<Seq<char>>) -> Option<
    (Seq<Seq<char>>, PS),
>
    decreases ts.len() - s.pos,
{
    if at_kind(ts, s, TokenType::RParen) || at_end(ts, s) {
        Some((acc, s))
    } else {
        match g_quoted(ts, s) {
            None => None,
            Some((p, s1)) => {
                let s2 = if at_kind(ts, s1, TokenType::Semicolon) {
                    adv(s1)
                } else {
                    eat(ts, s1, TokenType::Comma)
                };
                if progress(ts, s, s2) {
                    g_import_loop(ts, s2, acc.push(p))
                } else {
                    None
                }
            },
        }
    }
}

pub open spec fn g_import(ts: Seq<TokV>, s: PS) -> Option<(StmtD, PS)> {
    let r: Option<(Seq<Seq<char>>, PS)> = if at_kind(ts, s, TokenType::LParen) {
        match g_import_loop(ts, adv(s), Seq::empty()) {
            None => None,
            Some((ps, s1)) => match expect(ts, s1, TokenType::RParen) {
                None => None,
                Some(s2) => Some((ps, s2)),
            },
        }
    } else {
        match g_quoted(ts, s) {
            None => None,
            Some((p, s1)) => Some((seq![p], s1)),
        }
    };
    match r {
        None => None,
        Some((ps, s1)) => Some((decl(ts, StmtKindD::Import(ps)), eat(ts, s1, TokenType::Semicolon))),
    }
}

/// The fields of a struct definition, up to `}`.
pub open spec fn g_fields(ts: Seq<TokV>, s: PS, d: nat, acc: Seq<(Seq<char>, Seq<char>)>) -> Option<
    (Seq<(Seq<char>, Seq<char>)>, PS),
>
    decreases ts.len() - s.pos,
{
    if at_kind(ts, s, TokenType::RBrace) || at_end(ts, s) {
        Some((acc, s))
    } else {
        match take(ts, s, TokenType::Identifier) {
            None => None,
            Some((fname, s1)) => match expect(ts, s1, TokenType::Colon) {
                None => None,
                Some(s2) => {
                    let tn = if at_kind(ts, s2, TokenType::LBracket) {
                        g_array_name(ts, s2, d)
                    } else if at_kind(ts, s2, TokenType::TypeToken) {
                        take(ts, s2, TokenType::TypeToken)
                    } else {
                        take(ts, s2, TokenType::Identifier)
                    };
                    match tn {
                        None => None,
                        Some((tname, s3)) => {
                            let s4 = if at_kind(ts, s3, TokenType::Comma) {
                                adv(s3)
                            } else {
                                eat(ts, s3, TokenType::Semicolon)
                            };
                            if progress(ts, s, s4) {
                                g_fields(ts, s4, d, acc.push((fname, tname)))
                            } else {
                                None
                            }
                        },
                    }
                },
            },
        }
    }
}

pub open spec fn g_struct(ts: Seq<TokV>, s: PS, is_public: bool, depth: nat) -> Option<
    (StmtD, PS),
> {
    if depth == 0 {
        None
    } else {
        match take(ts, s, TokenType::Identifier) {
            None => None,
            Some((name, s1)) => match expect(ts, s1, TokenType::LBrace) {
                None => None,
                Some(s2) => match g_fields(ts, s2, (depth - 1) as nat, Seq::empty()) {
                    None => None,
                    Some((fs, s3)) => match expect(ts, s3, TokenType::RBrace) {
                        None => None,
                        Some(s4) => Some((decl(ts, StmtKindD::Struct(name, fs, is_public)), s4)),
                    },
                },
            },
        }
    }
}

/// `type Name = ...;` after `type`.
pub open spec fn g_alias(ts: Seq<TokV>, s: PS, depth: nat) -> Option<(StmtD, PS)> {
    if depth == 0 {
        None
    } else {
        let d = (depth - 1) as nat;
        match take(ts, s, TokenType::Identifier) {
            None => None,
            Some((name, s1)) => match expect(ts, s1, TokenType::Equal) {
                None => None,
                Some(s2) => if at_kind(ts, s2, TokenType::LBrace) {
                    match take_type_or_ident(ts, adv(s2)) {
                        None => None,
                        Some((k, s3)) => match expect(ts, s3, TokenType::Colon) {
                            None => None,
                            Some(s4) => match take_type_or_ident(ts, s4) {
                                None => None,
                                Some((v, s5)) => match expect(ts, s5, TokenType::RBrace) {
                                    None => None,
                                    Some(s6) => Some(
                                        (
                                            decl(ts, StmtKindD::Alias(name, TypeD::MapOf(k, v))),
                                            eat(ts, s6, TokenType::Semicolon),
                                        ),
                                    ),
                                },
                            },
                        },
                    }
                } else if at_kind(ts, s2, TokenType::Fn) {
                    match g_fn_type(ts, s2, d) {
                        None => None,
                        Some((ft, s3)) => Some(
                            (decl(ts, StmtKindD::Alias(name, ft)), eat(ts, s3, TokenType::Semicolon)),
                        ),
                    }
                } else {
                    let full = if at_kind(ts, s2, TokenType::LBracket) {
                        g_array_name(ts, s2, d)
                    } else {
                        take_type_or_ident(ts, s2)
                    };
                    match full {
                        None => None,
                        Some((f, s3)) => match g_suffix(ts, s3, f) {
                            None => None,
                            Some((f2, s4)) => Some(
                                (
                                    decl(ts, StmtKindD::Alias(name, TypeD::Named(f2))),
                                    eat(ts, s4, TokenType::Semicolon),
                                ),
                            ),
                        },
                    }
                },
            },
        }
    }
}

/// `, name` after the first capability.
pub open spec fn g_caps_more(ts: Seq<TokV>, s: PS, acc: Seq<Seq<char>>) -> Option<
    (Seq<Seq<char>>, PS),
>
    decreases ts.len() - s.pos,
{
    if at_kind(ts, s, TokenType::Comma) {
        match take(ts, adv(s), TokenType::Identifier) {
            None => None,
            Some((n, s2)) => g_caps_more(ts, s2, acc.push(n)),
        }
    } else {
        Some((acc, s))
    }
}

/// `requires a, b;` or `optional a, b;` after the keyword.
pub open spec fn g_caps(ts: Seq<TokV>, s: PS, required: bool) -> Option<(StmtD, PS)> {
    match take(ts, s, TokenType::Identifier) {
        None => None,
        Some((first, s1)) => match g_caps_more(ts, s1, seq![first]) {
            None => None,
            Some((cs, s2)) => {
                let k = if required {
                    StmtKindD::Requires(cs)
                } else {
                    StmtKindD::Optional(cs)
                };
                Some((decl(ts, k), eat(ts, s2, TokenType::Semicolon)))
            },
        },
    }
}

// ---------------------------------------------------------------------------
// Statements
// ---------------------------------------------------------------------------

/// One statement, after any semicolons; `None` inside the result where a
/// `}` or the end of input comes first.
#[verifier::opaque]
pub open spec fn g_statement(ts: Seq<TokV>, s: PS, depth: nat) -> Option<(Option<StmtD>, PS)>
    decreases depth, 0nat, 0int,
{
    if depth == 0 {
        None
    } else {
        let d = (depth - 1) as nat;
        let s1 = skip_semis(ts, s);
        if at_kind(ts, s1, TokenType::RBrace) || at_end(ts, s1) {
            Some((None, s1))
        } else if at_kind(ts, s1, TokenType::Package) {
            some_stmt(g_package(ts, adv(s1)))
        } else if at_kind(ts, s1, TokenType::Import) {
            some_stmt(g_import(ts, adv(s1)))
        } else if at_kind(ts, s1, TokenType::Pub) {
            some_stmt(g_pub(ts, s1, d))
        } else if at_kind(ts, s1, TokenType::Requires) {
            some_stmt(g_caps(ts, adv(s1), true))
        } else if at_kind(ts, s1, TokenType::Optional) {
            some_stmt(g_caps(ts, adv(s1), false))
        } else if at_kind(ts, s1, TokenType::LBrace) {
            some_stmt(g_block_stmt(ts, adv(s1), d))
        } else if at_kind(ts, s1, TokenType::Async) && next_kind(ts, s1, TokenType::Fn) {
            some_stmt(g_func(ts, adv(adv(s1)), false, true, d))
        } else if at_kind(ts, s1, TokenType::Fn) && next_kind(ts, s1, TokenType::Identifier) {
            some_stmt(g_func(ts, adv(s1), false, false, d))
        } else if at_kind(ts, s1, TokenType::Struct) {
            some_stmt(g_struct(ts, adv(s1), false, d))
        } else if at_kind(ts, s1, TokenType::TypeKw) {
            some_stmt(g_alias(ts, adv(s1), d))
        } else if at_kind(ts, s1, TokenType::Return) {
            some_stmt(g_return(ts, adv(s1), d))
        } else if at_kind(ts, s1, TokenType::If) {
            some_stmt(g_if_stmt(ts, adv(s1), d))
        } else if at_kind(ts, s1, TokenType::While) {
            some_stmt(g_while(ts, adv(s1), d))
        } else if at_kind(ts, s1, TokenType::For) {
            some_stmt(g_for(ts, adv(s1), d))
        } else if at_kind(ts, s1, TokenType::Try) {
            some_stmt(g_try(ts, adv(s1), d))
        } else if at_kind(ts, s1, TokenType::With) {
            some_stmt(g_with(ts, adv(s1), d))
        } else if at_kind(ts, s1, TokenType::Break) {
            Some((Some(decl(ts, StmtKindD::Break)), eat(ts, adv(s1), TokenType::Semicolon)))
        } else if at_kind(ts, s1, TokenType::Continue) {
            Some((Some(decl(ts, StmtKindD::Continue)), eat(ts, adv(s1), TokenType::Semicolon)))
        } else if (at_kind(ts, s1, TokenType::Identifier) && next_kind(ts, s1, TokenType::Colon))
            || at_kind(ts, s1, TokenType::TypeToken) {
            some_stmt(g_var_decl(ts, s1, d))
        } else {
            match g_expr(ts, s1, d) {
                None => None,
                Some((e, s2)) => Some(
                    (
                        Some(StmtD { kind: StmtKindD::ExprStmt(e), span: e.span }),
                        eat(ts, s2, TokenType::Semicolon),
                    ),
                ),
            }
        }
    }
}

/// `pub fn`, `pub async fn`, `pub struct` or `pub type`, from `pub`.
#[verifier::opaque]
pub open spec fn g_pub(ts: Seq<TokV>, s: PS, depth: nat) -> Option<(StmtD, PS)>
    decreases depth, 0nat, 0int,
{
    if depth == 0 {
        None
    } else {
        let d = (depth - 1) as nat;
        let s1 = adv(s);
        if at_kind(ts, s1, TokenType::Fn) && next_kind(ts, s1, TokenType::Identifier) {
            g_func(ts, adv(s1), true, false, d)
        } else if at_kind(ts, s1, TokenType::Async) && next_kind(ts, s1, TokenType::Fn) {
            g_func(ts, adv(adv(s1)), true, true, d)
        } else if at_kind(ts, s1, TokenType::Struct) {
            g_struct(ts, adv(s1), true, d)
        } else if at_kind(ts, s1, TokenType::TypeKw) {
            g_alias(ts, adv(s1), d)
        } else {
            None
        }
    }
}

/// A function declaration after `fn`: name, parameters, return type, body.
#[verifier::opaque]
pub open spec fn g_func(ts: Seq<TokV>, s: PS, is_public: bool, is_async: bool, depth: nat) -> Option<
    (StmtD, PS),
>
    decreases depth, 0nat, 0int,
{
    if depth == 0 {
        None
    } else {
        let d = (depth - 1) as nat;
        match take(ts, s, TokenType::Identifier) {
            None => None,
            Some((name, s1)) => match expect(ts, s1, TokenType::LParen) {
                None => None,
                Some(s2) => match g_params(ts, s2, d) {
                    None => None,
                    Some((ps, s3)) => match expect(ts, s3, TokenType::RParen) {
                        None => None,
                        Some(s4) => {
                            let rt = if at_kind(ts, s4, TokenType::Arrow) {
                                g_ret_type(ts, adv(s4), d)
                            } else {
                                Some((TypeD::Void, s4))
                            };
                            match rt {
                                None => None,
                                Some((t, s5)) => match g_fn_body(ts, s5, d) {
                                    None => None,
                                    Some((b, s6)) => Some(
                                        (
                                            decl(
                                                ts,
                                                StmtKindD::Func(name, ps, t, b, is_public, is_async),
                                            ),
                                            s6,
                                        ),
                                    ),
                                },
                            }
                        },
                    },
                },
            },
        }
    }
}

/// `name: T = value;` or `name: T := value;`.
#[verifier::opaque]
pub open spec fn g_var_decl(ts: Seq<TokV>, s: PS, depth: nat) -> Option<(StmtD, PS)>
    decreases depth, 0nat, 0int,
{
    if depth == 0 {
        None
    } else {
        let d = (depth - 1) as nat;
        match take(ts, s, TokenType::Identifier) {
            None => None,
            Some((name, s1)) => match expect(ts, s1, TokenType::Colon) {
                None => None,
                Some(s2) => match g_type_ann(ts, s2, d) {
                    None => None,
                    Some((t, s3)) => {
                        let s4: Option<PS> = if at_kind(ts, s3, TokenType::Assign) {
                            Some(adv(s3))
                        } else if at_kind(ts, s3, TokenType::Equal) {
                            Some(eat(ts, adv(s3), TokenType::Assign))
                        } else {
                            None
                        };
                        match s4 {
                            None => None,
                            Some(s4) => match g_expr(ts, s4, d) {
                                None => None,
                                Some((e, s5)) => match expect(ts, s5, TokenType::Semicolon) {
                                    None => None,
                                    Some(s6) => Some((decl(ts, StmtKindD::VarDecl(name, t, e)), s6)),
                                },
                            },
                        }
                    },
                },
            },
        }
    }
}

#[verifier::opaque]
pub open spec fn g_return(ts: Seq<TokV>, s: PS, depth: nat) -> Option<(StmtD, PS)>
    decreases depth, 0nat, 0int,
{
    if depth == 0 {
        None
    } else {
        let v: Option<(Option<ExprD>, PS)> = if !at_kind(ts, s, TokenType::Semicolon) {
            match g_expr(ts, s, (depth - 1) as nat) {
                None => None,
                Some((e, s1)) => Some((Some(e), s1)),
            }
        } else {
            Some((None, s))
        };
        match v {
            None => None,
            Some((o, s1)) => match expect(ts, s1, TokenType::Semicolon) {
                None => None,
                Some(s2) => Some((decl(ts, StmtKindD::Return(o)), s2)),
            },
        }
    }
}

/// An expression read with struct literals off, the flag restored after.
#[verifier::opaque]
pub open spec fn g_header(ts: Seq<TokV>, s: PS, depth: nat) -> Option<(ExprD, PS)>
    decreases depth, 0nat, 0int,
{
    if depth == 0 {
        None
    } else {
        match g_expr(ts, PS { allow: false, ..s }, (depth - 1) as nat) {
            None => None,
            Some((e, s1)) => Some((e, PS { allow: s.allow, ..s1 })),
        }
    }
}

/// The condition of an `if`: parenthesized, or bare.
#[verifier::opaque]
pub open spec fn g_condition(ts: Seq<TokV>, s: PS, depth: nat) -> Option<(ExprD, PS)>
    decreases depth, 0nat, 0int,
{
    if depth == 0 {
        None
    } else if at_kind(ts, s, TokenType::LParen) {
        match g_expr(ts, adv(s), (depth - 1) as nat) {
            None => None,
            Some((e, s1)) => match expect(ts, s1, TokenType::RParen) {
                None => None,
                Some(s2) => Some((e, s2)),
            },
        }
    } else {
        g_header(ts, s, (depth - 1) as nat)
    }
}

#[verifier::opaque]
pub open spec fn g_if_stmt(ts: Seq<TokV>, s: PS, depth: nat) -> Option<(StmtD, PS)>
    decreases depth, 0nat, 0int,
{
    if depth == 0 {
        None
    } else {
        let d = (depth - 1) as nat;
        match g_condition(ts, s, d) {
            None => None,
            Some((c, s1)) => match expect(ts, s1, TokenType::LBrace) {
                None => None,
                Some(s2) => match g_block_body(ts, s2, d) {
                    None => None,
                    Some((tb, s3)) => {
                        let fb: Option<(Option<BlockD>, PS)> = if at_kind(
                            ts,
                            s3,
                            TokenType::Else,
                        ) {
                            let s4 = adv(s3);
                            if at_kind(ts, s4, TokenType::If) {
                                match g_if_stmt(ts, adv(s4), d) {
                                    None => None,
                                    Some((nested, s5)) => match new_scope(s5) {
                                        None => None,
                                        Some((n, s6)) => Some(
                                            (
                                                Some(
                                                    BlockD {
                                                        stmts: seq![nested],
                                                        scope: n,
                                                        span: wspan(ts),
                                                    },
                                                ),
                                                s6,
                                            ),
                                        ),
                                    },
                                }
                            } else {
                                match expect(ts, s4, TokenType::LBrace) {
                                    None => None,
                                    Some(s5) => match g_block_body(ts, s5, d) {
                                        None => None,
                                        Some((b, s6)) => Some((Some(b), s6)),
                                    },
                                }
                            }
                        } else {
                            Some((None, s3))
                        };
                        match fb {
                            None => None,
                            Some((f, s4)) => Some((decl(ts, StmtKindD::Cond(c, tb, f)), s4)),
                        }
                    },
                },
            },
        }
    }
}

#[verifier::opaque]
pub open spec fn g_while(ts: Seq<TokV>, s: PS, depth: nat) -> Option<(StmtD, PS)>
    decreases depth, 0nat, 0int,
{
    if depth == 0 {
        None
    } else {
        let d = (depth - 1) as nat;
        let hp = at_kind(ts, s, TokenType::LParen);
        match g_header(ts, eat(ts, s, TokenType::LParen), d) {
            None => None,
            Some((t, s1)) => {
                let s2 = if hp {
                    expect(ts, s1, TokenType::RParen)
                } else {
                    Some(s1)
                };
                match s2 {
                    None => None,
                    Some(s2) => match expect(ts, s2, TokenType::LBrace) {
                        None => None,
                        Some(s3) => match g_block_body(ts, s3, d) {
                            None => None,
                            Some((b, s4)) => Some((decl(ts, StmtKindD::While(t, b)), s4)),
                        },
                    },
                }
            },
        }
    }
}

/// The loops after `for`.
#[verifier::opaque]
pub open spec fn g_for(ts: Seq<TokV>, s: PS, depth: nat) -> Option<(StmtD, PS)>
    decreases depth, 0nat, 0int,
{
    if depth == 0 {
        None
    } else {
        let d = (depth - 1) as nat;
        match take(ts, s, TokenType::Identifier) {
            None => None,
            Some((v, s1)) => if at_kind(ts, s1, TokenType::Colon) {
                match take(ts, adv(s1), TokenType::TypeToken) {
                    None => None,
                    Some((tn, s2)) => match g_suffix(ts, s2, tn) {
                        None => None,
                        Some((tn2, s3)) => match expect(ts, s3, TokenType::In) {
                            None => None,
                            Some(s4) => match g_header(ts, s4, d) {
                                None => None,
                                Some((a, s5)) => match g_for_body(ts, s5, d) {
                                    None => None,
                                    Some((b, s6)) => Some(
                                        (decl(ts, StmtKindD::ForEach(v, Some(tn2), a, b)), s6),
                                    ),
                                },
                            },
                        },
                    },
                }
            } else if at_kind(ts, s1, TokenType::Comma) {
                match take(ts, adv(s1), TokenType::Identifier) {
                    None => None,
                    Some((v2, s2)) => match expect(ts, s2, TokenType::In) {
                        None => None,
                        Some(s3) => match g_header(ts, s3, d) {
                            None => None,
                            Some((it, s4)) => match g_for_body(ts, s4, d) {
                                None => None,
                                Some((b, s5)) => Some(
                                    (decl(ts, StmtKindD::ForIndex(v, v2, it, b)), s5),
                                ),
                            },
                        },
                    },
                }
            } else if at_kind(ts, s1, TokenType::In) {
                match g_header(ts, adv(s1), d) {
                    None => None,
                    Some((it, s2)) => if at_kind(ts, s2, TokenType::Range) {
                        match g_header(ts, adv(s2), d) {
                            None => None,
                            Some((e, s3)) => match g_for_body(ts, s3, d) {
                                None => None,
                                Some((b, s4)) => Some(
                                    (decl(ts, StmtKindD::ForRange(v, it, e, b)), s4),
                                ),
                            },
                        }
                    } else {
                        match g_for_body(ts, s2, d) {
                            None => None,
                            Some((b, s3)) => Some((decl(ts, StmtKindD::ForEach(v, None, it, b)), s3)),
                        }
                    },
                }
            } else {
                match expect(ts, s1, TokenType::Assign) {
                    None => None,
                    Some(s2) => match g_expr(ts, s2, d) {
                        None => None,
                        Some((a, s3)) => match expect(ts, s3, TokenType::To) {
                            None => None,
                            Some(s4) => match g_expr(ts, s4, d) {
                                None => None,
                                Some((e, s5)) => match g_for_body(ts, s5, d) {
                                    None => None,
                                    Some((b, s6)) => Some((decl(ts, StmtKindD::For(v, a, e, b)), s6)),
                                },
                            },
                        },
                    },
                }
            },
        }
    }
}

#[verifier::opaque]
pub open spec fn g_for_body(ts: Seq<TokV>, s: PS, depth: nat) -> Option<(BlockD, PS)>
    decreases depth, 0nat, 0int,
{
    if depth == 0 {
        None
    } else {
        match expect(ts, s, TokenType::LBrace) {
            None => None,
            Some(s1) => g_block_body(ts, s1, (depth - 1) as nat),
        }
    }
}

#[verifier::opaque]
pub open spec fn g_try(ts: Seq<TokV>, s: PS, depth: nat) -> Option<(StmtD, PS)>
    decreases depth, 0nat, 0int,
{
    if depth == 0 {
        None
    } else {
        let d = (depth - 1) as nat;
        match expect(ts, s, TokenType::LBrace) {
            None => None,
            Some(s1) => match g_block_body(ts, s1, d) {
                None => None,
                Some((b1, s2)) => match expect(ts, s2, TokenType::Catch) {
                    None => None,
                    Some(s3) => match expect(ts, s3, TokenType::LParen) {
                        None => None,
                        Some(s4) => match take(ts, s4, TokenType::Identifier) {
                            None => None,
                            Some((ev, s5)) => match expect(ts, s5, TokenType::RParen) {
                                None => None,
                                Some(s6) => match expect(ts, s6, TokenType::LBrace) {
                                    None => None,
                                    Some(s7) => match g_block_body(ts, s7, d) {
                                        None => None,
                                        Some((b2, s8)) => Some(
                                            (decl(ts, StmtKindD::TryCatch(b1, ev, b2)), s8),
                                        ),
                                    },
                                },
                            },
                        },
                    },
                },
            },
        }
    }
}

#[verifier::opaque]
pub open spec fn g_with(ts: Seq<TokV>, s: PS, depth: nat) -> Option<(StmtD, PS)>
    decreases depth, 0nat, 0int,
{
    if depth == 0 {
        None
    } else {
        let d = (depth - 1) as nat;
        match g_header(ts, s, d) {
            None => None,
            Some((c, s1)) => match expect(ts, s1, TokenType::LBrace) {
                None => None,
                Some(s2) => match g_block_body(ts, s2, d) {
                    None => None,
                    Some((b, s3)) => Some((decl(ts, StmtKindD::With(c, b)), s3)),
                },
            },
        }
    }
}

/// Statements up to a `}`, which is read too.
#[verifier::opaque]
pub open spec fn g_stmts_to_brace(ts: Seq<TokV>, s: PS, depth: nat) -> Option<(Seq<StmtD>, PS)>
    decreases depth, 0nat, 0int,
{
    if depth == 0 {
        None
    } else {
        match g_stmt_loop(ts, s, (depth - 1) as nat, Seq::empty()) {
            None => None,
            Some((ss, s1)) => match expect(ts, s1, TokenType::RBrace) {
                None => None,
                Some(s2) => Some((ss, s2)),
            },
        }
    }
}

#[verifier::opaque]
pub open spec fn g_stmt_loop(ts: Seq<TokV>, s: PS, d: nat, acc: Seq<StmtD>) -> Option<
    (Seq<StmtD>, PS),
>
    decreases d, 1nat, ts.len() - s.pos,
{
    if at_kind(ts, s, TokenType::RBrace) || at_end(ts, s) {
        Some((acc, s))
    } else {
        match g_statement(ts, s, d) {
            None => None,
            Some((o, s1)) => if progress(ts, s, s1) {
                g_stmt_loop(ts, s1, d, push_opt(acc, o))
            } else {
                None
            },
        }
    }
}

/// A block statement after `{`.
#[verifier::opaque]
pub open spec fn g_block_stmt(ts: Seq<TokV>, s: PS, depth: nat) -> Option<(StmtD, PS)>
    decreases depth, 0nat, 0int,
{
    if depth == 0 {
        None
    } else {
        match g_stmts_to_brace(ts, s, (depth - 1) as nat) {
            None => None,
            Some((ss, s1)) => match new_scope(s1) {
                None => None,
                Some((n, s2)) => Some((decl(ts, StmtKindD::Block(ss, n)), s2)),
            },
        }
    }
}

/// A block body after `{`.
#[verifier::opaque]
pub open spec fn g_block_body(ts: Seq<TokV>, s: PS, depth: nat) -> Option<(BlockD, PS)>
    decreases depth, 0nat, 0int,
{
    if depth == 0 {
        None
    } else {
        match g_stmts_to_brace(ts, s, (depth - 1) as nat) {
            None => None,
            Some((ss, s1)) => match new_scope(s1) {
                None => None,
                Some((n, s2)) => Some((BlockD { stmts: ss, scope: n, span: wspan(ts) }, s2)),
            },
        }
    }
}

/// A function body, from its `{`.
#[verifier::opaque]
pub open spec fn g_fn_body(ts: Seq<TokV>, s: PS, depth: nat) -> Option<(BlockD, PS)>
    decreases depth, 0nat, 0int,
{
    if depth == 0 {
        None
    } else {
        match expect(ts, s, TokenType::LBrace) {
            None => None,
            Some(s1) => match g_stmts_to_brace(ts, s1, (depth - 1) as nat) {
                None => None,
                Some((ss, s2)) => match new_scope(s2) {
                    None => None,
                    Some((n, s3)) => Some(
                        (BlockD { stmts: implicit_d(ss), scope: n, span: wspan(ts) }, s3),
                    ),
                },
            },
        }
    }
}

/// Parameters up to (not including) `)`.
#[verifier::opaque]
pub open spec fn g_params(ts: Seq<TokV>, s: PS, depth: nat) -> Option<(Seq<ParamD>, PS)>
    decreases depth, 0nat, 0int,
{
    if depth == 0 {
        None
    } else if at_kind(ts, s, TokenType::RParen) {
        Some((Seq::empty(), s))
    } else {
        g_params_loop(ts, s, (depth - 1) as nat, Seq::empty())
    }
}

#[verifier::opaque]
pub open spec fn g_params_loop(ts: Seq<TokV>, s: PS, d: nat, acc: Seq<ParamD>) -> Option<
    (Seq<ParamD>, PS),
>
    decreases d, 1nat, ts.len() - s.pos,
{
    match take(ts, s, TokenType::Identifier) {
        None => None,
        Some((name, s1)) => match expect(ts, s1, TokenType::Colon) {
            None => None,
            Some(s2) => match g_param_type(ts, s2, d) {
                None => None,
                Some((t, s3)) => {
                    let dv: Option<(Option<ExprD>, PS)> = if at_kind(ts, s3, TokenType::Equal)
                        && ts[s3.pos].text == eq_text() {
                        match g_expr(ts, adv(s3), d) {
                            None => None,
                            Some((e, s4)) => Some((Some(e), s4)),
                        }
                    } else {
                        Some((None, s3))
                    };
                    match dv {
                        None => None,
                        Some((o, s4)) => {
                            let acc2 = acc.push(ParamD { name, ty: t, default: o });
                            if at_kind(ts, s4, TokenType::Comma) {
                                let s5 = adv(s4);
                                if progress(ts, s, s5) {
                                    g_params_loop(ts, s5, d, acc2)
                                } else {
                                    None
                                }
                            } else {
                                Some((acc2, s4))
                            }
                        },
                    }
                },
            },
        },
    }
}

// ---------------------------------------------------------------------------
// Expressions
// ---------------------------------------------------------------------------

#[verifier::opaque]
pub open spec fn g_expr(ts: Seq<TokV>, s: PS, depth: nat) -> Option<(ExprD, PS)>
    decreases depth, 0nat, 0int,
{
    if depth == 0 {
        None
    } else {
        g_assign(ts, s, (depth - 1) as nat)
    }
}

/// `target := value` or `target = value`, right-associative; the target is
/// a name, an index or a member.
#[verifier::opaque]
pub open spec fn g_assign(ts: Seq<TokV>, s: PS, depth: nat) -> Option<(ExprD, PS)>
    decreases depth, 0nat, 0int,
{
    if depth == 0 {
        None
    } else {
        let d = (depth - 1) as nat;
        match g_binary(ts, s, d) {
            None => None,
            Some((e, s1)) => {
                let is_assign = at_kind(ts, s1, TokenType::Assign);
                let is_eq = !is_assign && at_kind(ts, s1, TokenType::Equal) && ts[s1.pos].text
                    == eq_text();
                if is_assign || is_eq {
                    match g_assign(ts, adv(s1), d) {
                        None => None,
                        Some((v, s2)) => {
                            let sp = join(e.span, v.span);
                            if e.kind is Index || e.kind is Member {
                                Some((ex(ExprKindD::AssignTarget(Box::new(e), Box::new(v)), sp), s2))
                            } else {
                                match e.kind {
                                    ExprKindD::Identifier(n) => Some(
                                        (ex(ExprKindD::AssignName(n, Box::new(v)), sp), s2),
                                    ),
                                    _ => None,
                                }
                            }
                        },
                    }
                } else {
                    Some((e, s1))
                }
            },
        }
    }
}

/// After `is`: `some(x)`, `none`, `ok(x)` or `err(x)`; `None` inside the
/// result where no pattern follows.
pub open spec fn g_is(ts: Seq<TokV>, s: PS, e: ExprD) -> Option<(Option<ExprD>, PS)> {
    if at_kind(ts, s, TokenType::NoneKw) {
        let s1 = adv(s);
        Some((Some(ex(ExprKindD::IsNone(Box::new(e)), join(e.span, prev_span(ts, s1)))), s1))
    } else if at_kind(ts, s, TokenType::SomeKw) || at_kind(ts, s, TokenType::OkKw) || at_kind(
        ts,
        s,
        TokenType::ErrKw,
    ) {
        match expect(ts, adv(s), TokenType::LParen) {
            None => None,
            Some(s2) => match take(ts, s2, TokenType::Identifier) {
                None => None,
                Some((b, s3)) => match expect(ts, s3, TokenType::RParen) {
                    None => None,
                    Some(s4) => {
                        let sp = join(e.span, prev_span(ts, s4));
                        let k = if at_kind(ts, s, TokenType::SomeKw) {
                            ExprKindD::IsSome(Box::new(e), b)
                        } else if at_kind(ts, s, TokenType::OkKw) {
                            ExprKindD::IsOk(Box::new(e), b)
                        } else {
                            ExprKindD::IsErr(Box::new(e), b)
                        };
                        Some((Some(ex(k, sp)), s4))
                    },
                },
            },
        }
    } else {
        Some((None, s))
    }
}

/// A unary operand, an optional `is` pattern, and a chain of one binary
/// operator.
#[verifier::opaque]
pub open spec fn g_binary(ts: Seq<TokV>, s: PS, depth: nat) -> Option<(ExprD, PS)>
    decreases depth, 0nat, 0int,
{
    if depth == 0 {
        None
    } else {
        let d = (depth - 1) as nat;
        match g_unary(ts, s, d) {
            None => None,
            Some((left, s1)) => {
                let r1 = if at_kind(ts, s1, TokenType::Is) {
                    g_is(ts, adv(s1), left)
                } else {
                    Some((None, s1))
                };
                match r1 {
                    None => None,
                    Some((Some(x), s2)) => Some((x, s2)),
                    Some((None, s2)) => if !binop_at(ts, s2) {
                        Some((left, s2))
                    } else {
                        let op = ts[s2.pos].text;
                        match g_unary(ts, adv(s2), d) {
                            None => None,
                            Some((right, s3)) => g_chain(
                                ts,
                                s3,
                                d,
                                op,
                                ex(
                                    ExprKindD::Binary(op, Box::new(left), Box::new(right)),
                                    join(left.span, right.span),
                                ),
                            ),
                        }
                    },
                }
            },
        }
    }
}

/// More of the same operator `op`, which must be associative.
#[verifier::opaque]
pub open spec fn g_chain(ts: Seq<TokV>, s: PS, d: nat, op: Seq<char>, acc: ExprD) -> Option<
    (ExprD, PS),
>
    decreases d, 1nat, ts.len() - s.pos,
{
    if !binop_at(ts, s) {
        Some((acc, s))
    } else if ts[s.pos].text != op || !associative_op(op) {
        None
    } else {
        match g_unary(ts, adv(s), d) {
            None => None,
            Some((r, s2)) => if progress(ts, s, s2) {
                g_chain(
                    ts,
                    s2,
                    d,
                    op,
                    ex(ExprKindD::Binary(op, Box::new(acc), Box::new(r)), join(acc.span, r.span)),
                )
            } else {
                None
            },
        }
    }
}

/// The operators that chain without parentheses: `+`, `*`, `&&`, `||`,
/// `&` and `|`.
pub open spec fn chainable_text(op: Seq<char>) -> bool {
    op == seq!['+'] || op == seq!['*'] || op == seq!['&', '&'] || op == seq!['|', '|'] || op == seq![
        '&',
    ] || op == seq!['|']
}

/// After `acc` built from `a op b`, one more `op` followed by an operand
/// `r` extends the chain to the left-nested `(acc op r)`, for each of the
/// chainable operators `+ * && || & |`.
pub proof fn law_chainable_operators_nest_left(
    ts: Seq<TokV>,
    s: PS,
    d: nat,
    op: Seq<char>,
    acc: ExprD,
    r: ExprD,
    s2: PS,
)
    requires
        chainable_text(op),
        binop_at(ts, s),
        ts[s.pos].text == op,
        g_unary(ts, adv(s), d) == Some((r, s2)),
        progress(ts, s, s2),
    ensures
        g_chain(ts, s, d, op, acc) == g_chain(
            ts,
            s2,
            d,
            op,
            ex(ExprKindD::Binary(op, Box::new(acc), Box::new(r)), join(acc.span, r.span)),
        ),
{
    reveal_with_fuel(g_chain, 1);
    reveal_with_fuel(g_unary, 1);
    assert(associative_op(op));
}

/// The other binary operators do not chain: `a - b - c`, `a / b / c`,
/// `a % b % c`, comparisons, shifts and `^` repeated are syntax errors.
pub proof fn law_other_operators_do_not_chain(ts: Seq<TokV>, s: PS, d: nat, op: Seq<char>, acc: ExprD)
    requires
        binop_at(ts, s),
        ts[s.pos].text == op,
        op.len() == 1 && (op[0] == '-' || op[0] == '/' || op[0] == '%' || op[0] == '<' || op[0] == '>'
            || op[0] == '^') || op.len() == 2 && (op == seq!['=', '='] || op == seq!['!', '='] || op
            == seq!['<', '='] || op == seq!['>', '='] || op == seq!['<', '<'] || op == seq!['>', '>']),
    ensures
        g_chain(ts, s, d, op, acc) is None,
{
    reveal_with_fuel(g_chain, 1);
    assert(!associative_op(op)) by {
        if op.len() == 2 {
            assert(op[0] == '=' || op[0] == '!' || op[0] == '<' || op[0] == '>');
        }
    }
}

/// No precedence between binary operators: after `a op b`, a binary
/// operator with other text is a syntax error; parentheses are needed.
pub proof fn law_mixed_operators_rejected(ts: Seq<TokV>, s: PS, d: nat, op: Seq<char>, acc: ExprD)
    requires
        binop_at(ts, s),
        ts[s.pos].text != op,
    ensures
        g_chain(ts, s, d, op, acc) is None,
{
    reveal_with_fuel(g_chain, 1);
}

/// Only the associative operators `+ * && || & |` chain: `a - b - c` is a
/// syntax error.
pub proof fn law_non_associative_rejected(
    ts: Seq<TokV>,
    s: PS,
    d: nat,
    op: Seq<char>,
    acc: ExprD,
)
    requires
        binop_at(ts, s),
        !associative_op(op),
    ensures
        g_chain(ts, s, d, op, acc) is None,
{
    reveal_with_fuel(g_chain, 1);
}

/// Whether a prefix operator was read (`-`, `!`, `not`, `~`), and the state
/// after. A `!=` token is read even when its text is not `!`.
pub open spec fn unary_prefix(ts: Seq<TokV>, s: PS) -> (bool, PS) {
    let (p1, s1) = if at_kind(ts, s, TokenType::Minus) {
        (true, adv(s))
    } else if at_kind(ts, s, TokenType::NotEqual) {
        (ts[s.pos].text == seq!['!'], adv(s))
    } else {
        (false, s)
    };
    let (p2, s2) = if !p1 && at_kind(ts, s1, TokenType::Not) {
        (true, adv(s1))
    } else {
        (p1, s1)
    };
    if !p2 && at_kind(ts, s2, TokenType::BitwiseNot) {
        (true, adv(s2))
    } else {
        (p2, s2)
    }
}

/// `as T` casts after an operand.
pub open spec fn g_as_loop(ts: Seq<TokV>, s: PS, e: ExprD) -> Option<(ExprD, PS)>
    decreases ts.len() - s.pos,
{
    if at_kind(ts, s, TokenType::As) {
        match take_type_or_ident(ts, adv(s)) {
            None => None,
            Some((n, s1)) => match g_suffix(ts, s1, n) {
                None => None,
                Some((n2, s2)) => if progress(ts, s, s2) {
                    g_as_loop(ts, s2, ex(ExprKindD::Cast(TypeD::Named(n2), Box::new(e)), e.span))
                } else {
                    None
                },
            },
        }
    } else {
        Some((e, s))
    }
}

#[verifier::opaque]
pub open spec fn g_unary(ts: Seq<TokV>, s: PS, depth: nat) -> Option<(ExprD, PS)>
    decreases depth, 0nat, 0int,
{
    if depth == 0 {
        None
    } else {
        let d = (depth - 1) as nat;
        if at_kind(ts, s, TokenType::Await) || at_kind(ts, s, TokenType::Spawn) {
            let start = ts[s.pos].span;
            match g_unary(ts, adv(s), d) {
                None => None,
                Some((a, s1)) => {
                    let k = if at_kind(ts, s, TokenType::Await) {
                        ExprKindD::Await(Box::new(a))
                    } else {
                        ExprKindD::Spawn(Box::new(a))
                    };
                    Some((ex(k, join(start, a.span)), s1))
                },
            }
        } else {
            let (p, s1) = unary_prefix(ts, s);
            if p {
                let op = ts[s1.pos - 1].text;
                let start = ts[s1.pos - 1].span;
                match g_unary(ts, s1, d) {
                    None => None,
                    Some((a, s2)) => Some(
                        (ex(ExprKindD::Unary(op, Box::new(a)), join(start, a.span)), s2),
                    ),
                }
            } else if at_kind(ts, s1, TokenType::Cast) {
                let start = ts[s1.pos].span;
                match expect(ts, adv(s1), TokenType::Less) {
                    None => None,
                    Some(s2) => match take(ts, s2, TokenType::TypeToken) {
                        None => None,
                        Some((tn, s3)) => match g_suffix(ts, s3, tn) {
                            None => None,
                            Some((tn2, s4)) => match expect(ts, s4, TokenType::Greater) {
                                None => None,
                                Some(s5) => match expect(ts, s5, TokenType::LParen) {
                                    None => None,
                                    Some(s6) => match g_expr(ts, s6, d) {
                                        None => None,
                                        Some((v, s7)) => match expect(ts, s7, TokenType::RParen) {
                                            None => None,
                                            Some(s8) => Some(
                                                (
                                                    ex(
                                                        ExprKindD::Cast(
                                                            TypeD::Named(tn2),
                                                            Box::new(v),
                                                        ),
                                                        join(start, v.span),
                                                    ),
                                                    s8,
                                                ),
                                            ),
                                        },
                                    },
                                },
                            },
                        },
                    },
                }
            } else {
                match g_primary(ts, s1, d) {
                    None => None,
                    Some((e, s2)) => if at_kind(ts, s2, TokenType::QuestionMark) {
                        g_as_loop(
                            ts,
                            adv(s2),
                            ex(ExprKindD::Propagate(Box::new(e)), join(e.span, ts[s2.pos].span)),
                        )
                    } else {
                        g_as_loop(ts, s2, e)
                    },
                }
            }
        }
    }
}

/// Arguments up to (not including) `)`.
#[verifier::opaque]
pub open spec fn g_args(ts: Seq<TokV>, s: PS, depth: nat) -> Option<(Seq<ExprD>, PS)>
    decreases depth, 0nat, 0int,
{
    if depth == 0 {
        None
    } else if at_kind(ts, s, TokenType::RParen) {
        Some((Seq::empty(), s))
    } else {
        g_args_loop(ts, s, (depth - 1) as nat, Seq::empty())
    }
}

#[verifier::opaque]
pub open spec fn g_args_loop(ts: Seq<TokV>, s: PS, d: nat, acc: Seq<ExprD>) -> Option<
    (Seq<ExprD>, PS),
>
    decreases d, 1nat, ts.len() - s.pos,
{
    match g_expr(ts, s, d) {
        None => None,
        Some((e, s1)) => if at_kind(ts, s1, TokenType::Comma) {
            let s2 = adv(s1);
            if progress(ts, s, s2) {
                g_args_loop(ts, s2, d, acc.push(e))
            } else {
                None
            }
        } else {
            Some((acc.push(e), s1))
        },
    }
}

#[verifier::opaque]
pub open spec fn g_primary(ts: Seq<TokV>, s: PS, depth: nat) -> Option<(ExprD, PS)>
    decreases depth, 0nat, 0int,
{
    if depth == 0 {
        None
    } else {
        let d = (depth - 1) as nat;
        let here = ts[s.pos].span;
        if at_kind(ts, s, TokenType::Soa) {
            match g_soa(ts, adv(s)) {
                None => None,
                Some(((sn, c), s1)) => Some((ex(ExprKindD::SoA(sn, c), wspan(ts)), s1)),
            }
        } else if at_kind(ts, s, TokenType::If) {
            g_if_expr(ts, adv(s), d)
        } else if at_kind(ts, s, TokenType::Match) {
            g_match(ts, adv(s), d)
        } else if at_kind(ts, s, TokenType::Fn) {
            g_lambda(ts, adv(s), d)
        } else if at_kind(ts, s, TokenType::OkKw) || at_kind(ts, s, TokenType::ErrKw) || at_kind(
            ts,
            s,
            TokenType::SomeKw,
        ) {
            match expect(ts, adv(s), TokenType::LParen) {
                None => None,
                Some(s1) => match g_expr(ts, s1, d) {
                    None => None,
                    Some((v, s2)) => match expect(ts, s2, TokenType::RParen) {
                        None => None,
                        Some(s3) => {
                            let k = if at_kind(ts, s, TokenType::OkKw) {
                                ExprKindD::OkE(Box::new(v))
                            } else if at_kind(ts, s, TokenType::ErrKw) {
                                ExprKindD::ErrE(Box::new(v))
                            } else {
                                ExprKindD::SomeE(Box::new(v))
                            };
                            Some((ex(k, join(here, v.span)), s3))
                        },
                    },
                },
            }
        } else if at_kind(ts, s, TokenType::NoneKw) {
            Some((ex(ExprKindD::NoneE, here), adv(s)))
        } else if at_kind(ts, s, TokenType::False) {
            Some((ex(ExprKindD::Bool(false), here), adv(s)))
        } else if at_kind(ts, s, TokenType::True) {
            Some((ex(ExprKindD::Bool(true), here), adv(s)))
        } else if at_kind(ts, s, TokenType::Number) {
            Some((ex(ExprKindD::Number(ts[s.pos].text), here), adv(s)))
        } else if at_kind(ts, s, TokenType::StringLit) {
            match g_string_value(ts, s) {
                None => None,
                Some((v, s1)) => Some((ex(ExprKindD::Str(v), here), s1)),
            }
        } else if at_kind(ts, s, TokenType::TemplateStringStart) {
            g_template(ts, s, d)
        } else if at_kind(ts, s, TokenType::Tensor) {
            g_tensor_ctor(ts, adv(s), d)
        } else if at_kind(ts, s, TokenType::Identifier) {
            g_ident_expr(ts, adv(s), d)
        } else if at_kind(ts, s, TokenType::LBracket) {
            g_array_lit(ts, adv(s), d)
        } else if at_kind(ts, s, TokenType::LBrace) {
            g_map_lit(ts, adv(s), d)
        } else if at_kind(ts, s, TokenType::LParen) {
            match g_expr(ts, adv(s), d) {
                None => None,
                Some((e, s1)) => match expect(ts, s1, TokenType::RParen) {
                    None => None,
                    Some(s2) => Some((e, s2)),
                },
            }
        } else {
            None
        }
    }
}

/// `tensor<T>(args)` after `tensor`, then member calls.
#[verifier::opaque]
pub open spec fn g_tensor_ctor(ts: Seq<TokV>, s: PS, depth: nat) -> Option<(ExprD, PS)>
    decreases depth, 0nat, 0int,
{
    if depth == 0 {
        None
    } else {
        let d = (depth - 1) as nat;
        let start = prev_span(ts, s);
        match g_tensor_dtype(ts, s) {
            None => None,
            Some((dt, s1)) => {
                let a: Option<(Seq<ExprD>, PS)> = if at_kind(ts, s1, TokenType::LParen) {
                    match g_args(ts, adv(s1), d) {
                        None => None,
                        Some((args, s2)) => match expect(ts, s2, TokenType::RParen) {
                            None => None,
                            Some(s3) => Some((args, s3)),
                        },
                    }
                } else {
                    Some((Seq::empty(), s1))
                };
                match a {
                    None => None,
                    Some((args, s2)) => {
                        let end = last_pos(ts);
                        g_member_calls(
                            ts,
                            s2,
                            d,
                            ex(ExprKindD::Tensor(dt, args), Span { start: start.start, end }),
                        )
                    },
                }
            },
        }
    }
}

/// `.name` and `.name(args)` after a tensor construction.
#[verifier::opaque]
pub open spec fn g_member_calls(ts: Seq<TokV>, s: PS, d: nat, obj: ExprD) -> Option<(ExprD, PS)>
    decreases d, 1nat, ts.len() - s.pos,
{
    if at_kind(ts, s, TokenType::Dot) {
        match take(ts, adv(s), TokenType::Identifier) {
            None => None,
            Some((p, s1)) => {
                let m = ex(ExprKindD::Member(Box::new(obj), p), join(obj.span, prev_span(ts, s1)));
                if at_kind(ts, s1, TokenType::LParen) {
                    match g_args(ts, adv(s1), d) {
                        None => None,
                        Some((args, s2)) => match expect(ts, s2, TokenType::RParen) {
                            None => None,
                            Some(s3) => if progress(ts, s, s3) {
                                g_member_calls(
                                    ts,
                                    s3,
                                    d,
                                    ex(
                                        ExprKindD::Call(Box::new(m), args, None),
                                        join(m.span, prev_span(ts, s3)),
                                    ),
                                )
                            } else {
                                None
                            },
                        },
                    }
                } else if progress(ts, s, s1) {
                    g_member_calls(ts, s1, d, m)
                } else {
                    None
                }
            },
        }
    } else {
        Some((obj, s))
    }
}

/// After a name: a struct literal `Name { f: v }` where allowed, else the
/// name with its suffixes.
#[verifier::opaque]
pub open spec fn g_ident_expr(ts: Seq<TokV>, s: PS, depth: nat) -> Option<(ExprD, PS)>
    decreases depth, 0nat, 0int,
{
    if depth == 0 {
        None
    } else {
        let d = (depth - 1) as nat;
        let name = ts[s.pos - 1].text;
        let tsp = prev_span(ts, s);
        if s.allow && at_kind(ts, s, TokenType::LBrace) {
            let s1 = adv(s);
            let fs: Option<(Seq<(Seq<char>, ExprD)>, PS)> = if at_kind(ts, s1, TokenType::RBrace) {
                Some((Seq::empty(), s1))
            } else {
                g_field_inits(ts, s1, d, Seq::empty())
            };
            match fs {
                None => None,
                Some((f, s2)) => match expect(ts, s2, TokenType::RBrace) {
                    None => None,
                    Some(s3) => Some(
                        (ex(ExprKindD::StructLit(name, f), join(tsp, prev_span(ts, s3))), s3),
                    ),
                },
            }
        } else {
            g_postfix(ts, s, d, ex(ExprKindD::Identifier(name), tsp))
        }
    }
}

#[verifier::opaque]
pub open spec fn g_field_inits(
    ts: Seq<TokV>,
    s: PS,
    d: nat,
    acc: Seq<(Seq<char>, ExprD)>,
) -> Option<(Seq<(Seq<char>, ExprD)>, PS)>
    decreases d, 1nat, ts.len() - s.pos,
{
    match take(ts, s, TokenType::Identifier) {
        None => None,
        Some((n, s1)) => match expect(ts, s1, TokenType::Colon) {
            None => None,
            Some(s2) => match g_expr(ts, s2, d) {
                None => None,
                Some((v, s3)) => if at_kind(ts, s3, TokenType::Comma) {
                    let s4 = adv(s3);
                    if progress(ts, s, s4) {
                        g_field_inits(ts, s4, d, acc.push((n, v)))
                    } else {
                        None
                    }
                } else {
                    Some((acc.push((n, v)), s3))
                },
            },
        },
    }
}

/// Index, slice, call and member suffixes.
#[verifier::opaque]
pub open spec fn g_postfix(ts: Seq<TokV>, s: PS, d: nat, obj: ExprD) -> Option<(ExprD, PS)>
    decreases d, 1nat, ts.len() - s.pos,
{
    if at_kind(ts, s, TokenType::LBracket) {
        match g_expr(ts, adv(s), d) {
            None => None,
            Some((first, s1)) => {
                let r: Option<(ExprD, PS)> = if at_kind(ts, s1, TokenType::Colon) {
                    match g_expr(ts, adv(s1), d) {
                        None => None,
                        Some((end, s2)) => match expect(ts, s2, TokenType::RBracket) {
                            None => None,
                            Some(s3) => Some(
                                (
                                    ex(
                                        ExprKindD::Slice(
                                            Box::new(obj),
                                            Box::new(first),
                                            Box::new(end),
                                        ),
                                        join(obj.span, end.span),
                                    ),
                                    s3,
                                ),
                            ),
                        },
                    }
                } else {
                    match expect(ts, s1, TokenType::RBracket) {
                        None => None,
                        Some(s2) => Some(
                            (
                                ex(
                                    ExprKindD::Index(Box::new(obj), Box::new(first)),
                                    join(obj.span, first.span),
                                ),
                                s2,
                            ),
                        ),
                    }
                };
                match r {
                    None => None,
                    Some((o2, s2)) => if progress(ts, s, s2) {
                        g_postfix(ts, s2, d, o2)
                    } else {
                        None
                    },
                }
            },
        }
    } else if at_kind(ts, s, TokenType::LParen) {
        let s1 = adv(s);
        let a: Option<((Seq<ExprD>, Seq<(Seq<char>, ExprD)>), PS)> = if at_kind(
            ts,
            s1,
            TokenType::RParen,
        ) {
            Some(((Seq::empty(), Seq::empty()), s1))
        } else {
            g_call_args(ts, s1, d, Seq::empty(), Seq::empty())
        };
        match a {
            None => None,
            Some(((args, named), s2)) => match expect(ts, s2, TokenType::RParen) {
                None => None,
                Some(s3) => {
                    let nd = if named.len() == 0 {
                        None
                    } else {
                        Some(named)
                    };
                    let o2 = ex(
                        ExprKindD::Call(Box::new(obj), args, nd),
                        join(obj.span, prev_span(ts, s3)),
                    );
                    if progress(ts, s, s3) {
                        g_postfix(ts, s3, d, o2)
                    } else {
                        None
                    }
                },
            },
        }
    } else if at_kind(ts, s, TokenType::Dot) {
        match take(ts, adv(s), TokenType::Identifier) {
            None => None,
            Some((p, s1)) => if progress(ts, s, s1) {
                g_postfix(
                    ts,
                    s1,
                    d,
                    ex(ExprKindD::Member(Box::new(obj), p), join(obj.span, prev_span(ts, s1))),
                )
            } else {
                None
            },
        }
    } else {
        Some((obj, s))
    }
}

/// Call arguments, each positional or `name: value`, up to `)`.
#[verifier::opaque]
pub open spec fn g_call_args(
    ts: Seq<TokV>,
    s: PS,
    d: nat,
    args: Seq<ExprD>,
    named: Seq<(Seq<char>, ExprD)>,
) -> Option<((Seq<ExprD>, Seq<(Seq<char>, ExprD)>), PS)>
    decreases d, 1nat, ts.len() - s.pos,
{
    let one: Option<((Seq<ExprD>, Seq<(Seq<char>, ExprD)>), PS)> = if at_kind(
        ts,
        s,
        TokenType::Identifier,
    ) && next_kind(ts, s, TokenType::Colon) {
        match g_expr(ts, adv(adv(s)), d) {
            None => None,
            Some((v, s3)) => Some(((args, named.push((ts[s.pos].text, v))), s3)),
        }
    } else {
        match g_expr(ts, s, d) {
            None => None,
            Some((e, s3)) => Some(((args.push(e), named), s3)),
        }
    };
    match one {
        None => None,
        Some(((a2, n2), s3)) => if at_kind(ts, s3, TokenType::Comma) {
            let s4 = adv(s3);
            if progress(ts, s, s4) {
                g_call_args(ts, s4, d, a2, n2)
            } else {
                None
            }
        } else {
            Some(((a2, n2), s3))
        },
    }
}

/// A lambda after `fn`.
#[verifier::opaque]
pub open spec fn g_lambda(ts: Seq<TokV>, s: PS, depth: nat) -> Option<(ExprD, PS)>
    decreases depth, 0nat, 0int,
{
    if depth == 0 {
        None
    } else {
        let d = (depth - 1) as nat;
        match expect(ts, s, TokenType::LParen) {
            None => None,
            Some(s1) => match g_params(ts, s1, d) {
                None => None,
                Some((ps, s2)) => match expect(ts, s2, TokenType::RParen) {
                    None => None,
                    Some(s3) => {
                        let rt = if at_kind(ts, s3, TokenType::Arrow) {
                            g_ret_type(ts, adv(s3), d)
                        } else {
                            Some((TypeD::Void, s3))
                        };
                        match rt {
                            None => None,
                            Some((t, s4)) => match g_fn_body(ts, s4, d) {
                                None => None,
                                Some((b, s5)) => Some(
                                    (ex(ExprKindD::Lambda(ps, t, b), wspan(ts)), s5),
                                ),
                            },
                        }
                    },
                },
            },
        }
    }
}

/// An if expression after `if`; with no `else`, the else branch is an
/// empty block.
#[verifier::opaque]
pub open spec fn g_if_expr(ts: Seq<TokV>, s: PS, depth: nat) -> Option<(ExprD, PS)>
    decreases depth, 0nat, 0int,
{
    if depth == 0 {
        None
    } else {
        let d = (depth - 1) as nat;
        match g_condition(ts, s, d) {
            None => None,
            Some((c, s1)) => match expect(ts, s1, TokenType::LBrace) {
                None => None,
                Some(s2) => match g_block_body(ts, s2, d) {
                    None => None,
                    Some((tb, s3)) => {
                        let eb: Option<(ElseD, PS)> = if at_kind(ts, s3, TokenType::Else) {
                            let s4 = adv(s3);
                            if at_kind(ts, s4, TokenType::If) {
                                match g_if_expr(ts, adv(s4), d) {
                                    None => None,
                                    Some((x, s5)) => Some((ElseD::If(Box::new(x)), s5)),
                                }
                            } else {
                                match expect(ts, s4, TokenType::LBrace) {
                                    None => None,
                                    Some(s5) => match g_block_body(ts, s5, d) {
                                        None => None,
                                        Some((b, s6)) => Some((ElseD::Block(b), s6)),
                                    },
                                }
                            }
                        } else {
                            match new_scope(s3) {
                                None => None,
                                Some((n, s4)) => Some(
                                    (
                                        ElseD::Block(
                                            BlockD {
                                                stmts: Seq::empty(),
                                                scope: n,
                                                span: wspan(ts),
                                            },
                                        ),
                                        s4,
                                    ),
                                ),
                            }
                        };
                        match eb {
                            None => None,
                            Some((e, s4)) => Some(
                                (ex(ExprKindD::If(Box::new(c), tb, e), wspan(ts)), s4),
                            ),
                        }
                    },
                },
            },
        }
    }
}

/// The pattern of a match arm.
#[verifier::opaque]
pub open spec fn g_pattern(ts: Seq<TokV>, s: PS, depth: nat) -> Option<(PatternD, PS)>
    decreases depth, 0nat, 0int,
{
    if depth == 0 {
        None
    } else if at_kind(ts, s, TokenType::Underscore) {
        Some((PatternD::Wildcard, adv(s)))
    } else {
        let vs = at_kind(ts, s, TokenType::Identifier) || at_kind(ts, s, TokenType::OkKw)
            || at_kind(ts, s, TokenType::ErrKw) || at_kind(ts, s, TokenType::SomeKw) || at_kind(
            ts,
            s,
            TokenType::NoneKw,
        );
        if vs && next_kind(ts, s, TokenType::LParen) {
            let name = ts[s.pos].text;
            let s2 = adv(adv(s));
            let b: Option<(Option<Seq<char>>, PS)> = if !at_kind(ts, s2, TokenType::RParen) {
                match take(ts, s2, TokenType::Identifier) {
                    None => None,
                    Some((x, s3)) => Some((Some(x), s3)),
                }
            } else {
                Some((None, s2))
            };
            match b {
                None => None,
                Some((bo, s3)) => match expect(ts, s3, TokenType::RParen) {
                    None => None,
                    Some(s4) => Some((PatternD::Variant(name, bo), s4)),
                },
            }
        } else if at_kind(ts, s, TokenType::NoneKw) && !next_kind(ts, s, TokenType::LParen) {
            Some((PatternD::Variant(none_word(), None), adv(s)))
        } else {
            match g_expr(ts, s, (depth - 1) as nat) {
                None => None,
                Some((v, s1)) => Some((PatternD::Literal(v), s1)),
            }
        }
    }
}

/// A match expression after `match`.
#[verifier::opaque]
pub open spec fn g_match(ts: Seq<TokV>, s: PS, depth: nat) -> Option<(ExprD, PS)>
    decreases depth, 0nat, 0int,
{
    if depth == 0 {
        None
    } else {
        let d = (depth - 1) as nat;
        match g_header(ts, s, d) {
            None => None,
            Some((subj, s1)) => match expect(ts, s1, TokenType::LBrace) {
                None => None,
                Some(s2) => match g_arms(ts, s2, d, subj.span, Seq::empty()) {
                    None => None,
                    Some((arms, s3)) => match expect(ts, s3, TokenType::RBrace) {
                        None => None,
                        Some(s4) => Some(
                            (ex(ExprKindD::Match(Box::new(subj), arms), wspan(ts)), s4),
                        ),
                    },
                },
            },
        }
    }
}

#[verifier::opaque]
pub open spec fn g_arms(ts: Seq<TokV>, s: PS, d: nat, subj: Span, acc: Seq<ArmD>) -> Option<
    (Seq<ArmD>, PS),
>
    decreases d, 1nat, ts.len() - s.pos,
{
    if at_kind(ts, s, TokenType::RBrace) || at_end(ts, s) {
        Some((acc, s))
    } else {
        match g_pattern(ts, s, d) {
            None => None,
            Some((p, s1)) => match expect(ts, s1, TokenType::FatArrow) {
                None => None,
                Some(s2) => {
                    let body: Option<(ExprD, PS)> = if at_kind(ts, s2, TokenType::LBrace) {
                        match g_stmts_to_brace(ts, adv(s2), d) {
                            None => None,
                            Some((ss, s3)) => g_arm_body(ts, s3, ss, subj),
                        }
                    } else {
                        g_expr(ts, s2, d)
                    };
                    match body {
                        None => None,
                        Some((b, s3)) => {
                            let s4 = eat(ts, s3, TokenType::Comma);
                            if progress(ts, s, s4) {
                                g_arms(ts, s4, d, subj, acc.push(ArmD { pattern: p, body: b }))
                            } else {
                                None
                            }
                        },
                    }
                },
            },
        }
    }
}

/// What a braced arm body stands for: `0` when empty, its one expression
/// statement, or a block expression of its statements.
pub open spec fn g_arm_body(ts: Seq<TokV>, s: PS, ss: Seq<StmtD>, subj: Span) -> Option<
    (ExprD, PS),
> {
    if ss.len() == 0 {
        Some((ex(ExprKindD::Number(zero_text()), subj), s))
    } else {
        let single: Option<ExprD> = if ss.len() == 1 {
            match ss[0].kind {
                StmtKindD::ExprStmt(e) => Some(e),
                _ => None,
            }
        } else {
            None
        };
        match single {
            Some(e) => Some((e, s)),
            None => match new_scope(s) {
                None => None,
                Some((n, s1)) => Some(
                    (
                        ex(
                            ExprKindD::BlockExpr(BlockD { stmts: ss, scope: n, span: wspan(ts) }),
                            wspan(ts),
                        ),
                        s1,
                    ),
                ),
            },
        }
    }
}

/// The expression of a template interpolation: its text lexed and parsed
/// on its own. The position moves past the text token.
#[verifier::opaque]
pub open spec fn g_interp(ts: Seq<TokV>, s: PS, depth: nat) -> Option<(ExprD, PS)>
    decreases depth, 0nat, 0int,
{
    if depth == 0 {
        None
    } else {
        let text = ts[s.pos].text;
        if utf8_len(text) >= u32::MAX {
            None
        } else {
            match g_expr(non_ws(lex(text), text), start_state(), (depth - 1) as nat) {
                None => None,
                Some((e, _)) => Some((e, adv(s))),
            }
        }
    }
}

/// A template string from its start token.
#[verifier::opaque]
pub open spec fn g_template(ts: Seq<TokV>, s: PS, depth: nat) -> Option<(ExprD, PS)>
    decreases depth, 0nat, 0int,
{
    if depth == 0 {
        None
    } else {
        let start = ts[s.pos].span.start;
        match g_tparts(ts, adv(s), (depth - 1) as nat, Seq::empty()) {
            None => None,
            Some((ps, s1)) => match expect(ts, s1, TokenType::TemplateStringEnd) {
                None => None,
                Some(s2) => Some(
                    (ex(ExprKindD::Template(ps), Span { start, end: ts[s2.pos - 1].span.end }), s2),
                ),
            },
        }
    }
}

#[verifier::opaque]
pub open spec fn g_tparts(ts: Seq<TokV>, s: PS, d: nat, acc: Seq<PartD>) -> Option<
    (Seq<PartD>, PS),
>
    decreases d, 1nat, ts.len() - s.pos,
{
    if at_kind(ts, s, TokenType::TemplateStringEnd) || at_end(ts, s) {
        Some((acc, s))
    } else if at_kind(ts, s, TokenType::TemplateStringPart) {
        let text = ts[s.pos].text;
        let acc2 = if text.len() == 0 {
            acc
        } else {
            acc.push(PartD::Text(text))
        };
        g_tparts(ts, adv(s), d, acc2)
    } else if at_kind(ts, s, TokenType::TemplateInterpStart) {
        let s1 = adv(s);
        let r: Option<(Seq<PartD>, PS)> = if at_kind(ts, s1, TokenType::TemplateStringPart) {
            match g_interp(ts, s1, d) {
                None => None,
                Some((e, s2)) => Some((acc.push(PartD::Expr(e)), s2)),
            }
        } else {
            Some((acc, s1))
        };
        match r {
            None => None,
            Some((acc2, s2)) => match expect(ts, s2, TokenType::TemplateInterpEnd) {
                None => None,
                Some(s3) => if progress(ts, s, s3) {
                    g_tparts(ts, s3, d, acc2)
                } else {
                    None
                },
            },
        }
    } else {
        Some((acc, s))
    }
}

/// An array literal or fill after `[`.
#[verifier::opaque]
pub open spec fn g_array_lit(ts: Seq<TokV>, s: PS, depth: nat) -> Option<(ExprD, PS)>
    decreases depth, 0nat, 0int,
{
    if depth == 0 {
        None
    } else {
        let d = (depth - 1) as nat;
        let start = ts[s.pos - 1].span.start;
        let sp = Span { start, end: last_pos(ts) };
        if at_kind(ts, s, TokenType::RBracket) {
            Some((ex(ExprKindD::Array(Seq::empty()), sp), adv(s)))
        } else {
            match g_expr(ts, s, d) {
                None => None,
                Some((first, s1)) => if at_kind(ts, s1, TokenType::Semicolon) {
                    match g_expr(ts, adv(s1), d) {
                        None => None,
                        Some((count, s2)) => match expect(ts, s2, TokenType::RBracket) {
                            None => None,
                            Some(s3) => Some(
                                (ex(ExprKindD::Fill(Box::new(first), Box::new(count)), sp), s3),
                            ),
                        },
                    }
                } else {
                    match g_elems(ts, s1, d, seq![first]) {
                        None => None,
                        Some((es, s2)) => match expect(ts, s2, TokenType::RBracket) {
                            None => None,
                            Some(s3) => Some((ex(ExprKindD::Array(es), sp), s3)),
                        },
                    }
                },
            }
        }
    }
}

#[verifier::opaque]
pub open spec fn g_elems(ts: Seq<TokV>, s: PS, d: nat, acc: Seq<ExprD>) -> Option<
    (Seq<ExprD>, PS),
>
    decreases d, 1nat, ts.len() - s.pos,
{
    if at_kind(ts, s, TokenType::Comma) {
        match g_expr(ts, adv(s), d) {
            None => None,
            Some((e, s1)) => if progress(ts, s, s1) {
                g_elems(ts, s1, d, acc.push(e))
            } else {
                None
            },
        }
    } else {
        Some((acc, s))
    }
}

/// A map-literal key: a quoted string (quotes removed), other string text,
/// a number, or a name.
pub open spec fn g_map_key(ts: Seq<TokV>, s: PS) -> Option<(Seq<char>, PS)> {
    if at_kind(ts, s, TokenType::StringLit) {
        let raw = ts[s.pos].text;
        if raw.len() > 0 && (raw[0] == '"' || raw[0] == '\'') {
            match quoted_inner(raw) {
                Some(x) => Some((x, adv(s))),
                None => None,
            }
        } else {
            Some((raw, adv(s)))
        }
    } else if at_kind(ts, s, TokenType::Number) {
        take(ts, s, TokenType::Number)
    } else {
        take(ts, s, TokenType::Identifier)
    }
}

/// A map literal after `{`.
#[verifier::opaque]
pub open spec fn g_map_lit(ts: Seq<TokV>, s: PS, depth: nat) -> Option<(ExprD, PS)>
    decreases depth, 0nat, 0int,
{
    if depth == 0 {
        None
    } else {
        let start = ts[s.pos - 1].span.start;
        match g_entries(ts, s, (depth - 1) as nat, Seq::empty()) {
            None => None,
            Some((es, s1)) => match expect(ts, s1, TokenType::RBrace) {
                None => None,
                Some(s2) => Some(
                    (ex(ExprKindD::MapLit(es), Span { start, end: last_pos(ts) }), s2),
                ),
            },
        }
    }
}

#[verifier::opaque]
pub open spec fn g_entries(
    ts: Seq<TokV>,
    s: PS,
    d: nat,
    acc: Seq<(Seq<char>, ExprD)>,
) -> Option<(Seq<(Seq<char>, ExprD)>, PS)>
    decreases d, 1nat, ts.len() - s.pos,
{
    if at_kind(ts, s, TokenType::RBrace) || at_end(ts, s) {
        Some((acc, s))
    } else {
        match g_map_key(ts, s) {
            None => None,
            Some((k, s1)) => match expect(ts, s1, TokenType::Colon) {
                None => None,
                Some(s2) => match g_expr(ts, s2, d) {
                    None => None,
                    Some((v, s3)) => {
                        let s4 = eat(ts, s3, TokenType::Comma);
                        if progress(ts, s, s4) {
                            g_entries(ts, s4, d, acc.push((k, v)))
                        } else {
                            None
                        }
                    },
                },
            },
        }
    }
}

} // verus!
