//! The syntax of Mog, stated over token views: what the parser builds
//! from a token sequence, or `None` where it reports a syntax error.
//!
//! Each `g_*` function reads from a parse state (position, scope counter,
//! whether struct literals are allowed) and gives a description of what
//! it read with the state after it. `depth` bounds how deeply the reading
//! may nest, as the parser's call depth is bounded.

use vstd::prelude::*;

use crate::ast::{Position, Span};
use crate::lexer_spec::{col_at, idx_at, line_at, Lexeme};
use crate::parser::binary_op_token;
use crate::token::{Token, TokenType};
use crate::type_names::{custom_named, primitive_named, resolves, usize_literal};
use crate::types::Type;

verus! {

// ---------------------------------------------------------------------------
// Token views and parse states
// ---------------------------------------------------------------------------

/// What the parser reads of a token.
pub struct TokV {
    pub kind: TokenType,
    pub text: Seq<char>,
    pub span: Span,
}

pub open spec fn tv(t: Token) -> TokV {
    TokV { kind: t.token_type, text: t.value@, span: t.span }
}

pub open spec fn tvs(ts: Seq<Token>) -> Seq<TokV> {
    ts.map_values(|t: Token| tv(t))
}

/// The source position of character position `i` of `s`.
pub open spec fn pos_of(s: Seq<char>, i: int) -> Position {
    Position { line: line_at(s, i) as u32, column: col_at(s, i) as u32, index: idx_at(s, i) as u32 }
}

/// The token the lexer makes of lexeme `l` of source `s`.
pub open spec fn lexeme_tok(l: Lexeme, s: Seq<char>) -> TokV {
    TokV { kind: l.kind, text: l.text, span: Span { start: pos_of(s, l.start), end: pos_of(s, l.end) } }
}

/// The tokens of `ls` that are not whitespace.
pub open spec fn non_ws(ls: Seq<Lexeme>, s: Seq<char>) -> Seq<TokV>
    decreases ls.len(),
{
    if ls.len() == 0 {
        Seq::empty()
    } else if ls.last().kind == TokenType::Whitespace {
        non_ws(ls.drop_last(), s)
    } else {
        non_ws(ls.drop_last(), s).push(lexeme_tok(ls.last(), s))
    }
}

/// The tokens of `ls` that carry syntax: all but whitespace and comments.
pub open spec fn source_toks(ls: Seq<Lexeme>, s: Seq<char>) -> Seq<TokV>
    decreases ls.len(),
{
    if ls.len() == 0 {
        Seq::empty()
    } else if ls.last().kind == TokenType::Whitespace || ls.last().kind == TokenType::Comment {
        source_toks(ls.drop_last(), s)
    } else {
        source_toks(ls.drop_last(), s).push(lexeme_tok(ls.last(), s))
    }
}

/// The parser's position, scope counter, and whether a name followed by
/// `{` starts a struct literal.
pub struct PS {
    pub pos: int,
    pub scope: nat,
    pub allow: bool,
}

pub open spec fn start_state() -> PS {
    PS { pos: 0, scope: 0, allow: true }
}

pub open spec fn at_kind(ts: Seq<TokV>, s: PS, k: TokenType) -> bool {
    0 <= s.pos < ts.len() && ts[s.pos].kind == k
}

pub open spec fn next_kind(ts: Seq<TokV>, s: PS, k: TokenType) -> bool {
    0 <= s.pos && s.pos + 1 < ts.len() && ts[s.pos + 1].kind == k
}

pub open spec fn adv(s: PS) -> PS {
    PS { pos: s.pos + 1, ..s }
}

/// Reads a token of kind `k` if there is one.
pub open spec fn eat(ts: Seq<TokV>, s: PS, k: TokenType) -> PS {
    if at_kind(ts, s, k) {
        adv(s)
    } else {
        s
    }
}

/// Reads a token of kind `k`, giving its text.
pub open spec fn take(ts: Seq<TokV>, s: PS, k: TokenType) -> Option<(Seq<char>, PS)> {
    if at_kind(ts, s, k) {
        Some((ts[s.pos].text, adv(s)))
    } else {
        None
    }
}

pub open spec fn take_type_or_ident(ts: Seq<TokV>, s: PS) -> Option<(Seq<char>, PS)> {
    if at_kind(ts, s, TokenType::TypeToken) {
        take(ts, s, TokenType::TypeToken)
    } else {
        take(ts, s, TokenType::Identifier)
    }
}

/// The span of the token before the position.
pub open spec fn prev_span(ts: Seq<TokV>, s: PS) -> Span {
    ts[s.pos - 1].span
}

pub open spec fn origin() -> Position {
    Position { line: 1, column: 1, index: 0 }
}

pub open spec fn last_pos(ts: Seq<TokV>) -> Position {
    if ts.len() == 0 {
        origin()
    } else {
        ts.last().span.end
    }
}

/// The span declarations carry: from `1:1` to the end of the input.
pub open spec fn wspan(ts: Seq<TokV>) -> Span {
    Span { start: origin(), end: last_pos(ts) }
}

pub open spec fn join(a: Span, b: Span) -> Span {
    Span { start: a.start, end: b.end }
}

/// Opens a scope: its number, and the state after.
pub open spec fn new_scope(s: PS) -> Option<(nat, PS)> {
    if s.scope >= u32::MAX {
        None
    } else {
        Some(((s.scope + 1) as nat, PS { scope: (s.scope + 1) as nat, ..s }))
    }
}

/// The name of scope number `n`: `scope_n`.
pub open spec fn scope_name(n: nat) -> Seq<char> {
    seq!['s', 'c', 'o', 'p', 'e', '_'] + crate::type_names::decimal(n)
}

pub open spec fn result_word() -> Seq<char> {
    seq!['R', 'e', 's', 'u', 'l', 't']
}

pub open spec fn future_word() -> Seq<char> {
    seq!['F', 'u', 't', 'u', 'r', 'e']
}

pub open spec fn binop_at(ts: Seq<TokV>, s: PS) -> bool {
    0 <= s.pos < ts.len() && binary_op_token(ts[s.pos].kind, ts[s.pos].text)
}

// ---------------------------------------------------------------------------
// Descriptions of what is read
// ---------------------------------------------------------------------------

/// A type as written.
pub enum TypeD {
    /// A type name (with any `[]` suffixes): the type it stands for.
    Named(Seq<char>),
    Optional(Box<TypeD>),
    Result(Box<TypeD>),
    Future(Box<TypeD>),
    Soa(Seq<char>, Option<usize>),
    Tensor(Type),
    Function(Seq<TypeD>, Box<TypeD>),
    MapOf(Seq<char>, Seq<char>),
    Void,
}

pub struct ExprD {
    pub kind: ExprKindD,
    pub span: Span,
}

pub enum ExprKindD {
    Identifier(Seq<char>),
    Number(Seq<char>),
    Bool(bool),
    Str(Seq<char>),
    Template(Seq<PartD>),
    Array(Seq<ExprD>),
    Fill(Box<ExprD>, Box<ExprD>),
    MapLit(Seq<(Seq<char>, ExprD)>),
    StructLit(Seq<char>, Seq<(Seq<char>, ExprD)>),
    SoA(Seq<char>, Option<usize>),
    Tensor(Type, Seq<ExprD>),
    Binary(Seq<char>, Box<ExprD>, Box<ExprD>),
    Unary(Seq<char>, Box<ExprD>),
    AssignName(Seq<char>, Box<ExprD>),
    AssignTarget(Box<ExprD>, Box<ExprD>),
    Call(Box<ExprD>, Seq<ExprD>, Option<Seq<(Seq<char>, ExprD)>>),
    Member(Box<ExprD>, Seq<char>),
    Index(Box<ExprD>, Box<ExprD>),
    Slice(Box<ExprD>, Box<ExprD>, Box<ExprD>),
    Lambda(Seq<ParamD>, TypeD, BlockD),
    BlockExpr(BlockD),
    Cast(TypeD, Box<ExprD>),
    If(Box<ExprD>, BlockD, ElseD),
    Match(Box<ExprD>, Seq<ArmD>),
    OkE(Box<ExprD>),
    ErrE(Box<ExprD>),
    SomeE(Box<ExprD>),
    NoneE,
    Propagate(Box<ExprD>),
    IsSome(Box<ExprD>, Seq<char>),
    IsNone(Box<ExprD>),
    IsOk(Box<ExprD>, Seq<char>),
    IsErr(Box<ExprD>, Seq<char>),
    Await(Box<ExprD>),
    Spawn(Box<ExprD>),
}

pub enum PartD {
    Text(Seq<char>),
    Expr(ExprD),
}

pub enum ElseD {
    Block(BlockD),
    If(Box<ExprD>),
}

pub struct ArmD {
    pub pattern: PatternD,
    pub body: ExprD,
}

pub enum PatternD {
    Literal(ExprD),
    Wildcard,
    Variant(Seq<char>, Option<Seq<char>>),
}

pub struct ParamD {
    pub name: Seq<char>,
    pub ty: TypeD,
    pub default: Option<ExprD>,
}

/// A block: its statements, the number of its scope, and its span.
pub struct BlockD {
    pub stmts: Seq<StmtD>,
    pub scope: nat,
    pub span: Span,
}

pub struct StmtD {
    pub kind: StmtKindD,
    pub span: Span,
}

pub enum StmtKindD {
    Program(Seq<StmtD>, nat),
    Package(Seq<char>),
    Import(Seq<Seq<char>>),
    Struct(Seq<char>, Seq<(Seq<char>, Seq<char>)>, bool),
    VarDecl(Seq<char>, TypeD, ExprD),
    ExprStmt(ExprD),
    Block(Seq<StmtD>, nat),
    Return(Option<ExprD>),
    Cond(ExprD, BlockD, Option<BlockD>),
    While(ExprD, BlockD),
    For(Seq<char>, ExprD, ExprD, BlockD),
    ForEach(Seq<char>, Option<Seq<char>>, ExprD, BlockD),
    ForRange(Seq<char>, ExprD, ExprD, BlockD),
    ForIndex(Seq<char>, Seq<char>, ExprD, BlockD),
    Break,
    Continue,
    Func(Seq<char>, Seq<ParamD>, TypeD, BlockD, bool, bool),
    Requires(Seq<Seq<char>>),
    Optional(Seq<Seq<char>>),
    TryCatch(BlockD, Seq<char>, BlockD),
    With(ExprD, BlockD),
    Alias(Seq<char>, TypeD),
}

// ---------------------------------------------------------------------------
// Types
// ---------------------------------------------------------------------------

/// `[]` suffixes after a type name, appended to it.
pub open spec fn g_suffix(ts: Seq<TokV>, s: PS, name: Seq<char>) -> Option<(Seq<char>, PS)>
    decreases ts.len() - s.pos,
{
    if at_kind(ts, s, TokenType::LBracket) {
        if at_kind(ts, adv(s), TokenType::RBracket) {
            g_suffix(ts, adv(adv(s)), name + seq!['[', ']'])
        } else {
            None
        }
    } else {
        Some((name, s))
    }
}

/// `Name[N]` or `Name[]` after `soa`.
pub open spec fn g_soa(ts: Seq<TokV>, s: PS) -> Option<((Seq<char>, Option<usize>), PS)> {
    match take(ts, s, TokenType::Identifier) {
        None => None,
        Some((sn, s1)) => if !at_kind(ts, s1, TokenType::LBracket) {
            None
        } else {
            let s2 = adv(s1);
            let cap: Option<(Option<usize>, PS)> = if at_kind(ts, s2, TokenType::Number) {
                match usize_literal(ts[s2.pos].text) {
                    Some(n) => Some((Some(n), adv(s2))),
                    None => None,
                }
            } else {
                Some((None, s2))
            };
            match cap {
                None => None,
                Some((c, s3)) => if at_kind(ts, s3, TokenType::RBracket) {
                    Some(((sn, c), adv(s3)))
                } else {
                    None
                },
            }
        },
    }
}

/// `[T]`, `[T; N]` or `[[T; N]; M]`, as type-name text.
pub open spec fn g_array_name(ts: Seq<TokV>, s: PS, depth: nat) -> Option<(Seq<char>, PS)>
    decreases depth,
{
    if depth == 0 || !at_kind(ts, s, TokenType::LBracket) {
        None
    } else {
        let s1 = adv(s);
        if at_kind(ts, s1, TokenType::LBracket) {
            match g_array_name(ts, s1, (depth - 1) as nat) {
                None => None,
                Some((inner, s2)) => if !at_kind(ts, s2, TokenType::Semicolon) {
                    None
                } else {
                    match take(ts, adv(s2), TokenType::Number) {
                        None => None,
                        Some((outer, s4)) => if at_kind(ts, s4, TokenType::RBracket) {
                            Some((seq!['['] + inner + seq![';', ' '] + outer + seq![']'], adv(s4)))
                        } else {
                            None
                        },
                    }
                },
            }
        } else {
            let inner = if at_kind(ts, s1, TokenType::TypeToken) {
                take(ts, s1, TokenType::TypeToken)
            } else if at_kind(ts, s1, TokenType::Identifier) {
                take(ts, s1, TokenType::Identifier)
            } else {
                None
            };
            match inner {
                None => None,
                Some((t, s2)) => if at_kind(ts, s2, TokenType::Semicolon) {
                    match take(ts, adv(s2), TokenType::Number) {
                        None => None,
                        Some((size, s4)) => if at_kind(ts, s4, TokenType::RBracket) {
                            Some((seq!['['] + t + seq![';', ' '] + size + seq![']'], adv(s4)))
                        } else {
                            None
                        },
                    }
                } else if at_kind(ts, s2, TokenType::RBracket) {
                    Some((seq!['['] + t + seq![']'], adv(s2)))
                } else {
                    None
                },
            }
        }
    }
}

/// `<T>` after `tensor`: the primitive element type.
pub open spec fn g_tensor_dtype(ts: Seq<TokV>, s: PS) -> Option<(Type, PS)> {
    if !at_kind(ts, s, TokenType::Less) {
        None
    } else {
        match take_type_or_ident(ts, adv(s)) {
            None => None,
            Some((n, s2)) => if !at_kind(ts, s2, TokenType::Greater) {
                None
            } else {
                match primitive_named(n) {
                    Some(t) => Some((t, adv(s2))),
                    None => None,
                }
            },
        }
    }
}

/// `tensor<T>`.
pub open spec fn g_tensor_type(ts: Seq<TokV>, s: PS) -> Option<(TypeD, PS)> {
    if !at_kind(ts, s, TokenType::Tensor) {
        None
    } else {
        match g_tensor_dtype(ts, adv(s)) {
            None => None,
            Some((t, s1)) => Some((TypeD::Tensor(t), s1)),
        }
    }
}

/// A parameter type: a function type, an array type, or a name with `[]`
/// suffixes.
pub open spec fn g_param_type(ts: Seq<TokV>, s: PS, depth: nat) -> Option<(TypeD, PS)>
    decreases depth, 0nat, 0int,
{
    if depth == 0 {
        None
    } else {
        let d = (depth - 1) as nat;
        if at_kind(ts, s, TokenType::Fn) {
            g_fn_type(ts, s, d)
        } else if at_kind(ts, s, TokenType::LBracket) {
            match g_array_name(ts, s, d) {
                None => None,
                Some((n, s1)) => Some((TypeD::Named(n), s1)),
            }
        } else {
            match take_type_or_ident(ts, s) {
                None => None,
                Some((n, s1)) => match g_suffix(ts, s1, n) {
                    None => None,
                    Some((n2, s2)) => Some((TypeD::Named(n2), s2)),
                },
            }
        }
    }
}

/// The parameter types of a function type, up to `)`.
pub open spec fn g_fn_type_params(ts: Seq<TokV>, s: PS, d: nat, acc: Seq<TypeD>) -> Option<
    (Seq<TypeD>, PS),
>
    decreases d, 1nat, ts.len() - s.pos,
{
    match g_param_type(ts, s, d) {
        None => None,
        Some((t, s1)) => {
            let acc2 = acc.push(t);
            if at_kind(ts, s1, TokenType::Comma) {
                let s2 = adv(s1);
                if s.pos < s2.pos <= ts.len() {
                    g_fn_type_params(ts, s2, d, acc2)
                } else {
                    None
                }
            } else {
                Some((acc2, s1))
            }
        },
    }
}

/// `fn(T, U) -> R`.
pub open spec fn g_fn_type(ts: Seq<TokV>, s: PS, depth: nat) -> Option<(TypeD, PS)>
    decreases depth, 0nat, 0int,
{
    if depth == 0 || !at_kind(ts, s, TokenType::Fn) || !at_kind(ts, adv(s), TokenType::LParen) {
        None
    } else {
        let d = (depth - 1) as nat;
        let s2 = adv(adv(s));
        let ps = if !at_kind(ts, s2, TokenType::RParen) {
            g_fn_type_params(ts, s2, d, Seq::empty())
        } else {
            Some((Seq::empty(), s2))
        };
        match ps {
            None => None,
            Some((params, s3)) => if !at_kind(ts, s3, TokenType::RParen) || !at_kind(
                ts,
                adv(s3),
                TokenType::Arrow,
            ) {
                None
            } else {
                match g_ret_type(ts, adv(adv(s3)), d) {
                    None => None,
                    Some((r, s6)) => Some((TypeD::Function(params, Box::new(r)), s6)),
                }
            },
        }
    }
}

/// A return type: also `?T`, `tensor<T>`, `[T]`, `[T; N]`, `Result<T>` and
/// `Future<T>`.
pub open spec fn g_ret_type(ts: Seq<TokV>, s: PS, depth: nat) -> Option<(TypeD, PS)>
    decreases depth, 0nat, 0int,
{
    if depth == 0 {
        None
    } else {
        let d = (depth - 1) as nat;
        if at_kind(ts, s, TokenType::Fn) {
            g_fn_type(ts, s, d)
        } else if at_kind(ts, s, TokenType::QuestionMark) {
            match g_ret_type(ts, adv(s), d) {
                None => None,
                Some((t, s1)) => Some((TypeD::Optional(Box::new(t)), s1)),
            }
        } else if at_kind(ts, s, TokenType::Tensor) {
            g_tensor_type(ts, s)
        } else if at_kind(ts, s, TokenType::LBracket) {
            match take_type_or_ident(ts, adv(s)) {
                None => None,
                Some((inner, s2)) => {
                    let sized: Option<(Seq<char>, PS)> = if at_kind(ts, s2, TokenType::Semicolon) {
                        match take(ts, adv(s2), TokenType::Number) {
                            None => None,
                            Some((size, s4)) => Some((seq![';', ' '] + size, s4)),
                        }
                    } else {
                        Some((Seq::empty(), s2))
                    };
                    match sized {
                        None => None,
                        Some((tail, s4)) => if at_kind(ts, s4, TokenType::RBracket) {
                            Some((TypeD::Named(seq!['['] + inner + tail + seq![']']), adv(s4)))
                        } else {
                            None
                        },
                    }
                },
            }
        } else {
            match take_type_or_ident(ts, s) {
                None => None,
                Some((n, s1)) => if n == result_word() && at_kind(ts, s1, TokenType::Less) {
                    match g_ret_type(ts, adv(s1), d) {
                        None => None,
                        Some((t, s2)) => if at_kind(ts, s2, TokenType::Greater) {
                            Some((TypeD::Result(Box::new(t)), adv(s2)))
                        } else {
                            None
                        },
                    }
                } else if n == future_word() && at_kind(ts, s1, TokenType::Less) {
                    match g_ret_type(ts, adv(s1), d) {
                        None => None,
                        Some((t, s2)) => if at_kind(ts, s2, TokenType::Greater) {
                            Some((TypeD::Future(Box::new(t)), adv(s2)))
                        } else {
                            None
                        },
                    }
                } else {
                    match g_suffix(ts, s1, n) {
                        None => None,
                        Some((n2, s2)) => Some((TypeD::Named(n2), s2)),
                    }
                },
            }
        }
    }
}

/// A type annotation of a variable declaration.
pub open spec fn g_type_ann(ts: Seq<TokV>, s: PS, depth: nat) -> Option<(TypeD, PS)> {
    if depth == 0 {
        None
    } else {
        let d = (depth - 1) as nat;
        if at_kind(ts, s, TokenType::Fn) {
            g_fn_type(ts, s, d)
        } else if at_kind(ts, s, TokenType::Tensor) {
            g_tensor_type(ts, s)
        } else if at_kind(ts, s, TokenType::LBracket) {
            match g_array_name(ts, s, d) {
                None => None,
                Some((n, s1)) => Some((TypeD::Named(n), s1)),
            }
        } else if at_kind(ts, s, TokenType::Soa) {
            match g_soa(ts, adv(s)) {
                None => None,
                Some(((sn, c), s1)) => Some((TypeD::Soa(sn, c), s1)),
            }
        } else if at_kind(ts, s, TokenType::QuestionMark) {
            match g_ret_type(ts, adv(s), d) {
                None => None,
                Some((t, s1)) => Some((TypeD::Optional(Box::new(t)), s1)),
            }
        } else if at_kind(ts, s, TokenType::TypeToken) {
            match g_suffix(ts, adv(s), ts[s.pos].text) {
                None => None,
                Some((n, s1)) => Some((TypeD::Named(n), s1)),
            }
        } else if at_kind(ts, s, TokenType::Identifier) {
            let n = ts[s.pos].text;
            let s1 = adv(s);
            if n == result_word() && at_kind(ts, s1, TokenType::Less) {
                match g_ret_type(ts, adv(s1), d) {
                    None => None,
                    Some((t, s2)) => if at_kind(ts, s2, TokenType::Greater) {
                        Some((TypeD::Result(Box::new(t)), adv(s2)))
                    } else {
                        None
                    },
                }
            } else {
                match g_suffix(ts, s1, n) {
                    None => None,
                    Some((n2, s2)) => Some((TypeD::Named(n2), s2)),
                }
            }
        } else {
            None
        }
    }
}

// ---------------------------------------------------------------------------
// What a description describes
// ---------------------------------------------------------------------------

/// `t` is the type `d` describes.
pub open spec fn type_is(t: Type, d: TypeD) -> bool
    decreases d, 1nat,
{
    match d {
        TypeD::Named(n) => resolves(t, n),
        TypeD::Optional(b) => t matches Type::Optional(x) && type_is(*x, *b),
        TypeD::Result(b) => t matches Type::Result(x) && type_is(*x, *b),
        TypeD::Future(b) => t matches Type::Future(x) && type_is(*x, *b),
        TypeD::Soa(n, c) => t matches Type::SOA { struct_type, capacity } && custom_named(
            *struct_type,
            n,
        ) && capacity == c,
        TypeD::Tensor(dt) => t matches Type::Tensor { dtype, shape } && *dtype == dt && shape is None,
        TypeD::Function(ps, r) => t matches Type::Function { param_types, return_type }
            && types_are(param_types@, ps) && type_is(*return_type, *r),
        TypeD::MapOf(k, v) => t matches Type::MapType { key_type, value_type } && resolves(
            *key_type,
            k,
        ) && resolves(*value_type, v),
        TypeD::Void => t == Type::Void,
    }
}

pub open spec fn types_are(v: Seq<Type>, ds: Seq<TypeD>) -> bool
    decreases ds, 0nat,
{
    &&& v.len() == ds.len()
    &&& ds.len() > 0 ==> types_are(v.drop_last(), ds.subrange(0, ds.len() - 1)) && type_is(
        v.last(),
        ds[ds.len() - 1],
    )
}

} // verus!
