//! Recursive-descent parser: tokens to a `Program` statement.
//!
//! Whitespace and comment tokens are dropped first. Binary operators have
//! one flat precedence level: a chain may repeat one associative operator
//! (`1 + 2 + 3`), and mixing operators needs parentheses.
//!
//! A syntax error ends the parse with a message naming the line. Syntax
//! nested deeper than `MAX_NESTING` calls is refused with an error, so that
//! deep input cannot exhaust the stack.

use vstd::prelude::*;

use crate::ast::{
    Block, Expr, ExprKind, FieldDef, FunctionParam, IfElseBranch, MapEntry, MatchArm, MatchPattern,
    NamedArg, Position, Span, Statement, StatementKind, StructFieldInit, TemplatePart,
};
use crate::described::{
    arms_are, block_is, entries_are, expr_is, exprs_are, fields_are, inits_are, lemma_arm_is,
    lemma_arms_push, lemma_block_is, lemma_empty_lists, lemma_entries_push, lemma_expr_is,
    lemma_expr_span, lemma_exprs_push, lemma_inits_push, lemma_named_push, lemma_opt_block_is,
    lemma_param_is, lemma_params_push, lemma_part_is, lemma_parts_push, lemma_pattern_is,
    lemma_stmt_is, lemma_stmts_are, lemma_stmts_push, named_are, opt_stmt_is, params_are,
    parts_are, pattern_is, stmt_is, stmts_are, strings_are,
};
use crate::grammar::{
    adv, at_kind, binop_at, eat, g_array_name, g_fn_type, g_fn_type_params, g_param_type,
    g_ret_type, g_soa, g_suffix, g_tensor_dtype, g_tensor_type, g_type_ann, last_pos, lexeme_tok,
    new_scope, non_ws, prev_span, source_toks, start_state, take, take_type_or_ident, tv, tvs, type_is,
    types_are, wspan, ArmD, BlockD, ExprD, ExprKindD, ParamD, PartD, StmtD, StmtKindD, TokV,
    TypeD, PS,
};
use crate::lexer::{fits_positions, token_is, tokenize, tokens_match};
use crate::lexer_spec::{lex, Lexeme};
use crate::syntax::{
    expect, g_alias, g_args, g_args_loop, g_arm_body, g_arms, g_array_lit, g_as_loop, g_assign,
    g_binary, g_block_body, g_block_stmt, g_call_args, g_caps, g_caps_more, g_chain, g_condition,
    g_elems, g_entries, g_expr, g_field_inits, g_fields, g_fn_body, g_for, g_for_body, g_func,
    g_header, g_ident_expr, g_if_expr, g_if_stmt, g_import, g_import_loop, g_interp, g_is,
    g_lambda, g_map_key, g_map_lit, g_match, g_member_calls, g_package, g_params, g_params_loop,
    g_pattern, g_postfix, g_primary, g_prog_loop, g_program, g_pub, g_quoted, g_return,
    g_statement, g_stmt_loop, g_stmts_to_brace, g_string_value, g_struct, g_template,
    g_tensor_ctor, g_tparts, g_try, g_unary, g_var_decl, g_while, g_with, progress, push_opt,
    skip_semis,
};
use crate::text::{chars_eq, chars_of, push_chars, push_str, string_from_chars};
use crate::token::{Token, TokenType};
use crate::type_names::{
    decode_escape_sequences, parse_primitive_type, parse_usize, push_decimal, decimal, resolve_type_name,
};
use crate::types::Type;

verus! {

/// How deep the parser's calls may nest before it gives up.
pub const MAX_NESTING: u32 = 600;

// ---------------------------------------------------------------------------
// Token filtering
// ---------------------------------------------------------------------------

/// Tokens that carry syntax: everything but whitespace and comments.
pub open spec fn is_significant(t: Token) -> bool {
    t.token_type != TokenType::Whitespace && t.token_type != TokenType::Comment
}

/// The significant tokens of `ts`, in order.
pub open spec fn significant(ts: Seq<Token>) -> Seq<Token>
    decreases ts.len(),
{
    if ts.len() == 0 {
        Seq::empty()
    } else if is_significant(ts.last()) {
        significant(ts.drop_last()).push(ts.last())
    } else {
        significant(ts.drop_last())
    }
}

/// A syntax error's message: `msg`, then ` at line ` and the line of the
/// token at `pos` (of the last token, past the end), when there are tokens.
pub open spec fn error_message(msg: Seq<char>, ts: Seq<Token>, pos: int) -> Seq<char> {
    if ts.len() > 0 {
        let i = if pos < ts.len() {
            pos
        } else {
            ts.len() - 1
        };
        msg + " at line "@ + decimal(ts[i].span.start.line as nat)
    } else {
        msg
    }
}


/// The message for binary operators `a` and `b` mixed without parentheses,
/// found at token `pos`.
pub open spec fn mix_message(a: Seq<char>, b: Seq<char>, toks: Seq<Token>, pos: int) -> Seq<char> {
    "Cannot mix operators '"@ + a + "' and '"@ + b + "' without parentheses"@ + error_message(""@, toks, pos)
}

/// The message for a non-associative operator `a` used twice in a row,
/// found at token `pos`.
pub open spec fn nonassoc_message(a: Seq<char>, toks: Seq<Token>, pos: int) -> Seq<char> {
    "Operator '"@ + a + "' is not associative; use parentheses"@ + error_message(""@, toks, pos)
}

/// The error a chain of `op` operations stops on at `s`, when it stops on
/// another operator or on a repeated non-associative one.
pub open spec fn chain_error(ts: Seq<TokV>, toks: Seq<Token>, s: PS, d: nat, op: Seq<char>) -> Option<Seq<char>>
    decreases ts.len() - s.pos,
{
    if !binop_at(ts, s) {
        None
    } else if ts[s.pos].text != op {
        Some(mix_message(op, ts[s.pos].text, toks, s.pos))
    } else if !associative_op(op) {
        Some(nonassoc_message(op, toks, s.pos))
    } else {
        match g_unary(ts, adv(s), d) {
            None => None,
            Some((_, s2)) => if progress(ts, s, s2) {
                chain_error(ts, toks, s2, d, op)
            } else {
                None
            },
        }
    }
}

/// The operator error a binary expression read at `s` stops on, if any.
pub open spec fn binary_error(ts: Seq<TokV>, toks: Seq<Token>, s: PS, depth: nat) -> Option<Seq<char>> {
    if depth == 0 {
        None
    } else {
        let d = (depth - 1) as nat;
        match g_unary(ts, s, d) {
            None => None,
            Some((left, s1)) => {
                let r1 = if at_kind(ts, s1, TokenType::Is) {
                    g_is(ts, adv(s1), left)
                } else {
                    Some((None, s1))
                };
                match r1 {
                    Some((None, s2)) => if binop_at(ts, s2) {
                        match g_unary(ts, adv(s2), d) {
                            Some((_, s3)) => chain_error(ts, toks, s3, d, ts[s2.pos].text),
                            None => None,
                        }
                    } else {
                        None
                    },
                    _ => None,
                }
            },
        }
    }
}

/// A copy of a token.
pub fn copy_token(t: &Token) -> (r: Token)
    ensures
        r == *t,
{
    Token { token_type: t.token_type, value: t.value.clone(), span: t.span }
}

fn significant_tokens(tokens: &[Token]) -> (r: Vec<Token>)
    ensures
        r@ == significant(tokens@),
{
    let mut out: Vec<Token> = Vec::new();
    let mut i: usize = 0;
    while i < tokens.len()
        invariant
            i <= tokens.len(),
            out@ == significant(tokens@.take(i as int)),
        decreases tokens.len() - i,
    {
        assert(tokens@.take(i + 1).drop_last() =~= tokens@.take(i as int));
        let t = &tokens[i];
        if t.token_type != TokenType::Whitespace && t.token_type != TokenType::Comment {
            out.push(copy_token(t));
        }
        i += 1;
    }
    assert(tokens@.take(tokens.len() as int) =~= tokens@);
    out
}

// ---------------------------------------------------------------------------
// Operators
// ---------------------------------------------------------------------------

/// Operators that may be chained without parentheses.
pub open spec fn associative_op(op: Seq<char>) -> bool {
    ||| op == seq!['+']
    ||| op == seq!['*']
    ||| op == seq!['&', '&']
    ||| op == seq!['|', '|']
    ||| op == seq!['&']
    ||| op == seq!['|']
}

/// Whether the operator `op` may be chained: `+ * && || & |`.
pub fn is_associative_op(op: &Vec<char>) -> (r: bool)
    ensures
        r == associative_op(op@),
{
    let plus = vec!['+'];
    let times = vec!['*'];
    let and2 = vec!['&', '&'];
    let or2 = vec!['|', '|'];
    let and1 = vec!['&'];
    let or1 = vec!['|'];
    proof {
        assert(plus@ =~= seq!['+']);
        assert(times@ =~= seq!['*']);
        assert(and2@ =~= seq!['&', '&']);
        assert(or2@ =~= seq!['|', '|']);
        assert(and1@ =~= seq!['&']);
        assert(or1@ =~= seq!['|']);
    }
    chars_eq(op, &plus) || chars_eq(op, &times) || chars_eq(op, &and2) || chars_eq(op, &or2)
        || chars_eq(op, &and1) || chars_eq(op, &or1)
}

/// Token kinds that are binary operators; `=` is one only as `==`.
pub open spec fn binary_op_token(tt: TokenType, value: Seq<char>) -> bool {
    ||| tt == TokenType::Plus
    ||| tt == TokenType::Minus
    ||| tt == TokenType::Times
    ||| tt == TokenType::Divide
    ||| tt == TokenType::Modulo
    ||| tt == TokenType::LogicalAnd
    ||| tt == TokenType::LogicalOr
    ||| tt == TokenType::BitwiseAnd
    ||| tt == TokenType::BitwiseOr
    ||| tt == TokenType::BitwiseXor
    ||| tt == TokenType::LShift
    ||| tt == TokenType::RShift
    ||| tt == TokenType::Less
    ||| tt == TokenType::LessEqual
    ||| tt == TokenType::Greater
    ||| tt == TokenType::GreaterEqual
    ||| tt == TokenType::NotEqual
    ||| (tt == TokenType::Equal && value == seq!['=', '='])
}

/// Whether a token of kind `tt` and text `value` is a binary operator.
pub fn is_binary_op_token(tt: TokenType, value: &Vec<char>) -> (r: bool)
    ensures
        r == binary_op_token(tt, value@),
{
    match tt {
        TokenType::Plus | TokenType::Minus | TokenType::Times | TokenType::Divide
        | TokenType::Modulo | TokenType::LogicalAnd | TokenType::LogicalOr | TokenType::BitwiseAnd
        | TokenType::BitwiseOr | TokenType::BitwiseXor | TokenType::LShift | TokenType::RShift
        | TokenType::Less | TokenType::LessEqual | TokenType::Greater | TokenType::GreaterEqual
        | TokenType::NotEqual => true,
        TokenType::Equal => {
            let eq2 = vec!['=', '='];
            assert(eq2@ =~= seq!['=', '=']);
            chars_eq(value, &eq2)
        },
        _ => false,
    }
}

// ---------------------------------------------------------------------------
// Quoted text
// ---------------------------------------------------------------------------

/// The text between the quotes of a literal, when slicing off its first and
/// last byte lands on character boundaries.
pub open spec fn quoted_inner(s: Seq<char>) -> Option<Seq<char>> {
    if s.len() >= 2 && (s[0] as u32) < 0x80 && (s.last() as u32) < 0x80 {
        Some(s.subrange(1, s.len() - 1))
    } else {
        None
    }
}

fn strip_quotes(v: &Vec<char>) -> (r: Option<(usize, usize)>)
    ensures
        match r {
            Some((a, b)) => a <= b <= v.len() && quoted_inner(v@) == Some(
                v@.subrange(a as int, b as int),
            ),
            None => quoted_inner(v@) is None,
        },
{
    let n = v.len();
    if n >= 2 && (v[0] as u32) < 0x80 && (v[n - 1] as u32) < 0x80 {
        Some((1, n - 1))
    } else {
        None
    }
}

// ---------------------------------------------------------------------------
// Small helpers
// ---------------------------------------------------------------------------

fn origin() -> (p: Position)
    ensures
        p == (Position { line: 1, column: 1, index: 0 }),
{
    Position { line: 1, column: 1, index: 0 }
}

fn combine(a: Span, b: Span) -> (s: Span)
    ensures
        s == (Span { start: a.start, end: b.end }),
{
    Span { start: a.start, end: b.end }
}

/// Where a token sequence ends: the end of its last token, or the first
/// position when it is empty.
pub open spec fn last_position_of(ts: Seq<Token>) -> Position {
    if ts.len() == 0 {
        Position { line: 1, column: 1, index: 0 }
    } else {
        ts.last().span.end
    }
}

fn push_char_vec(v: &mut Vec<char>, w: &Vec<char>)
    ensures
        final(v)@ == old(v)@ + w@,
{
    let mut i: usize = 0;
    while i < w.len()
        invariant
            i <= w.len(),
            v@ == old(v)@ + w@.take(i as int),
        decreases w.len() - i,
    {
        v.push(w[i]);
        assert(w@.take(i + 1) =~= w@.take(i as int).push(w@[i as int]));
        i += 1;
    }
    assert(w@.take(w.len() as int) =~= w@);
}

fn string_of_range(v: &Vec<char>, a: usize, b: usize) -> (r: String)
    requires
        a <= b <= v.len(),
    ensures
        r@ == v@.subrange(a as int, b as int),
{
    crate::text::string_from_slice(v, a, b)
}

// ---------------------------------------------------------------------------
// Parser state
// ---------------------------------------------------------------------------

struct Parser {
    tokens: Vec<Token>,
    pos: usize,
    scope_counter: u32,
    allow_struct_literal: bool,
}

/// The program with no statements, in the first scope.
pub open spec fn is_empty_program(s: Statement) -> bool {
    s.kind matches StatementKind::Program { statements, scope_id } && statements@.len() == 0
        && scope_id@ == seq!['s', 'c', 'o', 'p', 'e', '_', '1']
}

/// What a parse step leaves unchanged and how far it moves.
spec fn steps_to(p: Parser, q: Parser) -> bool {
    &&& q.pos <= q.tokens.len()
    &&& q.tokens == p.tokens
    &&& p.pos <= q.pos
}

impl Parser {
    spec fn wf(&self) -> bool {
        self.pos <= self.tokens.len()
    }

    /// The tokens as the grammar reads them.
    spec fn view(&self) -> Seq<TokV> {
        tvs(self.tokens@)
    }

    /// The parse state.
    spec fn ps(&self) -> PS {
        PS { pos: self.pos as int, scope: self.scope_counter as nat, allow: self.allow_struct_literal }
    }

    spec fn at(&self, i: int) -> TokenType {
        self.tokens@[i].token_type
    }

    fn new(tokens: Vec<Token>) -> (p: Parser)
        ensures
            p.wf(),
            p.tokens == tokens,
            p.pos == 0,
            p.scope_counter == 0,
            p.ps() == start_state(),
    {
        Parser { tokens, pos: 0, scope_counter: 0, allow_struct_literal: true }
    }

    fn is_at_end(&self) -> (r: bool)
        requires
            self.wf(),
        ensures
            r == (self.pos >= self.tokens.len()),
    {
        self.pos >= self.tokens.len()
    }

    fn check(&self, tt: TokenType) -> (r: bool)
        requires
            self.wf(),
        ensures
            r == (self.pos < self.tokens.len() && self.at(self.pos as int) == tt),
            r == at_kind(self.view(), self.ps(), tt),
    {
        self.pos < self.tokens.len() && self.tokens[self.pos].token_type == tt
    }

    /// Whether the token after the current one has kind `tt`.
    fn check_next(&self, tt: TokenType) -> (r: bool)
        requires
            self.wf(),
        ensures
            r == (self.pos + 1 < self.tokens.len() && self.at(self.pos + 1) == tt),
            r == crate::grammar::next_kind(self.view(), self.ps(), tt),
    {
        self.tokens.len() - self.pos > 1 && self.tokens[self.pos + 1].token_type == tt
    }

    fn advance(&mut self)
        requires
            old(self).wf(),
            old(self).pos < old(self).tokens.len(),
        ensures
            final(self).wf(),
            final(self).tokens == old(self).tokens,
            final(self).pos == old(self).pos + 1,
            final(self).scope_counter == old(self).scope_counter,
            final(self).allow_struct_literal == old(self).allow_struct_literal,
            final(self).ps() == adv(old(self).ps()),
    {
        self.pos = self.pos + 1;
    }

    fn match_token(&mut self, tt: TokenType) -> (r: bool)
        requires
            old(self).wf(),
        ensures
            final(self).wf(),
            final(self).tokens == old(self).tokens,
            r == (old(self).pos < old(self).tokens.len() && old(self).at(old(self).pos as int) == tt),
            r == at_kind(old(self).view(), old(self).ps(), tt),
            final(self).pos == (if r {
                old(self).pos + 1
            } else {
                old(self).pos as int
            }),
            final(self).scope_counter == old(self).scope_counter,
            final(self).allow_struct_literal == old(self).allow_struct_literal,
            final(self).ps() == eat(old(self).view(), old(self).ps(), tt),
    {
        if self.check(tt) {
            self.advance();
            true
        } else {
            false
        }
    }

    /// The characters of token `i`'s text.
    fn text(&self, i: usize) -> (r: Vec<char>)
        requires
            i < self.tokens.len(),
        ensures
            r@ == self.tokens@[i as int].value@,
    {
        chars_of(self.tokens[i].value.as_str())
    }

    /// Whether the current token's text is `w`.
    fn current_text_is(&self, w: &Vec<char>) -> (r: bool)
        requires
            self.wf(),
        ensures
            r == (self.pos < self.tokens.len() && self.view()[self.pos as int].text == w@),
    {
        if self.pos >= self.tokens.len() {
            return false;
        }
        let t = self.text(self.pos);
        chars_eq(&t, w)
    }

    /// `msg` followed by the line of the current token (or of the last one
    /// at the end of input).
    fn error_here(&self, msg: &str) -> (e: String)
        requires
            self.wf(),
        ensures
            e@ == error_message(msg@, self.tokens@, self.pos as int),
    {
        let mut e = String::new();
        push_str(&mut e, msg);
        let n = self.tokens.len();
        if n > 0 {
            let i = if self.pos < n {
                self.pos
            } else {
                n - 1
            };
            let mut digits: Vec<char> = Vec::new();
            push_decimal(&mut digits, self.tokens[i].span.start.line);
            push_str(&mut e, " at line ");
            push_chars(&mut e, &digits);
        }
        e
    }

    fn too_deep(&self) -> (e: String)
        requires
            self.wf(),
        ensures
            e@ == error_message("Syntax nested too deeply"@, self.tokens@, self.pos as int),
    {
        self.error_here("Syntax nested too deeply")
    }

    /// Reads a token of kind `tt` and returns its index.
    fn consume(&mut self, tt: TokenType, msg: &str) -> (r: Result<usize, String>)
        requires
            old(self).wf(),
        ensures
            final(self).wf(),
            final(self).tokens == old(self).tokens,
            final(self).scope_counter == old(self).scope_counter,
            final(self).allow_struct_literal == old(self).allow_struct_literal,
            r is Ok <==> (old(self).pos < old(self).tokens.len() && old(self).at(old(self).pos as int)
                == tt),
            r is Ok <==> at_kind(old(self).view(), old(self).ps(), tt),
            r matches Ok(i) ==> i == old(self).pos && final(self).pos == old(self).pos + 1,
            r is Ok ==> final(self).ps() == adv(old(self).ps()),
            r is Err ==> final(self).pos == old(self).pos,
    {
        if self.check(tt) {
            let i = self.pos;
            self.advance();
            Ok(i)
        } else {
            Err(self.error_here(msg))
        }
    }

    /// Reads a token of kind `tt` and returns a copy of its text.
    fn consume_text(&mut self, tt: TokenType, msg: &str) -> (r: Result<Vec<char>, String>)
        requires
            old(self).wf(),
        ensures
            final(self).wf(),
            final(self).tokens == old(self).tokens,
            final(self).scope_counter == old(self).scope_counter,
            final(self).allow_struct_literal == old(self).allow_struct_literal,
            r is Ok <==> (old(self).pos < old(self).tokens.len() && old(self).at(old(self).pos as int)
                == tt),
            r matches Ok(v) ==> v@ == old(self).tokens@[old(self).pos as int].value@
                && final(self).pos == old(self).pos + 1,
            r is Err ==> final(self).pos == old(self).pos,
            match take(old(self).view(), old(self).ps(), tt) {
                Some((t, s2)) => r matches Ok(v) && v@ == t && final(self).ps() == s2,
                None => r is Err,
            },
    {
        let i = self.consume(tt, msg)?;
        Ok(self.text(i))
    }

    /// Reads a token of kind `tt` and returns its text as a string.
    fn consume_string(&mut self, tt: TokenType, msg: &str) -> (r: Result<String, String>)
        requires
            old(self).wf(),
        ensures
            final(self).wf(),
            final(self).tokens == old(self).tokens,
            final(self).scope_counter == old(self).scope_counter,
            final(self).allow_struct_literal == old(self).allow_struct_literal,
            r is Ok <==> (old(self).pos < old(self).tokens.len() && old(self).at(old(self).pos as int)
                == tt),
            r matches Ok(v) ==> v@ == old(self).tokens@[old(self).pos as int].value@
                && final(self).pos == old(self).pos + 1,
            r is Err ==> final(self).pos == old(self).pos,
            match take(old(self).view(), old(self).ps(), tt) {
                Some((t, s2)) => r matches Ok(v) && v@ == t && final(self).ps() == s2,
                None => r is Err,
            },
    {
        let i = self.consume(tt, msg)?;
        Ok(self.tokens[i].value.clone())
    }

    /// Reads a type token or, failing that, an identifier.
    fn consume_type_or_ident(&mut self, msg: &str) -> (r: Result<Vec<char>, String>)
        requires
            old(self).wf(),
        ensures
            steps_to(*old(self), *final(self)),
            r is Ok ==> final(self).pos == old(self).pos + 1,
            match take_type_or_ident(old(self).view(), old(self).ps()) {
                Some((t, s2)) => r matches Ok(v) && v@ == t && final(self).ps() == s2,
                None => r is Err,
            },
    {
        if self.check(TokenType::TypeToken) {
            self.consume_text(TokenType::TypeToken, msg)
        } else {
            self.consume_text(TokenType::Identifier, msg)
        }
    }

    fn last_position(&self) -> (p: Position)
        ensures
            p == last_position_of(self.tokens@),
            p == last_pos(self.view()),
    {
        let n = self.tokens.len();
        if n > 0 {
            self.tokens[n - 1].span.end
        } else {
            origin()
        }
    }

    /// The span `1:1` to the end of input that declarations carry.
    fn whole_span(&self) -> (s: Span)
        ensures
            s == (Span {
                start: Position { line: 1, column: 1, index: 0 },
                end: last_position_of(self.tokens@),
            }),
            s == wspan(self.view()),
    {
        Span { start: origin(), end: self.last_position() }
    }

    fn prev_span(&self) -> (s: Span)
        requires
            0 < self.pos <= self.tokens.len(),
        ensures
            s == self.tokens@[self.pos - 1].span,
            s == prev_span(self.view(), self.ps()),
    {
        self.tokens[self.pos - 1].span
    }

    /// The next scope name, `scope_N`.
    fn next_scope_id(&mut self) -> (r: Result<String, String>)
        requires
            old(self).wf(),
        ensures
            final(self).wf(),
            final(self).tokens == old(self).tokens,
            final(self).pos == old(self).pos,
            final(self).allow_struct_literal == old(self).allow_struct_literal,
            r is Ok <==> old(self).scope_counter < u32::MAX,
            r is Ok ==> final(self).scope_counter == old(self).scope_counter + 1,
            r matches Ok(s) ==> s@ == seq!['s', 'c', 'o', 'p', 'e', '_'] + crate::type_names::decimal(
                (old(self).scope_counter + 1) as nat,
            ),
            match new_scope(old(self).ps()) {
                Some((n, s2)) => r matches Ok(id) && id@ == crate::grammar::scope_name(n)
                    && final(self).ps() == s2,
                None => r is Err,
            },
    {
        if self.scope_counter == u32::MAX {
            return Err(self.error_here("Too many scopes"));
        }
        self.scope_counter = self.scope_counter + 1;
        let mut v: Vec<char> = vec!['s', 'c', 'o', 'p', 'e', '_'];
        assert(v@ =~= seq!['s', 'c', 'o', 'p', 'e', '_']);
        push_decimal(&mut v, self.scope_counter);
        Ok(string_from_chars(&v))
    }

    // -----------------------------------------------------------------------
    // Program and statements
    // -----------------------------------------------------------------------

    #[verifier::spinoff_prover]
    fn parse_program(&mut self, depth: u32) -> (r: Result<Statement, String>)
        requires
            old(self).wf(),
        ensures
            match g_program(old(self).view(), old(self).ps(), depth as nat) {
                Some((d, s2)) => r matches Ok(st) && stmt_is(st, d) && final(self).ps() == s2,
                None => r is Err,
            },
    {
        if depth == 0 {
            return Err(self.too_deep());
        }
        let ghost v = self.view();
        let ghost s0 = self.ps();
        let ghost mut acc: Seq<StmtD> = Seq::empty();
        let mut stmts: Vec<Statement> = Vec::new();
        proof {
            lemma_empty_lists();
        }
        while !self.is_at_end()
            invariant
                steps_to(*old(self), *self),
                v == self.view(),
                v == old(self).view(),
                s0 == old(self).ps(),
                depth > 0,
                stmts_are(stmts@, acc),
                g_prog_loop(v, s0, (depth - 1) as nat, Seq::empty()) == g_prog_loop(
                    v,
                    self.ps(),
                    (depth - 1) as nat,
                    acc,
                ),
            decreases self.tokens.len() - self.pos,
        {
            if self.check(TokenType::RBrace) {
                return Err(self.error_here("Unexpected }"));
            }
            let ghost sb = self.ps();
            let o = self.parse_statement(depth - 1)?;
            let ghost before = stmts@;
            let ghost so = (g_statement(v, sb, (depth - 1) as nat)->0).0;
            proof {
                assert(progress(v, sb, self.ps()));
                lemma_push_opt(before, acc, o, so);
            }
            match o {
                Some(s) => stmts.push(s),
                None => {},
            }
            proof {
                acc = push_opt(acc, so);
            }
        }
        let ghost pre = stmts@;
        let stmts = unwrap_statements(stmts);
        proof {
            lemma_unwrapped(pre, acc);
        }
        let scope_id = self.next_scope_id()?;
        let st = Statement {
            kind: StatementKind::Program { statements: stmts, scope_id },
            span: self.whole_span(),
        };
        proof {
            lemma_stmt_is(st, (g_program(v, s0, depth as nat)->0).0);
        }
        Ok(st)
    }

    #[verifier::spinoff_prover]
    #[verifier::rlimit(100)]
    fn parse_statement(&mut self, depth: u32) -> (r: Result<Option<Statement>, String>)
        requires
            old(self).wf(),
        ensures
            steps_to(*old(self), *final(self)),
            r is Ok && old(self).pos < old(self).tokens.len() && old(self).at(old(self).pos as int)
                != TokenType::RBrace ==> old(self).pos < final(self).pos,
            match g_statement(old(self).view(), old(self).ps(), depth as nat) {
                Some((o, s2)) => r matches Ok(ro) && opt_stmt_is(ro, o) && final(self).ps() == s2,
                None => r is Err,
            },
        decreases depth,
    {
        proof {
            reveal_with_fuel(g_statement, 1);
        }
        if depth == 0 {
            return Err(self.too_deep());
        }
        let ghost v = self.view();
        let ghost s0 = self.ps();
        let d = depth - 1;
        while self.match_token(TokenType::Semicolon)
            invariant
                steps_to(*old(self), *self),
                v == self.view(),
                skip_semis(v, s0) == skip_semis(v, self.ps()),
                s0.pos <= self.pos,
                s0.scope == self.scope_counter,
                s0.allow == self.allow_struct_literal,
            decreases self.tokens.len() - self.pos,
        {
        }
        assert(skip_semis(v, s0) == self.ps());
        if self.check(TokenType::RBrace) || self.is_at_end() {
            return Ok(None);
        }
        if self.match_token(TokenType::Package) {
            return Ok(Some(self.parse_package_declaration()?));
        }
        if self.match_token(TokenType::Import) {
            return Ok(Some(self.parse_import_declaration()?));
        }
        if self.check(TokenType::Pub) {
            proof {
                reveal_with_fuel(g_pub, 1);
            }
            return Ok(Some(self.parse_pub_declaration(d)?));
        }
        if self.match_token(TokenType::Requires) {
            return Ok(Some(self.parse_capability_list(true)?));
        }
        if self.match_token(TokenType::Optional) {
            return Ok(Some(self.parse_capability_list(false)?));
        }
        if self.match_token(TokenType::LBrace) {
            proof {
                reveal_with_fuel(g_block_stmt, 1);
            }
            return Ok(Some(self.parse_block_statement(d)?));
        }
        if self.check(TokenType::Async) && self.check_next(TokenType::Fn) {
            self.advance();
            self.advance();
            proof {
                reveal_with_fuel(g_func, 1);
            }
            return Ok(Some(self.parse_function_declaration(false, true, d)?));
        }
        if self.check(TokenType::Fn) && self.check_next(TokenType::Identifier) {
            self.advance();
            proof {
                reveal_with_fuel(g_func, 1);
            }
            return Ok(Some(self.parse_function_declaration(false, false, d)?));
        }
        if self.match_token(TokenType::Struct) {
            return Ok(Some(self.parse_struct_definition(false, d)?));
        }
        if self.match_token(TokenType::TypeKw) {
            return Ok(Some(self.parse_type_alias_declaration(d)?));
        }
        if self.match_token(TokenType::Return) {
            proof {
                reveal_with_fuel(g_return, 1);
            }
            return Ok(Some(self.parse_return_statement(d)?));
        }
        if self.match_token(TokenType::If) {
            proof {
                reveal_with_fuel(g_if_stmt, 1);
            }
            return Ok(Some(self.parse_if_statement(d)?));
        }
        if self.match_token(TokenType::While) {
            proof {
                reveal_with_fuel(g_while, 1);
            }
            return Ok(Some(self.parse_while_loop(d)?));
        }
        if self.match_token(TokenType::For) {
            proof {
                reveal_with_fuel(g_for, 1);
            }
            return Ok(Some(self.parse_for_loop(d)?));
        }
        if self.match_token(TokenType::Try) {
            proof {
                reveal_with_fuel(g_try, 1);
            }
            return Ok(Some(self.parse_try_catch(d)?));
        }
        if self.match_token(TokenType::With) {
            proof {
                reveal_with_fuel(g_with, 1);
            }
            return Ok(Some(self.parse_with_statement(d)?));
        }
        if self.match_token(TokenType::Break) {
            self.match_token(TokenType::Semicolon);
            let st = Statement { kind: StatementKind::Break, span: self.whole_span() };
            proof {
                lemma_stmt_is(st, ((g_statement(v, s0, depth as nat)->0).0)->0);
            }
            return Ok(Some(st));
        }
        if self.match_token(TokenType::Continue) {
            self.match_token(TokenType::Semicolon);
            let st = Statement { kind: StatementKind::Continue, span: self.whole_span() };
            proof {
                lemma_stmt_is(st, ((g_statement(v, s0, depth as nat)->0).0)->0);
            }
            return Ok(Some(st));
        }
        if (self.check(TokenType::Identifier) && self.check_next(TokenType::Colon)) || self.check(
            TokenType::TypeToken,
        ) {
            proof {
                reveal_with_fuel(g_var_decl, 1);
            }
            return Ok(Some(self.parse_variable_declaration(d)?));
        }
        proof {
            reveal_with_fuel(g_expr, 1);
        }
        let ghost se = self.ps();
        let expr = self.parse_expression(d)?;
        proof {
            lemma_expr_span(expr, (g_expr(v, se, d as nat)->0).0);
        }
        let span = expr.span;
        self.match_token(TokenType::Semicolon);
        let st = Statement {
            kind: StatementKind::ExpressionStatement { expression: Box::new(expr) },
            span,
        };
        proof {
            lemma_stmt_is(st, ((g_statement(v, s0, depth as nat)->0).0)->0);
        }
        Ok(Some(st))
    }

    #[verifier::spinoff_prover]
    fn parse_package_declaration(&mut self) -> (r: Result<Statement, String>)
        requires
            old(self).wf(),
        ensures
            steps_to(*old(self), *final(self)),
            match g_package(old(self).view(), old(self).ps()) {
                Some((d, s2)) => r matches Ok(st) && stmt_is(st, d) && final(self).ps() == s2,
                None => r is Err,
            },
    {
        let ghost gv0 = self.view();
        let ghost gs0 = self.ps();
        let name = self.consume_string(TokenType::Identifier, "Expected package name")?;
        self.match_token(TokenType::Semicolon);
        let st = Statement { kind: StatementKind::PackageDeclaration { name }, span: self.whole_span() };
        proof {
            lemma_stmt_is(st, (g_package(gv0, gs0)->0).0);
        }
        Ok(st)
    }

    /// The text inside the quotes of the string token just read.
    #[verifier::spinoff_prover]
    fn quoted_path(&mut self, msg: &str) -> (r: Result<String, String>)
        requires
            old(self).wf(),
        ensures
            steps_to(*old(self), *final(self)),
            r is Ok ==> final(self).pos == old(self).pos + 1,
            match g_quoted(old(self).view(), old(self).ps()) {
                Some((v, s2)) => r matches Ok(x) && x@ == v && final(self).ps() == s2,
                None => r is Err,
            },
    {
        let raw = self.consume_text(TokenType::StringLit, msg)?;
        match strip_quotes(&raw) {
            Some((a, b)) => Ok(string_of_range(&raw, a, b)),
            None => Err(self.error_here("Malformed string literal")),
        }
    }

    #[verifier::spinoff_prover]
    fn parse_import_declaration(&mut self) -> (r: Result<Statement, String>)
        requires
            old(self).wf(),
        ensures
            steps_to(*old(self), *final(self)),
            match g_import(old(self).view(), old(self).ps()) {
                Some((d, s2)) => r matches Ok(st) && stmt_is(st, d) && final(self).ps() == s2,
                None => r is Err,
            },
    {
        let ghost gv0 = self.view();
        let ghost gs0 = self.ps();
        let ghost v = self.view();
        let mut paths: Vec<String> = Vec::new();
        if self.match_token(TokenType::LParen) {
            let ghost s1 = self.ps();
            let ghost mut acc: Seq<Seq<char>> = Seq::empty();
            while !self.check(TokenType::RParen) && !self.is_at_end()
                invariant
                    steps_to(*old(self), *self),
                    v == self.view(),
                    v == old(self).view(),
                    at_kind(v, old(self).ps(), TokenType::LParen),
                    s1 == adv(old(self).ps()),
                    strings_are(paths@, acc),
                    g_import_loop(v, s1, Seq::empty()) == g_import_loop(v, self.ps(), acc),
                decreases self.tokens.len() - self.pos,
            {
                let ghost sb = self.ps();
                let path = self.quoted_path("Expected import path string")?;
                proof {
                    acc = acc.push(path@);
                }
                paths.push(path);
                if !self.match_token(TokenType::Semicolon) {
                    self.match_token(TokenType::Comma);
                }
            }
            self.consume(TokenType::RParen, "Expected ) after grouped imports")?;
        } else {
            let path = self.quoted_path("Expected import path string")?;
            paths.push(path);
        }
        self.match_token(TokenType::Semicolon);
        let st = Statement { kind: StatementKind::ImportDeclaration { paths }, span: self.whole_span() };
        proof {
            lemma_stmt_is(st, (g_import(gv0, gs0)->0).0);
        }
        Ok(st)
    }

    #[verifier::spinoff_prover]
    fn parse_pub_declaration(&mut self, depth: u32) -> (r: Result<Statement, String>)
        requires
            old(self).wf(),
            old(self).pos < old(self).tokens.len(),
        ensures
            steps_to(*old(self), *final(self)),
            r is Ok ==> old(self).pos < final(self).pos,
            match g_pub(old(self).view(), old(self).ps(), depth as nat) {
                Some((d, s2)) => r matches Ok(st) && stmt_is(st, d) && final(self).ps() == s2,
                None => r is Err,
            },
        decreases depth,
    {
        proof {
            reveal_with_fuel(g_func, 1);
            reveal_with_fuel(g_pub, 1);
        }
        if depth == 0 {
            return Err(self.too_deep());
        }
        let d = depth - 1;
        self.advance();
        if self.check(TokenType::Fn) && self.check_next(TokenType::Identifier) {
            self.advance();
            return self.parse_function_declaration(true, false, d);
        }
        if self.check(TokenType::Async) && self.check_next(TokenType::Fn) {
            self.advance();
            self.advance();
            return self.parse_function_declaration(true, true, d);
        }
        if self.match_token(TokenType::Struct) {
            return self.parse_struct_definition(true, d);
        }
        if self.match_token(TokenType::TypeKw) {
            return self.parse_type_alias_declaration(d);
        }
        Err(self.error_here("Expected fn, struct, or type after pub"))
    }

    #[verifier::spinoff_prover]
    fn parse_function_declaration(&mut self, is_public: bool, is_async: bool, depth: u32) -> (r:
        Result<Statement, String>)
        requires
            old(self).wf(),
        ensures
            steps_to(*old(self), *final(self)),
            match g_func(old(self).view(), old(self).ps(), is_public, is_async, depth as nat) {
                Some((d, s2)) => r matches Ok(st) && stmt_is(st, d) && final(self).ps() == s2,
                None => r is Err,
            },
        decreases depth,
    {
        proof {
            reveal_with_fuel(g_fn_body, 1);
            reveal_with_fuel(g_func, 1);
            reveal_with_fuel(g_params, 1);
        }
        let ghost gv0 = self.view();
        let ghost gs0 = self.ps();
        if depth == 0 {
            return Err(self.too_deep());
        }
        let d = depth - 1;
        let name = self.consume_string(TokenType::Identifier, "Expected function name")?;
        self.consume(TokenType::LParen, "Expected ( after function name")?;
        let params = self.parse_function_params(d)?;
        self.consume(TokenType::RParen, "Expected ) after parameters")?;
        let return_type = if self.match_token(TokenType::Arrow) {
            self.parse_return_type(d)?
        } else {
            Type::Void
        };
        let body = self.parse_function_body(d)?;
        let span = self.whole_span();
        if is_async {
            let st = Statement {
                kind: StatementKind::AsyncFunctionDeclaration {
                    name,
                    params,
                    return_type,
                    body,
                    is_public,
                },
                span,
            };
            proof {
                lemma_stmt_is(st, (g_func(gv0, gs0, is_public, is_async, depth as nat)->0).0);
            }
            Ok(st)
        } else {
            let st = Statement {
                kind: StatementKind::FunctionDeclaration {
                    name,
                    params,
                    return_type,
                    body,
                    is_public,
                },
                span,
            };
            proof {
                lemma_stmt_is(st, (g_func(gv0, gs0, is_public, is_async, depth as nat)->0).0);
            }
            Ok(st)
        }
    }

    #[verifier::spinoff_prover]
    fn parse_struct_definition(&mut self, is_public: bool, depth: u32) -> (r: Result<
        Statement,
        String,
    >)
        requires
            old(self).wf(),
        ensures
            steps_to(*old(self), *final(self)),
            match g_struct(old(self).view(), old(self).ps(), is_public, depth as nat) {
                Some((d, s2)) => r matches Ok(st) && stmt_is(st, d) && final(self).ps() == s2,
                None => r is Err,
            },
        decreases depth,
    {
        let ghost gv0 = self.view();
        let ghost gs0 = self.ps();
        if depth == 0 {
            return Err(self.too_deep());
        }
        let ghost v = self.view();
        let d = depth - 1;
        let name = self.consume_string(TokenType::Identifier, "Expected struct name")?;
        let ghost s1 = self.ps();
        self.consume(TokenType::LBrace, "Expected { after struct name")?;
        let ghost s2 = self.ps();
        let ghost mut acc: Seq<(Seq<char>, Seq<char>)> = Seq::empty();
        let mut fields: Vec<FieldDef> = Vec::new();
        while !self.check(TokenType::RBrace) && !self.is_at_end()
            invariant
                steps_to(*old(self), *self),
                d < depth,
                d == depth - 1,
                v == self.view(),
                v == old(self).view(),
                take(v, old(self).ps(), TokenType::Identifier) == Some((name@, s1)),
                expect(v, s1, TokenType::LBrace) == Some(s2),
                fields_are(fields@, acc),
                g_fields(v, s2, d as nat, Seq::empty()) == g_fields(v, self.ps(), d as nat, acc),
            decreases self.tokens.len() - self.pos,
        {
            let ghost sb = self.ps();
            let field_name = self.consume_string(TokenType::Identifier, "Expected field name")?;
            self.consume(TokenType::Colon, "Expected : after field name")?;
            let tname = if self.check(TokenType::LBracket) {
                self.parse_array_type_annotation(d)?
            } else if self.check(TokenType::TypeToken) {
                self.consume_text(TokenType::TypeToken, "Expected type after :")?
            } else {
                self.consume_text(TokenType::Identifier, "Expected type after :")?
            };
            let field_type = resolve_type_name(&tname);
            proof {
                acc = acc.push((field_name@, tname@));
            }
            fields.push(FieldDef { name: field_name, field_type });
            if !self.match_token(TokenType::Comma) {
                self.match_token(TokenType::Semicolon);
            }
            assert(progress(v, sb, self.ps()));
        }
        self.consume(TokenType::RBrace, "Expected } after struct fields")?;
        let st = Statement {
            kind: StatementKind::StructDefinition { name, fields, is_public },
            span: self.whole_span(),
        };
        proof {
            lemma_stmt_is(st, (g_struct(gv0, gs0, is_public, depth as nat)->0).0);
        }
        Ok(st)
    }

    #[verifier::spinoff_prover]
    fn parse_variable_declaration(&mut self, depth: u32) -> (r: Result<Statement, String>)
        requires
            old(self).wf(),
        ensures
            steps_to(*old(self), *final(self)),
            r is Ok ==> old(self).pos < final(self).pos,
            match g_var_decl(old(self).view(), old(self).ps(), depth as nat) {
                Some((d, s2)) => r matches Ok(st) && stmt_is(st, d) && final(self).ps() == s2,
                None => r is Err,
            },
        decreases depth,
    {
        proof {
            reveal_with_fuel(g_expr, 1);
            reveal_with_fuel(g_var_decl, 1);
        }
        let ghost gv0 = self.view();
        let ghost gs0 = self.ps();
        if depth == 0 {
            return Err(self.too_deep());
        }
        let d = depth - 1;
        let name = self.consume_string(TokenType::Identifier, "Expected variable name")?;
        self.consume(TokenType::Colon, "Expected : after variable name")?;
        let var_type = self.parse_type_annotation(d)?;
        if !self.match_token(TokenType::Assign) {
            self.consume(TokenType::Equal, "Expected = or := after type")?;
            self.match_token(TokenType::Assign);
        }
        let initializer = self.parse_expression(d)?;
        self.consume(TokenType::Semicolon, "Expected ; after variable declaration")?;
        let st = Statement {
            kind: StatementKind::VariableDeclaration {
                name,
                var_type: Some(var_type),
                value: Some(Box::new(initializer)),
            },
            span: self.whole_span(),
        };
        proof {
            lemma_stmt_is(st, (g_var_decl(gv0, gs0, depth as nat)->0).0);
        }
        Ok(st)
    }

    /// `name[]...`: the name read, with `[]` appended for each bracket pair.
    fn bracket_suffix(&mut self, name: &mut Vec<char>) -> (r: Result<(), String>)
        requires
            old(self).wf(),
        ensures
            steps_to(*old(self), *final(self)),
            match g_suffix(old(self).view(), old(self).ps(), old(name)@) {
                Some((n, s2)) => r is Ok && final(name)@ == n && final(self).ps() == s2,
                None => r is Err,
            },
    {
        while self.match_token(TokenType::LBracket)
            invariant
                steps_to(*old(self), *self),
                g_suffix(self.view(), self.ps(), name@) == g_suffix(
                    old(self).view(),
                    old(self).ps(),
                    old(name)@,
                ),
            decreases self.tokens.len() - self.pos,
        {
            let ghost n0 = name@;
            name.push('[');
            self.consume(TokenType::RBracket, "Expected ] after array bracket")?;
            name.push(']');
            assert(name@ =~= n0 + seq!['[', ']']);
        }
        Ok(())
    }

    /// `soa Name[N]` or `soa Name[]`, after `soa`: the struct name and the
    /// capacity.
    fn parse_soa_suffix(&mut self) -> (r: Result<(String, Option<usize>), String>)
        requires
            old(self).wf(),
        ensures
            steps_to(*old(self), *final(self)),
            r is Ok ==> old(self).pos < final(self).pos,
            match g_soa(old(self).view(), old(self).ps()) {
                Some(((sn, c), s2)) => r matches Ok((n, cap)) && n@ == sn && cap == c
                    && final(self).ps() == s2,
                None => r is Err,
            },
    {
        let struct_name = self.consume_string(TokenType::Identifier, "Expected struct name after soa")?;
        self.consume(TokenType::LBracket, "Expected [ after struct name")?;
        let capacity = if self.check(TokenType::Number) {
            let v = self.consume_text(TokenType::Number, "Expected capacity")?;
            assert(v@.subrange(0, v@.len() as int) =~= v@);
            match parse_usize(&v, 0, v.len()) {
                Some(n) => Some(n),
                None => {
                    return Err(self.error_here("Invalid capacity"));
                },
            }
        } else {
            None
        };
        self.consume(TokenType::RBracket, "Expected ] after capacity")?;
        Ok((struct_name, capacity))
    }

    fn parse_type_annotation(&mut self, depth: u32) -> (r: Result<Type, String>)
        requires
            old(self).wf(),
        ensures
            steps_to(*old(self), *final(self)),
            match g_type_ann(old(self).view(), old(self).ps(), depth as nat) {
                Some((d, s2)) => r matches Ok(t) && type_is(t, d) && final(self).ps() == s2,
                None => r is Err,
            },
        decreases depth,
    {
        if depth == 0 {
            return Err(self.too_deep());
        }
        let d = depth - 1;
        if self.check(TokenType::Fn) {
            return self.parse_function_type_annotation(d);
        }
        if self.check(TokenType::Tensor) {
            return self.parse_tensor_type_annotation();
        }
        if self.check(TokenType::LBracket) {
            let name = self.parse_array_type_annotation(d)?;
            return Ok(resolve_type_name(&name));
        }
        if self.match_token(TokenType::Soa) {
            let (struct_name, capacity) = self.parse_soa_suffix()?;
            return Ok(
                Type::SOA { struct_type: Box::new(Type::Custom(struct_name)), capacity },
            );
        }
        if self.match_token(TokenType::QuestionMark) {
            let inner = self.parse_return_type(d)?;
            return Ok(Type::Optional(Box::new(inner)));
        }
        if self.check(TokenType::TypeToken) {
            let mut name = self.consume_text(TokenType::TypeToken, "Expected type annotation")?;
            self.bracket_suffix(&mut name)?;
            return Ok(resolve_type_name(&name));
        }
        if self.check(TokenType::Identifier) {
            let mut name = self.consume_text(TokenType::Identifier, "Expected type annotation")?;
            let result_word = vec!['R', 'e', 's', 'u', 'l', 't'];
            assert(result_word@ =~= crate::grammar::result_word());
            if chars_eq(&name, &result_word) && self.match_token(TokenType::Less) {
                let inner = self.parse_return_type(d)?;
                self.consume(TokenType::Greater, "Expected > after Result<T>")?;
                return Ok(Type::Result(Box::new(inner)));
            }
            self.bracket_suffix(&mut name)?;
            return Ok(resolve_type_name(&name));
        }
        Err(self.error_here("Expected type annotation"))
    }

    #[verifier::spinoff_prover]
    fn parse_type_alias_declaration(&mut self, depth: u32) -> (r: Result<Statement, String>)
        requires
            old(self).wf(),
        ensures
            steps_to(*old(self), *final(self)),
            match g_alias(old(self).view(), old(self).ps(), depth as nat) {
                Some((d, s2)) => r matches Ok(st) && stmt_is(st, d) && final(self).ps() == s2,
                None => r is Err,
            },
        decreases depth,
    {
        let ghost gv0 = self.view();
        let ghost gs0 = self.ps();
        if depth == 0 {
            return Err(self.too_deep());
        }
        let d = depth - 1;
        let name = self.consume_string(TokenType::Identifier, "Expected type alias name")?;
        self.consume(TokenType::Equal, "Expected = after type alias name")?;
        if self.match_token(TokenType::LBrace) {
            let key_name = self.consume_type_or_ident("Expected key type")?;
            self.consume(TokenType::Colon, "Expected : after key type")?;
            let value_name = self.consume_type_or_ident("Expected value type")?;
            self.consume(TokenType::RBrace, "Expected } after map type")?;
            self.match_token(TokenType::Semicolon);
            let key_type = resolve_type_name(&key_name);
            let value_type = resolve_type_name(&value_name);
            let map_type = Type::MapType {
                key_type: Box::new(key_type),
                value_type: Box::new(value_type),
            };
            let alias_name = name.clone();
            let st = Statement {
                kind: StatementKind::TypeAliasDeclaration {
                    name,
                    aliased_type: Type::TypeAlias {
                        name: alias_name,
                        aliased_type: Box::new(map_type),
                    },
                },
                span: self.whole_span(),
            };
            proof {
                lemma_stmt_is(st, (g_alias(gv0, gs0, depth as nat)->0).0);
            }
            return Ok(st);
        }
        if self.check(TokenType::Fn) {
            let func_type = self.parse_function_type_annotation(d)?;
            self.match_token(TokenType::Semicolon);
            let alias_name = name.clone();
            let st = Statement {
                kind: StatementKind::TypeAliasDeclaration {
                    name,
                    aliased_type: Type::TypeAlias {
                        name: alias_name,
                        aliased_type: Box::new(func_type),
                    },
                },
                span: self.whole_span(),
            };
            proof {
                lemma_stmt_is(st, (g_alias(gv0, gs0, depth as nat)->0).0);
            }
            return Ok(st);
        }
        let mut full = if self.check(TokenType::LBracket) {
            self.parse_array_type_annotation(d)?
        } else {
            self.consume_type_or_ident("Expected type")?
        };
        self.bracket_suffix(&mut full)?;
        self.match_token(TokenType::Semicolon);
        let aliased = resolve_type_name(&full);
        let alias_name = name.clone();
        let st = Statement {
            kind: StatementKind::TypeAliasDeclaration {
                name,
                aliased_type: Type::TypeAlias { name: alias_name, aliased_type: Box::new(aliased) },
            },
            span: self.whole_span(),
        };
        proof {
            lemma_stmt_is(st, (g_alias(gv0, gs0, depth as nat)->0).0);
        }
        Ok(st)
    }

    /// `requires a, b;` or `optional a, b;`, after the keyword.
    #[verifier::spinoff_prover]
    fn parse_capability_list(&mut self, required: bool) -> (r: Result<Statement, String>)
        requires
            old(self).wf(),
        ensures
            steps_to(*old(self), *final(self)),
            match g_caps(old(self).view(), old(self).ps(), required) {
                Some((d, s2)) => r matches Ok(st) && stmt_is(st, d) && final(self).ps() == s2,
                None => r is Err,
            },
    {
        let ghost gv0 = self.view();
        let ghost gs0 = self.ps();
        let ghost v = self.view();
        let mut capabilities: Vec<String> = Vec::new();
        let first = self.consume_string(TokenType::Identifier, "Expected capability name")?;
        let ghost s1 = self.ps();
        let ghost fv = first@;
        let ghost mut acc: Seq<Seq<char>> = seq![fv];
        capabilities.push(first);
        while self.match_token(TokenType::Comma)
            invariant
                steps_to(*old(self), *self),
                v == self.view(),
                v == old(self).view(),
                take(v, old(self).ps(), TokenType::Identifier) == Some((fv, s1)),
                strings_are(capabilities@, acc),
                g_caps_more(v, s1, seq![fv]) == g_caps_more(v, self.ps(), acc),
            decreases self.tokens.len() - self.pos,
        {
            let next = self.consume_string(TokenType::Identifier, "Expected capability name")?;
            proof {
                acc = acc.push(next@);
            }
            capabilities.push(next);
        }
        self.match_token(TokenType::Semicolon);
        let kind = if required {
            StatementKind::RequiresDeclaration { capabilities }
        } else {
            StatementKind::OptionalDeclaration { capabilities }
        };
        let st = Statement { kind, span: self.whole_span() };
        proof {
            lemma_stmt_is(st, (g_caps(gv0, gs0, required)->0).0);
        }
        Ok(st)
    }

    #[verifier::spinoff_prover]
    fn parse_return_statement(&mut self, depth: u32) -> (r: Result<Statement, String>)
        requires
            old(self).wf(),
        ensures
            steps_to(*old(self), *final(self)),
            match g_return(old(self).view(), old(self).ps(), depth as nat) {
                Some((d, s2)) => r matches Ok(st) && stmt_is(st, d) && final(self).ps() == s2,
                None => r is Err,
            },
        decreases depth,
    {
        proof {
            reveal_with_fuel(g_expr, 1);
            reveal_with_fuel(g_return, 1);
        }
        if depth == 0 {
            return Err(self.too_deep());
        }
        let ghost v = self.view();
        let ghost s0 = self.ps();
        let d = depth - 1;
        let value = if !self.check(TokenType::Semicolon) {
            Some(Box::new(self.parse_expression(d)?))
        } else {
            None
        };
        let ghost o: Option<ExprD> = if !at_kind(v, s0, TokenType::Semicolon) {
            Some((g_expr(v, s0, d as nat)->0).0)
        } else {
            None
        };
        self.consume(TokenType::Semicolon, "Expected ; after return")?;
        let st = Statement { kind: StatementKind::Return { value }, span: self.whole_span() };
        proof {
            assert(g_return(v, s0, depth as nat) == Some((crate::syntax::decl(v, StmtKindD::Return(o)), self.ps())));
            lemma_stmt_is(st, crate::syntax::decl(v, StmtKindD::Return(o)));
        }
        Ok(st)
    }

    /// An expression read with struct literals turned off (conditions and
    /// loop headers, where `{` opens the body).
    #[verifier::spinoff_prover]
    fn parse_header_expression(&mut self, depth: u32) -> (r: Result<Expr, String>)
        requires
            old(self).wf(),
        ensures
            steps_to(*old(self), *final(self)),
            r is Ok ==> old(self).pos < final(self).pos,
            match g_header(old(self).view(), old(self).ps(), depth as nat) {
                Some((d, s2)) => r matches Ok(e) && expr_is(e, d) && final(self).ps() == s2,
                None => r is Err,
            },
        decreases depth,
    {
        proof {
            reveal_with_fuel(g_expr, 1);
            reveal_with_fuel(g_header, 1);
        }
        if depth == 0 {
            return Err(self.too_deep());
        }
        let prev = self.allow_struct_literal;
        self.allow_struct_literal = false;
        let e = self.parse_expression(depth - 1)?;
        self.allow_struct_literal = prev;
        Ok(e)
    }

    /// The condition of an `if`: parenthesized, or bare.
    #[verifier::spinoff_prover]
    fn parse_condition(&mut self, depth: u32) -> (r: Result<Expr, String>)
        requires
            old(self).wf(),
        ensures
            steps_to(*old(self), *final(self)),
            match g_condition(old(self).view(), old(self).ps(), depth as nat) {
                Some((d, s2)) => r matches Ok(e) && expr_is(e, d) && final(self).ps() == s2,
                None => r is Err,
            },
        decreases depth,
    {
        proof {
            reveal_with_fuel(g_condition, 1);
            reveal_with_fuel(g_expr, 1);
            reveal_with_fuel(g_header, 1);
        }
        if depth == 0 {
            return Err(self.too_deep());
        }
        if self.match_token(TokenType::LParen) {
            let cond = self.parse_expression(depth - 1)?;
            self.consume(TokenType::RParen, "Expected ) after condition")?;
            Ok(cond)
        } else {
            self.parse_header_expression(depth - 1)
        }
    }

    #[verifier::rlimit(60)]
    #[verifier::spinoff_prover]
    fn parse_if_statement(&mut self, depth: u32) -> (r: Result<Statement, String>)
        requires
            old(self).wf(),
        ensures
            steps_to(*old(self), *final(self)),
            match g_if_stmt(old(self).view(), old(self).ps(), depth as nat) {
                Some((d, s2)) => r matches Ok(st) && stmt_is(st, d) && final(self).ps() == s2,
                None => r is Err,
            },
        decreases depth,
    {
        proof {
            reveal_with_fuel(g_block_body, 1);
            reveal_with_fuel(g_condition, 1);
            reveal_with_fuel(g_if_stmt, 1);
        }
        let ghost gv0 = self.view();
        let ghost gs0 = self.ps();
        if depth == 0 {
            return Err(self.too_deep());
        }
        let ghost v = self.view();
        let d = depth - 1;
        let condition = self.parse_condition(d)?;
        self.consume(TokenType::LBrace, "Expected { after if condition")?;
        let true_branch = self.parse_block_body("Expected } after if body", d)?;
        let false_branch = if self.match_token(TokenType::Else) {
            if self.check(TokenType::If) {
                self.advance();
                let ghost sn = self.ps();
                let nested = self.parse_if_statement(d)?;
                let ghost n = (self.scope_counter + 1) as nat;
                let scope_id = self.next_scope_id()?;
                let ghost nd = (g_if_stmt(v, sn, d as nat)->0).0;
                let block = Block { statements: vec![nested], scope_id, span: self.whole_span() };
                proof {
                    lemma_empty_lists();
                    lemma_stmts_push(Seq::empty(), Seq::empty(), nested, nd);
                    assert(block.statements@ =~= Seq::empty().push(nested));
                    assert(seq![nd] =~= Seq::<StmtD>::empty().push(nd));
                    lemma_block_is(block, BlockD { stmts: seq![nd], scope: n, span: wspan(v) });
                }
                Some(block)
            } else {
                self.consume(TokenType::LBrace, "Expected { after else")?;
                Some(self.parse_block_body("Expected } after else body", d)?)
            }
        } else {
            None
        };
        proof {
            lemma_opt_block_is(false_branch, ((g_if_stmt(gv0, gs0, depth as nat)->0).0).kind->Cond_2);
        }
        let st = Statement {
            kind: StatementKind::Conditional {
                condition: Box::new(condition),
                true_branch,
                false_branch,
            },
            span: self.whole_span(),
        };
        proof {
            lemma_stmt_is(st, (g_if_stmt(gv0, gs0, depth as nat)->0).0);
        }
        Ok(st)
    }

    #[verifier::spinoff_prover]
    fn parse_while_loop(&mut self, depth: u32) -> (r: Result<Statement, String>)
        requires
            old(self).wf(),
        ensures
            steps_to(*old(self), *final(self)),
            match g_while(old(self).view(), old(self).ps(), depth as nat) {
                Some((d, s2)) => r matches Ok(st) && stmt_is(st, d) && final(self).ps() == s2,
                None => r is Err,
            },
        decreases depth,
    {
        proof {
            reveal_with_fuel(g_block_body, 1);
            reveal_with_fuel(g_header, 1);
            reveal_with_fuel(g_while, 1);
        }
        if depth == 0 {
            return Err(self.too_deep());
        }
        let ghost v = self.view();
        let ghost s0 = self.ps();
        let d = depth - 1;
        let has_parens = self.match_token(TokenType::LParen);
        let test = self.parse_header_expression(d)?;
        if has_parens {
            self.consume(TokenType::RParen, "Expected ) after while condition")?;
        }
        self.consume(TokenType::LBrace, "Expected { after while condition")?;
        let body = self.parse_block_body("Expected } after while loop", d)?;
        let st = Statement {
            kind: StatementKind::WhileLoop { test: Box::new(test), body },
            span: self.whole_span(),
        };
        proof {
            lemma_stmt_is(st, (g_while(v, s0, depth as nat)->0).0);
        }
        Ok(st)
    }

    #[verifier::rlimit(60)]
    #[verifier::spinoff_prover]
    fn parse_for_loop(&mut self, depth: u32) -> (r: Result<Statement, String>)
        requires
            old(self).wf(),
        ensures
            steps_to(*old(self), *final(self)),
            match g_for(old(self).view(), old(self).ps(), depth as nat) {
                Some((d, s2)) => r matches Ok(st) && stmt_is(st, d) && final(self).ps() == s2,
                None => r is Err,
            },
        decreases depth,
    {
        proof {
            reveal_with_fuel(g_expr, 1);
            reveal_with_fuel(g_for, 1);
            reveal_with_fuel(g_for_body, 1);
            reveal_with_fuel(g_header, 1);
        }
        let ghost gv0 = self.view();
        let ghost gs0 = self.ps();
        if depth == 0 {
            return Err(self.too_deep());
        }
        let d = depth - 1;
        let variable = self.consume_string(TokenType::Identifier, "Expected variable name after for")?;
        if self.check(TokenType::Colon) {
            self.consume(TokenType::Colon, "Expected : after variable name")?;
            let mut tname = self.consume_text(TokenType::TypeToken, "Expected type after :")?;
            self.bracket_suffix(&mut tname)?;
            let var_type = resolve_type_name(&tname);
            self.consume(TokenType::In, "Expected 'in' after type annotation")?;
            let array = self.parse_header_expression(d)?;
            let body = self.parse_for_body(d)?;
            let st = Statement {
                kind: StatementKind::ForEachLoop {
                    variable,
                    var_type: Some(var_type),
                    array: Box::new(array),
                    body,
                },
                span: self.whole_span(),
            };
            proof {
                lemma_stmt_is(st, (g_for(gv0, gs0, depth as nat)->0).0);
            }
            return Ok(st);
        }
        if self.match_token(TokenType::Comma) {
            let second = self.consume_string(
                TokenType::Identifier,
                "Expected second variable name after comma",
            )?;
            self.consume(TokenType::In, "Expected 'in' after variable names")?;
            let iterable = self.parse_header_expression(d)?;
            let body = self.parse_for_body(d)?;
            let st = Statement {
                kind: StatementKind::ForInIndex {
                    index_variable: variable,
                    value_variable: second,
                    iterable: Box::new(iterable),
                    body,
                },
                span: self.whole_span(),
            };
            proof {
                lemma_stmt_is(st, (g_for(gv0, gs0, depth as nat)->0).0);
            }
            return Ok(st);
        }
        if self.match_token(TokenType::In) {
            let iterable = self.parse_header_expression(d)?;
            if self.match_token(TokenType::Range) {
                let end = self.parse_header_expression(d)?;
                let body = self.parse_for_body(d)?;
                let st = Statement {
                    kind: StatementKind::ForInRange {
                        variable,
                        start: Box::new(iterable),
                        end: Box::new(end),
                        body,
                    },
                    span: self.whole_span(),
                };
                proof {
                    lemma_stmt_is(st, (g_for(gv0, gs0, depth as nat)->0).0);
                }
                return Ok(st);
            }
            let body = self.parse_for_body(d)?;
            let st = Statement {
                kind: StatementKind::ForEachLoop {
                    variable,
                    var_type: None,
                    array: Box::new(iterable),
                    body,
                },
                span: self.whole_span(),
            };
            proof {
                lemma_stmt_is(st, (g_for(gv0, gs0, depth as nat)->0).0);
            }
            return Ok(st);
        }
        self.consume(TokenType::Assign, "Expected := after variable name")?;
        let start = self.parse_expression(d)?;
        self.consume(TokenType::To, "Expected to after start value")?;
        let end = self.parse_expression(d)?;
        let body = self.parse_for_body(d)?;
        let st = Statement {
            kind: StatementKind::ForLoop {
                variable,
                start: Box::new(start),
                end: Box::new(end),
                body,
            },
            span: self.whole_span(),
        };
        proof {
            lemma_stmt_is(st, (g_for(gv0, gs0, depth as nat)->0).0);
        }
        Ok(st)
    }

    #[verifier::spinoff_prover]
    fn parse_for_body(&mut self, depth: u32) -> (r: Result<Block, String>)
        requires
            old(self).wf(),
        ensures
            steps_to(*old(self), *final(self)),
            match g_for_body(old(self).view(), old(self).ps(), depth as nat) {
                Some((d, s2)) => r matches Ok(b) && block_is(b, d) && final(self).ps() == s2,
                None => r is Err,
            },
        decreases depth,
    {
        proof {
            reveal_with_fuel(g_block_body, 1);
            reveal_with_fuel(g_for_body, 1);
        }
        if depth == 0 {
            return Err(self.too_deep());
        }
        self.consume(TokenType::LBrace, "Expected { after for header")?;
        self.parse_block_body("Expected } after for loop", depth - 1)
    }

    #[verifier::spinoff_prover]
    fn parse_try_catch(&mut self, depth: u32) -> (r: Result<Statement, String>)
        requires
            old(self).wf(),
        ensures
            steps_to(*old(self), *final(self)),
            match g_try(old(self).view(), old(self).ps(), depth as nat) {
                Some((d, s2)) => r matches Ok(st) && stmt_is(st, d) && final(self).ps() == s2,
                None => r is Err,
            },
        decreases depth,
    {
        proof {
            reveal_with_fuel(g_block_body, 1);
            reveal_with_fuel(g_try, 1);
        }
        let ghost gv0 = self.view();
        let ghost gs0 = self.ps();
        if depth == 0 {
            return Err(self.too_deep());
        }
        let d = depth - 1;
        self.consume(TokenType::LBrace, "Expected { after try")?;
        let try_body = self.parse_block_body("Expected } after try body", d)?;
        self.consume(TokenType::Catch, "Expected catch after try block")?;
        self.consume(TokenType::LParen, "Expected ( after catch")?;
        let error_var = self.consume_string(TokenType::Identifier, "Expected error variable name")?;
        self.consume(TokenType::RParen, "Expected ) after catch variable")?;
        self.consume(TokenType::LBrace, "Expected { after catch(...)")?;
        let catch_body = self.parse_block_body("Expected } after catch body", d)?;
        let st = Statement {
            kind: StatementKind::TryCatch { try_body, error_var, catch_body },
            span: self.whole_span(),
        };
        proof {
            lemma_stmt_is(st, (g_try(gv0, gs0, depth as nat)->0).0);
        }
        Ok(st)
    }

    #[verifier::spinoff_prover]
    fn parse_with_statement(&mut self, depth: u32) -> (r: Result<Statement, String>)
        requires
            old(self).wf(),
        ensures
            steps_to(*old(self), *final(self)),
            match g_with(old(self).view(), old(self).ps(), depth as nat) {
                Some((d, s2)) => r matches Ok(st) && stmt_is(st, d) && final(self).ps() == s2,
                None => r is Err,
            },
        decreases depth,
    {
        proof {
            reveal_with_fuel(g_block_body, 1);
            reveal_with_fuel(g_header, 1);
            reveal_with_fuel(g_with, 1);
        }
        let ghost gv0 = self.view();
        let ghost gs0 = self.ps();
        if depth == 0 {
            return Err(self.too_deep());
        }
        let d = depth - 1;
        let context = self.parse_header_expression(d)?;
        self.consume(TokenType::LBrace, "Expected { after with expression")?;
        let body = self.parse_block_body("Expected } after with body", d)?;
        let st = Statement {
            kind: StatementKind::WithBlock { context: Box::new(context), body },
            span: self.whole_span(),
        };
        proof {
            lemma_stmt_is(st, (g_with(gv0, gs0, depth as nat)->0).0);
        }
        Ok(st)
    }

    /// Statements up to the closing `}`, which is read too.
    #[verifier::spinoff_prover]
    fn parse_statements_to_brace(&mut self, close_msg: &str, depth: u32) -> (r: Result<
        Vec<Statement>,
        String,
    >)
        requires
            old(self).wf(),
        ensures
            steps_to(*old(self), *final(self)),
            match g_stmts_to_brace(old(self).view(), old(self).ps(), depth as nat) {
                Some((d, s2)) => r matches Ok(ss) && stmts_are(ss@, d) && final(self).ps() == s2,
                None => r is Err,
            },
        decreases depth,
    {
        proof {
            reveal_with_fuel(g_statement, 1);
            reveal_with_fuel(g_stmt_loop, 1);
            reveal_with_fuel(g_stmts_to_brace, 1);
        }
        if depth == 0 {
            return Err(self.too_deep());
        }
        let ghost v = self.view();
        let ghost s0 = self.ps();
        let d = depth - 1;
        let ghost mut acc: Seq<StmtD> = Seq::empty();
        let mut stmts: Vec<Statement> = Vec::new();
        proof {
            lemma_empty_lists();
        }
        while !self.check(TokenType::RBrace) && !self.is_at_end()
            invariant
                steps_to(*old(self), *self),
                d < depth,
                d == depth - 1,
                v == self.view(),
                v == old(self).view(),
                s0 == old(self).ps(),
                stmts_are(stmts@, acc),
                g_stmt_loop(v, s0, d as nat, Seq::empty()) == g_stmt_loop(v, self.ps(), d as nat, acc),
            decreases self.tokens.len() - self.pos,
        {
            proof {
                reveal_with_fuel(g_statement, 1);
                reveal_with_fuel(g_stmt_loop, 1);
                reveal_with_fuel(g_stmts_to_brace, 1);
            }
            let ghost sb = self.ps();
            let o = self.parse_statement(d)?;
            let ghost before = stmts@;
            let ghost so = (g_statement(v, sb, d as nat)->0).0;
            proof {
                assert(progress(v, sb, self.ps()));
                lemma_push_opt(before, acc, o, so);
            }
            match o {
                Some(s) => stmts.push(s),
                None => {},
            }
            proof {
                acc = push_opt(acc, so);
            }
        }
        self.consume(TokenType::RBrace, close_msg)?;
        Ok(stmts)
    }

    #[verifier::spinoff_prover]
    fn parse_block_statement(&mut self, depth: u32) -> (r: Result<Statement, String>)
        requires
            old(self).wf(),
        ensures
            steps_to(*old(self), *final(self)),
            match g_block_stmt(old(self).view(), old(self).ps(), depth as nat) {
                Some((d, s2)) => r matches Ok(st) && stmt_is(st, d) && final(self).ps() == s2,
                None => r is Err,
            },
        decreases depth,
    {
        proof {
            reveal_with_fuel(g_block_stmt, 1);
            reveal_with_fuel(g_stmts_to_brace, 1);
        }
        let ghost gv0 = self.view();
        let ghost gs0 = self.ps();
        if depth == 0 {
            return Err(self.too_deep());
        }
        let stmts = self.parse_statements_to_brace("Expected } after block", depth - 1)?;
        let scope_id = self.next_scope_id()?;
        let st = Statement {
            kind: StatementKind::Block { statements: stmts, scope_id },
            span: self.whole_span(),
        };
        proof {
            lemma_stmt_is(st, (g_block_stmt(gv0, gs0, depth as nat)->0).0);
        }
        Ok(st)
    }

    #[verifier::spinoff_prover]
    fn parse_block_body(&mut self, close_msg: &str, depth: u32) -> (r: Result<Block, String>)
        requires
            old(self).wf(),
        ensures
            steps_to(*old(self), *final(self)),
            match g_block_body(old(self).view(), old(self).ps(), depth as nat) {
                Some((d, s2)) => r matches Ok(b) && block_is(b, d) && final(self).ps() == s2,
                None => r is Err,
            },
        decreases depth,
    {
        proof {
            reveal_with_fuel(g_block_body, 1);
            reveal_with_fuel(g_stmts_to_brace, 1);
        }
        let ghost gv0 = self.view();
        let ghost gs0 = self.ps();
        if depth == 0 {
            return Err(self.too_deep());
        }
        let stmts = self.parse_statements_to_brace(close_msg, depth - 1)?;
        let scope_id = self.next_scope_id()?;
        let b = Block { statements: stmts, scope_id, span: self.whole_span() };
        proof {
            lemma_block_is(b, (g_block_body(gv0, gs0, depth as nat)->0).0);
        }
        Ok(b)
    }

    /// `{ statements }` of a function: a body that is one expression
    /// statement becomes a `return` of that expression.
    #[verifier::spinoff_prover]
    fn parse_function_body(&mut self, depth: u32) -> (r: Result<Block, String>)
        requires
            old(self).wf(),
        ensures
            steps_to(*old(self), *final(self)),
            match g_fn_body(old(self).view(), old(self).ps(), depth as nat) {
                Some((d, s2)) => r matches Ok(b) && block_is(b, d) && final(self).ps() == s2,
                None => r is Err,
            },
        decreases depth,
    {
        proof {
            reveal_with_fuel(g_fn_body, 1);
            reveal_with_fuel(g_stmts_to_brace, 1);
        }
        let ghost gv0 = self.view();
        let ghost gs0 = self.ps();
        if depth == 0 {
            return Err(self.too_deep());
        }
        let ghost v = self.view();
        self.consume(TokenType::LBrace, "Expected { after function signature")?;
        let ghost s1 = self.ps();
        let stmts = self.parse_statements_to_brace("Expected } after function body", depth - 1)?;
        let ghost pre = stmts@;
        let stmts = implicit_return(stmts);
        proof {
            lemma_implicit(pre, (g_stmts_to_brace(v, s1, (depth - 1) as nat)->0).0);
        }
        let scope_id = self.next_scope_id()?;
        let b = Block { statements: stmts, scope_id, span: self.whole_span() };
        proof {
            lemma_block_is(b, (g_fn_body(gv0, gs0, depth as nat)->0).0);
        }
        Ok(b)
    }

    /// A type named by a type token or identifier, with `[]` suffixes, or
    /// a function or array type.
    fn parse_param_type(&mut self, depth: u32) -> (r: Result<Type, String>)
        requires
            old(self).wf(),
        ensures
            steps_to(*old(self), *final(self)),
            r is Ok ==> old(self).pos < final(self).pos,
            match g_param_type(old(self).view(), old(self).ps(), depth as nat) {
                Some((d, s2)) => r matches Ok(t) && type_is(t, d) && final(self).ps() == s2,
                None => r is Err,
            },
        decreases depth,
    {
        if depth == 0 {
            return Err(self.too_deep());
        }
        let d = depth - 1;
        if self.check(TokenType::Fn) {
            self.parse_function_type_annotation(d)
        } else if self.check(TokenType::LBracket) {
            let name = self.parse_array_type_annotation(d)?;
            Ok(resolve_type_name(&name))
        } else {
            let mut name = self.consume_type_or_ident("Expected type")?;
            self.bracket_suffix(&mut name)?;
            Ok(resolve_type_name(&name))
        }
    }

    #[verifier::spinoff_prover]
    fn parse_function_params(&mut self, depth: u32) -> (r: Result<Vec<FunctionParam>, String>)
        requires
            old(self).wf(),
        ensures
            steps_to(*old(self), *final(self)),
            match g_params(old(self).view(), old(self).ps(), depth as nat) {
                Some((d, s2)) => r matches Ok(ps) && params_are(ps@, d) && final(self).ps() == s2,
                None => r is Err,
            },
        decreases depth,
    {
        proof {
            reveal_with_fuel(g_expr, 1);
            reveal_with_fuel(g_params, 1);
            reveal_with_fuel(g_params_loop, 1);
        }
        if depth == 0 {
            return Err(self.too_deep());
        }
        let ghost v = self.view();
        let ghost s0 = self.ps();
        let d = depth - 1;
        let mut params: Vec<FunctionParam> = Vec::new();
        proof {
            lemma_empty_lists();
        }
        if self.check(TokenType::RParen) {
            return Ok(params);
        }
        let ghost mut acc: Seq<ParamD> = Seq::empty();
        let eq1 = vec!['='];
        assert(eq1@ =~= crate::syntax::eq_text());
        loop
            invariant_except_break
                g_params_loop(v, s0, d as nat, Seq::empty()) == g_params_loop(v, self.ps(), d as nat, acc),
            invariant
                steps_to(*old(self), *self),
                d < depth,
                v == self.view(),
                v == old(self).view(),
                s0 == old(self).ps(),
                d == depth - 1,
                !at_kind(v, s0, TokenType::RParen),
                eq1@ == crate::syntax::eq_text(),
                params_are(params@, acc),
            ensures
                g_params_loop(v, s0, d as nat, Seq::empty()) == Some((acc, self.ps())),
            decreases self.tokens.len() - self.pos,
        {
            proof {
                reveal_with_fuel(g_expr, 1);
                reveal_with_fuel(g_params, 1);
                reveal_with_fuel(g_params_loop, 1);
            }
            let ghost sb = self.ps();
            let name = self.consume_string(TokenType::Identifier, "Expected parameter name")?;
            self.consume(TokenType::Colon, "Expected : after parameter name")?;
            let ghost st = self.ps();
            let param_type = self.parse_param_type(d)?;
            let ghost td = (g_param_type(v, st, d as nat)->0).0;
            let ghost s3 = self.ps();
            let default_value = if self.check(TokenType::Equal) && self.current_text_is(&eq1) {
                self.advance();
                let ghost s4 = self.ps();
                let e = self.parse_expression(d)?;
                proof {
                    assert(expr_is(e, (g_expr(v, s4, d as nat)->0).0));
                }
                Some(e)
            } else {
                None
            };
            let ghost dd: Option<ExprD> = if at_kind(v, s3, TokenType::Equal) && v[s3.pos].text
                == crate::syntax::eq_text() {
                Some((g_expr(v, adv(s3), d as nat)->0).0)
            } else {
                None
            };
            let p = FunctionParam { name, param_type, default_value };
            proof {
                lemma_param_is(p, ParamD { name: p.name@, ty: td, default: dd });
                lemma_params_push(params@, acc, p, ParamD { name: p.name@, ty: td, default: dd });
                acc = acc.push(ParamD { name: p.name@, ty: td, default: dd });
            }
            params.push(p);
            if !self.match_token(TokenType::Comma) {
                break;
            }
            assert(progress(v, sb, self.ps()));
        }
        Ok(params)
    }

    fn parse_return_type(&mut self, depth: u32) -> (r: Result<Type, String>)
        requires
            old(self).wf(),
        ensures
            steps_to(*old(self), *final(self)),
            match g_ret_type(old(self).view(), old(self).ps(), depth as nat) {
                Some((d, s2)) => r matches Ok(t) && type_is(t, d) && final(self).ps() == s2,
                None => r is Err,
            },
        decreases depth,
    {
        if depth == 0 {
            return Err(self.too_deep());
        }
        let d = depth - 1;
        if self.check(TokenType::Fn) {
            return self.parse_function_type_annotation(d);
        }
        if self.match_token(TokenType::QuestionMark) {
            let inner = self.parse_return_type(d)?;
            return Ok(Type::Optional(Box::new(inner)));
        }
        if self.check(TokenType::Tensor) {
            return self.parse_tensor_type_annotation();
        }
        if self.match_token(TokenType::LBracket) {
            let inner = self.consume_type_or_ident("Expected type inside array brackets")?;
            let mut name: Vec<char> = vec!['['];
            assert(name@ =~= seq!['[']);
            push_char_vec(&mut name, &inner);
            let ghost n1 = name@;
            if self.match_token(TokenType::Semicolon) {
                let size = self.consume_text(TokenType::Number, "Expected size after ;")?;
                name.push(';');
                name.push(' ');
                push_char_vec(&mut name, &size);
                assert(name@ =~= n1 + (seq![';', ' '] + size@));
            } else {
                assert(name@ =~= n1 + Seq::<char>::empty());
            }
            let ghost n2 = name@;
            self.consume(TokenType::RBracket, "Expected ] after array type")?;
            name.push(']');
            assert(name@ =~= n2 + seq![']']);
            return Ok(resolve_type_name(&name));
        }
        let mut name = self.consume_type_or_ident("Expected return type")?;
        let result_word = vec!['R', 'e', 's', 'u', 'l', 't'];
        assert(result_word@ =~= crate::grammar::result_word());
        if chars_eq(&name, &result_word) && self.match_token(TokenType::Less) {
            let inner = self.parse_return_type(d)?;
            self.consume(TokenType::Greater, "Expected > after Result<T>")?;
            return Ok(Type::Result(Box::new(inner)));
        }
        let future_word = vec!['F', 'u', 't', 'u', 'r', 'e'];
        assert(future_word@ =~= crate::grammar::future_word());
        if chars_eq(&name, &future_word) && self.match_token(TokenType::Less) {
            let inner = self.parse_return_type(d)?;
            self.consume(TokenType::Greater, "Expected > after Future<T>")?;
            return Ok(Type::Future(Box::new(inner)));
        }
        self.bracket_suffix(&mut name)?;
        Ok(resolve_type_name(&name))
    }

    /// `fn(T, U) -> R`.
    fn parse_function_type_annotation(&mut self, depth: u32) -> (r: Result<Type, String>)
        requires
            old(self).wf(),
        ensures
            steps_to(*old(self), *final(self)),
            r is Ok ==> old(self).pos < final(self).pos,
            match g_fn_type(old(self).view(), old(self).ps(), depth as nat) {
                Some((d, s2)) => r matches Ok(t) && type_is(t, d) && final(self).ps() == s2,
                None => r is Err,
            },
        decreases depth,
    {
        if depth == 0 {
            return Err(self.too_deep());
        }
        let d = depth - 1;
        self.consume(TokenType::Fn, "Expected fn keyword")?;
        self.consume(TokenType::LParen, "Expected ( after fn")?;
        let ghost ts = self.view();
        let ghost s2 = self.ps();
        let mut param_types: Vec<Type> = Vec::new();
        let ghost mut acc: Seq<TypeD> = Seq::empty();
        if !self.check(TokenType::RParen) {
            loop
                invariant_except_break
                    g_fn_type_params(ts, self.ps(), d as nat, acc) == g_fn_type_params(
                        ts,
                        s2,
                        d as nat,
                        Seq::empty(),
                    ),
                invariant
                    steps_to(*old(self), *self),
                    ts == self.view(),
                    ts == old(self).view(),
                    old(self).pos < self.pos,
                    d < depth,
                    d == depth - 1,
                    types_are(param_types@, acc),
                    g_fn_type_params(ts, s2, d as nat, Seq::empty()) is None ==> g_fn_type(
                        ts,
                        old(self).ps(),
                        depth as nat,
                    ) is None,
                ensures
                    types_are(param_types@, acc),
                    g_fn_type_params(ts, s2, d as nat, Seq::empty()) == Some((acc, self.ps())),
                    steps_to(*old(self), *self),
                    old(self).pos < self.pos,
                decreases self.tokens.len() - self.pos,
            {
                let ghost sb = self.ps();
                let pt = self.parse_param_type(d)?;
                let ghost pd = (g_param_type(ts, sb, d as nat)->0).0;
                let ghost v0 = param_types@;
                param_types.push(pt);
                proof {
                    assert(param_types@.drop_last() =~= v0);
                    assert(acc.push(pd).subrange(0, acc.len() as int) =~= acc);
                    acc = acc.push(pd);
                }
                if !self.match_token(TokenType::Comma) {
                    break;
                }
            }
        }
        assert((if !at_kind(ts, s2, TokenType::RParen) {
            g_fn_type_params(ts, s2, d as nat, Seq::empty())
        } else {
            Some((Seq::empty(), s2))
        }) == Some((acc, self.ps())));
        assert(types_are(param_types@, acc));
        self.consume(TokenType::RParen, "Expected ) after fn param types")?;
        self.consume(TokenType::Arrow, "Expected -> after fn param types")?;
        let ghost s5 = self.ps();
        let ret = self.parse_return_type(d)?;
        let ghost rd = (g_ret_type(ts, s5, d as nat)->0).0;
        let result = Type::Function { param_types, return_type: Box::new(ret) };
        assert(type_is(result, TypeD::Function(acc, Box::new(rd))));
        Ok(result)
    }

    /// `tensor<T>`, where `T` must be a primitive type.
    fn parse_tensor_type_annotation(&mut self) -> (r: Result<Type, String>)
        requires
            old(self).wf(),
        ensures
            steps_to(*old(self), *final(self)),
            match g_tensor_type(old(self).view(), old(self).ps()) {
                Some((d, s2)) => r matches Ok(t) && type_is(t, d) && final(self).ps() == s2,
                None => r is Err,
            },
    {
        self.consume(TokenType::Tensor, "Expected tensor keyword")?;
        let dtype = self.parse_tensor_dtype()?;
        Ok(Type::Tensor { dtype: Box::new(dtype), shape: None })
    }

    /// `<T>` after `tensor`.
    fn parse_tensor_dtype(&mut self) -> (r: Result<Type, String>)
        requires
            old(self).wf(),
        ensures
            steps_to(*old(self), *final(self)),
            match g_tensor_dtype(old(self).view(), old(self).ps()) {
                Some((t, s2)) => r matches Ok(x) && x == t && final(self).ps() == s2,
                None => r is Err,
            },
    {
        self.consume(TokenType::Less, "Expected < after tensor")?;
        let name = self.consume_type_or_ident("Expected dtype")?;
        self.consume(TokenType::Greater, "Expected > after tensor dtype")?;
        match parse_primitive_type(&name) {
            Some(t) => Ok(t),
            None => {
                let mut e = String::new();
                push_str(&mut e, "Invalid tensor dtype: ");
                push_chars(&mut e, &name);
                Err(e)
            },
        }
    }

    /// `[T]`, `[T; N]` or `[[T; N]; M]`, returned as the type name text.
    fn parse_array_type_annotation(&mut self, depth: u32) -> (r: Result<Vec<char>, String>)
        requires
            old(self).wf(),
        ensures
            steps_to(*old(self), *final(self)),
            r is Ok ==> old(self).pos < final(self).pos,
            match g_array_name(old(self).view(), old(self).ps(), depth as nat) {
                Some((n, s2)) => r matches Ok(v) && v@ == n && final(self).ps() == s2,
                None => r is Err,
            },
        decreases depth,
    {
        if depth == 0 {
            return Err(self.too_deep());
        }
        self.consume(TokenType::LBracket, "Expected [ to start array type")?;
        if self.check(TokenType::LBracket) {
            let inner = self.parse_array_type_annotation(depth - 1)?;
            self.consume(TokenType::Semicolon, "Expected ; after inner array type")?;
            let outer = self.consume_text(TokenType::Number, "Expected size after ; in array type")?;
            self.consume(TokenType::RBracket, "Expected ] after array type")?;
            let mut name: Vec<char> = vec!['['];
            assert(name@ =~= seq!['[']);
            push_char_vec(&mut name, &inner);
            name.push(';');
            name.push(' ');
            push_char_vec(&mut name, &outer);
            name.push(']');
            assert(name@ =~= seq!['['] + inner@ + seq![';', ' '] + outer@ + seq![']']);
            return Ok(name);
        }
        let inner = if self.check(TokenType::TypeToken) {
            self.consume_text(TokenType::TypeToken, "Expected type inside array brackets")?
        } else if self.check(TokenType::Identifier) {
            self.consume_text(TokenType::Identifier, "Expected type name inside array brackets")?
        } else {
            return Err(self.error_here("Expected type name inside array brackets"));
        };
        let mut name: Vec<char> = vec!['['];
        assert(name@ =~= seq!['[']);
        push_char_vec(&mut name, &inner);
        if self.match_token(TokenType::Semicolon) {
            let size = self.consume_text(TokenType::Number, "Expected size after ; in array type")?;
            self.consume(TokenType::RBracket, "Expected ] after array type")?;
            name.push(';');
            name.push(' ');
            push_char_vec(&mut name, &size);
            name.push(']');
            assert(name@ =~= seq!['['] + inner@ + seq![';', ' '] + size@ + seq![']']);
        } else {
            self.consume(TokenType::RBracket, "Expected ] after array type")?;
            name.push(']');
            assert(name@ =~= seq!['['] + inner@ + seq![']']);
        }
        Ok(name)
    }

    // -----------------------------------------------------------------------
    // Expressions
    // -----------------------------------------------------------------------

    #[verifier::spinoff_prover]
    fn parse_expression(&mut self, depth: u32) -> (r: Result<Expr, String>)
        requires
            old(self).wf(),
        ensures
            steps_to(*old(self), *final(self)),
            r is Ok ==> old(self).pos < final(self).pos,
            match g_expr(old(self).view(), old(self).ps(), depth as nat) {
                Some((d, s2)) => r matches Ok(e) && expr_is(e, d) && final(self).ps() == s2,
                None => r is Err,
            },
        decreases depth,
    {
        proof {
            reveal_with_fuel(g_assign, 1);
            reveal_with_fuel(g_expr, 1);
        }
        if depth == 0 {
            return Err(self.too_deep());
        }
        self.parse_assignment(depth - 1)
    }

    #[verifier::spinoff_prover]
    fn parse_assignment(&mut self, depth: u32) -> (r: Result<Expr, String>)
        requires
            old(self).wf(),
        ensures
            steps_to(*old(self), *final(self)),
            r is Ok ==> old(self).pos < final(self).pos,
            match g_assign(old(self).view(), old(self).ps(), depth as nat) {
                Some((d, s2)) => r matches Ok(e) && expr_is(e, d) && final(self).ps() == s2,
                None => r is Err,
            },
        decreases depth,
    {
        proof {
            reveal_with_fuel(g_assign, 1);
            reveal_with_fuel(g_binary, 1);
        }
        let ghost gv0 = self.view();
        let ghost gs0 = self.ps();
        if depth == 0 {
            return Err(self.too_deep());
        }
        let ghost v = self.view();
        let ghost s0 = self.ps();
        let d = depth - 1;
        let expr = self.parse_binary_expression(d)?;
        let ghost ed = (g_binary(v, s0, d as nat)->0).0;
        proof {
            lemma_expr_kind(expr, ed);
        }
        let is_assign = self.match_token(TokenType::Assign);
        let eq1 = vec!['='];
        assert(eq1@ =~= crate::syntax::eq_text());
        let is_equal_assign = if !is_assign && self.check(TokenType::Equal) && self.current_text_is(
            &eq1,
        ) {
            self.advance();
            true
        } else {
            false
        };
        if is_assign || is_equal_assign {
            let ghost s2 = self.ps();
            let value = self.parse_assignment(d)?;
            let ghost vd = (g_assign(v, s2, d as nat)->0).0;
            proof {
                lemma_expr_span(expr, ed);
                lemma_expr_span(value, vd);
            }
            let span = combine(expr.span, value.span);
            let is_target = match &expr.kind {
                ExprKind::IndexExpression { .. } => true,
                ExprKind::MemberExpression { .. } => true,
                _ => false,
            };
            if is_target {
                let e = Expr {
                    kind: ExprKind::AssignmentExpression {
                        name: None,
                        target: Some(Box::new(expr)),
                        value: Box::new(value),
                    },
                    span,
                };
                proof {
                    lemma_expr_is(e, (g_assign(gv0, gs0, depth as nat)->0).0);
                }
                return Ok(e);
            }
            match expr.kind {
                ExprKind::Identifier { name } => {
                    let e = Expr {
                        kind: ExprKind::AssignmentExpression {
                            name: Some(name),
                            target: None,
                            value: Box::new(value),
                        },
                        span,
                    };
                    proof {
                        lemma_expr_is(e, (g_assign(gv0, gs0, depth as nat)->0).0);
                    }
                    return Ok(e);
                },
                _ => {
                    return Err(self.error_here("Invalid assignment target"));
                },
            }
        }
        Ok(expr)
    }

    /// `expr is some(x)`, `is none`, `is ok(x)`, `is err(x)` after `is`.
    #[verifier::spinoff_prover]
    fn parse_is_pattern(&mut self, expr: Expr, Ghost(ed): Ghost<ExprD>) -> (r: Result<
        Result<Expr, Expr>,
        String,
    >)
        requires
            old(self).wf(),
            0 < old(self).pos,
            expr_is(expr, ed),
        ensures
            steps_to(*old(self), *final(self)),
            0 < final(self).pos,
            match g_is(old(self).view(), old(self).ps(), ed) {
                Some((Some(x), s2)) => r matches Ok(Ok(e)) && expr_is(e, x) && final(self).ps()
                    == s2,
                Some((None, s2)) => r matches Ok(Err(e)) && e == expr && final(self).ps() == s2,
                None => r is Err,
            },
    {
        let ghost gv0 = self.view();
        let ghost gs0 = self.ps();
        proof {
            lemma_expr_span(expr, ed);
        }
        if self.match_token(TokenType::SomeKw) {
            self.consume(TokenType::LParen, "Expected ( after some in is-pattern")?;
            let binding = self.consume_string(
                TokenType::Identifier,
                "Expected binding name in is some(...)",
            )?;
            self.consume(TokenType::RParen, "Expected ) after binding name in is some(...)")?;
            let span = combine(expr.span, self.prev_span());
            let e = Expr { kind: ExprKind::IsSomeExpression { value: Box::new(expr), binding }, span };
            proof {
                lemma_expr_is(e, (g_is(gv0, gs0, ed)->0).0->0);
            }
            return Ok(Ok(e));
        }
        if self.match_token(TokenType::NoneKw) {
            let span = combine(expr.span, self.prev_span());
            let e = Expr { kind: ExprKind::IsNoneExpression { value: Box::new(expr) }, span };
            proof {
                lemma_expr_is(e, (g_is(gv0, gs0, ed)->0).0->0);
            }
            return Ok(Ok(e));
        }
        if self.match_token(TokenType::OkKw) {
            self.consume(TokenType::LParen, "Expected ( after ok in is-pattern")?;
            let binding = self.consume_string(
                TokenType::Identifier,
                "Expected binding name in is ok(...)",
            )?;
            self.consume(TokenType::RParen, "Expected ) after binding name in is ok(...)")?;
            let span = combine(expr.span, self.prev_span());
            let e = Expr { kind: ExprKind::IsOkExpression { value: Box::new(expr), binding }, span };
            proof {
                lemma_expr_is(e, (g_is(gv0, gs0, ed)->0).0->0);
            }
            return Ok(Ok(e));
        }
        if self.match_token(TokenType::ErrKw) {
            self.consume(TokenType::LParen, "Expected ( after err in is-pattern")?;
            let binding = self.consume_string(
                TokenType::Identifier,
                "Expected binding name in is err(...)",
            )?;
            self.consume(TokenType::RParen, "Expected ) after binding name in is err(...)")?;
            let span = combine(expr.span, self.prev_span());
            let e = Expr { kind: ExprKind::IsErrExpression { value: Box::new(expr), binding }, span };
            proof {
                lemma_expr_is(e, (g_is(gv0, gs0, ed)->0).0->0);
            }
            return Ok(Ok(e));
        }
        Ok(Err(expr))
    }

    fn is_binary_operator(&self) -> (r: bool)
        requires
            self.wf(),
        ensures
            r ==> self.pos < self.tokens.len(),
            r == binop_at(self.view(), self.ps()),
    {
        if self.is_at_end() {
            return false;
        }
        let t = self.text(self.pos);
        is_binary_op_token(self.tokens[self.pos].token_type, &t)
    }

    #[verifier::spinoff_prover]
    fn parse_binary_expression(&mut self, depth: u32) -> (r: Result<Expr, String>)
        requires
            old(self).wf(),
        ensures
            steps_to(*old(self), *final(self)),
            r is Ok ==> old(self).pos < final(self).pos,
            match g_binary(old(self).view(), old(self).ps(), depth as nat) {
                Some((d, s2)) => r matches Ok(e) && expr_is(e, d) && final(self).ps() == s2,
                None => r is Err,
            },
            binary_error(old(self).view(), old(self).tokens@, old(self).ps(), depth as nat) matches Some(m)
                ==> r matches Err(e) && e@ == m,
        decreases depth,
    {
        proof {
            reveal_with_fuel(g_binary, 1);
            reveal_with_fuel(g_chain, 1);
            reveal_with_fuel(g_unary, 1);
            reveal_with_fuel(chain_error, 1);
        }
        if depth == 0 {
            return Err(self.too_deep());
        }
        let ghost v = self.view();
        let ghost s0 = self.ps();
        let d = depth - 1;
        let mut expr = self.parse_unary(d)?;
        let ghost mut ed = (g_unary(v, s0, d as nat)->0).0;
        if self.match_token(TokenType::Is) {
            match self.parse_is_pattern(expr, Ghost(ed))? {
                Ok(e) => {
                    return Ok(e);
                },
                Err(e) => {
                    expr = e;
                },
            }
        }
        if !self.is_binary_operator() {
            return Ok(expr);
        }
        let op_index = self.pos;
        self.advance();
        let first_op = self.text(op_index);
        let ghost sr = self.ps();
        let right = self.parse_unary(d)?;
        let ghost rd = (g_unary(v, sr, d as nat)->0).0;
        proof {
            lemma_expr_span(expr, ed);
            lemma_expr_span(right, rd);
        }
        let span = combine(expr.span, right.span);
        expr = Expr {
            kind: ExprKind::BinaryExpression {
                operator: string_from_chars(&first_op),
                left: Box::new(expr),
                right: Box::new(right),
            },
            span,
        };
        proof {
            ed = crate::syntax::ex(ExprKindD::Binary(first_op@, Box::new(ed), Box::new(rd)), span);
            lemma_expr_is(expr, ed);
        }
        while self.is_binary_operator()
            invariant
                steps_to(*old(self), *self),
                old(self).pos < self.pos,
                d < depth,
                d == depth - 1,
                v == self.view(),
                v == old(self).view(),
                expr_is(expr, ed),
                expr.span == ed.span,
                g_binary(v, old(self).ps(), depth as nat) == g_chain(v, self.ps(), d as nat, first_op@, ed),
                binary_error(v, old(self).tokens@, old(self).ps(), depth as nat) == chain_error(
                    v,
                    self.tokens@,
                    self.ps(),
                    d as nat,
                    first_op@,
                ),
            decreases self.tokens.len() - self.pos,
        {
            proof {
                reveal_with_fuel(g_binary, 1);
                reveal_with_fuel(g_chain, 1);
                reveal_with_fuel(g_unary, 1);
                reveal_with_fuel(chain_error, 1);
            }
            let next_op = self.text(self.pos);
            if !chars_eq(&next_op, &first_op) {
                let mut e = String::new();
                push_str(&mut e, "Cannot mix operators '");
                push_chars(&mut e, &first_op);
                push_str(&mut e, "' and '");
                push_chars(&mut e, &next_op);
                push_str(&mut e, "' without parentheses");
                let here = self.error_here("");
                push_str(&mut e, here.as_str());
                return Err(e);
            }
            if !is_associative_op(&first_op) {
                let mut e = String::new();
                push_str(&mut e, "Operator '");
                push_chars(&mut e, &first_op);
                push_str(&mut e, "' is not associative; use parentheses");
                let here = self.error_here("");
                push_str(&mut e, here.as_str());
                return Err(e);
            }
            let ghost sb = self.ps();
            self.advance();
            let ghost sc = self.ps();
            let chain_right = self.parse_unary(d)?;
            let ghost cd = (g_unary(v, sc, d as nat)->0).0;
            proof {
                lemma_expr_span(expr, ed);
                lemma_expr_span(chain_right, cd);
            }
            let span = combine(expr.span, chain_right.span);
            expr = Expr {
                kind: ExprKind::BinaryExpression {
                    operator: string_from_chars(&first_op),
                    left: Box::new(expr),
                    right: Box::new(chain_right),
                },
                span,
            };
            proof {
                assert(progress(v, sb, self.ps()));
                ed = crate::syntax::ex(
                    ExprKindD::Binary(first_op@, Box::new(ed), Box::new(cd)),
                    span,
                );
                lemma_expr_is(expr, ed);
            }
        }
        Ok(expr)
    }

    #[verifier::spinoff_prover]
    #[verifier::rlimit(100)]
    fn parse_unary(&mut self, depth: u32) -> (r: Result<Expr, String>)
        requires
            old(self).wf(),
        ensures
            steps_to(*old(self), *final(self)),
            r is Ok ==> old(self).pos < final(self).pos,
            match g_unary(old(self).view(), old(self).ps(), depth as nat) {
                Some((d, s2)) => r matches Ok(e) && expr_is(e, d) && final(self).ps() == s2,
                None => r is Err,
            },
        decreases depth,
    {
        proof {
            reveal_with_fuel(g_expr, 1);
            reveal_with_fuel(g_primary, 1);
            reveal_with_fuel(g_unary, 1);
        }
        let ghost gv0 = self.view();
        let ghost gs0 = self.ps();
        if depth == 0 {
            return Err(self.too_deep());
        }
        let ghost v = self.view();
        let ghost s0 = self.ps();
        let d = depth - 1;
        if self.match_token(TokenType::Await) {
            let start = self.prev_span();
            let ghost sa = self.ps();
            let argument = self.parse_unary(d)?;
            proof {
                lemma_expr_span(argument, (g_unary(v, sa, d as nat)->0).0);
            }
            let span = combine(start, argument.span);
            let e = Expr { kind: ExprKind::AwaitExpression { argument: Box::new(argument) }, span };
            proof {
                lemma_expr_is(e, (g_unary(gv0, gs0, depth as nat)->0).0);
            }
            return Ok(e);
        }
        if self.match_token(TokenType::Spawn) {
            let start = self.prev_span();
            let ghost sa = self.ps();
            let argument = self.parse_unary(d)?;
            proof {
                lemma_expr_span(argument, (g_unary(v, sa, d as nat)->0).0);
            }
            let span = combine(start, argument.span);
            let e = Expr { kind: ExprKind::SpawnExpression { argument: Box::new(argument) }, span };
            proof {
                lemma_expr_is(e, (g_unary(gv0, gs0, depth as nat)->0).0);
            }
            return Ok(e);
        }
        let mut prefix = self.match_token(TokenType::Minus);
        if !prefix && self.match_token(TokenType::NotEqual) {
            let bang = vec!['!'];
            let prev = self.text(self.pos - 1);
            assert(bang@ =~= seq!['!']);
            prefix = chars_eq(&prev, &bang);
        }
        if !prefix {
            prefix = self.match_token(TokenType::Not);
        }
        if !prefix {
            prefix = self.match_token(TokenType::BitwiseNot);
        }
        assert(crate::syntax::unary_prefix(v, s0) == (prefix, self.ps()));
        if prefix {
            let op = self.tokens[self.pos - 1].value.clone();
            let start = self.prev_span();
            let ghost sa = self.ps();
            let argument = self.parse_unary(d)?;
            proof {
                lemma_expr_span(argument, (g_unary(v, sa, d as nat)->0).0);
            }
            let span = combine(start, argument.span);
            let e = Expr {
                kind: ExprKind::UnaryExpression { operator: op, operand: Box::new(argument) },
                span,
            };
            proof {
                lemma_expr_is(e, (g_unary(gv0, gs0, depth as nat)->0).0);
            }
            return Ok(e);
        }
        if self.match_token(TokenType::Cast) {
            let start = self.prev_span();
            self.consume(TokenType::Less, "Expected < after cast")?;
            let mut tname = self.consume_text(TokenType::TypeToken, "Expected type name after cast<")?;
            self.bracket_suffix(&mut tname)?;
            self.consume(TokenType::Greater, "Expected > after type name")?;
            self.consume(TokenType::LParen, "Expected ( after cast<type>")?;
            let ghost sv = self.ps();
            let value = self.parse_expression(d)?;
            proof {
                lemma_expr_span(value, (g_expr(v, sv, d as nat)->0).0);
            }
            self.consume(TokenType::RParen, "Expected ) after cast value")?;
            let target_type = resolve_type_name(&tname);
            let span = combine(start, value.span);
            let e = Expr {
                kind: ExprKind::CastExpression {
                    target_type,
                    value: Box::new(value),
                    source_type: None,
                },
                span,
            };
            proof {
                lemma_expr_is(e, (g_unary(gv0, gs0, depth as nat)->0).0);
            }
            return Ok(e);
        }
        let ghost s1 = self.ps();
        let mut expr = self.parse_primary(d)?;
        let ghost mut ed = (g_primary(v, s1, d as nat)->0).0;
        proof {
            lemma_expr_span(expr, ed);
        }
        if self.match_token(TokenType::QuestionMark) {
            let span = combine(expr.span, self.prev_span());
            expr = Expr { kind: ExprKind::PropagateExpression { value: Box::new(expr) }, span };
            proof {
                ed = crate::syntax::ex(ExprKindD::Propagate(Box::new(ed)), span);
                lemma_expr_is(expr, ed);
            }
        }
        while self.match_token(TokenType::As)
            invariant
                steps_to(*old(self), *self),
                old(self).pos < self.pos,
                v == self.view(),
                v == old(self).view(),
                expr_is(expr, ed),
                expr.span == ed.span,
                g_unary(v, old(self).ps(), depth as nat) == g_as_loop(v, self.ps(), ed),
            decreases self.tokens.len() - self.pos,
        {
            proof {
                reveal_with_fuel(g_expr, 1);
                reveal_with_fuel(g_primary, 1);
                reveal_with_fuel(g_unary, 1);
            }
            let mut name = self.consume_type_or_ident("Expected type name after as")?;
            self.bracket_suffix(&mut name)?;
            let target_type = resolve_type_name(&name);
            let span = expr.span;
            expr = Expr {
                kind: ExprKind::CastExpression { target_type, value: Box::new(expr), source_type: None },
                span,
            };
            proof {
                ed = crate::syntax::ex(ExprKindD::Cast(TypeD::Named(name@), Box::new(ed)), span);
                lemma_expr_is(expr, ed);
            }
        }
        Ok(expr)
    }

    /// A comma-separated argument list up to (not including) `)`.
    #[verifier::spinoff_prover]
    fn parse_arguments(&mut self, depth: u32) -> (r: Result<Vec<Expr>, String>)
        requires
            old(self).wf(),
        ensures
            steps_to(*old(self), *final(self)),
            match g_args(old(self).view(), old(self).ps(), depth as nat) {
                Some((d, s2)) => r matches Ok(a) && exprs_are(a@, d) && final(self).ps() == s2,
                None => r is Err,
            },
        decreases depth,
    {
        proof {
            reveal_with_fuel(g_args, 1);
            reveal_with_fuel(g_args_loop, 1);
            reveal_with_fuel(g_expr, 1);
        }
        if depth == 0 {
            return Err(self.too_deep());
        }
        let ghost v = self.view();
        let ghost s0 = self.ps();
        let d = depth - 1;
        let mut args: Vec<Expr> = Vec::new();
        let ghost mut acc: Seq<ExprD> = Seq::empty();
        proof {
            lemma_empty_lists();
        }
        if !self.check(TokenType::RParen) {
            loop
                invariant_except_break
                    g_args_loop(v, s0, d as nat, Seq::empty()) == g_args_loop(v, self.ps(), d as nat, acc),
                invariant
                    steps_to(*old(self), *self),
                    d < depth,
                    v == self.view(),
                    v == old(self).view(),
                    s0 == old(self).ps(),
                    d == depth - 1,
                    !at_kind(v, s0, TokenType::RParen),
                    exprs_are(args@, acc),
                ensures
                    g_args_loop(v, s0, d as nat, Seq::empty()) == Some((acc, self.ps())),
                decreases self.tokens.len() - self.pos,
            {
                proof {
                    reveal_with_fuel(g_args, 1);
                    reveal_with_fuel(g_args_loop, 1);
                    reveal_with_fuel(g_expr, 1);
                }
                let ghost sb = self.ps();
                let e = self.parse_expression(d)?;
                proof {
                    lemma_exprs_push(args@, acc, e, (g_expr(v, sb, d as nat)->0).0);
                    acc = acc.push((g_expr(v, sb, d as nat)->0).0);
                }
                args.push(e);
                if !self.match_token(TokenType::Comma) {
                    break;
                }
                assert(progress(v, sb, self.ps()));
            }
        }
        Ok(args)
    }

    /// A string literal's text, its quotes removed and escapes decoded.
    #[verifier::spinoff_prover]
    fn string_value(&mut self) -> (r: Result<String, String>)
        requires
            old(self).wf(),
            old(self).pos < old(self).tokens.len(),
        ensures
            steps_to(*old(self), *final(self)),
            r is Ok ==> final(self).pos == old(self).pos + 1,
            match g_string_value(old(self).view(), old(self).ps()) {
                Some((v, s2)) => r matches Ok(x) && x@ == v && final(self).ps() == s2,
                None => r is Err,
            },
    {
        let raw = self.text(self.pos);
        self.advance();
        match strip_quotes(&raw) {
            Some((a, b)) => {
                let v = decode_escape_sequences(&raw, a, b);
                Ok(string_from_chars(&v))
            },
            None => Err(self.error_here("Malformed string literal")),
        }
    }

    #[verifier::spinoff_prover]
    fn parse_primary(&mut self, depth: u32) -> (r: Result<Expr, String>)
        requires
            old(self).wf(),
        ensures
            steps_to(*old(self), *final(self)),
            r is Ok ==> old(self).pos < final(self).pos,
            match g_primary(old(self).view(), old(self).ps(), depth as nat) {
                Some((d, s2)) => r matches Ok(e) && expr_is(e, d) && final(self).ps() == s2,
                None => r is Err,
            },
        decreases depth,
    {
        proof {
            reveal_with_fuel(g_primary, 1);
        }
        let ghost gv0 = self.view();
        let ghost gs0 = self.ps();
        if depth == 0 {
            return Err(self.too_deep());
        }
        let d = depth - 1;
        if self.match_token(TokenType::Soa) {
            let (struct_name, capacity) = self.parse_soa_suffix()?;
            let e = Expr {
                kind: ExprKind::SoAConstructor { struct_name, capacity },
                span: self.whole_span(),
            };
            proof {
                lemma_expr_is(e, (g_primary(gv0, gs0, depth as nat)->0).0);
            }
            return Ok(e);
        }
        if self.match_token(TokenType::If) {
            proof {
                reveal_with_fuel(g_if_expr, 1);
            }
            return self.parse_if_expression(d);
        }
        if self.match_token(TokenType::Match) {
            proof {
                reveal_with_fuel(g_match, 1);
            }
            return self.parse_match_expression(d);
        }
        if self.match_token(TokenType::Fn) {
            proof {
                reveal_with_fuel(g_lambda, 1);
            }
            return self.parse_lambda(d);
        }
        if self.match_token(TokenType::OkKw) {
            let start = self.prev_span();
            self.consume(TokenType::LParen, "Expected ( after ok")?;
            proof {
                reveal_with_fuel(g_expr, 1);
            }
            let ghost sv = self.ps();
            let value = self.parse_expression(d)?;
            proof {
                lemma_expr_span(value, (g_expr(gv0, sv, d as nat)->0).0);
            }
            self.consume(TokenType::RParen, "Expected ) after ok value")?;
            let span = combine(start, value.span);
            let e = Expr { kind: ExprKind::OkExpression { value: Box::new(value) }, span };
            proof {
                lemma_expr_is(e, (g_primary(gv0, gs0, depth as nat)->0).0);
            }
            return Ok(e);
        }
        if self.match_token(TokenType::ErrKw) {
            let start = self.prev_span();
            self.consume(TokenType::LParen, "Expected ( after err")?;
            proof {
                reveal_with_fuel(g_expr, 1);
            }
            let ghost sv = self.ps();
            let value = self.parse_expression(d)?;
            proof {
                lemma_expr_span(value, (g_expr(gv0, sv, d as nat)->0).0);
            }
            self.consume(TokenType::RParen, "Expected ) after err value")?;
            let span = combine(start, value.span);
            let e = Expr { kind: ExprKind::ErrExpression { value: Box::new(value) }, span };
            proof {
                lemma_expr_is(e, (g_primary(gv0, gs0, depth as nat)->0).0);
            }
            return Ok(e);
        }
        if self.match_token(TokenType::SomeKw) {
            let start = self.prev_span();
            self.consume(TokenType::LParen, "Expected ( after some")?;
            proof {
                reveal_with_fuel(g_expr, 1);
            }
            let ghost sv = self.ps();
            let value = self.parse_expression(d)?;
            proof {
                lemma_expr_span(value, (g_expr(gv0, sv, d as nat)->0).0);
            }
            self.consume(TokenType::RParen, "Expected ) after some value")?;
            let span = combine(start, value.span);
            let e = Expr { kind: ExprKind::SomeExpression { value: Box::new(value) }, span };
            proof {
                lemma_expr_is(e, (g_primary(gv0, gs0, depth as nat)->0).0);
            }
            return Ok(e);
        }
        if self.match_token(TokenType::NoneKw) {
            let e = Expr { kind: ExprKind::NoneExpression, span: self.prev_span() };
            proof {
                lemma_expr_is(e, (g_primary(gv0, gs0, depth as nat)->0).0);
            }
            return Ok(e);
        }
        if self.match_token(TokenType::False) {
            let e = Expr { kind: ExprKind::BooleanLiteral { value: false }, span: self.prev_span() };
            proof {
                lemma_expr_is(e, (g_primary(gv0, gs0, depth as nat)->0).0);
            }
            return Ok(e);
        }
        if self.match_token(TokenType::True) {
            let e = Expr { kind: ExprKind::BooleanLiteral { value: true }, span: self.prev_span() };
            proof {
                lemma_expr_is(e, (g_primary(gv0, gs0, depth as nat)->0).0);
            }
            return Ok(e);
        }
        if self.match_token(TokenType::Number) {
            let value = self.tokens[self.pos - 1].value.clone();
            let e = Expr {
                kind: ExprKind::NumberLiteral { value, literal_type: None },
                span: self.prev_span(),
            };
            proof {
                lemma_expr_is(e, (g_primary(gv0, gs0, depth as nat)->0).0);
            }
            return Ok(e);
        }
        if self.check(TokenType::StringLit) {
            let value = self.string_value()?;
            let e = Expr { kind: ExprKind::StringLiteral { value }, span: self.prev_span() };
            proof {
                lemma_expr_is(e, (g_primary(gv0, gs0, depth as nat)->0).0);
            }
            return Ok(e);
        }
        if self.check(TokenType::TemplateStringStart) {
            proof {
                reveal_with_fuel(g_template, 1);
            }
            return self.parse_template_string(d);
        }
        if self.match_token(TokenType::Tensor) {
            proof {
                reveal_with_fuel(g_tensor_ctor, 1);
            }
            return self.parse_tensor_construction(d);
        }
        if self.match_token(TokenType::Identifier) {
            proof {
                reveal_with_fuel(g_ident_expr, 1);
            }
            return self.parse_identifier_expression(d);
        }
        if self.match_token(TokenType::LBracket) {
            proof {
                reveal_with_fuel(g_array_lit, 1);
            }
            return self.parse_array_literal(d);
        }
        if self.match_token(TokenType::LBrace) {
            proof {
                reveal_with_fuel(g_map_lit, 1);
            }
            return self.parse_map_literal(d);
        }
        if self.match_token(TokenType::LParen) {
            proof {
                reveal_with_fuel(g_expr, 1);
            }
            let expr = self.parse_expression(d)?;
            self.consume(TokenType::RParen, "Expected ) after expression")?;
            return Ok(expr);
        }
        Err(self.error_here("Unexpected token"))
    }

    /// `tensor<T>(args)` after `tensor`, with `.method(args)` calls after it.
    #[verifier::spinoff_prover]
    fn parse_tensor_construction(&mut self, depth: u32) -> (r: Result<Expr, String>)
        requires
            old(self).wf(),
            0 < old(self).pos,
        ensures
            steps_to(*old(self), *final(self)),
            match g_tensor_ctor(old(self).view(), old(self).ps(), depth as nat) {
                Some((d, s2)) => r matches Ok(e) && expr_is(e, d) && final(self).ps() == s2,
                None => r is Err,
            },
        decreases depth,
    {
        proof {
            reveal_with_fuel(g_args, 1);
            reveal_with_fuel(g_member_calls, 1);
            reveal_with_fuel(g_tensor_ctor, 1);
        }
        if depth == 0 {
            return Err(self.too_deep());
        }
        let ghost v = self.view();
        let d = depth - 1;
        let start = self.prev_span();
        let dtype = self.parse_tensor_dtype()?;
        let ghost s1 = self.ps();
        let mut args: Vec<Expr> = Vec::new();
        let ghost mut argsd: Seq<ExprD> = Seq::empty();
        if self.match_token(TokenType::LParen) {
            let ghost sa = self.ps();
            args = self.parse_arguments(d)?;
            proof {
                argsd = (g_args(v, sa, d as nat)->0).0;
            }
            self.consume(TokenType::RParen, "Expected ) after tensor arguments")?;
        }
        let end = self.last_position();
        let mut object = Expr {
            kind: ExprKind::TensorConstruction { dtype, args },
            span: combine(start, Span { start: end, end }),
        };
        let ghost mut od = crate::syntax::ex(
            ExprKindD::Tensor(dtype, argsd),
            Span { start: start.start, end },
        );
        proof {
            lemma_empty_lists();
            lemma_expr_is(object, od);
        }
        while self.match_token(TokenType::Dot)
            invariant
                steps_to(*old(self), *self),
                0 < self.pos,
                d < depth,
                d == depth - 1,
                v == self.view(),
                v == old(self).view(),
                expr_is(object, od),
                object.span == od.span,
                g_tensor_ctor(v, old(self).ps(), depth as nat) == g_member_calls(
                    v,
                    self.ps(),
                    d as nat,
                    od,
                ),
            decreases self.tokens.len() - self.pos,
        {
            proof {
                reveal_with_fuel(g_args, 1);
                reveal_with_fuel(g_member_calls, 1);
            }
            let property = self.consume_string(TokenType::Identifier, "Expected property name")?;
            let member_span = combine(object.span, self.prev_span());
            let ghost md = crate::syntax::ex(ExprKindD::Member(Box::new(od), property@), member_span);
            object = Expr {
                kind: ExprKind::MemberExpression { object: Box::new(object), property },
                span: member_span,
            };
            proof {
                lemma_expr_is(object, md);
                od = md;
            }
            if self.match_token(TokenType::LParen) {
                let ghost sa = self.ps();
                let call_args = self.parse_arguments(d)?;
                let ghost ad = (g_args(v, sa, d as nat)->0).0;
                self.consume(TokenType::RParen, "Expected ) after arguments")?;
                let call_span = combine(object.span, self.prev_span());
                object = Expr {
                    kind: ExprKind::CallExpression {
                        callee: Box::new(object),
                        arguments: call_args,
                        named_args: None,
                    },
                    span: call_span,
                };
                proof {
                    od = crate::syntax::ex(ExprKindD::Call(Box::new(md), ad, None), call_span);
                    lemma_expr_is(object, od);
                }
            }
        }
        Ok(object)
    }

    /// An identifier just read: a struct literal `Name { f: v }`, or the
    /// name with index, slice, call and member suffixes.
    #[verifier::spinoff_prover]
    fn parse_identifier_expression(&mut self, depth: u32) -> (r: Result<Expr, String>)
        requires
            old(self).wf(),
            0 < old(self).pos,
        ensures
            steps_to(*old(self), *final(self)),
            match g_ident_expr(old(self).view(), old(self).ps(), depth as nat) {
                Some((d, s2)) => r matches Ok(e) && expr_is(e, d) && final(self).ps() == s2,
                None => r is Err,
            },
        decreases depth,
    {
        proof {
            reveal_with_fuel(g_call_args, 1);
            reveal_with_fuel(g_expr, 1);
            reveal_with_fuel(g_field_inits, 1);
            reveal_with_fuel(g_ident_expr, 1);
            reveal_with_fuel(g_postfix, 1);
        }
        let ghost gv0 = self.view();
        let ghost gs0 = self.ps();
        if depth == 0 {
            return Err(self.too_deep());
        }
        let ghost v = self.view();
        let ghost s0 = self.ps();
        let d = depth - 1;
        let name = self.tokens[self.pos - 1].value.clone();
        let tok_span = self.prev_span();
        if self.allow_struct_literal && self.match_token(TokenType::LBrace) {
            let ghost s1 = self.ps();
            let mut fields: Vec<StructFieldInit> = Vec::new();
            let ghost mut acc: Seq<(Seq<char>, ExprD)> = Seq::empty();
            proof {
                lemma_empty_lists();
            }
            if !self.check(TokenType::RBrace) {
                loop
                    invariant_except_break
                        g_field_inits(v, s1, d as nat, Seq::empty()) == g_field_inits(
                            v,
                            self.ps(),
                            d as nat,
                            acc,
                        ),
                    invariant
                        steps_to(*old(self), *self),
                        d < depth,
                        v == self.view(),
                        v == old(self).view(),
                        s0 == old(self).ps(),
                        d == depth - 1,
                        s0.allow,
                        at_kind(v, s0, TokenType::LBrace),
                        s1 == adv(s0),
                        !at_kind(v, s1, TokenType::RBrace),
                        inits_are(fields@, acc),
                    ensures
                        g_field_inits(v, s1, d as nat, Seq::empty()) == Some((acc, self.ps())),
                    decreases self.tokens.len() - self.pos,
                {
                    proof {
                        reveal_with_fuel(g_expr, 1);
                        reveal_with_fuel(g_field_inits, 1);
                        reveal_with_fuel(g_ident_expr, 1);
                    }
                    let ghost sb = self.ps();
                    let field_name = self.consume_string(TokenType::Identifier, "Expected field name")?;
                    self.consume(TokenType::Colon, "Expected ':' after field name")?;
                    let ghost sv = self.ps();
                    let value = self.parse_expression(d)?;
                    let init = StructFieldInit { name: field_name, value };
                    proof {
                        lemma_inits_push(fields@, acc, init, (g_expr(v, sv, d as nat)->0).0);
                        acc = acc.push((init.name@, (g_expr(v, sv, d as nat)->0).0));
                    }
                    fields.push(init);
                    if !self.match_token(TokenType::Comma) {
                        break;
                    }
                    assert(progress(v, sb, self.ps()));
                }
            }
            self.consume(TokenType::RBrace, "Expected '}' after struct literal fields")?;
            let span = combine(tok_span, self.prev_span());
            let e = Expr { kind: ExprKind::StructLiteral { struct_name: Some(name), fields }, span };
            proof {
                lemma_expr_is(e, (g_ident_expr(gv0, gs0, depth as nat)->0).0);
            }
            return Ok(e);
        }
        let mut object = Expr { kind: ExprKind::Identifier { name }, span: tok_span };
        let ghost mut od = crate::syntax::ex(ExprKindD::Identifier(name@), tok_span);
        proof {
            lemma_expr_is(object, od);
        }
        loop
            invariant_except_break
                g_ident_expr(v, s0, depth as nat) == g_postfix(v, self.ps(), d as nat, od),
            invariant
                steps_to(*old(self), *self),
                0 < self.pos,
                d < depth,
                d == depth - 1,
                v == self.view(),
                v == old(self).view(),
                s0 == old(self).ps(),
                expr_is(object, od),
                object.span == od.span,
            ensures
                g_ident_expr(v, s0, depth as nat) == Some((od, self.ps())),
            decreases self.tokens.len() - self.pos,
        {
            proof {
                reveal_with_fuel(g_call_args, 1);
                reveal_with_fuel(g_expr, 1);
                reveal_with_fuel(g_postfix, 1);
            }
            let ghost sb = self.ps();
            let ghost p0 = self.pos;
            if self.match_token(TokenType::LBracket) {
                let ghost sf = self.ps();
                let first = self.parse_expression(d)?;
                let ghost fd = (g_expr(v, sf, d as nat)->0).0;
                proof {
                    lemma_expr_span(first, fd);
                }
                if self.match_token(TokenType::Colon) {
                    let ghost se = self.ps();
                    let end = self.parse_expression(d)?;
                    let ghost ed = (g_expr(v, se, d as nat)->0).0;
                    proof {
                        lemma_expr_span(end, ed);
                    }
                    self.consume(TokenType::RBracket, "Expected ] after slice expression")?;
                    let span = combine(object.span, end.span);
                    object = Expr {
                        kind: ExprKind::SliceExpression {
                            object: Box::new(object),
                            start: Box::new(first),
                            end: Box::new(end),
                            step: None,
                        },
                        span,
                    };
                    proof {
                        od = crate::syntax::ex(
                            ExprKindD::Slice(Box::new(od), Box::new(fd), Box::new(ed)),
                            span,
                        );
                        lemma_expr_is(object, od);
                    }
                } else {
                    self.consume(TokenType::RBracket, "Expected ] after index")?;
                    let span = combine(object.span, first.span);
                    object = Expr {
                        kind: ExprKind::IndexExpression { object: Box::new(object), index: Box::new(first) },
                        span,
                    };
                    proof {
                        od = crate::syntax::ex(ExprKindD::Index(Box::new(od), Box::new(fd)), span);
                        lemma_expr_is(object, od);
                    }
                }
                assert(progress(v, sb, self.ps()));
            } else if self.match_token(TokenType::LParen) {
                let ghost s1 = self.ps();
                let mut call_args: Vec<Expr> = Vec::new();
                let mut named_args: Vec<NamedArg> = Vec::new();
                let ghost mut ad: Seq<ExprD> = Seq::empty();
                let ghost mut nd: Seq<(Seq<char>, ExprD)> = Seq::empty();
                proof {
                    lemma_empty_lists();
                }
                if !self.check(TokenType::RParen) {
                    loop
                        invariant_except_break
                            g_call_args(v, s1, d as nat, Seq::empty(), Seq::empty()) == g_call_args(
                                v,
                                self.ps(),
                                d as nat,
                                ad,
                                nd,
                            ),
                        invariant
                            steps_to(*old(self), *self),
                            0 < self.pos,
                            p0 < self.pos,
                            d < depth,
                            v == self.view(),
                            v == old(self).view(),
                            s0 == old(self).ps(),
                            d == depth - 1,
                            g_ident_expr(v, s0, depth as nat) == g_postfix(v, sb, d as nat, od),
                            at_kind(v, sb, TokenType::LParen),
                            s1 == adv(sb),
                            !at_kind(v, s1, TokenType::RParen),
                            exprs_are(call_args@, ad),
                            named_are(named_args@, nd),
                        ensures
                            g_call_args(v, s1, d as nat, Seq::empty(), Seq::empty()) == Some(
                                ((ad, nd), self.ps()),
                            ),
                        decreases self.tokens.len() - self.pos,
                    {
                        proof {
                            reveal_with_fuel(g_call_args, 1);
                            reveal_with_fuel(g_expr, 1);
                            reveal_with_fuel(g_postfix, 1);
                        }
                        let ghost sc = self.ps();
                        if self.check(TokenType::Identifier) && self.check_next(TokenType::Colon) {
                            let arg_name = self.consume_string(TokenType::Identifier, "")?;
                            self.consume(TokenType::Colon, "")?;
                            let ghost sv = self.ps();
                            let value = self.parse_expression(d)?;
                            let na = NamedArg { name: arg_name, value };
                            proof {
                                lemma_named_push(named_args@, nd, na, (g_expr(v, sv, d as nat)->0).0);
                                nd = nd.push((na.name@, (g_expr(v, sv, d as nat)->0).0));
                            }
                            named_args.push(na);
                        } else {
                            let e = self.parse_expression(d)?;
                            proof {
                                lemma_exprs_push(call_args@, ad, e, (g_expr(v, sc, d as nat)->0).0);
                                ad = ad.push((g_expr(v, sc, d as nat)->0).0);
                            }
                            call_args.push(e);
                        }
                        if !self.match_token(TokenType::Comma) {
                            break;
                        }
                        assert(progress(v, sc, self.ps()));
                    }
                }
                self.consume(TokenType::RParen, "Expected ) after arguments")?;
                let call_span = combine(object.span, self.prev_span());
                proof {
                    crate::described::lemma_named_are(named_args@, nd);
                }
                let named = if named_args.len() == 0 {
                    None
                } else {
                    Some(named_args)
                };
                object = Expr {
                    kind: ExprKind::CallExpression {
                        callee: Box::new(object),
                        arguments: call_args,
                        named_args: named,
                    },
                    span: call_span,
                };
                proof {
                    let ndo = if nd.len() == 0 {
                        None
                    } else {
                        Some(nd)
                    };
                    od = crate::syntax::ex(ExprKindD::Call(Box::new(od), ad, ndo), call_span);
                    lemma_expr_is(object, od);
                }
                assert(progress(v, sb, self.ps()));
            } else if self.match_token(TokenType::Dot) {
                let property = self.consume_string(TokenType::Identifier, "Expected property name")?;
                let span = combine(object.span, self.prev_span());
                object = Expr {
                    kind: ExprKind::MemberExpression { object: Box::new(object), property },
                    span,
                };
                proof {
                    od = crate::syntax::ex(ExprKindD::Member(Box::new(od), property@), span);
                    lemma_expr_is(object, od);
                }
                assert(progress(v, sb, self.ps()));
            } else {
                break;
            }
        }
        Ok(object)
    }

    #[verifier::spinoff_prover]
    fn parse_lambda(&mut self, depth: u32) -> (r: Result<Expr, String>)
        requires
            old(self).wf(),
        ensures
            steps_to(*old(self), *final(self)),
            match g_lambda(old(self).view(), old(self).ps(), depth as nat) {
                Some((d, s2)) => r matches Ok(e) && expr_is(e, d) && final(self).ps() == s2,
                None => r is Err,
            },
        decreases depth,
    {
        proof {
            reveal_with_fuel(g_fn_body, 1);
            reveal_with_fuel(g_lambda, 1);
            reveal_with_fuel(g_params, 1);
        }
        let ghost gv0 = self.view();
        let ghost gs0 = self.ps();
        if depth == 0 {
            return Err(self.too_deep());
        }
        let d = depth - 1;
        self.consume(TokenType::LParen, "Expected ( after fn")?;
        let params = self.parse_function_params(d)?;
        self.consume(TokenType::RParen, "Expected ) after parameters")?;
        let return_type = if self.match_token(TokenType::Arrow) {
            self.parse_return_type(d)?
        } else {
            Type::Void
        };
        let body = self.parse_function_body(d)?;
        let e = Expr { kind: ExprKind::Lambda { params, return_type, body }, span: self.whole_span() };
        proof {
            lemma_expr_is(e, (g_lambda(gv0, gs0, depth as nat)->0).0);
        }
        Ok(e)
    }

    #[verifier::spinoff_prover]
    fn parse_if_expression(&mut self, depth: u32) -> (r: Result<Expr, String>)
        requires
            old(self).wf(),
        ensures
            steps_to(*old(self), *final(self)),
            match g_if_expr(old(self).view(), old(self).ps(), depth as nat) {
                Some((d, s2)) => r matches Ok(e) && expr_is(e, d) && final(self).ps() == s2,
                None => r is Err,
            },
        decreases depth,
    {
        proof {
            reveal_with_fuel(g_block_body, 1);
            reveal_with_fuel(g_condition, 1);
            reveal_with_fuel(g_if_expr, 1);
        }
        let ghost gv0 = self.view();
        let ghost gs0 = self.ps();
        if depth == 0 {
            return Err(self.too_deep());
        }
        let ghost v = self.view();
        let d = depth - 1;
        let condition = self.parse_condition(d)?;
        self.consume(TokenType::LBrace, "Expected { after if condition")?;
        let true_branch = self.parse_block_body("Expected } after if body", d)?;
        let false_branch = if self.match_token(TokenType::Else) {
            if self.match_token(TokenType::If) {
                let nested = self.parse_if_expression(d)?;
                IfElseBranch::IfExpression(Box::new(nested))
            } else {
                self.consume(TokenType::LBrace, "Expected { after else")?;
                let block = self.parse_block_body("Expected } after else body", d)?;
                IfElseBranch::Block(block)
            }
        } else {
            let ghost n = (self.scope_counter + 1) as nat;
            let scope_id = self.next_scope_id()?;
            let block = Block { statements: Vec::new(), scope_id, span: self.whole_span() };
            proof {
                assert(block.statements@ =~= Seq::<Statement>::empty());
                lemma_empty_lists();
                lemma_block_is(block, BlockD { stmts: Seq::empty(), scope: n, span: wspan(v) });
            }
            IfElseBranch::Block(block)
        };
        let e = Expr {
            kind: ExprKind::IfExpression {
                condition: Box::new(condition),
                true_branch,
                false_branch,
            },
            span: self.whole_span(),
        };
        proof {
            lemma_expr_is(e, (g_if_expr(gv0, gs0, depth as nat)->0).0);
        }
        Ok(e)
    }

    /// The pattern of a match arm.
    #[verifier::spinoff_prover]
    fn parse_match_pattern(&mut self, depth: u32) -> (r: Result<MatchPattern, String>)
        requires
            old(self).wf(),
        ensures
            steps_to(*old(self), *final(self)),
            r is Ok ==> old(self).pos < final(self).pos,
            match g_pattern(old(self).view(), old(self).ps(), depth as nat) {
                Some((d, s2)) => r matches Ok(p) && pattern_is(p, d) && final(self).ps() == s2,
                None => r is Err,
            },
        decreases depth,
    {
        proof {
            reveal_with_fuel(g_expr, 1);
            reveal_with_fuel(g_pattern, 1);
        }
        let ghost gv0 = self.view();
        let ghost gs0 = self.ps();
        if depth == 0 {
            return Err(self.too_deep());
        }
        if self.match_token(TokenType::Underscore) {
            let p = MatchPattern::WildcardPattern;
            proof {
                lemma_pattern_is(p, (g_pattern(gv0, gs0, depth as nat)->0).0);
            }
            return Ok(p);
        }
        let variant_start = self.check(TokenType::Identifier) || self.check(TokenType::OkKw)
            || self.check(TokenType::ErrKw) || self.check(TokenType::SomeKw) || self.check(
            TokenType::NoneKw,
        );
        if variant_start && self.check_next(TokenType::LParen) {
            let name = self.tokens[self.pos].value.clone();
            self.advance();
            self.consume(TokenType::LParen, "Expected ( after variant name")?;
            let binding = if !self.check(TokenType::RParen) {
                Some(self.consume_string(TokenType::Identifier, "Expected binding variable")?)
            } else {
                None
            };
            self.consume(TokenType::RParen, "Expected ) after variant binding")?;
            let p = MatchPattern::VariantPattern { name, binding };
            proof {
                lemma_pattern_is(p, (g_pattern(gv0, gs0, depth as nat)->0).0);
            }
            return Ok(p);
        }
        if self.check(TokenType::NoneKw) && !self.check_next(TokenType::LParen) {
            self.advance();
            let none_word = vec!['n', 'o', 'n', 'e'];
            assert(none_word@ =~= crate::syntax::none_word());
            let p = MatchPattern::VariantPattern { name: string_from_chars(&none_word), binding: None };
            proof {
                lemma_pattern_is(p, (g_pattern(gv0, gs0, depth as nat)->0).0);
            }
            return Ok(p);
        }
        let value = self.parse_expression(depth - 1)?;
        let p = MatchPattern::LiteralPattern(value);
        proof {
            lemma_pattern_is(p, (g_pattern(gv0, gs0, depth as nat)->0).0);
        }
        Ok(p)
    }

    #[verifier::spinoff_prover]
    fn parse_match_expression(&mut self, depth: u32) -> (r: Result<Expr, String>)
        requires
            old(self).wf(),
        ensures
            steps_to(*old(self), *final(self)),
            match g_match(old(self).view(), old(self).ps(), depth as nat) {
                Some((d, s2)) => r matches Ok(e) && expr_is(e, d) && final(self).ps() == s2,
                None => r is Err,
            },
        decreases depth,
    {
        proof {
            reveal_with_fuel(g_arms, 1);
            reveal_with_fuel(g_expr, 1);
            reveal_with_fuel(g_header, 1);
            reveal_with_fuel(g_match, 1);
            reveal_with_fuel(g_pattern, 1);
            reveal_with_fuel(g_stmts_to_brace, 1);
        }
        let ghost gv0 = self.view();
        let ghost gs0 = self.ps();
        if depth == 0 {
            return Err(self.too_deep());
        }
        let ghost v = self.view();
        let ghost s0 = self.ps();
        let d = depth - 1;
        let subject = self.parse_header_expression(d)?;
        let ghost sd = (g_header(v, s0, d as nat)->0).0;
        proof {
            lemma_expr_span(subject, sd);
        }
        let ghost s1 = self.ps();
        self.consume(TokenType::LBrace, "Expected { after match subject")?;
        let ghost s2 = self.ps();
        let mut arms: Vec<MatchArm> = Vec::new();
        let ghost mut acc: Seq<ArmD> = Seq::empty();
        proof {
            lemma_empty_lists();
        }
        while !self.check(TokenType::RBrace) && !self.is_at_end()
            invariant
                steps_to(*old(self), *self),
                d < depth,
                d == depth - 1,
                v == self.view(),
                v == old(self).view(),
                s0 == old(self).ps(),
                g_header(v, s0, d as nat) == Some((sd, s1)),
                expect(v, s1, TokenType::LBrace) == Some(s2),
                expr_is(subject, sd),
                subject.span == sd.span,
                arms_are(arms@, acc),
                g_arms(v, s2, d as nat, sd.span, Seq::empty()) == g_arms(
                    v,
                    self.ps(),
                    d as nat,
                    sd.span,
                    acc,
                ),
            decreases self.tokens.len() - self.pos,
        {
            proof {
                reveal_with_fuel(g_arms, 1);
                reveal_with_fuel(g_expr, 1);
                reveal_with_fuel(g_header, 1);
                reveal_with_fuel(g_match, 1);
                reveal_with_fuel(g_pattern, 1);
                reveal_with_fuel(g_stmts_to_brace, 1);
            }
            let ghost sb = self.ps();
            let pattern = self.parse_match_pattern(d)?;
            let ghost pd = (g_pattern(v, sb, d as nat)->0).0;
            self.consume(TokenType::FatArrow, "Expected => after pattern")?;
            let ghost sa = self.ps();
            let body = if self.match_token(TokenType::LBrace) {
                let ghost sl = self.ps();
                let stmts = self.parse_statements_to_brace("Expected } after match arm body", d)?;
                let ghost ssd = (g_stmts_to_brace(v, sl, d as nat)->0).0;
                self.arm_body(stmts, subject.span, Ghost(ssd))?
            } else {
                self.parse_expression(d)?
            };
            let ghost bd: ExprD = if at_kind(v, sa, TokenType::LBrace) {
                let ssd = (g_stmts_to_brace(v, adv(sa), d as nat)->0);
                (g_arm_body(v, ssd.1, ssd.0, sd.span)->0).0
            } else {
                (g_expr(v, sa, d as nat)->0).0
            };
            let arm = MatchArm { pattern, body };
            proof {
                lemma_arm_is(arm, ArmD { pattern: pd, body: bd });
                lemma_arms_push(arms@, acc, arm, ArmD { pattern: pd, body: bd });
                acc = acc.push(ArmD { pattern: pd, body: bd });
            }
            arms.push(arm);
            self.match_token(TokenType::Comma);
            assert(progress(v, sb, self.ps()));
        }
        self.consume(TokenType::RBrace, "Expected } after match expression")?;
        let e = Expr {
            kind: ExprKind::MatchExpression { subject: Box::new(subject), arms },
            span: self.whole_span(),
        };
        proof {
            lemma_expr_is(e, (g_match(gv0, gs0, depth as nat)->0).0);
        }
        Ok(e)
    }

    /// The expression a braced match-arm body stands for: its one expression
    /// statement; otherwise a block expression of its statements; `0` when
    /// it is empty.
    #[verifier::spinoff_prover]
    fn arm_body(&mut self, stmts: Vec<Statement>, subject_span: Span, Ghost(ss): Ghost<Seq<StmtD>>) -> (r: Result<Expr, String>)
        requires
            old(self).wf(),
            stmts_are(stmts@, ss),
        ensures
            steps_to(*old(self), *final(self)),
            match g_arm_body(old(self).view(), old(self).ps(), ss, subject_span) {
                Some((x, s2)) => r matches Ok(e) && expr_is(e, x) && final(self).ps() == s2,
                None => r is Err,
            },
    {
        let ghost gv0 = self.view();
        let ghost gs0 = self.ps();
        let ghost s0 = stmts@;
        proof {
            lemma_stmts_are(stmts@, ss);
        }
        let mut stmts = stmts;
        if stmts.len() == 0 {
            let zero = vec!['0'];
            proof {
                assert(zero@ =~= crate::syntax::zero_text());
            }
            let e = Expr {
                kind: ExprKind::NumberLiteral { value: string_from_chars(&zero), literal_type: None },
                span: subject_span,
            };
            proof {
                lemma_expr_is(e, (g_arm_body(gv0, gs0, ss, subject_span)->0).0);
            }
            return Ok(e);
        }
        if stmts.len() == 1 {
            let s = stmts.pop().unwrap();
            assert(s == s0[0]);
            proof {
                lemma_stmt_is(s, ss[0]);
            }
            match s.kind {
                StatementKind::ExpressionStatement { expression } => {
                    return Ok(*expression);
                },
                other => {
                    stmts.push(Statement { kind: other, span: s.span });
                    assert(stmts@ =~= s0);
                },
            }
        }
        let ghost n = (self.scope_counter + 1) as nat;
        let scope_id = self.next_scope_id()?;
        let span = self.whole_span();
        let block = Block { statements: stmts, scope_id, span };
        proof {
            lemma_block_is(block, BlockD { stmts: ss, scope: n, span });
        }
        let e = Expr { kind: ExprKind::BlockExpression { block }, span };
        proof {
            lemma_expr_is(e, (g_arm_body(gv0, gs0, ss, subject_span)->0).0);
        }
        Ok(e)
    }

    /// The expression inside a `{...}` of a template string, parsed on its own.
    #[verifier::spinoff_prover]
    fn parse_interpolation(&mut self, depth: u32) -> (r: Result<Expr, String>)
        requires
            old(self).wf(),
            old(self).pos < old(self).tokens.len(),
        ensures
            steps_to(*old(self), *final(self)),
            final(self).pos == old(self).pos + 1,
            match g_interp(old(self).view(), old(self).ps(), depth as nat) {
                Some((d, s2)) => r matches Ok(e) && expr_is(e, d) && final(self).ps() == s2,
                None => r is Err,
            },
        decreases depth,
    {
        proof {
            reveal_with_fuel(g_expr, 1);
            reveal_with_fuel(g_interp, 1);
        }
        let text = self.tokens[self.pos].value.clone();
        self.advance();
        if depth == 0 {
            return Err(self.too_deep());
        }
        if !fits_positions(text.as_str()) {
            return Err(self.error_here("Interpolated expression too long"));
        }
        let all = tokenize(text.as_str());
        let ghost ls = lex(text@);
        let mut kept: Vec<Token> = Vec::new();
        let mut i: usize = 0;
        while i < all.len()
            invariant
                i <= all.len(),
                tokens_match(all@, ls, text@),
                tvs(kept@) == non_ws(ls.take(i as int), text@),
            decreases all.len() - i,
        {
            proof {
                assert(ls.take(i + 1).drop_last() =~= ls.take(i as int));
                assert(token_is(all@[i as int], ls[i as int], text@));
                lemma_token_view(all@[i as int], ls[i as int], text@);
            }
            if all[i].token_type != TokenType::Whitespace {
                let ghost before = kept@;
                kept.push(copy_token(&all[i]));
                proof {
                    assert(tvs(kept@) =~= tvs(before).push(tv(all@[i as int])));
                }
            }
            i += 1;
        }
        proof {
            assert(ls.take(all.len() as int) =~= ls);
        }
        let mut sub = Parser::new(kept);
        sub.parse_expression(depth - 1)
    }

    #[verifier::spinoff_prover]
    fn parse_template_string(&mut self, depth: u32) -> (r: Result<Expr, String>)
        requires
            old(self).wf(),
            old(self).pos < old(self).tokens.len(),
        ensures
            steps_to(*old(self), *final(self)),
            r is Ok ==> old(self).pos < final(self).pos,
            match g_template(old(self).view(), old(self).ps(), depth as nat) {
                Some((d, s2)) => r matches Ok(e) && expr_is(e, d) && final(self).ps() == s2,
                None => r is Err,
            },
        decreases depth,
    {
        proof {
            reveal_with_fuel(g_interp, 1);
            reveal_with_fuel(g_template, 1);
            reveal_with_fuel(g_tparts, 1);
        }
        let ghost gv0 = self.view();
        let ghost gs0 = self.ps();
        if depth == 0 {
            return Err(self.too_deep());
        }
        let ghost v = self.view();
        let ghost s0 = self.ps();
        let d = depth - 1;
        let start = self.tokens[self.pos].span.start;
        self.advance();
        let ghost s1 = self.ps();
        let mut parts: Vec<TemplatePart> = Vec::new();
        let ghost mut acc: Seq<PartD> = Seq::empty();
        proof {
            lemma_empty_lists();
        }
        while !self.check(TokenType::TemplateStringEnd) && !self.is_at_end()
            invariant_except_break
                g_tparts(v, s1, d as nat, Seq::empty()) == g_tparts(v, self.ps(), d as nat, acc),
            invariant
                steps_to(*old(self), *self),
                old(self).pos < self.pos,
                d < depth,
                d == depth - 1,
                v == self.view(),
                v == old(self).view(),
                s0 == old(self).ps(),
                s1 == adv(s0),
                parts_are(parts@, acc),
                at_kind(v, self.ps(), TokenType::TemplateStringEnd) || self.pos >= self.tokens.len()
                    ==> g_tparts(v, self.ps(), d as nat, acc) == Some((acc, self.ps())),
            ensures
                g_tparts(v, s1, d as nat, Seq::empty()) == Some((acc, self.ps())),
            decreases self.tokens.len() - self.pos,
        {
            proof {
                reveal_with_fuel(g_interp, 1);
                reveal_with_fuel(g_template, 1);
                reveal_with_fuel(g_tparts, 1);
            }
            let ghost sb = self.ps();
            if self.check(TokenType::TemplateStringPart) {
                let text = self.tokens[self.pos].value.clone();
                self.advance();
                if !text.as_str().is_empty() {
                    let part = TemplatePart::String(text);
                    proof {
                        lemma_part_is(part, PartD::Text(text@));
                        lemma_parts_push(parts@, acc, part, PartD::Text(text@));
                        acc = acc.push(PartD::Text(text@));
                    }
                    parts.push(part);
                }
            } else if self.check(TokenType::TemplateInterpStart) {
                self.advance();
                if self.check(TokenType::TemplateStringPart) {
                    let ghost si = self.ps();
                    let e = self.parse_interpolation(d)?;
                    let ghost pd = PartD::Expr((g_interp(v, si, d as nat)->0).0);
                    let part = TemplatePart::Expr(e);
                    proof {
                        lemma_part_is(part, pd);
                        lemma_parts_push(parts@, acc, part, pd);
                        acc = acc.push(pd);
                    }
                    parts.push(part);
                }
                self.consume(TokenType::TemplateInterpEnd, "Expected } after expression")?;
                assert(progress(v, sb, self.ps()));
            } else {
                break;
            }
        }
        self.consume(TokenType::TemplateStringEnd, "Expected \" at end of template string")?;
        let end = self.tokens[self.pos - 1].span.end;
        let e = Expr { kind: ExprKind::TemplateLiteral { parts }, span: Span { start, end } };
        proof {
            lemma_expr_is(e, (g_template(gv0, gs0, depth as nat)->0).0);
        }
        Ok(e)
    }

    #[verifier::spinoff_prover]
    fn parse_array_literal(&mut self, depth: u32) -> (r: Result<Expr, String>)
        requires
            old(self).wf(),
            0 < old(self).pos,
        ensures
            steps_to(*old(self), *final(self)),
            match g_array_lit(old(self).view(), old(self).ps(), depth as nat) {
                Some((d, s2)) => r matches Ok(e) && expr_is(e, d) && final(self).ps() == s2,
                None => r is Err,
            },
        decreases depth,
    {
        proof {
            reveal_with_fuel(g_array_lit, 1);
            reveal_with_fuel(g_elems, 1);
            reveal_with_fuel(g_expr, 1);
        }
        let ghost gv0 = self.view();
        let ghost gs0 = self.ps();
        if depth == 0 {
            return Err(self.too_deep());
        }
        let ghost v = self.view();
        let ghost s0 = self.ps();
        let d = depth - 1;
        let start = self.tokens[self.pos - 1].span.start;
        if self.check(TokenType::RBracket) {
            self.consume(TokenType::RBracket, "Expected ] after array elements")?;
            let elements: Vec<Expr> = Vec::new();
            assert(elements@ =~= Seq::<Expr>::empty());
            proof {
                lemma_empty_lists();
            }
            let e = Expr {
                kind: ExprKind::ArrayLiteral { elements },
                span: Span { start, end: self.last_position() },
            };
            proof {
                lemma_expr_is(e, (g_array_lit(gv0, gs0, depth as nat)->0).0);
            }
            return Ok(e);
        }
        let first = self.parse_expression(d)?;
        let ghost fd = (g_expr(v, s0, d as nat)->0).0;
        if self.match_token(TokenType::Semicolon) {
            let count = self.parse_expression(d)?;
            self.consume(TokenType::RBracket, "Expected ] after array fill count")?;
            let e = Expr {
                kind: ExprKind::ArrayFill { value: Box::new(first), count: Box::new(count) },
                span: Span { start, end: self.last_position() },
            };
            proof {
                lemma_expr_is(e, (g_array_lit(gv0, gs0, depth as nat)->0).0);
            }
            return Ok(e);
        }
        let ghost s1 = self.ps();
        let mut elements: Vec<Expr> = Vec::new();
        proof {
            lemma_empty_lists();
            lemma_exprs_push(elements@, Seq::empty(), first, fd);
            assert(seq![fd] =~= Seq::<ExprD>::empty().push(fd));
        }
        elements.push(first);
        let ghost mut acc: Seq<ExprD> = seq![fd];
        while self.match_token(TokenType::Comma)
            invariant
                steps_to(*old(self), *self),
                d < depth,
                d == depth - 1,
                v == self.view(),
                v == old(self).view(),
                s0 == old(self).ps(),
                g_expr(v, s0, d as nat) == Some((fd, s1)),
                !at_kind(v, s0, TokenType::RBracket),
                !at_kind(v, s1, TokenType::Semicolon),
                exprs_are(elements@, acc),
                g_elems(v, s1, d as nat, seq![fd]) == g_elems(v, self.ps(), d as nat, acc),
            decreases self.tokens.len() - self.pos,
        {
            proof {
                reveal_with_fuel(g_array_lit, 1);
                reveal_with_fuel(g_elems, 1);
                reveal_with_fuel(g_expr, 1);
            }
            let ghost se = self.ps();
            let e = self.parse_expression(d)?;
            proof {
                lemma_exprs_push(elements@, acc, e, (g_expr(v, se, d as nat)->0).0);
                acc = acc.push((g_expr(v, se, d as nat)->0).0);
            }
            elements.push(e);
        }
        self.consume(TokenType::RBracket, "Expected ] after array elements")?;
        let e = Expr {
            kind: ExprKind::ArrayLiteral { elements },
            span: Span { start, end: self.last_position() },
        };
        proof {
            lemma_expr_is(e, (g_array_lit(gv0, gs0, depth as nat)->0).0);
        }
        Ok(e)
    }

    /// The key of a map-literal entry: a string (quotes removed), a number,
    /// or a name.
    #[verifier::spinoff_prover]
    fn parse_map_key(&mut self) -> (r: Result<String, String>)
        requires
            old(self).wf(),
        ensures
            steps_to(*old(self), *final(self)),
            r is Ok ==> old(self).pos < final(self).pos,
            match g_map_key(old(self).view(), old(self).ps()) {
                Some((v, s2)) => r matches Ok(x) && x@ == v && final(self).ps() == s2,
                None => r is Err,
            },
    {
        if self.check(TokenType::StringLit) {
            let raw = self.text(self.pos);
            self.advance();
            if raw.len() > 0 && (raw[0] == '"' || raw[0] == '\'') {
                match strip_quotes(&raw) {
                    Some((a, b)) => Ok(string_of_range(&raw, a, b)),
                    None => Err(self.error_here("Malformed string literal")),
                }
            } else {
                Ok(string_from_chars(&raw))
            }
        } else if self.check(TokenType::Number) {
            self.consume_string(TokenType::Number, "Expected number")
        } else {
            self.consume_string(
                TokenType::Identifier,
                "Expected field name, string, or number in map literal",
            )
        }
    }

    #[verifier::spinoff_prover]
    fn parse_map_literal(&mut self, depth: u32) -> (r: Result<Expr, String>)
        requires
            old(self).wf(),
            0 < old(self).pos,
        ensures
            steps_to(*old(self), *final(self)),
            match g_map_lit(old(self).view(), old(self).ps(), depth as nat) {
                Some((d, s2)) => r matches Ok(e) && expr_is(e, d) && final(self).ps() == s2,
                None => r is Err,
            },
        decreases depth,
    {
        proof {
            reveal_with_fuel(g_entries, 1);
            reveal_with_fuel(g_expr, 1);
            reveal_with_fuel(g_map_lit, 1);
        }
        let ghost gv0 = self.view();
        let ghost gs0 = self.ps();
        if depth == 0 {
            return Err(self.too_deep());
        }
        let ghost v = self.view();
        let ghost s0 = self.ps();
        let d = depth - 1;
        let start = self.tokens[self.pos - 1].span.start;
        let mut entries: Vec<MapEntry> = Vec::new();
        let ghost mut acc: Seq<(Seq<char>, ExprD)> = Seq::empty();
        proof {
            lemma_empty_lists();
        }
        while !self.check(TokenType::RBrace) && !self.is_at_end()
            invariant
                steps_to(*old(self), *self),
                d < depth,
                d == depth - 1,
                v == self.view(),
                v == old(self).view(),
                s0 == old(self).ps(),
                entries_are(entries@, acc),
                g_entries(v, s0, d as nat, Seq::empty()) == g_entries(v, self.ps(), d as nat, acc),
            decreases self.tokens.len() - self.pos,
        {
            proof {
                reveal_with_fuel(g_entries, 1);
                reveal_with_fuel(g_expr, 1);
                reveal_with_fuel(g_map_lit, 1);
            }
            let ghost sb = self.ps();
            let key = self.parse_map_key()?;
            self.consume(TokenType::Colon, "Expected : after key")?;
            let ghost sv = self.ps();
            let value = self.parse_expression(d)?;
            let entry = MapEntry { key, value };
            proof {
                lemma_entries_push(entries@, acc, entry, (g_expr(v, sv, d as nat)->0).0);
                acc = acc.push((entry.key@, (g_expr(v, sv, d as nat)->0).0));
            }
            entries.push(entry);
            self.match_token(TokenType::Comma);
            assert(progress(v, sb, self.ps()));
        }
        self.consume(TokenType::RBrace, "Expected } after map literal")?;
        let e = Expr {
            kind: ExprKind::MapLiteral { entries },
            span: Span { start, end: self.last_position() },
        };
        proof {
            lemma_expr_is(e, (g_map_lit(gv0, gs0, depth as nat)->0).0);
        }
        Ok(e)
    }
}

// ---------------------------------------------------------------------------
// Statement-list rewrites
// ---------------------------------------------------------------------------

/// Appending an optional statement keeps a list described.
proof fn lemma_push_opt(v: Seq<Statement>, acc: Seq<StmtD>, ro: Option<Statement>, so: Option<StmtD>)
    requires
        stmts_are(v, acc),
        opt_stmt_is(ro, so),
    ensures
        stmts_are(
            match ro {
                Some(s) => v.push(s),
                None => v,
            },
            push_opt(acc, so),
        ),
{
    match (ro, so) {
        (Some(s), Some(x)) => {
            lemma_stmts_push(v, acc, s, x);
        },
        _ => {},
    }

}

/// How the kind of an expression and of its description correspond.
proof fn lemma_expr_kind(e: Expr, d: ExprD)
    requires
        expr_is(e, d),
    ensures
        e.kind is IndexExpression <==> d.kind is Index,
        e.kind is MemberExpression <==> d.kind is Member,
        e.kind is Identifier <==> d.kind is Identifier,
        d.kind is Identifier ==> e.kind->Identifier_name@ == d.kind->Identifier_0,
{
    lemma_expr_is(e, d);
}

/// A token is the view of the lexeme it was made from.
proof fn lemma_token_view(t: Token, l: Lexeme, s: Seq<char>)
    requires
        token_is(t, l, s),
    ensures
        tv(t) == lexeme_tok(l, s),
{
    assert(t.span.start == crate::grammar::pos_of(s, l.start));
    assert(t.span.end == crate::grammar::pos_of(s, l.end));
}

/// The significant tokens of a source, as the parser reads them, are its
/// lexemes without whitespace and comments.
pub proof fn lemma_source_toks(ts: Seq<Token>, ls: Seq<Lexeme>, s: Seq<char>)
    requires
        tokens_match(ts, ls, s),
    ensures
        tvs(significant(ts)) == source_toks(ls, s),
    decreases ts.len(),
{
    if ts.len() > 0 {
        let n = ts.len() - 1;
        assert forall|i: int| 0 <= i < n implies #[trigger] token_is(
            ts.drop_last()[i],
            ls.drop_last()[i],
            s,
        ) by {
            assert(token_is(ts[i], ls[i], s));
        }
        lemma_source_toks(ts.drop_last(), ls.drop_last(), s);
        assert(token_is(ts[n], ls[n], s));
        lemma_token_view(ts.last(), ls.last(), s);
        if is_significant(ts.last()) {
            assert(tvs(significant(ts)) =~= tvs(significant(ts.drop_last())).push(tv(ts.last())));
        }
    }
}

/// A program that is one block holding one statement is that statement.
pub open spec fn unwrapped(stmts: Seq<Statement>) -> Seq<Statement> {
    if stmts.len() == 1 {
        match stmts[0].kind {
            StatementKind::Block { statements, .. } => if statements@.len() == 1 {
                statements@
            } else {
                stmts
            },
            _ => stmts,
        }
    } else {
        stmts
    }
}

/// Replaces a program that is a single one-statement block by its statement.
pub fn unwrap_statements(stmts: Vec<Statement>) -> (r: Vec<Statement>)
    ensures
        r@ == unwrapped(stmts@),
{
    let ghost s0 = stmts@;
    let mut stmts = stmts;
    if stmts.len() == 1 {
        let s = stmts.pop().unwrap();
        assert(s == s0[0]);
        match s.kind {
            StatementKind::Block { statements, scope_id } => {
                if statements.len() == 1 {
                    return statements;
                }
                stmts.push(Statement { kind: StatementKind::Block { statements, scope_id }, span: s.span });
            },
            other => {
                stmts.push(Statement { kind: other, span: s.span });
            },
        }
        assert(stmts@ =~= s0);
    }
    stmts
}

proof fn lemma_unwrapped(v: Seq<Statement>, ds: Seq<StmtD>)
    requires
        stmts_are(v, ds),
    ensures
        stmts_are(unwrapped(v), crate::syntax::unwrapped_d(ds)),
{
    lemma_stmts_are(v, ds);
    if v.len() == 1 {
        lemma_stmt_is(v[0], ds[0]);
        match v[0].kind {
            StatementKind::Block { statements, scope_id } => {
                lemma_stmts_are(statements@, ds[0].kind->Block_0);
            },
            _ => {},
        }
    }
}

proof fn lemma_implicit(v: Seq<Statement>, ds: Seq<StmtD>)
    requires
        stmts_are(v, ds),
    ensures
        stmts_are(with_implicit_return(v), crate::syntax::implicit_d(ds)),
{
    lemma_stmts_are(v, ds);
    if v.len() == 1 {
        lemma_stmt_is(v[0], ds[0]);
        let w = with_implicit_return(v);
        let dw = crate::syntax::implicit_d(ds);
        lemma_stmts_are(w, dw);
        if v[0].kind is ExpressionStatement {
            lemma_stmt_is(w[0], dw[0]);
        }
    }
}

/// A function body that is one expression statement returns that expression.
pub open spec fn with_implicit_return(stmts: Seq<Statement>) -> Seq<Statement> {
    if stmts.len() == 1 && stmts[0].kind is ExpressionStatement {
        seq![
            Statement {
                kind: StatementKind::Return {
                    value: Some(stmts[0].kind->ExpressionStatement_expression),
                },
                span: stmts[0].span,
            },
        ]
    } else {
        stmts
    }
}

fn implicit_return(stmts: Vec<Statement>) -> (r: Vec<Statement>)
    ensures
        r@ == with_implicit_return(stmts@),
{
    let ghost s0 = stmts@;
    let mut stmts = stmts;
    if stmts.len() == 1 {
        let s = stmts.pop().unwrap();
        assert(s == s0[0]);
        match s.kind {
            StatementKind::ExpressionStatement { expression } => {
                stmts.push(Statement { kind: StatementKind::Return { value: Some(expression) }, span: s.span });
                assert(stmts@ =~= with_implicit_return(s0));
            },
            other => {
                stmts.push(Statement { kind: other, span: s.span });
                assert(stmts@ =~= s0);
            },
        }
    }
    stmts
}

// ---------------------------------------------------------------------------
// Entry points
// ---------------------------------------------------------------------------

/// Parses tokens into a `Program` statement.
///
/// Whitespace and comment tokens are dropped first; the rest is read by the
/// grammar of `syntax`, from the first position with scope counter 0. The
/// result is `Ok` exactly when the grammar reads a program, and then it is
/// the program the grammar describes: a `Program` whose span runs from line
/// 1, column 1 to the end of the last significant token. With no
/// significant tokens it is the empty program in scope `scope_1`. A syntax
/// error gives `Err` with a message.
pub fn parse_tokens(tokens: &[Token]) -> (r: Result<Statement, String>)
    ensures
        match g_program(tvs(significant(tokens@)), start_state(), MAX_NESTING as nat) {
            Some((d, _)) => r matches Ok(st) && stmt_is(st, d),
            None => r is Err,
        },
        r matches Ok(s) ==> s.kind is Program && s.span == (Span {
            start: Position { line: 1, column: 1, index: 0 },
            end: last_position_of(significant(tokens@)),
        }),
        significant(tokens@).len() == 0 ==> (r matches Ok(s) && is_empty_program(s)),
{
    let filtered = significant_tokens(tokens);
    let mut parser = Parser::new(filtered);
    let r = parser.parse_program(MAX_NESTING);
    proof {
        let ts = tvs(significant(tokens@));
        match g_program(ts, start_state(), MAX_NESTING as nat) {
            Some((d, _)) => {
                if r is Ok {
                    lemma_stmt_is(r->Ok_0, d);
                    if significant(tokens@).len() == 0 {
                        assert(crate::type_names::decimal(1) =~= seq!['1']);
                        assert(seq!['s', 'c', 'o', 'p', 'e', '_'] + seq!['1'] =~= seq![
                            's',
                            'c',
                            'o',
                            'p',
                            'e',
                            '_',
                            '1',
                        ]);
                        lemma_stmts_are((r->Ok_0).kind->Program_statements@, Seq::empty());
                    }
                }
            },
            None => {},
        }
    }
    r
}

/// The same as `parse_tokens`.
pub fn parse(tokens: &[Token]) -> (r: Result<Statement, String>)
    ensures
        match g_program(tvs(significant(tokens@)), start_state(), MAX_NESTING as nat) {
            Some((d, _)) => r matches Ok(st) && stmt_is(st, d),
            None => r is Err,
        },
        r matches Ok(s) ==> s.kind is Program && s.span == (Span {
            start: Position { line: 1, column: 1, index: 0 },
            end: last_position_of(significant(tokens@)),
        }),
        significant(tokens@).len() == 0 ==> (r matches Ok(s) && is_empty_program(s)),
{
    parse_tokens(tokens)
}

} // verus!
