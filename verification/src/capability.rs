//! Capability declarations (`.mogdecl` files).
//!
//! A declaration file lists the functions a host capability offers:
//!
//! ```text
//! capability fs {
//!   fn read_file(path: string) -> string;
//!   async fn sleep(ms: int) -> int;
//! }
//! ```

use vstd::prelude::*;

use crate::lexer_spec::{at, is_alpha, is_word, line_end, word_end};
use crate::text::{chars_eq, chars_of, copy_chars, push_chars, push_str, string_from_chars};
use crate::types::{FloatKind, IntegerKind, Type};

verus! {

/// One capability: its name and the functions it provides.
#[derive(Debug, Clone)]
pub struct CapabilityDecl {
    pub name: String,
    pub functions: Vec<CapabilityFn>,
}

/// A function offered by a capability.
#[derive(Debug, Clone)]
pub struct CapabilityFn {
    pub name: String,
    pub params: Vec<(String, Type)>,
    pub return_type: Type,
    pub is_async: bool,
}

// ---------------------------------------------------------------------------
// Tokens
// ---------------------------------------------------------------------------

#[derive(Debug, Clone, Copy, PartialEq, Eq, Structural)]
pub enum TokKind {
    Keyword,
    Ident,
    Punct,
    Eof,
}

struct Tok {
    kind: TokKind,
    value: Vec<char>,
}

pub open spec fn capability_word() -> Seq<char> {
    seq!['c', 'a', 'p', 'a', 'b', 'i', 'l', 'i', 't', 'y']
}

pub open spec fn fn_word() -> Seq<char> {
    seq!['f', 'n']
}

pub open spec fn async_word() -> Seq<char> {
    seq!['a', 's', 'y', 'n', 'c']
}

pub open spec fn result_word() -> Seq<char> {
    seq!['R', 'e', 's', 'u', 'l', 't']
}

/// Whitespace as `char::is_ascii_whitespace` defines it.
pub open spec fn is_ascii_ws(c: char) -> bool {
    c == ' ' || c == '\t' || c == '\n' || c == '\r' || c == '\x0C'
}

pub open spec fn is_decl_punct(c: char) -> bool {
    c == '{' || c == '}' || c == ';' || c == ',' || c == '(' || c == ')' || c == '-' || c == '>'
        || c == '?' || c == '<' || c == ':'
}

pub open spec fn word_kind(w: Seq<char>) -> TokKind {
    if w == capability_word() || w == fn_word() || w == async_word() || w == result_word() {
        TokKind::Keyword
    } else {
        TokKind::Ident
    }
}

/// The tokens of a declaration file from character position `i` on; the
/// sequence always ends with one end-of-input token.
pub open spec fn decl_tokens_from(s: Seq<char>, i: int) -> Seq<(TokKind, Seq<char>)>
    decreases s.len() - i,
{
    if i < 0 || i >= s.len() {
        seq![(TokKind::Eof, Seq::<char>::empty())]
    } else {
        let c = s[i];
        if is_ascii_ws(c) {
            decl_tokens_from(s, i + 1)
        } else if (c == '/' && at(s, i + 1) == '/') || c == '#' {
            proof {
                lemma_line_end_after(s, i);
            }
            decl_tokens_from(s, line_end(s, i))
        } else if is_decl_punct(c) {
            if c == '-' && at(s, i + 1) == '>' {
                seq![(TokKind::Punct, seq!['-', '>'])] + decl_tokens_from(s, i + 2)
            } else {
                seq![(TokKind::Punct, seq![c])] + decl_tokens_from(s, i + 1)
            }
        } else if is_alpha(c) || c == '_' {
            let e = word_end(s, i + 1);
            proof {
                crate::lexer_spec::lemma_word_end_bounds(s, i + 1);
            }
            let w = s.subrange(i, e);
            seq![(word_kind(w), w)] + decl_tokens_from(s, e)
        } else {
            decl_tokens_from(s, i + 1)
        }
    }
}

pub proof fn lemma_line_end_after(s: Seq<char>, i: int)
    requires
        0 <= i < s.len(),
        s[i] != '\n',
    ensures
        i < line_end(s, i) <= s.len(),
{
    crate::lexer_spec::lemma_line_end_bounds(s, i + 1);
}

pub open spec fn decl_tokens(s: Seq<char>) -> Seq<(TokKind, Seq<char>)> {
    decl_tokens_from(s, 0)
}

spec fn tok_view(t: Tok) -> (TokKind, Seq<char>) {
    (t.kind, t.value@)
}

fn ascii_ws(c: char) -> (r: bool)
    ensures
        r == is_ascii_ws(c),
{
    c == ' ' || c == '\t' || c == '\n' || c == '\r' || c == '\x0C'
}

fn decl_punct(c: char) -> (r: bool)
    ensures
        r == is_decl_punct(c),
{
    c == '{' || c == '}' || c == ';' || c == ',' || c == '(' || c == ')' || c == '-' || c == '>'
        || c == '?' || c == '<' || c == ':'
}

fn char_at(v: &Vec<char>, i: usize) -> (c: char)
    ensures
        c == at(v@, i as int),
{
    if i < v.len() {
        v[i]
    } else {
        '\0'
    }
}

fn classify_word(w: &Vec<char>) -> (k: TokKind)
    ensures
        k == word_kind(w@),
{
    let cap = vec!['c', 'a', 'p', 'a', 'b', 'i', 'l', 'i', 't', 'y'];
    let f = vec!['f', 'n'];
    let a = vec!['a', 's', 'y', 'n', 'c'];
    let r = vec!['R', 'e', 's', 'u', 'l', 't'];
    proof {
        assert(cap@ =~= capability_word());
        assert(f@ =~= fn_word());
        assert(a@ =~= async_word());
        assert(r@ =~= result_word());
    }
    if chars_eq(w, &cap) || chars_eq(w, &f) || chars_eq(w, &a) || chars_eq(w, &r) {
        TokKind::Keyword
    } else {
        TokKind::Ident
    }
}

/// Splits a declaration file into tokens.
fn tokenize_mogdecl(source: &str) -> (toks: Vec<Tok>)
    ensures
        toks@.map_values(|t: Tok| tok_view(t)) == decl_tokens(source@),
{
    let src = chars_of(source);
    let ghost s = src@;
    let mut toks: Vec<Tok> = Vec::new();
    let mut i: usize = 0;
    while i < src.len()
        invariant
            s == src@,
            i <= src.len(),
            toks@.map_values(|t: Tok| tok_view(t)) + decl_tokens_from(s, i as int) == decl_tokens(s),
        decreases src.len() - i,
    {
        let ghost before = toks@.map_values(|t: Tok| tok_view(t));
        let ghost i0 = i as int;
        let c = src[i];
        if ascii_ws(c) {
            i += 1;
        } else if (c == '/' && char_at(&src, i + 1) == '/') || c == '#' {
            while i < src.len() && src[i] != '\n'
                invariant
                    s == src@,
                    i0 <= i <= src.len(),
                    line_end(s, i as int) == line_end(s, i0),
                decreases src.len() - i,
            {
                i += 1;
            }
        } else if decl_punct(c) {
            if c == '-' && char_at(&src, i + 1) == '>' {
                let v = vec!['-', '>'];
                toks.push(Tok { kind: TokKind::Punct, value: v });
                i += 2;
                proof {
                    assert(v@ =~= seq!['-', '>']);
                }
            } else {
                let v = vec![c];
                toks.push(Tok { kind: TokKind::Punct, value: v });
                i += 1;
                proof {
                    assert(v@ =~= seq![c]);
                }
            }
            proof {
                assert(toks@.map_values(|t: Tok| tok_view(t)) =~= before.push(tok_view(toks@.last())));
            }
        } else if ('a' <= c && c <= 'z') || ('A' <= c && c <= 'Z') || c == '_' {
            let start = i;
            i += 1;
            while i < src.len() && crate::lexer::is_word_char(src[i])
                invariant
                    s == src@,
                    start < i <= src.len(),
                    word_end(s, i as int) == word_end(s, start + 1),
                decreases src.len() - i,
            {
                i += 1;
            }
            let mut w: Vec<char> = Vec::new();
            let mut k: usize = start;
            while k < i
                invariant
                    s == src@,
                    start <= k <= i <= src.len(),
                    w@ == s.subrange(start as int, k as int),
                decreases i - k,
            {
                w.push(src[k]);
                assert(s.subrange(start as int, k + 1) =~= s.subrange(start as int, k as int).push(s[k as int]));
                k += 1;
            }
            let kind = classify_word(&w);
            toks.push(Tok { kind, value: w });
            proof {
                assert(toks@.map_values(|t: Tok| tok_view(t)) =~= before.push(tok_view(toks@.last())));
            }
        } else {
            i += 1;
        }
        proof {
            assert(toks@.map_values(|t: Tok| tok_view(t)) + decl_tokens_from(s, i as int) =~= before
                + decl_tokens_from(s, i0));
        }
    }
    let ghost before = toks@.map_values(|t: Tok| tok_view(t));
    let eof = Vec::new();
    toks.push(Tok { kind: TokKind::Eof, value: eof });
    proof {
        assert(toks@.map_values(|t: Tok| tok_view(t)) =~= before.push(tok_view(toks@.last())));
        assert(eof@ =~= Seq::<char>::empty());
    }
    toks
}

// ---------------------------------------------------------------------------
// Type names
// ---------------------------------------------------------------------------

/// The shape of a type named in a declaration file.
pub enum TypeDesc {
    Int,
    Float,
    Bool,
    Str,
    Void,
    ResultOf(Box<TypeDesc>),
    Named(Seq<char>),
}

/// `t` is the type that `d` describes.
pub open spec fn type_is(t: Type, d: TypeDesc) -> bool
    decreases d,
{
    match d {
        TypeDesc::Int => t == Type::Integer(IntegerKind::I64),
        TypeDesc::Float => t == Type::Float(FloatKind::F64),
        TypeDesc::Bool => t == Type::Bool,
        TypeDesc::Str => t == Type::String,
        TypeDesc::Void => t == Type::Void,
        TypeDesc::ResultOf(inner) => match t {
            Type::Result(b) => type_is(*b, *inner),
            _ => false,
        },
        TypeDesc::Named(n) => match t {
            Type::Custom(x) => x@ == n,
            _ => false,
        },
    }
}

pub open spec fn result_open() -> Seq<char> {
    seq!['R', 'e', 's', 'u', 'l', 't', '<']
}

/// The type a declaration-file type name stands for: `int`, `float`,
/// `bool`, `string`, `none`, `Result<T>`, or any other name as a custom type.
pub open spec fn mogdecl_desc(n: Seq<char>) -> TypeDesc
    decreases n.len(),
{
    if n == seq!['i', 'n', 't'] {
        TypeDesc::Int
    } else if n == seq!['f', 'l', 'o', 'a', 't'] {
        TypeDesc::Float
    } else if n == seq!['b', 'o', 'o', 'l'] {
        TypeDesc::Bool
    } else if n == seq!['s', 't', 'r', 'i', 'n', 'g'] {
        TypeDesc::Str
    } else if n == seq!['n', 'o', 'n', 'e'] {
        TypeDesc::Void
    } else if n.len() >= 8 && n.take(7) == result_open() && n.last() == '>' {
        TypeDesc::ResultOf(Box::new(mogdecl_desc(n.subrange(7, n.len() - 1))))
    } else {
        TypeDesc::Named(n)
    }
}

fn type_of_chars(n: &Vec<char>) -> (t: Type)
    ensures
        type_is(t, mogdecl_desc(n@)),
    decreases n.len(),
{
    let wi = vec!['i', 'n', 't'];
    let wf = vec!['f', 'l', 'o', 'a', 't'];
    let wb = vec!['b', 'o', 'o', 'l'];
    let ws = vec!['s', 't', 'r', 'i', 'n', 'g'];
    let wn = vec!['n', 'o', 'n', 'e'];
    proof {
        assert(wi@ =~= seq!['i', 'n', 't']);
        assert(wf@ =~= seq!['f', 'l', 'o', 'a', 't']);
        assert(wb@ =~= seq!['b', 'o', 'o', 'l']);
        assert(ws@ =~= seq!['s', 't', 'r', 'i', 'n', 'g']);
        assert(wn@ =~= seq!['n', 'o', 'n', 'e']);
    }
    if chars_eq(n, &wi) {
        return Type::int_type();
    }
    if chars_eq(n, &wf) {
        return Type::float();
    }
    if chars_eq(n, &wb) {
        return Type::Bool;
    }
    if chars_eq(n, &ws) {
        return Type::String;
    }
    if chars_eq(n, &wn) {
        return Type::Void;
    }
    if n.len() >= 8 && n[n.len() - 1] == '>' {
        let mut head: Vec<char> = Vec::new();
        let mut i: usize = 0;
        while i < 7
            invariant
                n.len() >= 8,
                i <= 7,
                head@ == n@.take(i as int),
            decreases 7 - i,
        {
            head.push(n[i]);
            assert(n@.take(i + 1) =~= n@.take(i as int).push(n@[i as int]));
            i += 1;
        }
        let ro = vec!['R', 'e', 's', 'u', 'l', 't', '<'];
        proof {
            assert(ro@ =~= result_open());
        }
        if chars_eq(&head, &ro) {
            let mut inner: Vec<char> = Vec::new();
            let mut k: usize = 7;
            while k < n.len() - 1
                invariant
                    n.len() >= 8,
                    7 <= k <= n.len() - 1,
                    inner@ == n@.subrange(7, k as int),
                decreases n.len() - 1 - k,
            {
                inner.push(n[k]);
                assert(n@.subrange(7, k + 1) =~= n@.subrange(7, k as int).push(n@[k as int]));
                k += 1;
            }
            let t = type_of_chars(&inner);
            return Type::Result(Box::new(t));
        }
    }
    Type::Custom(string_from_chars(n))
}

/// Converts a declaration-file type name to the Mog type it stands for.
pub fn mogdecl_type_to_type(name: &str) -> (t: Type)
    ensures
        type_is(t, mogdecl_desc(name@)),
{
    let n = chars_of(name);
    type_of_chars(&n)
}

// ---------------------------------------------------------------------------
// The declaration grammar
// ---------------------------------------------------------------------------

/// A declared function, as the grammar reads it.
pub struct FnDesc {
    pub name: Seq<char>,
    pub params: Seq<(Seq<char>, TypeDesc)>,
    pub ret: TypeDesc,
    pub is_async: bool,
}

/// A capability, as the grammar reads it.
pub struct DeclDesc {
    pub name: Seq<char>,
    pub functions: Seq<FnDesc>,
}

pub open spec fn fn_is(f: CapabilityFn, d: FnDesc) -> bool {
    &&& f.name@ == d.name
    &&& f.params.len() == d.params.len()
    &&& forall|i: int|
        0 <= i < f.params.len() ==> (#[trigger] f.params@[i]).0@ == d.params[i].0 && type_is(
            f.params@[i].1,
            d.params[i].1,
        )
    &&& type_is(f.return_type, d.ret)
    &&& f.is_async == d.is_async
}

pub open spec fn decl_is(c: CapabilityDecl, d: DeclDesc) -> bool {
    &&& c.name@ == d.name
    &&& c.functions.len() == d.functions.len()
    &&& forall|i: int| 0 <= i < c.functions.len() ==> fn_is(#[trigger] c.functions@[i], d.functions[i])
}

pub open spec fn decls_are(v: Seq<CapabilityDecl>, d: Seq<DeclDesc>) -> bool {
    &&& v.len() == d.len()
    &&& forall|i: int| 0 <= i < v.len() ==> decl_is(#[trigger] v[i], d[i])
}

/// The token at `i`, or the end-of-input token past the end.
pub open spec fn dpk(ts: Seq<(TokKind, Seq<char>)>, i: int) -> (TokKind, Seq<char>) {
    if 0 <= i < ts.len() {
        ts[i]
    } else {
        (TokKind::Eof, Seq::<char>::empty())
    }
}

/// The position after the token at `i` (reading past the end stays there).
pub open spec fn dadv(ts: Seq<(TokKind, Seq<char>)>, i: int) -> int {
    if i < ts.len() {
        i + 1
    } else {
        i
    }
}

/// The message for a token `got` read where one of kind `kind` (with text
/// `value`, when one is given) was expected.
pub open spec fn expect_msg(kind: TokKind, value: Option<Seq<char>>, got: (TokKind, Seq<char>)) -> Seq<
    char,
> {
    if got.0 != kind {
        "Expected "@ + kind_text(kind) + match value {
            Some(v) => " '"@ + v + "'"@,
            None => Seq::empty(),
        } + ", got "@ + kind_text(got.0) + " '"@ + got.1 + "'"@
    } else {
        "Expected '"@ + value->0 + "', got '"@ + got.1 + "'"@
    }
}

/// `TypeName` or `Result` or `Result<TypeName>`, from token `i`.
pub open spec fn p_type(ts: Seq<(TokKind, Seq<char>)>, i: int) -> Result<(TypeDesc, int), Seq<char>>
    decreases ts.len() - i,
{
    if i < 0 || i > ts.len() {
        Err(Seq::empty())
    } else if dpk(ts, i).1 == result_word() {
        let j = dadv(ts, i);
        if dpk(ts, j).1 == seq!['<'] {
            let k = dadv(ts, j);
            match p_type(ts, k) {
                Err(m) => Err(m),
                Ok((d, m)) => if dpk(ts, m) == (TokKind::Punct, seq!['>']) {
                    Ok((TypeDesc::ResultOf(Box::new(d)), dadv(ts, m)))
                } else {
                    Err(expect_msg(TokKind::Punct, Some(seq!['>']), dpk(ts, m)))
                },
            }
        } else {
            Ok((TypeDesc::ResultOf(Box::new(TypeDesc::Void)), j))
        }
    } else {
        Ok((mogdecl_desc(dpk(ts, i).1), dadv(ts, i)))
    }
}

pub proof fn lemma_p_type(ts: Seq<(TokKind, Seq<char>)>, i: int)
    requires
        0 <= i <= ts.len(),
    ensures
        p_type(ts, i) matches Ok((d, j)) ==> i <= j <= ts.len(),
    decreases ts.len() - i,
{
    if dpk(ts, i).1 == result_word() {
        let j = dadv(ts, i);
        if dpk(ts, j).1 == seq!['<'] {
            lemma_p_type(ts, dadv(ts, j));
        }
    }
}

/// The parameter list from token `i` up to (not including) `)`, after the
/// parameters `acc` already read.
pub open spec fn p_params(
    ts: Seq<(TokKind, Seq<char>)>,
    i: int,
    acc: Seq<(Seq<char>, TypeDesc)>,
) -> Result<(Seq<(Seq<char>, TypeDesc)>, int), Seq<char>>
    decreases ts.len() - i,
{
    if i < 0 || i > ts.len() {
        Err(Seq::empty())
    } else if dpk(ts, i).1 == seq![')'] {
        Ok((acc, i))
    } else if acc.len() > 0 && dpk(ts, i) != (TokKind::Punct, seq![',']) {
        Err(expect_msg(TokKind::Punct, Some(seq![',']), dpk(ts, i)))
    } else {
        let i1 = if acc.len() > 0 {
            dadv(ts, i)
        } else {
            i
        };
        if dpk(ts, i1).0 != TokKind::Ident {
            Err(expect_msg(TokKind::Ident, None, dpk(ts, i1)))
        } else {
            let name = dpk(ts, i1).1;
            let i2 = dadv(ts, i1);
            if dpk(ts, i2) != (TokKind::Punct, seq![':']) {
                Err(expect_msg(TokKind::Punct, Some(seq![':']), dpk(ts, i2)))
            } else {
                let i3 = dadv(ts, i2);
                let i4 = if dpk(ts, i3).1 == seq!['?'] {
                    dadv(ts, i3)
                } else {
                    i3
                };
                match p_type(ts, i4) {
                    Err(m) => Err(m),
                    Ok((d, i5)) => {
                        proof {
                            lemma_p_type(ts, i4);
                        }
                        p_params(ts, i5, acc.push((name, d)))
                    },
                }
            }
        }
    }
}

pub proof fn lemma_p_params(
    ts: Seq<(TokKind, Seq<char>)>,
    i: int,
    acc: Seq<(Seq<char>, TypeDesc)>,
)
    requires
        0 <= i <= ts.len(),
    ensures
        p_params(ts, i, acc) matches Ok((ps, j)) ==> i <= j <= ts.len(),
    decreases ts.len() - i,
{
    if dpk(ts, i).1 == seq![')'] {
    } else if acc.len() > 0 && dpk(ts, i) != (TokKind::Punct, seq![',']) {
    } else {
        let i1 = if acc.len() > 0 {
            dadv(ts, i)
        } else {
            i
        };
        if dpk(ts, i1).0 == TokKind::Ident {
            let i2 = dadv(ts, i1);
            if dpk(ts, i2) == (TokKind::Punct, seq![':']) {
                let i3 = dadv(ts, i2);
                let i4 = if dpk(ts, i3).1 == seq!['?'] {
                    dadv(ts, i3)
                } else {
                    i3
                };
                lemma_p_type(ts, i4);
                match p_type(ts, i4) {
                    Err(_) => {},
                    Ok((d, i5)) => {
                        lemma_p_params(ts, i5, acc.push((dpk(ts, i1).1, d)));
                    },
                }
            }
        }
    }
}

/// `[async] fn name(params) [-> Type] [;]` from token `i`.
pub open spec fn p_function(ts: Seq<(TokKind, Seq<char>)>, i: int) -> Result<(FnDesc, int), Seq<char>> {
    let is_async = dpk(ts, i).1 == async_word();
    let i1 = if is_async {
        dadv(ts, i)
    } else {
        i
    };
    if dpk(ts, i1) != (TokKind::Keyword, fn_word()) {
        Err(expect_msg(TokKind::Keyword, Some(fn_word()), dpk(ts, i1)))
    } else {
        let i2 = dadv(ts, i1);
        if dpk(ts, i2).0 != TokKind::Ident {
            Err(expect_msg(TokKind::Ident, None, dpk(ts, i2)))
        } else {
            let name = dpk(ts, i2).1;
            let i3 = dadv(ts, i2);
            if dpk(ts, i3) != (TokKind::Punct, seq!['(']) {
                Err(expect_msg(TokKind::Punct, Some(seq!['(']), dpk(ts, i3)))
            } else {
                match p_params(ts, dadv(ts, i3), seq![]) {
                    Err(m) => Err(m),
                    Ok((ps, i5)) => {
                        if dpk(ts, i5) != (TokKind::Punct, seq![')']) {
                            Err(expect_msg(TokKind::Punct, Some(seq![')']), dpk(ts, i5)))
                        } else {
                            let i6 = dadv(ts, i5);
                            let r = if dpk(ts, i6).1 == seq!['-', '>'] {
                                p_type(ts, dadv(ts, i6))
                            } else {
                                Ok((TypeDesc::Void, i6))
                            };
                            match r {
                                Err(m) => Err(m),
                                Ok((ret, i7)) => {
                                    let i8 = if dpk(ts, i7).1 == seq![';'] {
                                        dadv(ts, i7)
                                    } else {
                                        i7
                                    };
                                    Ok((FnDesc { name, params: ps, ret, is_async }, i8))
                                },
                            }
                        }
                    },
                }
            }
        }
    }
}

pub proof fn lemma_p_function(ts: Seq<(TokKind, Seq<char>)>, i: int)
    requires
        0 <= i <= ts.len(),
    ensures
        p_function(ts, i) matches Ok((f, j)) ==> i < j <= ts.len(),
{
    let is_async = dpk(ts, i).1 == async_word();
    let i1 = if is_async {
        dadv(ts, i)
    } else {
        i
    };
    if dpk(ts, i1) == (TokKind::Keyword, fn_word()) {
        let i2 = dadv(ts, i1);
        let i3 = dadv(ts, i2);
        let i4 = dadv(ts, i3);
        lemma_p_params(ts, i4, seq![]);
        match p_params(ts, i4, seq![]) {
            Err(_) => {},
            Ok((ps, i5)) => {
                let i6 = dadv(ts, i5);
                if dpk(ts, i6).1 == seq!['-', '>'] {
                    lemma_p_type(ts, dadv(ts, i6));
                }
            },
        }
    }
}

/// The functions of a capability body, from token `i` up to `}` or the end.
pub open spec fn p_fns(ts: Seq<(TokKind, Seq<char>)>, i: int, acc: Seq<FnDesc>) -> Result<
    (Seq<FnDesc>, int),
    Seq<char>,
>
    decreases ts.len() - i,
{
    if i < 0 || i > ts.len() {
        Err(Seq::empty())
    } else if dpk(ts, i).1 == seq!['}'] || dpk(ts, i).0 == TokKind::Eof {
        Ok((acc, i))
    } else {
        match p_function(ts, i) {
            Err(m) => Err(m),
            Ok((f, j)) => {
                proof {
                    lemma_p_function(ts, i);
                }
                p_fns(ts, j, acc.push(f))
            },
        }
    }
}

pub proof fn lemma_p_fns(ts: Seq<(TokKind, Seq<char>)>, i: int, acc: Seq<FnDesc>)
    requires
        0 <= i <= ts.len(),
    ensures
        p_fns(ts, i, acc) matches Ok((fs, j)) ==> i <= j <= ts.len(),
    decreases ts.len() - i,
{
    if dpk(ts, i).1 == seq!['}'] || dpk(ts, i).0 == TokKind::Eof {
    } else {
        lemma_p_function(ts, i);
        match p_function(ts, i) {
            Err(_) => {},
            Ok((f, j)) => {
                lemma_p_fns(ts, j, acc.push(f));
            },
        }
    }
}

/// `capability name { functions }` from token `i`.
pub open spec fn p_capability(ts: Seq<(TokKind, Seq<char>)>, i: int) -> Result<(DeclDesc, int), Seq<char>> {
    if dpk(ts, i) != (TokKind::Keyword, capability_word()) {
        Err(expect_msg(TokKind::Keyword, Some(capability_word()), dpk(ts, i)))
    } else {
        let i1 = dadv(ts, i);
        if dpk(ts, i1).0 != TokKind::Ident {
            Err(expect_msg(TokKind::Ident, None, dpk(ts, i1)))
        } else {
            let name = dpk(ts, i1).1;
            let i2 = dadv(ts, i1);
            if dpk(ts, i2) != (TokKind::Punct, seq!['{']) {
                Err(expect_msg(TokKind::Punct, Some(seq!['{']), dpk(ts, i2)))
            } else {
                match p_fns(ts, dadv(ts, i2), seq![]) {
                    Err(m) => Err(m),
                    Ok((fs, i4)) => {
                        if dpk(ts, i4) != (TokKind::Punct, seq!['}']) {
                            Err(expect_msg(TokKind::Punct, Some(seq!['}']), dpk(ts, i4)))
                        } else {
                            Ok((DeclDesc { name, functions: fs }, dadv(ts, i4)))
                        }
                    },
                }
            }
        }
    }
}

pub proof fn lemma_p_capability(ts: Seq<(TokKind, Seq<char>)>, i: int)
    requires
        0 <= i <= ts.len(),
    ensures
        p_capability(ts, i) matches Ok((d, j)) ==> i < j <= ts.len(),
{
    if dpk(ts, i) == (TokKind::Keyword, capability_word()) {
        let i1 = dadv(ts, i);
        let i2 = dadv(ts, i1);
        lemma_p_fns(ts, dadv(ts, i2), seq![]);
    }
}

/// Every capability in the file from token `i` on, after those in `acc`;
/// tokens outside a `capability` block are skipped.
pub open spec fn p_decls(ts: Seq<(TokKind, Seq<char>)>, i: int, acc: Seq<DeclDesc>) -> Result<
    Seq<DeclDesc>,
    Seq<char>,
>
    decreases ts.len() - i,
{
    if i < 0 || i > ts.len() {
        Err(Seq::empty())
    } else if dpk(ts, i).0 == TokKind::Eof {
        Ok(acc)
    } else if dpk(ts, i).1 == capability_word() {
        match p_capability(ts, i) {
            Err(m) => Err(m),
            Ok((d, j)) => {
                proof {
                    lemma_p_capability(ts, i);
                }
                p_decls(ts, j, acc.push(d))
            },
        }
    } else {
        p_decls(ts, dadv(ts, i), acc)
    }
}

/// The capabilities a declaration file declares, or `None` when it is malformed.
pub open spec fn mogdecl_decls(source: Seq<char>) -> Option<Seq<DeclDesc>> {
    match mogdecl_parse(source) {
        Ok(ds) => Some(ds),
        Err(_) => None,
    }
}

/// The capabilities a declaration file declares, or the message for the
/// first token that does not fit.
pub open spec fn mogdecl_parse(source: Seq<char>) -> Result<Seq<DeclDesc>, Seq<char>> {
    p_decls(decl_tokens(source), 0, seq![])
}

// ---------------------------------------------------------------------------
// The parser
// ---------------------------------------------------------------------------

spec fn toks_view(v: Seq<Tok>) -> Seq<(TokKind, Seq<char>)> {
    v.map_values(|t: Tok| tok_view(t))
}

/// The name of a token kind, for error messages.
pub open spec fn kind_text(k: TokKind) -> Seq<char> {
    match k {
        TokKind::Keyword => "Keyword"@,
        TokKind::Ident => "Ident"@,
        TokKind::Punct => "Punct"@,
        TokKind::Eof => "Eof"@,
    }
}

fn kind_name(k: TokKind) -> (r: &'static str)
    ensures
        r@ == kind_text(k),
{
    match k {
        TokKind::Keyword => "Keyword",
        TokKind::Ident => "Ident",
        TokKind::Punct => "Punct",
        TokKind::Eof => "Eof",
    }
}

struct DeclParser {
    tokens: Vec<Tok>,
    pos: usize,
    eof: Tok,
}

impl DeclParser {
    spec fn ts(&self) -> Seq<(TokKind, Seq<char>)> {
        toks_view(self.tokens@)
    }

    spec fn wf(&self) -> bool {
        &&& self.pos <= self.tokens.len()
        &&& self.eof.kind == TokKind::Eof
        &&& self.eof.value@ == Seq::<char>::empty()
    }

    fn new(tokens: Vec<Tok>) -> (p: DeclParser)
        ensures
            p.wf(),
            p.tokens == tokens,
            p.pos == 0,
    {
        let v: Vec<char> = Vec::new();
        proof {
            assert(v@ =~= Seq::<char>::empty());
        }
        DeclParser { tokens, pos: 0, eof: Tok { kind: TokKind::Eof, value: v } }
    }

    fn peek(&self) -> (t: &Tok)
        requires
            self.wf(),
        ensures
            tok_view(*t) == dpk(self.ts(), self.pos as int),
    {
        if self.pos < self.tokens.len() {
            &self.tokens[self.pos]
        } else {
            &self.eof
        }
    }

    fn advance(&mut self) -> (t: Tok)
        requires
            old(self).wf(),
        ensures
            final(self).wf(),
            final(self).tokens == old(self).tokens,
            final(self).eof == old(self).eof,
            tok_view(t) == dpk(old(self).ts(), old(self).pos as int),
            final(self).pos == dadv(old(self).ts(), old(self).pos as int),
    {
        let t = self.peek();
        let r = Tok { kind: t.kind, value: copy_chars(&t.value) };
        if self.pos < self.tokens.len() {
            self.pos = self.pos + 1;
        }
        r
    }

    /// Reads the next token, which must have kind `kind` (and text `value`,
    /// when one is given).
    fn expect(&mut self, kind: TokKind, value: Option<&Vec<char>>) -> (r: Result<Tok, String>)
        requires
            old(self).wf(),
        ensures
            final(self).wf(),
            final(self).tokens == old(self).tokens,
            final(self).eof == old(self).eof,
            final(self).pos == dadv(old(self).ts(), old(self).pos as int),
            r is Ok <==> (dpk(old(self).ts(), old(self).pos as int).0 == kind && (value matches Some(
                v,
            ) ==> dpk(old(self).ts(), old(self).pos as int).1 == v@)),
            r matches Ok(t) ==> tok_view(t) == dpk(old(self).ts(), old(self).pos as int),
            r matches Err(e) ==> e@ == expect_msg(
                kind,
                match value {
                    Some(v) => Some(v@),
                    None => None,
                },
                dpk(old(self).ts(), old(self).pos as int),
            ),
    {
        let tok = self.advance();
        if tok.kind != kind {
            let mut msg = String::new();
            push_str(&mut msg, "Expected ");
            push_str(&mut msg, kind_name(kind));
            match value {
                Some(v) => {
                    push_str(&mut msg, " '");
                    push_chars(&mut msg, v);
                    push_str(&mut msg, "'");
                },
                None => {},
            }
            push_str(&mut msg, ", got ");
            push_str(&mut msg, kind_name(tok.kind));
            push_str(&mut msg, " '");
            push_chars(&mut msg, &tok.value);
            push_str(&mut msg, "'");
            return Err(msg);
        }
        match value {
            Some(v) => {
                if !chars_eq(&tok.value, v) {
                    let mut msg = String::new();
                    push_str(&mut msg, "Expected '");
                    push_chars(&mut msg, v);
                    push_str(&mut msg, "', got '");
                    push_chars(&mut msg, &tok.value);
                    push_str(&mut msg, "'");
                    return Err(msg);
                }
            },
            None => {},
        }
        Ok(tok)
    }

    /// Whether the next token's text is `w`.
    fn peek_is(&self, w: &Vec<char>) -> (r: bool)
        requires
            self.wf(),
        ensures
            r == (dpk(self.ts(), self.pos as int).1 == w@),
    {
        chars_eq(&self.peek().value, w)
    }

    fn parse_type_name(&mut self) -> (r: Result<Type, String>)
        requires
            old(self).wf(),
        ensures
            final(self).wf(),
            final(self).tokens == old(self).tokens,
            final(self).eof == old(self).eof,
            match p_type(old(self).ts(), old(self).pos as int) {
                Ok((d, j)) => r matches Ok(t) && type_is(t, d) && final(self).pos == j,
                Err(m) => r matches Err(e) && e@ == m,
            },
        decreases old(self).tokens.len() - old(self).pos,
    {
        let ghost ts = self.ts();
        let ghost i = self.pos as int;
        let result_w = vec!['R', 'e', 's', 'u', 'l', 't'];
        let lt = vec!['<'];
        let gt = vec!['>'];
        proof {
            assert(result_w@ =~= result_word());
            assert(lt@ =~= seq!['<']);
            assert(gt@ =~= seq!['>']);
        }
        if self.peek_is(&result_w) {
            self.advance();
            if self.peek_is(&lt) {
                self.advance();
                let inner = match self.parse_type_name() {
            Ok(x) => x,
            Err(e) => {
                return Err(e);
            },
        };
                match self.expect(TokKind::Punct, Some(&gt)) {
                    Ok(_) => {},
                    Err(e) => {
                        return Err(e);
                    },
                }
                return Ok(Type::Result(Box::new(inner)));
            }
            proof {
                reveal_with_fuel(type_is, 2);
            }
            return Ok(Type::Result(Box::new(Type::Void)));
        }
        let tok = self.advance();
        Ok(type_of_chars(&tok.value))
    }

    fn parse_function(&mut self) -> (r: Result<CapabilityFn, String>)
        requires
            old(self).wf(),
        ensures
            final(self).wf(),
            final(self).tokens == old(self).tokens,
            final(self).eof == old(self).eof,
            match p_function(old(self).ts(), old(self).pos as int) {
                Ok((d, j)) => r matches Ok(f) && fn_is(f, d) && final(self).pos == j,
                Err(m) => r matches Err(e) && e@ == m,
            },
    {
        let ghost ts = self.ts();
        let ghost i = self.pos as int;
        let async_w = vec!['a', 's', 'y', 'n', 'c'];
        let fn_w = vec!['f', 'n'];
        let lp = vec!['('];
        let rp = vec![')'];
        let comma = vec![','];
        let colon = vec![':'];
        let qm = vec!['?'];
        let arrow = vec!['-', '>'];
        let semi = vec![';'];
        proof {
            assert(async_w@ =~= async_word());
            assert(fn_w@ =~= fn_word());
            assert(lp@ =~= seq!['(']);
            assert(rp@ =~= seq![')']);
            assert(comma@ =~= seq![',']);
            assert(colon@ =~= seq![':']);
            assert(qm@ =~= seq!['?']);
            assert(arrow@ =~= seq!['-', '>']);
            assert(semi@ =~= seq![';']);
        }
        let mut is_async = false;
        if self.peek_is(&async_w) {
            self.advance();
            is_async = true;
        }
        match self.expect(TokKind::Keyword, Some(&fn_w)) {
            Ok(_) => {},
            Err(e) => {
                return Err(e);
            },
        }
        let name_tok = match self.expect(TokKind::Ident, None) {
            Ok(x) => x,
            Err(e) => {
                return Err(e);
            },
        };
        let name = string_from_chars(&name_tok.value);
        match self.expect(TokKind::Punct, Some(&lp)) {
            Ok(_) => {},
            Err(e) => {
                return Err(e);
            },
        }

        let ghost i4 = self.pos as int;
        let mut params: Vec<(String, Type)> = Vec::new();
        let ghost mut acc: Seq<(Seq<char>, TypeDesc)> = seq![];
        proof {
            lemma_p_params(ts, i4, seq![]);
        }
        while !self.peek_is(&rp)
            invariant
                self.wf(),
                self.tokens == old(self).tokens,
                self.eof == old(self).eof,
                ts == self.ts(),
                i4 <= self.pos,
                i == old(self).pos,
                p_params(ts, i4, seq![]) matches Err(m) ==> p_function(ts, i) == Err::<(FnDesc, int), Seq<char>>(m),
                rp@ == seq![')'],
                comma@ == seq![','],
                colon@ == seq![':'],
                qm@ == seq!['?'],
                params.len() == acc.len(),
                forall|k: int|
                    0 <= k < params.len() ==> (#[trigger] params@[k]).0@ == acc[k].0 && type_is(
                        params@[k].1,
                        acc[k].1,
                    ),
                p_params(ts, self.pos as int, acc) == p_params(ts, i4, seq![]),
            decreases self.tokens.len() - self.pos,
        {
            let ghost pb = self.pos as int;
            if params.len() > 0 {
                match self.expect(TokKind::Punct, Some(&comma)) {
                    Ok(_) => {},
                    Err(e) => {
                        return Err(e);
                    },
                }
            }
            let pname_tok = match self.expect(TokKind::Ident, None) {
            Ok(x) => x,
            Err(e) => {
                return Err(e);
            },
        };
            match self.expect(TokKind::Punct, Some(&colon)) {
                Ok(_) => {},
                Err(e) => {
                    return Err(e);
                },
            }
            if self.peek_is(&qm) {
                self.advance();
            }
            let ghost i4b = self.pos as int;
            proof {
                lemma_p_type(ts, i4b);
            }
            let param_type = match self.parse_type_name() {
            Ok(x) => x,
            Err(e) => {
                return Err(e);
            },
        };
            let ghost d = (p_type(ts, i4b)->Ok_0).0;
            params.push((string_from_chars(&pname_tok.value), param_type));
            proof {
                acc = acc.push((pname_tok.value@, d));
            }
        }
        match self.expect(TokKind::Punct, Some(&rp)) {
            Ok(_) => {},
            Err(e) => {
                return Err(e);
            },
        }

        let return_type = if self.peek_is(&arrow) {
            self.advance();
            match self.parse_type_name() {
                Ok(t) => t,
                Err(e) => {
                    return Err(e);
                },
            }
        } else {
            Type::Void
        };
        if self.peek_is(&semi) {
            self.advance();
        }
        Ok(CapabilityFn { name, params, return_type, is_async })
    }

    fn parse_capability(&mut self) -> (r: Result<CapabilityDecl, String>)
        requires
            old(self).wf(),
        ensures
            final(self).wf(),
            final(self).tokens == old(self).tokens,
            final(self).eof == old(self).eof,
            match p_capability(old(self).ts(), old(self).pos as int) {
                Ok((d, j)) => r matches Ok(c) && decl_is(c, d) && final(self).pos == j,
                Err(m) => r matches Err(e) && e@ == m,
            },
    {
        let ghost ts = self.ts();
        let ghost i = self.pos as int;
        let cap_w = vec!['c', 'a', 'p', 'a', 'b', 'i', 'l', 'i', 't', 'y'];
        let lb = vec!['{'];
        let rb = vec!['}'];
        proof {
            assert(cap_w@ =~= capability_word());
            assert(lb@ =~= seq!['{']);
            assert(rb@ =~= seq!['}']);
        }
        match self.expect(TokKind::Keyword, Some(&cap_w)) {
            Ok(_) => {},
            Err(e) => {
                return Err(e);
            },
        }
        let name_tok = match self.expect(TokKind::Ident, None) {
            Ok(x) => x,
            Err(e) => {
                return Err(e);
            },
        };
        let name = string_from_chars(&name_tok.value);
        match self.expect(TokKind::Punct, Some(&lb)) {
            Ok(_) => {},
            Err(e) => {
                return Err(e);
            },
        }
        let ghost i3 = self.pos as int;
        let mut functions: Vec<CapabilityFn> = Vec::new();
        let ghost mut acc: Seq<FnDesc> = seq![];
        proof {
            lemma_p_fns(ts, i3, seq![]);
        }
        while !self.peek_is(&rb)
            invariant
                self.wf(),
                self.tokens == old(self).tokens,
                self.eof == old(self).eof,
                ts == self.ts(),
                i3 <= self.pos,
                rb@ == seq!['}'],
                i == old(self).pos,
                p_fns(ts, i3, seq![]) matches Err(m) ==> p_capability(ts, i) == Err::<(DeclDesc, int), Seq<char>>(m),
                functions.len() == acc.len(),
                forall|k: int| 0 <= k < functions.len() ==> fn_is(#[trigger] functions@[k], acc[k]),
                p_fns(ts, self.pos as int, acc) == p_fns(ts, i3, seq![]),
            ensures
                dpk(ts, self.pos as int).1 == seq!['}'] || dpk(ts, self.pos as int).0 == TokKind::Eof,
            decreases self.tokens.len() - self.pos,
        {
            if self.peek().kind == TokKind::Eof {
                break;
            }
            let ghost pb = self.pos as int;
            proof {
                lemma_p_function(ts, pb);
            }
            let f = match self.parse_function() {
            Ok(x) => x,
            Err(e) => {
                return Err(e);
            },
        };
            proof {
                acc = acc.push((p_function(ts, pb)->Ok_0).0);
            }
            functions.push(f);
        }
        match self.expect(TokKind::Punct, Some(&rb)) {
            Ok(_) => {},
            Err(e) => {
                return Err(e);
            },
        }
        Ok(CapabilityDecl { name, functions })
    }

    fn parse(&mut self) -> (r: Result<Vec<CapabilityDecl>, String>)
        requires
            old(self).wf(),
            old(self).pos == 0,
        ensures
            match p_decls(old(self).ts(), 0, seq![]) {
                Ok(ds) => r matches Ok(v) && decls_are(v@, ds),
                Err(m) => r matches Err(e) && e@ == m,
            },
    {
        let ghost ts = self.ts();
        let cap_w = vec!['c', 'a', 'p', 'a', 'b', 'i', 'l', 'i', 't', 'y'];
        proof {
            assert(cap_w@ =~= capability_word());
        }
        let mut decls: Vec<CapabilityDecl> = Vec::new();
        let ghost mut acc: Seq<DeclDesc> = seq![];
        while self.peek().kind != TokKind::Eof
            invariant
                self.wf(),
                self.tokens == old(self).tokens,
                self.eof == old(self).eof,
                ts == self.ts(),
                cap_w@ == capability_word(),
                decls_are(decls@, acc),
                p_decls(ts, self.pos as int, acc) == p_decls(ts, 0, seq![]),
            decreases self.tokens.len() - self.pos,
        {
            if self.peek_is(&cap_w) {
                let ghost pb = self.pos as int;
                proof {
                    lemma_p_capability(ts, pb);
                }
                let d = match self.parse_capability() {
            Ok(x) => x,
            Err(e) => {
                return Err(e);
            },
        };
                proof {
                    acc = acc.push((p_capability(ts, pb)->Ok_0).0);
                }
                decls.push(d);
            } else {
                self.advance();
            }
        }
        Ok(decls)
    }
}

/// Parses a declaration file and returns every capability it declares.
///
/// Fails exactly when the file is malformed, with the message for the first
/// token that does not fit.
pub fn parse_capability_decls(content: &str) -> (r: Result<Vec<CapabilityDecl>, String>)
    ensures
        match mogdecl_parse(content@) {
            Ok(ds) => r matches Ok(v) && decls_are(v@, ds),
            Err(m) => r matches Err(e) && e@ == m,
        },
{
    let tokens = tokenize_mogdecl(content);
    let mut parser = DeclParser::new(tokens);
    parser.parse()
}

/// Parses a declaration file and returns its first capability, or `None`
/// when the file declares none or is malformed.
pub fn parse_capability_decl(content: &str) -> (r: Option<CapabilityDecl>)
    ensures
        match mogdecl_decls(content@) {
            Some(ds) => if ds.len() > 0 {
                r matches Some(c) && decl_is(c, ds[0])
            } else {
                r is None
            },
            None => r is None,
        },
{
    match parse_capability_decls(content) {
        Ok(mut v) => {
            if v.len() > 0 {
                let ghost v0 = v@;
                let c = v.remove(0);
                proof {
                    assert(c == v0[0]);
                }
                Some(c)
            } else {
                None
            }
        },
        Err(_) => None,
    }
}


// ---------------------------------------------------------------------------
// Comments
// ---------------------------------------------------------------------------

/// A comment starts at `i` of `s`: `//` or `#`.
pub open spec fn comment_at(s: Seq<char>, i: int) -> bool {
    0 <= i < s.len() && ((s[i] == '/' && at(s, i + 1) == '/') || s[i] == '#')
}

/// `j` ends the line holding `i`: no newline in `[i, j)`, and `j` is the
/// end of `s` or a newline.
pub open spec fn ends_line(s: Seq<char>, i: int, j: int) -> bool {
    &&& 0 <= i <= j <= s.len()
    &&& forall|k: int| i <= k < j ==> s[k] != '\n'
    &&& (j == s.len() || s[j] == '\n')
}

proof fn lemma_line_end_is(s: Seq<char>, i: int, j: int)
    requires
        ends_line(s, i, j),
    ensures
        line_end(s, i) == j,
    decreases j - i,
{
    if i < j {
        lemma_line_end_is(s, i + 1, j);
    }
}

/// A comment, from its `//` or `#` to the end of its line, gives no
/// tokens: the tokens from where it starts are those from the end of its
/// line.
pub proof fn law_comment_gives_no_tokens(s: Seq<char>, i: int, j: int)
    requires
        comment_at(s, i),
        ends_line(s, i, j),
    ensures
        decl_tokens_from(s, i) == decl_tokens_from(s, j),
{
    lemma_line_end_is(s, i, j);
}

/// `x` from `p` on is `y` from `q` on.
pub open spec fn same_tail(x: Seq<char>, p: int, y: Seq<char>, q: int) -> bool {
    &&& 0 <= p <= x.len()
    &&& 0 <= q <= y.len()
    &&& x.subrange(p, x.len() as int) == y.subrange(q, y.len() as int)
}

proof fn lemma_same_tail_at(x: Seq<char>, p: int, y: Seq<char>, q: int, t: int)
    requires
        same_tail(x, p, y, q),
        0 <= t < x.len() - p,
    ensures
        x[p + t] == y[q + t],
{
    let xs = x.subrange(p, x.len() as int);
    let ys = y.subrange(q, y.len() as int);
    assert(xs.len() == x.len() - p);
    assert(xs[t] == x[p + t]);
    assert(ys[t] == y[q + t]);
}

proof fn lemma_same_tail_step(x: Seq<char>, p: int, y: Seq<char>, q: int, d: int)
    requires
        same_tail(x, p, y, q),
        0 <= d <= x.len() - p,
    ensures
        same_tail(x, p + d, y, q + d),
        x.len() - p == y.len() - q,
        p < x.len() ==> x[p] == y[q],
        at(x, p + 1) == at(y, q + 1),
{
    let xs = x.subrange(p, x.len() as int);
    let ys = y.subrange(q, y.len() as int);
    assert(xs.len() == x.len() - p);
    assert(ys.len() == y.len() - q);
    assert(x.subrange(p + d, x.len() as int) =~= y.subrange(q + d, y.len() as int)) by {
        assert forall|t: int| 0 <= t < x.len() - (p + d) implies #[trigger] x.subrange(p + d, x.len() as int)[t]
            == y.subrange(q + d, y.len() as int)[t] by {
            lemma_same_tail_at(x, p, y, q, d + t);
        }
    }
    if p < x.len() {
        lemma_same_tail_at(x, p, y, q, 0);
    }
    if p + 1 < x.len() {
        lemma_same_tail_at(x, p, y, q, 1);
    }
}

proof fn lemma_line_end_shift(x: Seq<char>, y: Seq<char>, p: int, q: int)
    requires
        same_tail(x, p, y, q),
    ensures
        line_end(x, p) - p == line_end(y, q) - q,
    decreases x.len() - p,
{
    lemma_same_tail_step(x, p, y, q, 0);
    if p < x.len() {
        lemma_same_tail_step(x, p, y, q, 1);
        if x[p] != '\n' {
            lemma_line_end_shift(x, y, p + 1, q + 1);
        }
    }
}

proof fn lemma_word_end_shift(x: Seq<char>, y: Seq<char>, p: int, q: int)
    requires
        same_tail(x, p, y, q),
    ensures
        word_end(x, p) - p == word_end(y, q) - q,
    decreases x.len() - p,
{
    lemma_same_tail_step(x, p, y, q, 0);
    if p < x.len() {
        lemma_same_tail_step(x, p, y, q, 1);
        if is_word(x[p]) {
            lemma_word_end_shift(x, y, p + 1, q + 1);
        }
    }
}

/// The tokens from `p` depend only on the text from `p` on.
proof fn lemma_tokens_of_suffix(x: Seq<char>, y: Seq<char>, p: int, q: int)
    requires
        same_tail(x, p, y, q),
    ensures
        decl_tokens_from(x, p) == decl_tokens_from(y, q),
    decreases x.len() - p,
{
    lemma_same_tail_step(x, p, y, q, 0);
    if p < x.len() {
        lemma_same_tail_step(x, p, y, q, 1);
        let c = x[p];
        if is_ascii_ws(c) {
            lemma_tokens_of_suffix(x, y, p + 1, q + 1);
        } else if (c == '/' && at(x, p + 1) == '/') || c == '#' {
            lemma_line_end_after(x, p);
            lemma_line_end_after(y, q);
            lemma_line_end_shift(x, y, p, q);
            let e = line_end(x, p);
            let f = line_end(y, q);
            lemma_same_tail_step(x, p, y, q, e - p);
            lemma_tokens_of_suffix(x, y, e, f);
        } else if is_decl_punct(c) {
            if c == '-' && at(x, p + 1) == '>' {
                lemma_same_tail_step(x, p, y, q, 2);
                lemma_tokens_of_suffix(x, y, p + 2, q + 2);
            } else {
                lemma_tokens_of_suffix(x, y, p + 1, q + 1);
            }
        } else if is_alpha(c) || c == '_' {
            crate::lexer_spec::lemma_word_end_bounds(x, p + 1);
            crate::lexer_spec::lemma_word_end_bounds(y, q + 1);
            lemma_word_end_shift(x, y, p + 1, q + 1);
            let e = word_end(x, p + 1);
            let f = word_end(y, q + 1);
            lemma_same_tail_step(x, p, y, q, e - p);
            assert(x.subrange(p, e) =~= y.subrange(q, f)) by {
                assert forall|t: int| 0 <= t < e - p implies #[trigger] x.subrange(p, e)[t] == y.subrange(q, f)[t] by {
                    lemma_same_tail_at(x, p, y, q, t);
                }
            }
            lemma_tokens_of_suffix(x, y, e, f);
        } else {
            lemma_tokens_of_suffix(x, y, p + 1, q + 1);
        }
    }
}

proof fn lemma_line_end_before(x: Seq<char>, y: Seq<char>, i: int, n: int)
    requires
        0 <= i < n <= x.len(),
        n <= y.len(),
        forall|k: int| 0 <= k < n ==> x[k] == y[k],
        x[n - 1] == '\n',
    ensures
        line_end(x, i) == line_end(y, i),
        i <= line_end(x, i) <= n - 1,
    decreases n - i,
{
    if x[i] != '\n' {
        lemma_line_end_before(x, y, i + 1, n);
    }
}

proof fn lemma_word_end_before(x: Seq<char>, y: Seq<char>, i: int, n: int)
    requires
        0 <= i < n <= x.len(),
        n <= y.len(),
        forall|k: int| 0 <= k < n ==> x[k] == y[k],
        x[n - 1] == '\n',
    ensures
        word_end(x, i) == word_end(y, i),
        i <= word_end(x, i) <= n - 1,
    decreases n - i,
{
    if is_word(x[i]) {
        lemma_word_end_before(x, y, i + 1, n);
    }
}

/// Two texts that agree before `n`, with a newline just before `n`, and
/// give the same tokens from `n`, give the same tokens from any `i <= n`.
proof fn lemma_tokens_of_prefix(x: Seq<char>, y: Seq<char>, i: int, n: int)
    requires
        0 <= i <= n <= x.len(),
        n <= y.len(),
        forall|k: int| 0 <= k < n ==> x[k] == y[k],
        n == 0 || x[n - 1] == '\n',
        decl_tokens_from(x, n) == decl_tokens_from(y, n),
    ensures
        decl_tokens_from(x, i) == decl_tokens_from(y, i),
    decreases n - i,
{
    if i < n {
        let c = x[i];
        assert(y[i] == c);
        if is_ascii_ws(c) {
            lemma_tokens_of_prefix(x, y, i + 1, n);
        } else {
            assert(i < n - 1);
            assert(at(x, i + 1) == at(y, i + 1)) by {
                assert(x[i + 1] == y[i + 1]);
            }
            if (c == '/' && at(x, i + 1) == '/') || c == '#' {
                lemma_line_end_before(x, y, i, n);
                lemma_line_end_after(x, i);
                lemma_tokens_of_prefix(x, y, line_end(x, i), n);
            } else if is_decl_punct(c) {
                if c == '-' && at(x, i + 1) == '>' {
                    lemma_tokens_of_prefix(x, y, i + 2, n);
                } else {
                    lemma_tokens_of_prefix(x, y, i + 1, n);
                }
            } else if is_alpha(c) || c == '_' {
                lemma_word_end_before(x, y, i + 1, n);
                let e = word_end(x, i + 1);
                assert(x.subrange(i, e) =~= y.subrange(i, e)) by {
                    assert forall|t: int| 0 <= t < e - i implies #[trigger] x.subrange(i, e)[t] == y.subrange(i, e)[t] by {
                        assert(x[i + t] == y[i + t]);
                    }
                }
                lemma_tokens_of_prefix(x, y, e, n);
            } else {
                lemma_tokens_of_prefix(x, y, i + 1, n);
            }
        }
    }
}

/// Removing a comment that runs from `//` or `#` to the end of its line,
/// on a line of its own (after the start of the text or a newline),
/// changes neither the tokens of a declaration file nor what parsing it
/// gives.
pub proof fn law_comment_removal(a: Seq<char>, c: Seq<char>, b: Seq<char>)
    requires
        a.len() == 0 || a.last() == '\n',
        c.len() >= 1,
        c[0] == '#' || (c.len() >= 2 && c[0] == '/' && c[1] == '/'),
        forall|k: int| 0 <= k < c.len() ==> c[k] != '\n',
        b.len() == 0 || b[0] == '\n',
    ensures
        decl_tokens(a + c + b) == decl_tokens(a + b),
        mogdecl_parse(a + c + b) == mogdecl_parse(a + b),
{
    let x = a + c + b;
    let y = a + b;
    let n = a.len() as int;
    let m = c.len() as int;
    assert(x[n] == c[0]);
    if c.len() >= 2 {
        assert(x[n + 1] == c[1]);
    }
    assert(comment_at(x, n));
    assert forall|k: int| n <= k < n + m implies x[k] != '\n' by {
        assert(x[k] == c[k - n]);
    }
    if b.len() > 0 {
        assert(x[n + m] == b[0]);
    }
    assert(ends_line(x, n, n + m));
    law_comment_gives_no_tokens(x, n, n + m);
    assert(x.subrange(n + m, x.len() as int) =~= y.subrange(n, y.len() as int)) by {
        assert forall|t: int| 0 <= t < b.len() implies #[trigger] x.subrange(n + m, x.len() as int)[t]
            == y.subrange(n, y.len() as int)[t] by {
            assert(x[(n + m) + t] == b[t]);
            assert(y[n + t] == b[t]);
        }
    }
    lemma_tokens_of_suffix(x, y, n + m, n);
    assert forall|k: int| 0 <= k < n implies x[k] == y[k] by {
        assert(x[k] == a[k]);
        assert(y[k] == a[k]);
    }
    if n > 0 {
        assert(x[n - 1] == a[n - 1]);
    }
    lemma_tokens_of_prefix(x, y, 0, n);
}

} // verus!
