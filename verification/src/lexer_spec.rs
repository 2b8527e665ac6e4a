//! The token grammar of Mog, stated over the characters of the source text.
//!
//! `lex(s)` is the sequence of lexemes the lexer produces for `s`: at each
//! position the first rule that applies (in the order below) decides the
//! token, and scanning resumes after it.

use vstd::prelude::*;
use vstd::utf8::*;

use crate::token::TokenType;

verus! {

/// A lexeme: a token kind, its text, and the character positions it covers.
pub struct Lexeme {
    pub kind: TokenType,
    pub text: Seq<char>,
    pub start: int,
    pub end: int,
}

pub open spec fn lexeme(kind: TokenType, text: Seq<char>, start: int, end: int) -> Lexeme {
    Lexeme { kind, text, start, end }
}

/// The character at `i`, or NUL past either end.
pub open spec fn at(s: Seq<char>, i: int) -> char {
    if 0 <= i < s.len() { s[i] } else { '\0' }
}

pub open spec fn is_ws(c: char) -> bool {
    c == ' ' || c == '\t' || c == '\n' || c == '\r'
}

pub open spec fn is_digit(c: char) -> bool {
    '0' <= c <= '9'
}

pub open spec fn is_alpha(c: char) -> bool {
    ('a' <= c <= 'z') || ('A' <= c <= 'Z')
}

pub open spec fn is_hex_digit(c: char) -> bool {
    is_digit(c) || ('a' <= c <= 'f') || ('A' <= c <= 'F')
}

pub open spec fn is_word(c: char) -> bool {
    is_alpha(c) || is_digit(c) || c == '_'
}

pub open spec fn is_ident_start_char(c: char) -> bool {
    is_alpha(c) || c == '_'
}

// ---------------------------------------------------------------------------
// Source positions
// ---------------------------------------------------------------------------

/// Number of bytes in the UTF-8 encoding of `c`.
pub open spec fn width(c: char) -> nat {
    encode_scalar(c as u32).len()
}

/// Number of bytes in the UTF-8 encoding of `s`.
pub open spec fn utf8_len(s: Seq<char>) -> nat {
    encode_utf8(s).len()
}

/// 1-based line of character position `p`.
pub open spec fn line_at(s: Seq<char>, p: int) -> nat
    decreases p,
{
    if p <= 0 {
        1
    } else if s[p - 1] == '\n' {
        line_at(s, p - 1) + 1
    } else {
        line_at(s, p - 1)
    }
}

/// 1-based column of character position `p`, counted in bytes.
pub open spec fn col_at(s: Seq<char>, p: int) -> nat
    decreases p,
{
    if p <= 0 {
        1
    } else if s[p - 1] == '\n' {
        1
    } else {
        col_at(s, p - 1) + width(s[p - 1])
    }
}

/// Byte offset of character position `p`.
pub open spec fn idx_at(s: Seq<char>, p: int) -> nat {
    utf8_len(s.take(p))
}

// ---------------------------------------------------------------------------
// Runs of characters
// ---------------------------------------------------------------------------

pub open spec fn ws_end(s: Seq<char>, p: int) -> int
    decreases s.len() - p,
{
    if 0 <= p < s.len() && is_ws(s[p]) {
        ws_end(s, p + 1)
    } else {
        p
    }
}

pub open spec fn line_end(s: Seq<char>, p: int) -> int
    decreases s.len() - p,
{
    if 0 <= p < s.len() && s[p] != '\n' {
        line_end(s, p + 1)
    } else {
        p
    }
}

pub open spec fn word_end(s: Seq<char>, p: int) -> int
    decreases s.len() - p,
{
    if 0 <= p < s.len() && is_word(s[p]) {
        word_end(s, p + 1)
    } else {
        p
    }
}

pub open spec fn digits_end(s: Seq<char>, p: int) -> int
    decreases s.len() - p,
{
    if 0 <= p < s.len() && is_digit(s[p]) {
        digits_end(s, p + 1)
    } else {
        p
    }
}

/// End of a run of characters in the digit set of `radix` (16, 2 or 8) or `_`.
pub open spec fn radix_digit(c: char, radix: nat) -> bool {
    if radix == 16 {
        is_hex_digit(c) || c == '_'
    } else if radix == 2 {
        c == '0' || c == '1' || c == '_'
    } else {
        ('0' <= c <= '7') || c == '_'
    }
}

pub open spec fn radix_end(s: Seq<char>, p: int, radix: nat) -> int
    decreases s.len() - p,
{
    if 0 <= p < s.len() && radix_digit(s[p], radix) {
        radix_end(s, p + 1, radix)
    } else {
        p
    }
}

pub open spec fn spaces_end(s: Seq<char>, p: int) -> int
    decreases s.len() - p,
{
    if 0 <= p < s.len() && (s[p] == ' ' || s[p] == '\t') {
        spaces_end(s, p + 1)
    } else {
        p
    }
}

pub open spec fn brackets_end(s: Seq<char>, p: int) -> int
    decreases s.len() - p,
{
    if 0 <= p && p + 1 < s.len() && s[p] == '[' && s[p + 1] == ']' {
        brackets_end(s, p + 2)
    } else {
        p
    }
}

/// End of a nested `/* ... */` comment whose body starts at `p` with `depth`
/// comments open, and the depth left open there.
pub open spec fn block_end(s: Seq<char>, p: int, depth: nat) -> (int, nat)
    decreases s.len() - p,
{
    if p < 0 || p >= s.len() || depth == 0 {
        (p, depth)
    } else if s[p] == '/' && at(s, p + 1) == '*' {
        block_end(s, p + 2, depth + 1)
    } else if s[p] == '*' && at(s, p + 1) == '/' {
        block_end(s, p + 2, (depth - 1) as nat)
    } else {
        block_end(s, p + 1, depth)
    }
}

/// End of the body of a quoted string literal opened before `p`.
pub open spec fn str_end(s: Seq<char>, p: int, q: char) -> int
    decreases s.len() - p,
{
    if 0 <= p < s.len() && s[p] != q {
        if s[p] == '\\' {
            if p + 1 < s.len() {
                str_end(s, p + 2, q)
            } else {
                p + 1
            }
        } else {
            str_end(s, p + 1, q)
        }
    } else {
        p
    }
}

// ---------------------------------------------------------------------------
// Keywords, types, numbers, operators
// ---------------------------------------------------------------------------

/// `kw` stands at `p` and is not followed by a word character.
pub open spec fn keyword_matches(s: Seq<char>, p: int, kw: Seq<char>) -> bool {
    &&& 0 <= p
    &&& kw.len() > 0
    &&& p + kw.len() <= s.len()
    &&& s.subrange(p, p + kw.len()) == kw
    &&& !is_word(at(s, p + kw.len()))
}

/// Number of keywords.
pub open spec fn num_keywords() -> int {
    37
}

/// Keyword `k` and its token kind, in the order the lexer tries them.
pub open spec fn keyword(k: int) -> (Seq<char>, TokenType) {
    if k == 0 {
        (seq!['f', 'n'], TokenType::Fn)
    } else if k == 1 {
        (seq!['r', 'e', 't', 'u', 'r', 'n'], TokenType::Return)
    } else if k == 2 {
        (seq!['i', 'f'], TokenType::If)
    } else if k == 3 {
        (seq!['e', 'l', 's', 'e'], TokenType::Else)
    } else if k == 4 {
        (seq!['w', 'h', 'i', 'l', 'e'], TokenType::While)
    } else if k == 5 {
        (seq!['f', 'o', 'r'], TokenType::For)
    } else if k == 6 {
        (seq!['t', 'o'], TokenType::To)
    } else if k == 7 {
        (seq!['i', 'n'], TokenType::In)
    } else if k == 8 {
        (seq!['b', 'r', 'e', 'a', 'k'], TokenType::Break)
    } else if k == 9 {
        (seq!['c', 'o', 'n', 't', 'i', 'n', 'u', 'e'], TokenType::Continue)
    } else if k == 10 {
        (seq!['c', 'a', 's', 't'], TokenType::Cast)
    } else if k == 11 {
        (seq!['a', 's'], TokenType::As)
    } else if k == 12 {
        (seq!['n', 'o', 't'], TokenType::Not)
    } else if k == 13 {
        (seq!['s', 't', 'r', 'u', 'c', 't'], TokenType::Struct)
    } else if k == 14 {
        (seq!['s', 'o', 'a'], TokenType::Soa)
    } else if k == 15 {
        (seq!['r', 'e', 'q', 'u', 'i', 'r', 'e', 's'], TokenType::Requires)
    } else if k == 16 {
        (seq!['o', 'p', 't', 'i', 'o', 'n', 'a', 'l'], TokenType::Optional)
    } else if k == 17 {
        (seq!['L', 'L', 'M'], TokenType::Llm)
    } else if k == 18 {
        (seq!['t', 'y', 'p', 'e'], TokenType::TypeKw)
    } else if k == 19 {
        (seq!['m', 'a', 't', 'c', 'h'], TokenType::Match)
    } else if k == 20 {
        (seq!['t', 'r', 'y'], TokenType::Try)
    } else if k == 21 {
        (seq!['c', 'a', 't', 'c', 'h'], TokenType::Catch)
    } else if k == 22 {
        (seq!['o', 'k'], TokenType::OkKw)
    } else if k == 23 {
        (seq!['e', 'r', 'r'], TokenType::ErrKw)
    } else if k == 24 {
        (seq!['s', 'o', 'm', 'e'], TokenType::SomeKw)
    } else if k == 25 {
        (seq!['n', 'o', 'n', 'e'], TokenType::NoneKw)
    } else if k == 26 {
        (seq!['i', 's'], TokenType::Is)
    } else if k == 27 {
        (seq!['t', 'e', 'n', 's', 'o', 'r'], TokenType::Tensor)
    } else if k == 28 {
        (seq!['a', 's', 'y', 'n', 'c'], TokenType::Async)
    } else if k == 29 {
        (seq!['a', 'w', 'a', 'i', 't'], TokenType::Await)
    } else if k == 30 {
        (seq!['s', 'p', 'a', 'w', 'n'], TokenType::Spawn)
    } else if k == 31 {
        (seq!['p', 'a', 'c', 'k', 'a', 'g', 'e'], TokenType::Package)
    } else if k == 32 {
        (seq!['i', 'm', 'p', 'o', 'r', 't'], TokenType::Import)
    } else if k == 33 {
        (seq!['p', 'u', 'b'], TokenType::Pub)
    } else if k == 34 {
        (seq!['w', 'i', 't', 'h'], TokenType::With)
    } else if k == 35 {
        (seq!['t', 'r', 'u', 'e'], TokenType::True)
    } else {
        (seq!['f', 'a', 'l', 's', 'e'], TokenType::False)
    }
}

/// Index of the first keyword (from `k` on) that matches at `p`.
pub open spec fn first_keyword_from(s: Seq<char>, p: int, k: int) -> Option<int>
    decreases num_keywords() - k,
{
    if k < 0 || k >= num_keywords() {
        None
    } else if keyword_matches(s, p, keyword(k).0) {
        Some(k)
    } else {
        first_keyword_from(s, p, k + 1)
    }
}

pub open spec fn first_keyword(s: Seq<char>, p: int) -> Option<int> {
    first_keyword_from(s, p, 0)
}

pub proof fn lemma_first_keyword_from(s: Seq<char>, p: int, k: int)
    ensures
        first_keyword_from(s, p, k) matches Some(j) ==> k <= j < num_keywords()
            && keyword_matches(s, p, keyword(j).0),
    decreases num_keywords() - k,
{
    if k < 0 || k >= num_keywords() {
    } else if keyword_matches(s, p, keyword(k).0) {
    } else {
        lemma_first_keyword_from(s, p, k + 1);
    }
}

pub open spec fn starts_with_at(s: Seq<char>, p: int, w: Seq<char>) -> bool {
    0 <= p && p + w.len() <= s.len() && s.subrange(p, p + w.len()) == w
}

/// Length of the primitive type name at `p`, before any `[]` suffix.
pub open spec fn type_base_len(s: Seq<char>, p: int) -> Option<int> {
    let c = at(s, p);
    if c == 'i' || c == 'u' || c == 'f' {
        let d = digits_end(s, p + 1);
        if d > p + 1 {
            let n = s.subrange(p + 1, d);
            if n == seq!['8'] || n == seq!['1', '6'] || n == seq!['3', '2'] || n == seq![
                '6',
                '4',
            ] || n == seq!['1', '2', '8'] || n == seq!['2', '5', '6'] {
                Some(d - p)
            } else {
                None
            }
        } else if starts_with_at(s, p, seq!['i', 'n', 't']) {
            Some(3)
        } else if starts_with_at(s, p, seq!['f', 'l', 'o', 'a', 't']) {
            Some(5)
        } else {
            None
        }
    } else if c == 'b' {
        if starts_with_at(s, p, seq!['b', 'f', '1', '6']) || starts_with_at(
            s,
            p,
            seq!['b', 'o', 'o', 'l'],
        ) {
            Some(4)
        } else {
            None
        }
    } else if c == 'p' {
        if starts_with_at(s, p, seq!['p', 't', 'r']) {
            Some(3)
        } else {
            None
        }
    } else if c == 's' {
        if starts_with_at(s, p, seq!['s', 't', 'r', 'i', 'n', 'g']) {
            Some(6)
        } else {
            None
        }
    } else {
        None
    }
}

/// Length of the type token at `p` (a primitive type name followed by any
/// number of `[]`), when one stands there.
pub open spec fn type_len(s: Seq<char>, p: int) -> Option<int> {
    match type_base_len(s, p) {
        None => None,
        Some(b) => {
            if is_word(at(s, p + b)) {
                None
            } else {
                let e = brackets_end(s, p + b);
                if is_word(at(s, e)) {
                    None
                } else {
                    Some(e - p)
                }
            }
        },
    }
}

/// Length of the number literal at `p` (which holds a digit), if any.
pub open spec fn number_len(s: Seq<char>, p: int) -> Option<int> {
    if s[p] == '0' && p + 1 < s.len() && (s[p + 1] == 'x' || s[p + 1] == 'X' || s[p + 1]
        == 'b' || s[p + 1] == 'B' || s[p + 1] == 'o' || s[p + 1] == 'O') {
        let radix: nat = if s[p + 1] == 'x' || s[p + 1] == 'X' {
            16
        } else if s[p + 1] == 'b' || s[p + 1] == 'B' {
            2
        } else {
            8
        };
        let e = radix_end(s, p + 2, radix);
        if e > p + 2 {
            Some(e - p)
        } else {
            None
        }
    } else {
        let e1 = digits_end(s, p);
        let e2 = if at(s, e1) == '.' {
            if at(s, e1 + 1) == '.' {
                e1
            } else {
                digits_end(s, e1 + 1)
            }
        } else {
            e1
        };
        let e3 = if at(s, e2) == 'e' || at(s, e2) == 'E' {
            let j = if at(s, e2 + 1) == '+' || at(s, e2 + 1) == '-' {
                e2 + 2
            } else {
                e2 + 1
            };
            if is_digit(at(s, j)) {
                digits_end(s, j)
            } else {
                e2
            }
        } else {
            e2
        };
        Some(e3 - p)
    }
}

/// The operator or delimiter at `p`, with its length.
pub open spec fn op_at(s: Seq<char>, p: int) -> Option<(TokenType, int)> {
    let c = s[p];
    let d = at(s, p + 1);
    if c == '=' {
        if d == '>' {
            Some((TokenType::FatArrow, 2))
        } else if d == '=' {
            Some((TokenType::Equal, 2))
        } else {
            Some((TokenType::Equal, 1))
        }
    } else if c == '!' {
        if d == '=' {
            Some((TokenType::NotEqual, 2))
        } else {
            None
        }
    } else if c == ':' {
        if d == '=' {
            Some((TokenType::Assign, 2))
        } else {
            Some((TokenType::Colon, 1))
        }
    } else if c == '-' {
        if d == '>' {
            Some((TokenType::Arrow, 2))
        } else {
            Some((TokenType::Minus, 1))
        }
    } else if c == '<' {
        if d == '=' {
            Some((TokenType::LessEqual, 2))
        } else if d == '<' {
            Some((TokenType::LShift, 2))
        } else {
            Some((TokenType::Less, 1))
        }
    } else if c == '>' {
        if d == '=' {
            Some((TokenType::GreaterEqual, 2))
        } else if d == '>' {
            Some((TokenType::RShift, 2))
        } else {
            Some((TokenType::Greater, 1))
        }
    } else if c == '+' {
        Some((TokenType::Plus, 1))
    } else if c == '*' {
        Some((TokenType::Times, 1))
    } else if c == '/' {
        Some((TokenType::Divide, 1))
    } else if c == '%' {
        Some((TokenType::Modulo, 1))
    } else if c == '&' {
        if d == '&' {
            Some((TokenType::LogicalAnd, 2))
        } else {
            Some((TokenType::BitwiseAnd, 1))
        }
    } else if c == '|' {
        if d == '|' {
            Some((TokenType::LogicalOr, 2))
        } else {
            Some((TokenType::BitwiseOr, 1))
        }
    } else if c == '^' {
        Some((TokenType::BitwiseXor, 1))
    } else if c == '~' {
        Some((TokenType::BitwiseNot, 1))
    } else if c == '[' {
        Some((TokenType::LBracket, 1))
    } else if c == ']' {
        Some((TokenType::RBracket, 1))
    } else if c == '{' {
        Some((TokenType::LBrace, 1))
    } else if c == '}' {
        Some((TokenType::RBrace, 1))
    } else if c == '(' {
        Some((TokenType::LParen, 1))
    } else if c == ')' {
        Some((TokenType::RParen, 1))
    } else if c == ',' {
        Some((TokenType::Comma, 1))
    } else if c == ';' {
        Some((TokenType::Semicolon, 1))
    } else if c == '?' {
        Some((TokenType::QuestionMark, 1))
    } else if c == '.' {
        if d == '.' {
            Some((TokenType::Range, 2))
        } else {
            Some((TokenType::Dot, 1))
        }
    } else {
        None
    }
}

// ---------------------------------------------------------------------------
// f-strings: f"text {expr} text"
// ---------------------------------------------------------------------------

/// The character an escape `\c` stands for inside an f-string.
pub open spec fn unescape(c: char) -> char {
    if c == 'n' {
        '\n'
    } else if c == 't' {
        '\t'
    } else if c == 'r' {
        '\r'
    } else {
        c
    }
}

/// Text of an interpolated expression starting at `p` with `depth` braces
/// open, and where scanning stopped.
pub open spec fn fstr_interp(s: Seq<char>, p: int, q: char, depth: nat) -> (Seq<char>, int)
    decreases s.len() - p,
{
    if depth == 0 || p < 0 || p >= s.len() {
        (seq![], p)
    } else if s[p] == '{' {
        let r = fstr_interp(s, p + 1, q, depth + 1);
        (seq![s[p]] + r.0, r.1)
    } else if s[p] == '}' {
        if depth > 1 {
            let r = fstr_interp(s, p + 1, q, (depth - 1) as nat);
            (seq![s[p]] + r.0, r.1)
        } else {
            (seq![], p + 1)
        }
    } else if s[p] == q {
        (seq![], p)
    } else {
        let r = fstr_interp(s, p + 1, q, depth);
        (seq![s[p]] + r.0, r.1)
    }
}

/// A run of literal text inside an f-string, with escapes decoded.
pub open spec fn fstr_text(s: Seq<char>, p: int, q: char) -> (Seq<char>, int)
    decreases s.len() - p,
{
    if p < 0 || p >= s.len() || s[p] == '{' || s[p] == q {
        (seq![], p)
    } else if s[p] == '}' && at(s, p + 1) == '}' {
        (seq![], p)
    } else if s[p] == '\\' {
        if p + 1 < s.len() {
            let r = fstr_text(s, p + 2, q);
            (seq![unescape(s[p + 1])] + r.0, r.1)
        } else {
            (seq![], p + 1)
        }
    } else {
        let r = fstr_text(s, p + 1, q);
        (seq![s[p]] + r.0, r.1)
    }
}

pub proof fn lemma_fstr_interp_bounds(s: Seq<char>, p: int, q: char, depth: nat)
    requires
        0 <= p <= s.len(),
    ensures
        p <= fstr_interp(s, p, q, depth).1 <= s.len(),
    decreases s.len() - p,
{
    if depth == 0 || p >= s.len() {
    } else if s[p] == '{' {
        lemma_fstr_interp_bounds(s, p + 1, q, depth + 1);
    } else if s[p] == '}' {
        if depth > 1 {
            lemma_fstr_interp_bounds(s, p + 1, q, (depth - 1) as nat);
        }
    } else if s[p] == q {
    } else {
        lemma_fstr_interp_bounds(s, p + 1, q, depth);
    }
}

pub proof fn lemma_fstr_text_bounds(s: Seq<char>, p: int, q: char)
    requires
        0 <= p <= s.len(),
    ensures
        p <= fstr_text(s, p, q).1 <= s.len(),
        (p < s.len() && s[p] != '{' && s[p] != q && s[p] != '}') ==> fstr_text(s, p, q).1 > p,
    decreases s.len() - p,
{
    if p >= s.len() || s[p] == '{' || s[p] == q {
    } else if s[p] == '}' && at(s, p + 1) == '}' {
    } else if s[p] == '\\' {
        if p + 1 < s.len() {
            lemma_fstr_text_bounds(s, p + 2, q);
        }
    } else {
        lemma_fstr_text_bounds(s, p + 1, q);
    }
}

/// One step inside an f-string body at `p` (which is inside the input and
/// not the closing quote): the lexemes produced and where the next step starts.
pub open spec fn fstr_step(s: Seq<char>, p: int, q: char) -> (Seq<Lexeme>, int) {
    if s[p] == '{' {
        if at(s, p + 1) == '{' {
            (seq![lexeme(TokenType::TemplateStringPart, seq!['{'], p, p + 2)], p + 2)
        } else {
            let (txt, e) = fstr_interp(s, p + 1, q, 1);
            let mid = if txt.len() > 0 {
                seq![lexeme(TokenType::TemplateStringPart, txt, p + 1, e)]
            } else {
                seq![]
            };
            (seq![lexeme(TokenType::TemplateInterpStart, seq!['{'], p, p + 1)] + mid + seq![
                lexeme(TokenType::TemplateInterpEnd, seq!['}'], e, e),
            ], e)
        }
    } else if s[p] == '}' {
        if at(s, p + 1) == '}' {
            (seq![lexeme(TokenType::TemplateStringPart, seq!['}'], p, p + 2)], p + 2)
        } else {
            (seq![lexeme(TokenType::TemplateStringPart, seq!['}'], p, p + 1)], p + 1)
        }
    } else {
        let (txt, e) = fstr_text(s, p, q);
        let mid = if txt.len() > 0 {
            seq![lexeme(TokenType::TemplateStringPart, txt, p, e)]
        } else {
            seq![]
        };
        (mid, e)
    }
}

pub proof fn lemma_fstr_step_bounds(s: Seq<char>, p: int, q: char)
    requires
        0 <= p < s.len(),
        s[p] != q,
    ensures
        p < fstr_step(s, p, q).1 <= s.len(),
{
    if s[p] == '{' {
        if at(s, p + 1) != '{' {
            lemma_fstr_interp_bounds(s, p + 1, q, 1);
        }
    } else if s[p] == '}' {
    } else {
        lemma_fstr_text_bounds(s, p, q);
    }
}

/// The lexemes of an f-string body starting at `p`, and where it stops
/// (at the closing quote or the end of input).
pub open spec fn fstr_body(s: Seq<char>, p: int, q: char) -> (Seq<Lexeme>, int)
    decreases s.len() - p,
{
    if p < 0 || p >= s.len() || s[p] == q {
        (seq![], p)
    } else {
        let (ls, e) = fstr_step(s, p, q);
        proof {
            lemma_fstr_step_bounds(s, p, q);
        }
        let r = fstr_body(s, e, q);
        (ls + r.0, r.1)
    }
}

/// The lexemes of the f-string whose `f` stands at `p`.
pub open spec fn fstring(s: Seq<char>, p: int) -> (Seq<Lexeme>, int) {
    let q = s[p + 1];
    let open = lexeme(TokenType::TemplateStringStart, seq![q], p, p + 2);
    let (body, e) = fstr_body(s, p + 2, q);
    if 0 <= e < s.len() && s[e] == q {
        (seq![open] + body + seq![lexeme(TokenType::TemplateStringEnd, seq![q], e, e + 1)], e + 1)
    } else {
        (seq![open] + body, e)
    }
}

// ---------------------------------------------------------------------------
// Template strings: "{name} text"
// ---------------------------------------------------------------------------

pub open spec fn tmpl_text(s: Seq<char>, p: int) -> (Seq<char>, int)
    decreases s.len() - p,
{
    if p < 0 || p >= s.len() || s[p] == '{' || s[p] == '"' {
        (seq![], p)
    } else if s[p] == '\\' {
        if p + 1 < s.len() {
            let r = tmpl_text(s, p + 2);
            (seq![s[p + 1]] + r.0, r.1)
        } else {
            (seq![], p + 1)
        }
    } else {
        let r = tmpl_text(s, p + 1);
        (seq![s[p]] + r.0, r.1)
    }
}

pub proof fn lemma_tmpl_text_bounds(s: Seq<char>, p: int)
    requires
        0 <= p <= s.len(),
    ensures
        p <= tmpl_text(s, p).1 <= s.len(),
        (p < s.len() && s[p] != '{' && s[p] != '"') ==> tmpl_text(s, p).1 > p,
    decreases s.len() - p,
{
    if p >= s.len() || s[p] == '{' || s[p] == '"' {
    } else if s[p] == '\\' {
        if p + 1 < s.len() {
            lemma_tmpl_text_bounds(s, p + 2);
        }
    } else {
        lemma_tmpl_text_bounds(s, p + 1);
    }
}

pub proof fn lemma_spaces_end_bounds(s: Seq<char>, p: int)
    requires
        0 <= p <= s.len(),
    ensures
        p <= spaces_end(s, p) <= s.len(),
    decreases s.len() - p,
{
    if p < s.len() && (s[p] == ' ' || s[p] == '\t') {
        lemma_spaces_end_bounds(s, p + 1);
    }
}

pub proof fn lemma_word_end_bounds(s: Seq<char>, p: int)
    requires
        0 <= p <= s.len(),
    ensures
        p <= word_end(s, p) <= s.len(),
    decreases s.len() - p,
{
    if p < s.len() && is_word(s[p]) {
        lemma_word_end_bounds(s, p + 1);
    }
}

/// The interpolation `{ name }` whose `{` stands at `p`: its lexemes and the
/// position after it.
pub open spec fn tmpl_interp(s: Seq<char>, p: int) -> (Seq<Lexeme>, int) {
    let a = p + 1;
    let (mid, b) = if 0 <= a < s.len() && s[a] != '}' {
        let w = spaces_end(s, a);
        if 0 <= w < s.len() && is_ident_start_char(s[w]) {
            let e = word_end(s, w + 1);
            (seq![lexeme(TokenType::Identifier, s.subrange(w, e), a, e)], e)
        } else {
            (seq![], w)
        }
    } else {
        (seq![], a)
    };
    let (close, c) = if 0 <= b < s.len() && s[b] == '}' {
        (seq![lexeme(TokenType::TemplateInterpEnd, seq!['}'], b, b + 1)], b + 1)
    } else {
        (seq![], b)
    };
    (seq![lexeme(TokenType::TemplateInterpStart, seq!['{'], p, a)] + mid + close, c)
}

pub proof fn lemma_tmpl_interp_bounds(s: Seq<char>, p: int)
    requires
        0 <= p < s.len(),
    ensures
        p < tmpl_interp(s, p).1 <= s.len(),
{
    let a = p + 1;
    if 0 <= a < s.len() && s[a] != '}' {
        lemma_spaces_end_bounds(s, a);
        let w = spaces_end(s, a);
        if 0 <= w < s.len() && is_ident_start_char(s[w]) {
            lemma_word_end_bounds(s, w + 1);
        }
    }
}

/// One step inside a template string body at `p` (inside the input, not the
/// closing quote).
pub open spec fn tmpl_step(s: Seq<char>, p: int) -> (Seq<Lexeme>, int) {
    if s[p] == '{' {
        tmpl_interp(s, p)
    } else {
        let (txt, e) = tmpl_text(s, p);
        let mid = if txt.len() > 0 {
            seq![lexeme(TokenType::TemplateStringPart, txt, p, e)]
        } else {
            seq![]
        };
        (mid, e)
    }
}

pub proof fn lemma_tmpl_step_bounds(s: Seq<char>, p: int)
    requires
        0 <= p < s.len(),
        s[p] != '"',
    ensures
        p < tmpl_step(s, p).1 <= s.len(),
{
    if s[p] == '{' {
        lemma_tmpl_interp_bounds(s, p);
    } else {
        lemma_tmpl_text_bounds(s, p);
    }
}

pub open spec fn tmpl_body(s: Seq<char>, p: int) -> (Seq<Lexeme>, int)
    decreases s.len() - p,
{
    if p < 0 || p >= s.len() || s[p] == '"' {
        (seq![], p)
    } else {
        let (ls, e) = tmpl_step(s, p);
        proof {
            lemma_tmpl_step_bounds(s, p);
        }
        let r = tmpl_body(s, e);
        (ls + r.0, r.1)
    }
}

/// The lexemes of the template string whose opening `"` stands at `p`.
pub open spec fn template(s: Seq<char>, p: int) -> (Seq<Lexeme>, int) {
    let (body, e) = tmpl_body(s, p + 1);
    if 0 <= e < s.len() && s[e] == '"' {
        (body + seq![lexeme(TokenType::TemplateStringEnd, seq!['"'], e, e + 1)], e + 1)
    } else {
        (body, e)
    }
}

// ---------------------------------------------------------------------------
// One step of the lexer
// ---------------------------------------------------------------------------

pub open spec fn single(kind: TokenType, s: Seq<char>, p: int, e: int) -> (Seq<Lexeme>, int) {
    (seq![lexeme(kind, s.subrange(p, e), p, e)], e)
}

/// What the lexer does at a position holding a letter or `_`.
pub open spec fn word_step(s: Seq<char>, p: int) -> (Seq<Lexeme>, int) {
    match first_keyword(s, p) {
        Some(k) => single(keyword(k).1, s, p, p + keyword(k).0.len()),
        None => {
            if s[p] == 'f' && (at(s, p + 1) == '"' || at(s, p + 1) == '\'') {
                fstring(s, p)
            } else {
                match type_len(s, p) {
                    Some(n) => single(TokenType::TypeToken, s, p, p + n),
                    None => {
                        let e = word_end(s, p + 1);
                        if e == p + 1 && s[p] == '_' {
                            single(TokenType::Underscore, s, p, e)
                        } else {
                            single(TokenType::Identifier, s, p, e)
                        }
                    },
                }
            }
        },
    }
}

/// The lexemes produced at position `p` (which is inside `s`) and the
/// position where lexing resumes.
pub open spec fn step(s: Seq<char>, p: int) -> (Seq<Lexeme>, int) {
    let c = s[p];
    if is_ws(c) {
        single(TokenType::Whitespace, s, p, ws_end(s, p))
    } else if (c == '/' && at(s, p + 1) == '/') || c == '#' {
        single(TokenType::Comment, s, p, line_end(s, p))
    } else if c == '/' && at(s, p + 1) == '*' {
        let (e, d) = block_end(s, p + 2, 1);
        single(
            if d > 0 {
                TokenType::Unknown
            } else {
                TokenType::Comment
            },
            s,
            p,
            e,
        )
    } else if is_ident_start_char(c) {
        word_step(s, p)
    } else if op_at(s, p) is Some {
        let (k, n) = op_at(s, p).unwrap();
        single(k, s, p, p + n)
    } else if c == '"' || c == '\'' {
        if c == '"' && at(s, p + 1) == '{' {
            template(s, p)
        } else {
            let e = str_end(s, p + 1, c);
            single(
                TokenType::StringLit,
                s,
                p,
                if 0 <= e < s.len() && s[e] == c {
                    e + 1
                } else {
                    e
                },
            )
        }
    } else if is_digit(c) && number_len(s, p) is Some {
        single(TokenType::Number, s, p, p + number_len(s, p)->0)
    } else {
        single(TokenType::Unknown, s, p, p + 1)
    }
}

// ---------------------------------------------------------------------------
// Every step moves forward
// ---------------------------------------------------------------------------

pub proof fn lemma_ws_end_bounds(s: Seq<char>, p: int)
    requires
        0 <= p <= s.len(),
    ensures
        p <= ws_end(s, p) <= s.len(),
    decreases s.len() - p,
{
    if p < s.len() && is_ws(s[p]) {
        lemma_ws_end_bounds(s, p + 1);
    }
}

pub proof fn lemma_line_end_bounds(s: Seq<char>, p: int)
    requires
        0 <= p <= s.len(),
    ensures
        p <= line_end(s, p) <= s.len(),
    decreases s.len() - p,
{
    if p < s.len() && s[p] != '\n' {
        lemma_line_end_bounds(s, p + 1);
    }
}

pub proof fn lemma_digits_end_bounds(s: Seq<char>, p: int)
    requires
        0 <= p <= s.len(),
    ensures
        p <= digits_end(s, p) <= s.len(),
    decreases s.len() - p,
{
    if p < s.len() && is_digit(s[p]) {
        lemma_digits_end_bounds(s, p + 1);
    }
}

pub proof fn lemma_radix_end_bounds(s: Seq<char>, p: int, radix: nat)
    requires
        0 <= p <= s.len(),
    ensures
        p <= radix_end(s, p, radix) <= s.len(),
    decreases s.len() - p,
{
    if p < s.len() && radix_digit(s[p], radix) {
        lemma_radix_end_bounds(s, p + 1, radix);
    }
}

pub proof fn lemma_brackets_end_bounds(s: Seq<char>, p: int)
    requires
        0 <= p <= s.len(),
    ensures
        p <= brackets_end(s, p) <= s.len(),
    decreases s.len() - p,
{
    if p + 1 < s.len() && s[p] == '[' && s[p + 1] == ']' {
        lemma_brackets_end_bounds(s, p + 2);
    }
}

pub proof fn lemma_block_end_bounds(s: Seq<char>, p: int, depth: nat)
    requires
        0 <= p <= s.len(),
    ensures
        p <= block_end(s, p, depth).0 <= s.len(),
    decreases s.len() - p,
{
    if p >= s.len() || depth == 0 {
    } else if s[p] == '/' && at(s, p + 1) == '*' {
        lemma_block_end_bounds(s, p + 2, depth + 1);
    } else if s[p] == '*' && at(s, p + 1) == '/' {
        lemma_block_end_bounds(s, p + 2, (depth - 1) as nat);
    } else {
        lemma_block_end_bounds(s, p + 1, depth);
    }
}

pub proof fn lemma_str_end_bounds(s: Seq<char>, p: int, q: char)
    requires
        0 <= p <= s.len(),
    ensures
        p <= str_end(s, p, q) <= s.len(),
    decreases s.len() - p,
{
    if p < s.len() && s[p] != q {
        if s[p] == '\\' {
            if p + 1 < s.len() {
                lemma_str_end_bounds(s, p + 2, q);
            }
        } else {
            lemma_str_end_bounds(s, p + 1, q);
        }
    }
}

pub proof fn lemma_fstr_body_bounds(s: Seq<char>, p: int, q: char)
    requires
        0 <= p <= s.len(),
    ensures
        p <= fstr_body(s, p, q).1 <= s.len(),
    decreases s.len() - p,
{
    if p < s.len() && s[p] != q {
        lemma_fstr_step_bounds(s, p, q);
        lemma_fstr_body_bounds(s, fstr_step(s, p, q).1, q);
    }
}

pub proof fn lemma_tmpl_body_bounds(s: Seq<char>, p: int)
    requires
        0 <= p <= s.len(),
    ensures
        p <= tmpl_body(s, p).1 <= s.len(),
    decreases s.len() - p,
{
    if p < s.len() && s[p] != '"' {
        lemma_tmpl_step_bounds(s, p);
        lemma_tmpl_body_bounds(s, tmpl_step(s, p).1);
    }
}

pub proof fn lemma_number_len_bounds(s: Seq<char>, p: int)
    requires
        0 <= p < s.len(),
        is_digit(s[p]),
        number_len(s, p) is Some,
    ensures
        0 < number_len(s, p)->0,
        p + number_len(s, p)->0 <= s.len(),
{
    if s[p] == '0' && p + 1 < s.len() && (s[p + 1] == 'x' || s[p + 1] == 'X' || s[p + 1] == 'b'
        || s[p + 1] == 'B' || s[p + 1] == 'o' || s[p + 1] == 'O') {
        let radix: nat = if s[p + 1] == 'x' || s[p + 1] == 'X' {
            16
        } else if s[p + 1] == 'b' || s[p + 1] == 'B' {
            2
        } else {
            8
        };
        lemma_radix_end_bounds(s, p + 2, radix);
    } else {
        lemma_digits_end_bounds(s, p);
        let e1 = digits_end(s, p);
        assert(e1 > p) by {
            assert(digits_end(s, p) == digits_end(s, p + 1));
            lemma_digits_end_bounds(s, p + 1);
        }
        if at(s, e1) == '.' && at(s, e1 + 1) != '.' {
            lemma_digits_end_bounds(s, e1 + 1);
        }
        let e2 = if at(s, e1) == '.' {
            if at(s, e1 + 1) == '.' {
                e1
            } else {
                digits_end(s, e1 + 1)
            }
        } else {
            e1
        };
        if at(s, e2) == 'e' || at(s, e2) == 'E' {
            let j = if at(s, e2 + 1) == '+' || at(s, e2 + 1) == '-' {
                e2 + 2
            } else {
                e2 + 1
            };
            if is_digit(at(s, j)) {
                lemma_digits_end_bounds(s, j);
            }
        }
    }
}

pub proof fn lemma_type_len_bounds(s: Seq<char>, p: int)
    requires
        0 <= p < s.len(),
        type_len(s, p) is Some,
    ensures
        0 < type_len(s, p)->0,
        p + type_len(s, p)->0 <= s.len(),
{
    let b = type_base_len(s, p)->0;
    let c = at(s, p);
    if c == 'i' || c == 'u' || c == 'f' {
        lemma_digits_end_bounds(s, p + 1);
    }
    lemma_brackets_end_bounds(s, p + b);
}

/// Each step consumes at least one character and stays inside the input.
pub proof fn lemma_step_bounds(s: Seq<char>, p: int)
    requires
        0 <= p < s.len(),
    ensures
        p < step(s, p).1 <= s.len(),
{
    let c = s[p];
    if is_ws(c) {
        lemma_ws_end_bounds(s, p + 1);
    } else if (c == '/' && at(s, p + 1) == '/') || c == '#' {
        lemma_line_end_bounds(s, p + 1);
    } else if c == '/' && at(s, p + 1) == '*' {
        lemma_block_end_bounds(s, p + 2, 1);
    } else if is_ident_start_char(c) {
        lemma_first_keyword_from(s, p, 0);
        match first_keyword(s, p) {
            Some(k) => {},
            None => {
                if s[p] == 'f' && (at(s, p + 1) == '"' || at(s, p + 1) == '\'') {
                    lemma_fstr_body_bounds(s, p + 2, s[p + 1]);
                } else {
                    match type_len(s, p) {
                        Some(n) => {
                            lemma_type_len_bounds(s, p);
                        },
                        None => {
                            lemma_word_end_bounds(s, p + 1);
                        },
                    }
                }
            },
        }
    } else if op_at(s, p) is Some {
    } else if c == '"' || c == '\'' {
        if c == '"' && at(s, p + 1) == '{' {
            lemma_tmpl_body_bounds(s, p + 1);
        } else {
            lemma_str_end_bounds(s, p + 1, c);
        }
    } else if is_digit(c) && number_len(s, p) is Some {
        lemma_number_len_bounds(s, p);
    } else {
    }
}

/// The lexemes of `s` from position `p` on.
pub open spec fn lex_from(s: Seq<char>, p: int) -> Seq<Lexeme>
    decreases s.len() - p,
{
    if p < 0 || p >= s.len() {
        seq![]
    } else {
        let (ls, q) = step(s, p);
        proof {
            lemma_step_bounds(s, p);
        }
        ls + lex_from(s, q)
    }
}

/// The lexemes of the whole source text `s`.
pub open spec fn lex(s: Seq<char>) -> Seq<Lexeme> {
    lex_from(s, 0)
}

// ---------------------------------------------------------------------------
// Laws of the token stream
// ---------------------------------------------------------------------------

/// Kinds whose text is decoded from, rather than copied out of, the source.
pub open spec fn is_template_kind(k: TokenType) -> bool {
    k == TokenType::TemplateStringStart || k == TokenType::TemplateStringPart || k
        == TokenType::TemplateStringEnd || k == TokenType::TemplateInterpStart || k
        == TokenType::TemplateInterpEnd
}

/// The lexemes lie between `a` and `b`, each after the one before it.
pub open spec fn ordered_within(ls: Seq<Lexeme>, a: int, b: int) -> bool {
    &&& forall|i: int| 0 <= i < ls.len() ==> a <= #[trigger] ls[i].start <= ls[i].end <= b
    &&& forall|i: int| 0 <= i < ls.len() - 1 ==> #[trigger] ls[i].end <= ls[i + 1].start
}

/// The lexemes cover `a..b` exactly, one after another, with no gap.
pub open spec fn tiles(ls: Seq<Lexeme>, a: int, b: int) -> bool {
    &&& ls.len() == 0 ==> a == b
    &&& ls.len() > 0 ==> ls[0].start == a && ls[ls.len() - 1].end == b
    &&& forall|i: int| 0 <= i < ls.len() ==> #[trigger] ls[i].start <= ls[i].end
    &&& forall|i: int| 0 <= i < ls.len() - 1 ==> #[trigger] ls[i].end == ls[i + 1].start
}

/// Every lexeme of a non-template kind holds exactly the source text it covers.
pub open spec fn texts_are_source(ls: Seq<Lexeme>, s: Seq<char>) -> bool {
    forall|i: int|
        0 <= i < ls.len() && !is_template_kind(#[trigger] ls[i].kind) ==> ls[i].text == s.subrange(
            ls[i].start,
            ls[i].end,
        )
}

/// Every lexeme covers at least one character.
pub open spec fn nonempty_spans(ls: Seq<Lexeme>) -> bool {
    forall|i: int| 0 <= i < ls.len() ==> #[trigger] ls[i].start < ls[i].end
}

pub open spec fn no_template(ls: Seq<Lexeme>) -> bool {
    forall|i: int| 0 <= i < ls.len() ==> !is_template_kind(#[trigger] ls[i].kind)
}

pub proof fn lemma_ordered_concat(l1: Seq<Lexeme>, l2: Seq<Lexeme>, a: int, b: int, c: int)
    requires
        ordered_within(l1, a, b),
        ordered_within(l2, b, c),
        a <= b <= c,
    ensures
        ordered_within(l1 + l2, a, c),
{
    let l = l1 + l2;
    assert forall|i: int| 0 <= i < l.len() - 1 implies #[trigger] l[i].end <= l[i + 1].start by {
        if i < l1.len() - 1 {
            assert(l[i] == l1[i] && l[i + 1] == l1[i + 1]);
        } else if i == l1.len() - 1 {
            assert(l[i] == l1[i] && l[i + 1] == l2[0]);
            assert(a <= l1[i].start);
            assert(b <= l2[0].start);
        } else {
            assert(l[i] == l2[i - l1.len()] && l[i + 1] == l2[i - l1.len() + 1]);
        }
    }
    assert forall|i: int| 0 <= i < l.len() implies a <= #[trigger] l[i].start <= l[i].end <= c by {
        if i < l1.len() {
            assert(l[i] == l1[i]);
        } else {
            assert(l[i] == l2[i - l1.len()]);
        }
    }
}

pub proof fn lemma_tiles_concat(l1: Seq<Lexeme>, l2: Seq<Lexeme>, a: int, b: int, c: int)
    requires
        tiles(l1, a, b),
        tiles(l2, b, c),
    ensures
        tiles(l1 + l2, a, c),
{
    let l = l1 + l2;
    assert forall|i: int| 0 <= i < l.len() - 1 implies #[trigger] l[i].end == l[i + 1].start by {
        if i < l1.len() - 1 {
            assert(l[i] == l1[i] && l[i + 1] == l1[i + 1]);
        } else if i == l1.len() - 1 {
            assert(l[i] == l1[i] && l[i + 1] == l2[0]);
        } else {
            assert(l[i] == l2[i - l1.len()] && l[i + 1] == l2[i - l1.len() + 1]);
        }
    }
    assert forall|i: int| 0 <= i < l.len() implies #[trigger] l[i].start <= l[i].end by {
        if i < l1.len() {
            assert(l[i] == l1[i]);
        } else {
            assert(l[i] == l2[i - l1.len()]);
        }
    }
    if l1.len() == 0 {
        assert(l =~= l2);
    } else if l2.len() == 0 {
        assert(l =~= l1);
    } else {
        assert(l[l.len() - 1] == l2[l2.len() - 1]);
    }
}

pub proof fn lemma_texts_concat(l1: Seq<Lexeme>, l2: Seq<Lexeme>, s: Seq<char>)
    requires
        texts_are_source(l1, s),
        texts_are_source(l2, s),
    ensures
        texts_are_source(l1 + l2, s),
{
    let l = l1 + l2;
    assert forall|i: int| 0 <= i < l.len() && !is_template_kind(#[trigger] l[i].kind) implies l[i].text
        == s.subrange(l[i].start, l[i].end) by {
        if i < l1.len() {
            assert(l[i] == l1[i]);
        } else {
            assert(l[i] == l2[i - l1.len()]);
        }
    }
}

pub proof fn lemma_fstr_step_shape(s: Seq<char>, p: int, q: char)
    requires
        0 <= p < s.len(),
        s[p] != q,
    ensures
        ordered_within(fstr_step(s, p, q).0, p, fstr_step(s, p, q).1),
        forall|i: int|
            0 <= i < fstr_step(s, p, q).0.len() ==> is_template_kind(
                #[trigger] fstr_step(s, p, q).0[i].kind,
            ),
{
    lemma_fstr_step_bounds(s, p, q);
    if s[p] == '{' && at(s, p + 1) != '{' {
        lemma_fstr_interp_bounds(s, p + 1, q, 1);
    } else if s[p] != '{' && s[p] != '}' {
        lemma_fstr_text_bounds(s, p, q);
    }
}

pub proof fn lemma_fstr_body_shape(s: Seq<char>, p: int, q: char)
    requires
        0 <= p <= s.len(),
    ensures
        ordered_within(fstr_body(s, p, q).0, p, fstr_body(s, p, q).1),
        forall|i: int|
            0 <= i < fstr_body(s, p, q).0.len() ==> is_template_kind(
                #[trigger] fstr_body(s, p, q).0[i].kind,
            ),
    decreases s.len() - p,
{
    if p < s.len() && s[p] != q {
        let (ls, e) = fstr_step(s, p, q);
        lemma_fstr_step_shape(s, p, q);
        lemma_fstr_step_bounds(s, p, q);
        lemma_fstr_body_shape(s, e, q);
        lemma_fstr_body_bounds(s, e, q);
        lemma_ordered_concat(ls, fstr_body(s, e, q).0, p, e, fstr_body(s, e, q).1);
        let all = ls + fstr_body(s, e, q).0;
        assert forall|i: int| 0 <= i < all.len() implies is_template_kind(#[trigger] all[i].kind) by {
            if i < ls.len() {
                assert(all[i] == ls[i]);
            } else {
                assert(all[i] == fstr_body(s, e, q).0[i - ls.len()]);
            }
        }
    }
}

pub proof fn lemma_tmpl_step_shape(s: Seq<char>, p: int)
    requires
        0 <= p < s.len(),
        s[p] != '"',
    ensures
        ordered_within(tmpl_step(s, p).0, p, tmpl_step(s, p).1),
        forall|i: int|
            0 <= i < tmpl_step(s, p).0.len() ==> #[trigger] tmpl_step(s, p).0[i].kind
                == TokenType::Identifier || is_template_kind(tmpl_step(s, p).0[i].kind),
        s[p] == '{' ==> tmpl_step(s, p).0.len() > 0 && tmpl_step(s, p).0[0].kind
            == TokenType::TemplateInterpStart,
{
    lemma_tmpl_step_bounds(s, p);
    if s[p] == '{' {
        let a = p + 1;
        if 0 <= a < s.len() && s[a] != '}' {
            lemma_spaces_end_bounds(s, a);
            let w = spaces_end(s, a);
            if 0 <= w < s.len() && is_ident_start_char(s[w]) {
                lemma_word_end_bounds(s, w + 1);
            }
        }
    } else {
        lemma_tmpl_text_bounds(s, p);
    }
}

pub proof fn lemma_tmpl_body_shape(s: Seq<char>, p: int)
    requires
        0 <= p <= s.len(),
    ensures
        ordered_within(tmpl_body(s, p).0, p, tmpl_body(s, p).1),
        (p < s.len() && s[p] == '{') ==> tmpl_body(s, p).0.len() > 0 && tmpl_body(s, p).0[0].kind
            == TokenType::TemplateInterpStart,
    decreases s.len() - p,
{
    if p < s.len() && s[p] != '"' {
        let (ls, e) = tmpl_step(s, p);
        lemma_tmpl_step_shape(s, p);
        lemma_tmpl_step_bounds(s, p);
        lemma_tmpl_body_shape(s, e);
        lemma_tmpl_body_bounds(s, e);
        lemma_ordered_concat(ls, tmpl_body(s, e).0, p, e, tmpl_body(s, e).1);
        if s[p] == '{' {
            assert((ls + tmpl_body(s, e).0)[0] == ls[0]);
        }
    }
}

/// One step either yields a single lexeme of source text covering exactly
/// what it consumed, or a run of lexemes (an f-string or template string)
/// that starts with a template kind and stays in order inside what it consumed.
pub proof fn lemma_step_shape(s: Seq<char>, p: int)
    requires
        0 <= p < s.len(),
    ensures
        ordered_within(step(s, p).0, p, step(s, p).1),
        no_template(step(s, p).0) ==> tiles(step(s, p).0, p, step(s, p).1) && texts_are_source(
            step(s, p).0,
            s,
        ) && nonempty_spans(step(s, p).0),
{
    lemma_step_bounds(s, p);
    let c = s[p];
    let st = step(s, p);
    let fstr = is_ident_start_char(c) && first_keyword(s, p) is None && s[p] == 'f' && (at(s, p + 1)
        == '"' || at(s, p + 1) == '\'');
    let tmpl = !is_ws(c) && !((c == '/' && at(s, p + 1) == '/') || c == '#') && !(c == '/' && at(
        s,
        p + 1,
    ) == '*') && !is_ident_start_char(c) && op_at(s, p) is None && c == '"' && at(s, p + 1) == '{';
    if fstr {
        let q = s[p + 1];
        lemma_fstr_body_shape(s, p + 2, q);
        lemma_fstr_body_bounds(s, p + 2, q);
        let open = lexeme(TokenType::TemplateStringStart, seq![q], p, p + 2);
        let (body, e) = fstr_body(s, p + 2, q);
        assert(ordered_within(seq![open], p, p + 2));
        lemma_ordered_concat(seq![open], body, p, p + 2, e);
        if 0 <= e < s.len() && s[e] == q {
            let close = lexeme(TokenType::TemplateStringEnd, seq![q], e, e + 1);
            assert(ordered_within(seq![close], e, e + 1));
            lemma_ordered_concat(seq![open] + body, seq![close], p, e, e + 1);
            assert(st.0 == seq![open] + body + seq![close]);
            assert(st.0[0] == open);
        } else {
            assert(st.0[0] == open);
        }
        assert(!no_template(st.0)) by {
            assert(is_template_kind(st.0[0].kind));
        }
    } else if tmpl {
        lemma_tmpl_body_shape(s, p + 1);
        lemma_tmpl_body_bounds(s, p + 1);
        let (body, e) = tmpl_body(s, p + 1);
        if 0 <= e < s.len() && s[e] == '"' {
            let close = lexeme(TokenType::TemplateStringEnd, seq!['"'], e, e + 1);
            assert(ordered_within(seq![close], e, e + 1));
            lemma_ordered_concat(body, seq![close], p + 1, e, e + 1);
            assert(st.0[0] == body[0]);
        } else {
            assert(st.0 == body);
        }
        assert(!no_template(st.0)) by {
            assert(is_template_kind(st.0[0].kind));
        }
    } else {
        assert(st.0.len() == 1);
        assert(st.0[0].text == s.subrange(p, st.1));
        assert(st.0[0].start == p && st.0[0].end == st.1);
    }
}

/// Lexing is orderly: the lexemes stand in order inside the input; and when
/// the input holds no f-string or template string, the lexemes cover it with
/// no gap and no overlap, each holding exactly the source text it covers.
pub proof fn lemma_lex_from_laws(s: Seq<char>, p: int)
    requires
        0 <= p <= s.len(),
    ensures
        ordered_within(lex_from(s, p), p, s.len() as int),
        no_template(lex_from(s, p)) ==> tiles(lex_from(s, p), p, s.len() as int)
            && texts_are_source(lex_from(s, p), s) && nonempty_spans(lex_from(s, p)),
    decreases s.len() - p,
{
    if p < s.len() {
        let (ls, q) = step(s, p);
        lemma_step_bounds(s, p);
        lemma_step_shape(s, p);
        lemma_lex_from_laws(s, q);
        lemma_ordered_concat(ls, lex_from(s, q), p, q, s.len() as int);
        let all = ls + lex_from(s, q);
        if no_template(all) {
            assert(no_template(ls)) by {
                assert forall|i: int| 0 <= i < ls.len() implies !is_template_kind(#[trigger] ls[i].kind) by {
                    assert(all[i] == ls[i]);
                }
            }
            assert(no_template(lex_from(s, q))) by {
                assert forall|i: int| 0 <= i < lex_from(s, q).len() implies !is_template_kind(
                    #[trigger] lex_from(s, q)[i].kind,
                ) by {
                    assert(all[ls.len() + i] == lex_from(s, q)[i]);
                }
            }
            lemma_tiles_concat(ls, lex_from(s, q), p, q, s.len() as int);
            lemma_texts_concat(ls, lex_from(s, q), s);
            assert forall|i: int| 0 <= i < all.len() implies #[trigger] all[i].start < all[i].end by {
                if i < ls.len() {
                    assert(all[i] == ls[i]);
                } else {
                    assert(all[i] == lex_from(s, q)[i - ls.len()]);
                }
            }
        }
    }
}

/// The texts of `ls`, one after another.
pub open spec fn joined_texts(ls: Seq<Lexeme>) -> Seq<char>
    decreases ls.len(),
{
    if ls.len() == 0 {
        Seq::empty()
    } else {
        joined_texts(ls.drop_last()) + ls.last().text
    }
}

proof fn lemma_joined_texts(ls: Seq<Lexeme>, s: Seq<char>, a: int, b: int)
    requires
        0 <= a <= b <= s.len(),
        ordered_within(ls, a, b),
        tiles(ls, a, b),
        texts_are_source(ls, s),
        no_template(ls),
    ensures
        joined_texts(ls) == s.subrange(a, b),
    decreases ls.len(),
{
    if ls.len() == 0 {
        assert(s.subrange(a, b) =~= Seq::<char>::empty());
    } else {
        let n = ls.len() - 1;
        let init = ls.drop_last();
        let m = ls[n].start;
        assert(!is_template_kind(ls[n].kind));
        assert forall|i: int| 0 <= i < init.len() implies !is_template_kind(#[trigger] init[i].kind) by {
            assert(init[i] == ls[i]);
        }
        assert(ordered_within(init, a, m)) by {
            assert forall|i: int| 0 <= i < init.len() implies a <= #[trigger] init[i].start <= init[i].end <= m by {
                assert(init[i] == ls[i]);
                if i < n - 1 {
                    assert(ls[i].end <= ls[i + 1].start);
                }
                lemma_ordered_before(ls, i, n);
            }
        }
        if n > 0 {
            assert(init[n - 1].end == m);
        }
        lemma_joined_texts(init, s, a, m);
        assert(s.subrange(a, m) + s.subrange(m, b) =~= s.subrange(a, b));
    }
}

proof fn lemma_ordered_before(ls: Seq<Lexeme>, i: int, j: int)
    requires
        forall|k: int| 0 <= k < ls.len() ==> #[trigger] ls[k].start <= ls[k].end,
        forall|k: int| 0 <= k < ls.len() - 1 ==> #[trigger] ls[k].end <= ls[k + 1].start,
        0 <= i < j < ls.len(),
    ensures
        ls[i].end <= ls[j].start,
    decreases j - i,
{
    if i + 1 < j {
        lemma_ordered_before(ls, i + 1, j);
        assert(ls[i + 1].start <= ls[i + 1].end);
    }
}

/// Where the source holds no f-string or template string, its lexemes
/// each hold at least one character, and their texts, one after another,
/// give back the source.
pub proof fn law_lexemes_rebuild_source(s: Seq<char>)
    requires
        no_template(lex(s)),
    ensures
        joined_texts(lex(s)) == s,
        forall|i: int| 0 <= i < lex(s).len() ==> #[trigger] lex(s)[i].text.len() > 0,
{
    lemma_lex_from_laws(s, 0);
    lemma_joined_texts(lex(s), s, 0, s.len() as int);
    assert(s.subrange(0, s.len() as int) =~= s);
    assert forall|i: int| 0 <= i < lex(s).len() implies #[trigger] lex(s)[i].text.len() > 0 by {
        assert(!is_template_kind(lex(s)[i].kind));
        assert(lex(s)[i].start < lex(s)[i].end);
    }
}


// ---------------------------------------------------------------------------
// Operators
// ---------------------------------------------------------------------------

/// Lexing from `p` yields first a token of kind `k` covering the `n`
/// characters at `p`, then goes on after them.
pub open spec fn lexes_at(s: Seq<char>, p: int, k: TokenType, n: int) -> bool {
    lex_from(s, p) == seq![lexeme(k, s.subrange(p, p + n), p, p + n)] + lex_from(s, p + n)
}

/// Each arithmetic, bitwise and logical operator character lexes to a
/// token of its own kind: `+ - * / % ^ ~` are `Plus`, `Minus`, `Times`,
/// `Divide`, `Modulo`, `BitwiseXor` and `BitwiseNot`; `&` and `|` are
/// `BitwiseAnd` and `BitwiseOr`, or `LogicalAnd` and `LogicalOr` when
/// doubled; `->` is `Arrow`.
pub proof fn law_arithmetic_operator_tokens(s: Seq<char>, p: int)
    requires
        0 <= p < s.len(),
    ensures
        s[p] == '+' ==> lexes_at(s, p, TokenType::Plus, 1),
        s[p] == '*' ==> lexes_at(s, p, TokenType::Times, 1),
        s[p] == '/' && at(s, p + 1) != '/' && at(s, p + 1) != '*' ==> lexes_at(s, p, TokenType::Divide, 1),
        s[p] == '%' ==> lexes_at(s, p, TokenType::Modulo, 1),
        s[p] == '^' ==> lexes_at(s, p, TokenType::BitwiseXor, 1),
        s[p] == '~' ==> lexes_at(s, p, TokenType::BitwiseNot, 1),
        s[p] == '-' && at(s, p + 1) == '>' ==> lexes_at(s, p, TokenType::Arrow, 2),
        s[p] == '-' && at(s, p + 1) != '>' ==> lexes_at(s, p, TokenType::Minus, 1),
        s[p] == '&' && at(s, p + 1) == '&' ==> lexes_at(s, p, TokenType::LogicalAnd, 2),
        s[p] == '&' && at(s, p + 1) != '&' ==> lexes_at(s, p, TokenType::BitwiseAnd, 1),
        s[p] == '|' && at(s, p + 1) == '|' ==> lexes_at(s, p, TokenType::LogicalOr, 2),
        s[p] == '|' && at(s, p + 1) != '|' ==> lexes_at(s, p, TokenType::BitwiseOr, 1),
{
    lemma_step_bounds(s, p);
}

/// Each comparison, assignment and punctuation character lexes to a
/// token of its own kind: `==` and `=` are `Equal`, `=>` is `FatArrow`,
/// `!=` is `NotEqual`, `:=` is `Assign` and `:` `Colon`; `<`, `<=`, `<<`
/// and `>`, `>=`, `>>` are `Less`, `LessEqual`, `LShift`, `Greater`,
/// `GreaterEqual`, `RShift`; brackets, `,`, `;`, `?`, `.` and `..` each
/// have their own kind.
pub proof fn law_punctuation_tokens(s: Seq<char>, p: int)
    requires
        0 <= p < s.len(),
    ensures
        s[p] == '=' && at(s, p + 1) == '>' ==> lexes_at(s, p, TokenType::FatArrow, 2),
        s[p] == '=' && at(s, p + 1) == '=' ==> lexes_at(s, p, TokenType::Equal, 2),
        s[p] == '=' && at(s, p + 1) != '>' && at(s, p + 1) != '=' ==> lexes_at(s, p, TokenType::Equal, 1),
        s[p] == '!' && at(s, p + 1) == '=' ==> lexes_at(s, p, TokenType::NotEqual, 2),
        s[p] == ':' && at(s, p + 1) == '=' ==> lexes_at(s, p, TokenType::Assign, 2),
        s[p] == ':' && at(s, p + 1) != '=' ==> lexes_at(s, p, TokenType::Colon, 1),
        s[p] == '<' && at(s, p + 1) == '=' ==> lexes_at(s, p, TokenType::LessEqual, 2),
        s[p] == '<' && at(s, p + 1) == '<' ==> lexes_at(s, p, TokenType::LShift, 2),
        s[p] == '<' && at(s, p + 1) != '=' && at(s, p + 1) != '<' ==> lexes_at(s, p, TokenType::Less, 1),
        s[p] == '>' && at(s, p + 1) == '=' ==> lexes_at(s, p, TokenType::GreaterEqual, 2),
        s[p] == '>' && at(s, p + 1) == '>' ==> lexes_at(s, p, TokenType::RShift, 2),
        s[p] == '>' && at(s, p + 1) != '=' && at(s, p + 1) != '>' ==> lexes_at(s, p, TokenType::Greater, 1),
        s[p] == '(' ==> lexes_at(s, p, TokenType::LParen, 1),
        s[p] == ')' ==> lexes_at(s, p, TokenType::RParen, 1),
        s[p] == '[' ==> lexes_at(s, p, TokenType::LBracket, 1),
        s[p] == ']' ==> lexes_at(s, p, TokenType::RBracket, 1),
        s[p] == '{' ==> lexes_at(s, p, TokenType::LBrace, 1),
        s[p] == '}' ==> lexes_at(s, p, TokenType::RBrace, 1),
        s[p] == ',' ==> lexes_at(s, p, TokenType::Comma, 1),
        s[p] == ';' ==> lexes_at(s, p, TokenType::Semicolon, 1),
        s[p] == '?' ==> lexes_at(s, p, TokenType::QuestionMark, 1),
        s[p] == '.' && at(s, p + 1) == '.' ==> lexes_at(s, p, TokenType::Range, 2),
        s[p] == '.' && at(s, p + 1) != '.' ==> lexes_at(s, p, TokenType::Dot, 1),
{
    lemma_step_bounds(s, p);
}

} // verus!
