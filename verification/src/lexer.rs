//! The Mog lexer: source text to tokens.

use vstd::prelude::*;
use vstd::utf8::*;

use crate::ast::{Position, Span};
use crate::lexer_spec::{
    at, block_end, brackets_end, first_keyword, first_keyword_from, fstr_body, fstr_interp,
    fstr_step, fstr_text, fstring, keyword, lemma_first_keyword_from, lemma_fstr_step_bounds, lemma_type_len_bounds,
    word_step, op_at, str_end, tmpl_text, tmpl_step, tmpl_interp, tmpl_body, template,
    spaces_end, lemma_tmpl_step_bounds, number_len, radix_end, lex, lex_from, lemma_step_bounds,
    lemma_number_len_bounds, col_at, digits_end, idx_at, is_digit, is_ident_start_char, is_word,
    is_ws, keyword_matches, lemma_digits_end_bounds, lexeme, line_at, line_end, radix_digit,
    starts_with_at, step, joined_texts, no_template, law_lexemes_rebuild_source, lemma_lex_from_laws, type_base_len, type_len, utf8_len, width, word_end, ws_end, Lexeme,
};
use crate::text::{chars_of, push_char, string_from_slice, string_of_char};
use crate::token::{Token, TokenType};

verus! {

// ---------------------------------------------------------------------------
// Tokens against lexemes
// ---------------------------------------------------------------------------

/// `p` is the source position of character position `i` of `s`.
pub open spec fn pos_is(p: Position, s: Seq<char>, i: int) -> bool {
    &&& p.line == line_at(s, i)
    &&& p.column == col_at(s, i)
    &&& p.index == idx_at(s, i)
}

/// Token `t` is the concrete form of lexeme `l` of source `s`.
pub open spec fn token_is(t: Token, l: Lexeme, s: Seq<char>) -> bool {
    &&& t.token_type == l.kind
    &&& t.value@ == l.text
    &&& pos_is(t.span.start, s, l.start)
    &&& pos_is(t.span.end, s, l.end)
}

/// The tokens `ts` are, one for one, the lexemes `ls` of `s`.
pub open spec fn tokens_match(ts: Seq<Token>, ls: Seq<Lexeme>, s: Seq<char>) -> bool {
    &&& ts.len() == ls.len()
    &&& forall|i: int| 0 <= i < ts.len() ==> #[trigger] token_is(ts[i], ls[i], s)
}

/// `new` is `old` followed by the tokens of the lexemes `ls`.
pub open spec fn tokens_extend(
    old: Seq<Token>,
    new: Seq<Token>,
    ls: Seq<Lexeme>,
    s: Seq<char>,
) -> bool {
    &&& new.len() == old.len() + ls.len()
    &&& forall|i: int| 0 <= i < old.len() ==> new[i] == old[i]
    &&& forall|j: int| 0 <= j < ls.len() ==> #[trigger] token_is(new[old.len() + j], ls[j], s)
}

pub proof fn lemma_tokens_extend_trans(
    a: Seq<Token>,
    b: Seq<Token>,
    c: Seq<Token>,
    l1: Seq<Lexeme>,
    l2: Seq<Lexeme>,
    s: Seq<char>,
)
    requires
        tokens_extend(a, b, l1, s),
        tokens_extend(b, c, l2, s),
    ensures
        tokens_extend(a, c, l1 + l2, s),
{
    assert forall|j: int| 0 <= j < (l1 + l2).len() implies #[trigger] token_is(
        c[a.len() + j],
        (l1 + l2)[j],
        s,
    ) by {
        if j < l1.len() {
            assert(token_is(b[a.len() + j], l1[j], s));
            assert(c[a.len() + j] == b[a.len() + j]);
        } else {
            let k = j - l1.len();
            assert(token_is(c[b.len() + k], l2[k], s));
            assert(b.len() + k == a.len() + j);
        }
    }
}

// ---------------------------------------------------------------------------
// Byte offsets
// ---------------------------------------------------------------------------

pub proof fn lemma_encode_utf8_concat(a: Seq<char>, b: Seq<char>)
    ensures
        encode_utf8(a + b) == encode_utf8(a) + encode_utf8(b),
    decreases a.len(),
{
    if a.len() == 0 {
        assert(a + b =~= b);
        assert(encode_utf8(a) =~= Seq::<u8>::empty());
        assert(encode_utf8(a) + encode_utf8(b) =~= encode_utf8(b));
    } else {
        assert((a + b).drop_first() =~= a.drop_first() + b);
        lemma_encode_utf8_concat(a.drop_first(), b);
        assert(encode_utf8(a + b) =~= encode_scalar(a[0] as u32) + encode_utf8(a.drop_first() + b));
        assert(encode_utf8(a) =~= encode_scalar(a[0] as u32) + encode_utf8(a.drop_first()));
    }
}

pub proof fn lemma_utf8_len_single(c: char)
    ensures
        utf8_len(seq![c]) == width(c),
{
    assert(seq![c].drop_first() =~= Seq::<char>::empty());
    assert(encode_utf8(seq![c]) =~= encode_scalar(c as u32) + encode_utf8(Seq::<char>::empty()));
}

pub proof fn lemma_idx_step(s: Seq<char>, p: int)
    requires
        0 <= p < s.len(),
    ensures
        idx_at(s, p + 1) == idx_at(s, p) + width(s[p]),
{
    assert(s.take(p + 1) =~= s.take(p) + seq![s[p]]);
    lemma_encode_utf8_concat(s.take(p), seq![s[p]]);
    lemma_utf8_len_single(s[p]);
}

pub proof fn lemma_width_pos(c: char)
    ensures
        1 <= width(c) <= 4,
{
}

pub proof fn lemma_idx_mono(s: Seq<char>, p: int, q: int)
    requires
        0 <= p <= q <= s.len(),
    ensures
        idx_at(s, p) <= idx_at(s, q),
        idx_at(s, q) - idx_at(s, p) >= q - p,
    decreases q - p,
{
    if p < q {
        lemma_idx_mono(s, p, q - 1);
        lemma_idx_step(s, q - 1);
        lemma_width_pos(s[q - 1]);
    }
}

pub proof fn lemma_idx_total(s: Seq<char>)
    ensures
        idx_at(s, s.len() as int) == utf8_len(s),
{
    assert(s.take(s.len() as int) =~= s);
}

pub proof fn lemma_line_col_bound(s: Seq<char>, p: int)
    requires
        0 <= p <= s.len(),
    ensures
        line_at(s, p) <= idx_at(s, p) + 1,
        col_at(s, p) <= idx_at(s, p) + 1,
        line_at(s, p) >= 1,
        col_at(s, p) >= 1,
    decreases p,
{
    if p > 0 {
        lemma_line_col_bound(s, p - 1);
        lemma_idx_step(s, p - 1);
        lemma_width_pos(s[p - 1]);
    } else {
        assert(s.take(0) =~= Seq::<char>::empty());
    }
}

/// Number of bytes in the UTF-8 encoding of `c`.
pub(crate) fn char_width(c: char) -> (w: u32)
    ensures
        w == width(c),
{
    proof {
        char_is_scalar(c);
    }
    let u = c as u32;
    if u < 0x80 {
        1
    } else if u < 0x800 {
        2
    } else if u < 0x10000 {
        3
    } else {
        4
    }
}

// ---------------------------------------------------------------------------
// Character classes
// ---------------------------------------------------------------------------

fn ws_char(c: char) -> (r: bool)
    ensures
        r == is_ws(c),
{
    c == ' ' || c == '\t' || c == '\n' || c == '\r'
}

fn digit_char(c: char) -> (r: bool)
    ensures
        r == is_digit(c),
{
    '0' <= c && c <= '9'
}

/// True when `c` may continue a word: an ASCII letter, a digit, or `_`.
pub fn is_word_char(c: char) -> (r: bool)
    ensures
        r == is_word(c),
{
    ('a' <= c && c <= 'z') || ('A' <= c && c <= 'Z') || ('0' <= c && c <= '9') || c == '_'
}

/// True when `c` may start an identifier: an ASCII letter or `_`.
pub fn is_ident_start(c: char) -> (r: bool)
    ensures
        r == is_ident_start_char(c),
{
    ('a' <= c && c <= 'z') || ('A' <= c && c <= 'Z') || c == '_'
}

fn radix_digit_char(c: char, radix: u32) -> (r: bool)
    ensures
        r == radix_digit(c, radix as nat),
{
    if radix == 16 {
        ('0' <= c && c <= '9') || ('a' <= c && c <= 'f') || ('A' <= c && c <= 'F') || c == '_'
    } else if radix == 2 {
        c == '0' || c == '1' || c == '_'
    } else {
        ('0' <= c && c <= '7') || c == '_'
    }
}

// ---------------------------------------------------------------------------
// Lexer state
// ---------------------------------------------------------------------------

struct Lexer {
    chars: Vec<char>,
    pos: usize,
    line: u32,
    column: u32,
    index: u32,
}

impl Lexer {
    spec fn wf(&self) -> bool {
        &&& self.pos <= self.chars.len()
        &&& self.chars.len() < u32::MAX
        &&& utf8_len(self.chars@) < u32::MAX
        &&& self.line == line_at(self.chars@, self.pos as int)
        &&& self.column == col_at(self.chars@, self.pos as int)
        &&& self.index == idx_at(self.chars@, self.pos as int)
    }

    spec fn src(&self) -> Seq<char> {
        self.chars@
    }

    fn new(chars: Vec<char>) -> (l: Lexer)
        requires
            utf8_len(chars@) < u32::MAX,
        ensures
            l.wf(),
            l.chars == chars,
            l.pos == 0,
    {
        proof {
            assert(chars@.take(0) =~= Seq::<char>::empty());
            lemma_idx_mono(chars@, 0, chars@.len() as int);
            lemma_idx_total(chars@);
        }
        Lexer { chars, pos: 0, line: 1, column: 1, index: 0 }
    }

    fn current_position(&self) -> (p: Position)
        requires
            self.wf(),
        ensures
            pos_is(p, self.chars@, self.pos as int),
    {
        Position { line: self.line, column: self.column, index: self.index }
    }

    fn at_end(&self) -> (r: bool)
        requires
            self.wf(),
        ensures
            r == (self.pos >= self.chars.len()),
    {
        self.pos >= self.chars.len()
    }

    /// The character at the current position, or NUL at the end.
    fn peek(&self) -> (c: char)
        requires
            self.wf(),
        ensures
            c == at(self.chars@, self.pos as int),
    {
        if self.pos < self.chars.len() {
            self.chars[self.pos]
        } else {
            '\0'
        }
    }

    /// The character `offset` places ahead, or NUL past the end.
    fn peek_at(&self, offset: usize) -> (c: char)
        requires
            self.wf(),
            offset <= 8,
        ensures
            c == at(self.chars@, self.pos + offset),
    {
        if offset < self.chars.len() - self.pos {
            self.chars[self.pos + offset]
        } else {
            '\0'
        }
    }

    /// Moves past one character, keeping line, column and offset up to date.
    fn advance(&mut self)
        requires
            old(self).wf(),
            old(self).pos < old(self).chars.len(),
        ensures
            final(self).wf(),
            final(self).chars == old(self).chars,
            final(self).pos == old(self).pos + 1,
    {
        let ghost s = self.chars@;
        let ghost p = self.pos as int;
        let c = self.chars[self.pos];
        let w = char_width(c);
        proof {
            lemma_idx_step(s, p);
            lemma_idx_mono(s, p + 1, s.len() as int);
            lemma_idx_total(s);
            lemma_line_col_bound(s, p + 1);
            lemma_line_col_bound(s, p);
        }
        if c == '\n' {
            self.line = self.line + 1;
            self.column = 1;
        } else {
            self.column = self.column + w;
        }
        self.index = self.index + w;
        self.pos = self.pos + 1;
    }

    /// Moves past `n` characters.
    fn advance_n(&mut self, n: usize)
        requires
            old(self).wf(),
            old(self).pos + n <= old(self).chars.len(),
        ensures
            final(self).wf(),
            final(self).chars == old(self).chars,
            final(self).pos == old(self).pos + n,
    {
        let mut i: usize = 0;
        while i < n
            invariant
                self.wf(),
                self.chars == old(self).chars,
                i <= n,
                self.pos == old(self).pos + i,
                old(self).pos + n <= old(self).chars.len(),
            decreases n - i,
        {
            self.advance();
            i = i + 1;
        }
    }

    fn make_token(&self, token_type: TokenType, value: String, start: Position) -> (t: Token)
        requires
            self.wf(),
        ensures
            t.token_type == token_type,
            t.value == value,
            t.span.start == start,
            pos_is(t.span.end, self.chars@, self.pos as int),
    {
        Token { token_type, value, span: Span { start, end: self.current_position() } }
    }

    /// Pushes the token of the single lexeme covering `start..self.pos`.
    fn push_slice_token(
        &self,
        tokens: &mut Vec<Token>,
        kind: TokenType,
        start: usize,
        start_pos: Position,
    )
        requires
            self.wf(),
            start <= self.pos,
            pos_is(start_pos, self.chars@, start as int),
        ensures
            tokens_extend(
                old(tokens)@,
                final(tokens)@,
                seq![lexeme(kind, self.chars@.subrange(start as int, self.pos as int), start as int, self.pos as int)],
                self.chars@,
            ),
    {
        let value = string_from_slice(&self.chars, start, self.pos);
        let t = self.make_token(kind, value, start_pos);
        tokens.push(t);
    }

    // -----------------------------------------------------------------------
    // Whitespace and comments
    // -----------------------------------------------------------------------

    fn scan_whitespace(&mut self, tokens: &mut Vec<Token>)
        requires
            old(self).wf(),
            old(self).pos < old(self).chars.len(),
            is_ws(old(self).chars@[old(self).pos as int]),
        ensures
            final(self).wf(),
            final(self).chars == old(self).chars,
            final(self).pos == step(old(self).chars@, old(self).pos as int).1,
            tokens_extend(old(tokens)@, final(tokens)@, step(old(self).chars@, old(self).pos as int).0, old(self).chars@),
    {
        let ghost s = self.chars@;
        let start = self.pos;
        let start_pos = self.current_position();
        while self.pos < self.chars.len() && ws_char(self.chars[self.pos])
            invariant
                self.wf(),
                self.chars == old(self).chars,
                s == self.chars@,
                start <= self.pos,
                ws_end(s, self.pos as int) == ws_end(s, start as int),
            decreases self.chars.len() - self.pos,
        {
            self.advance();
        }
        self.push_slice_token(tokens, TokenType::Whitespace, start, start_pos);
    }

    fn scan_line_comment(&mut self, tokens: &mut Vec<Token>)
        requires
            old(self).wf(),
            old(self).pos < old(self).chars.len(),
            !is_ws(old(self).chars@[old(self).pos as int]),
            (old(self).chars@[old(self).pos as int] == '/' && at(old(self).chars@, old(self).pos + 1) == '/')
                || old(self).chars@[old(self).pos as int] == '#',
        ensures
            final(self).wf(),
            final(self).chars == old(self).chars,
            final(self).pos == step(old(self).chars@, old(self).pos as int).1,
            tokens_extend(old(tokens)@, final(tokens)@, step(old(self).chars@, old(self).pos as int).0, old(self).chars@),
    {
        let ghost s = self.chars@;
        let start = self.pos;
        let start_pos = self.current_position();
        while self.pos < self.chars.len() && self.chars[self.pos] != '\n'
            invariant
                self.wf(),
                self.chars == old(self).chars,
                s == self.chars@,
                start <= self.pos,
                line_end(s, self.pos as int) == line_end(s, start as int),
            decreases self.chars.len() - self.pos,
        {
            self.advance();
        }
        self.push_slice_token(tokens, TokenType::Comment, start, start_pos);
    }

    fn scan_block_comment(&mut self, tokens: &mut Vec<Token>)
        requires
            old(self).wf(),
            old(self).pos < old(self).chars.len(),
            !is_ws(old(self).chars@[old(self).pos as int]),
            old(self).chars@[old(self).pos as int] == '/',
            at(old(self).chars@, old(self).pos + 1) == '*',
        ensures
            final(self).wf(),
            final(self).chars == old(self).chars,
            final(self).pos == step(old(self).chars@, old(self).pos as int).1,
            tokens_extend(old(tokens)@, final(tokens)@, step(old(self).chars@, old(self).pos as int).0, old(self).chars@),
    {
        let ghost s = self.chars@;
        let start = self.pos;
        let start_pos = self.current_position();
        self.advance_n(2);
        let mut depth: usize = 1;
        while self.pos < self.chars.len() && depth > 0
            invariant
                self.wf(),
                self.chars == old(self).chars,
                s == self.chars@,
                start + 2 <= self.pos,
                depth <= self.pos,
                block_end(s, self.pos as int, depth as nat) == block_end(s, start + 2, 1),
            decreases self.chars.len() - self.pos,
        {
            let c = self.chars[self.pos];
            let d = self.peek_at(1);
            if c == '/' && d == '*' {
                self.advance_n(2);
                depth = depth + 1;
            } else if c == '*' && d == '/' {
                self.advance_n(2);
                depth = depth - 1;
            } else {
                self.advance();
            }
        }
        let kind = if depth > 0 {
            TokenType::Unknown
        } else {
            TokenType::Comment
        };
        self.push_slice_token(tokens, kind, start, start_pos);
    }

    // -----------------------------------------------------------------------
    // Words: keywords, f-strings, type names, identifiers
    // -----------------------------------------------------------------------

    /// Whether `w` stands at position `a`.
    fn seq_at(&self, a: usize, w: &Vec<char>) -> (r: bool)
        requires
            self.wf(),
        ensures
            r == starts_with_at(self.chars@, a as int, w@),
    {
        if w.len() > self.chars.len() || a > self.chars.len() - w.len() {
            return false;
        }
        let mut i: usize = 0;
        while i < w.len()
            invariant
                a + w.len() <= self.chars.len(),
                i <= w.len(),
                forall|j: int| 0 <= j < i ==> self.chars@[a + j] == w@[j],
            decreases w.len() - i,
        {
            if self.chars[a + i] != w[i] {
                assert(self.chars@.subrange(a as int, a + w.len())[i as int] != w@[i as int]);
                return false;
            }
            i = i + 1;
        }
        assert(self.chars@.subrange(a as int, a + w.len()) =~= w@);
        true
    }

    /// Whether keyword `kw` stands at the current position.
    fn match_keyword(&self, kw: &Vec<char>) -> (r: bool)
        requires
            self.wf(),
        ensures
            r == keyword_matches(self.chars@, self.pos as int, kw@),
    {
        if kw.len() == 0 || !self.seq_at(self.pos, kw) {
            return false;
        }
        let next = self.peek_at_index(self.pos + kw.len());
        !is_word_char(next)
    }

    /// The character at index `i`, or NUL past the end.
    fn peek_at_index(&self, i: usize) -> (c: char)
        requires
            self.wf(),
        ensures
            c == at(self.chars@, i as int),
    {
        if i < self.chars.len() {
            self.chars[i]
        } else {
            '\0'
        }
    }

    /// End of the run of word characters starting at `i`.
    fn word_end_from(&self, i: usize) -> (e: usize)
        requires
            self.wf(),
            i <= self.chars.len(),
        ensures
            e == word_end(self.chars@, i as int),
            i <= e <= self.chars.len(),
    {
        let mut e: usize = i;
        while e < self.chars.len() && is_word_char(self.chars[e])
            invariant
                i <= e <= self.chars.len(),
                word_end(self.chars@, e as int) == word_end(self.chars@, i as int),
            decreases self.chars.len() - e,
        {
            e = e + 1;
        }
        e
    }

    /// End of the run of decimal digits starting at `i`.
    fn digits_end_from(&self, i: usize) -> (e: usize)
        requires
            self.wf(),
            i <= self.chars.len(),
        ensures
            e == digits_end(self.chars@, i as int),
            i <= e <= self.chars.len(),
    {
        let mut e: usize = i;
        while e < self.chars.len() && digit_char(self.chars[e])
            invariant
                i <= e <= self.chars.len(),
                digits_end(self.chars@, e as int) == digits_end(self.chars@, i as int),
            decreases self.chars.len() - e,
        {
            e = e + 1;
        }
        e
    }

    /// Length of the primitive type name at the current position, before any `[]`.
    fn match_type_base(&self) -> (r: Option<usize>)
        requires
            self.wf(),
        ensures
            r matches Some(n) ==> type_base_len(self.chars@, self.pos as int) == Some(n as int),
            r is None ==> type_base_len(self.chars@, self.pos as int) is None,
    {
        let ghost s = self.chars@;
        let p = self.pos;
        let c = self.peek();
        if c == 'i' || c == 'u' || c == 'f' {
            if p >= self.chars.len() {
                return None;
            }
            let d = self.digits_end_from(p + 1);
            if d > p + 1 {
                let n = d - (p + 1);
                let w8 = vec!['8'];
                let w16 = vec!['1', '6'];
                let w32 = vec!['3', '2'];
                let w64 = vec!['6', '4'];
                let w128 = vec!['1', '2', '8'];
                let w256 = vec!['2', '5', '6'];
                let ok = (n == 1 && self.seq_at(p + 1, &w8)) || (n == 2 && self.seq_at(p + 1, &w16))
                    || (n == 2 && self.seq_at(p + 1, &w32)) || (n == 2 && self.seq_at(p + 1, &w64))
                    || (n == 3 && self.seq_at(p + 1, &w128)) || (n == 3 && self.seq_at(p + 1, &w256));
                proof {
                    let sub = s.subrange(p + 1, d as int);
                    assert(w8@ =~= seq!['8']);
                    assert(w16@ =~= seq!['1', '6']);
                    assert(w32@ =~= seq!['3', '2']);
                    assert(w64@ =~= seq!['6', '4']);
                    assert(w128@ =~= seq!['1', '2', '8']);
                    assert(w256@ =~= seq!['2', '5', '6']);
                    assert(sub.len() == n);
                    assert(sub == seq!['8'] ==> n == 1);
                    assert(sub == seq!['1', '6'] ==> n == 2);
                    assert(sub == seq!['3', '2'] ==> n == 2);
                    assert(sub == seq!['6', '4'] ==> n == 2);
                    assert(sub == seq!['1', '2', '8'] ==> n == 3);
                    assert(sub == seq!['2', '5', '6'] ==> n == 3);
                    assert(ok == (sub == seq!['8'] || sub == seq!['1', '6'] || sub == seq!['3', '2']
                        || sub == seq!['6', '4'] || sub == seq!['1', '2', '8'] || sub == seq!['2', '5', '6']));
                }
                if ok {
                    Some(d - p)
                } else {
                    None
                }
            } else {
                let wi = vec!['i', 'n', 't'];
                proof {
                    assert(wi@ =~= seq!['i', 'n', 't']);
                }
                let wf = vec!['f', 'l', 'o', 'a', 't'];
                proof {
                    assert(wf@ =~= seq!['f', 'l', 'o', 'a', 't']);
                }
                if self.seq_at(p, &wi) {
                    Some(3)
                } else if self.seq_at(p, &wf) {
                    Some(5)
                } else {
                    None
                }
            }
        } else if c == 'b' {
            let wb = vec!['b', 'f', '1', '6'];
            let wo = vec!['b', 'o', 'o', 'l'];
            proof {
                assert(wb@ =~= seq!['b', 'f', '1', '6']);
                assert(wo@ =~= seq!['b', 'o', 'o', 'l']);
            }
            if self.seq_at(p, &wb) || self.seq_at(p, &wo) {
                Some(4)
            } else {
                None
            }
        } else if c == 'p' {
            let wp = vec!['p', 't', 'r'];
            proof {
                assert(wp@ =~= seq!['p', 't', 'r']);
            }
            if self.seq_at(p, &wp) {
                Some(3)
            } else {
                None
            }
        } else if c == 's' {
            let ws = vec!['s', 't', 'r', 'i', 'n', 'g'];
            proof {
                assert(ws@ =~= seq!['s', 't', 'r', 'i', 'n', 'g']);
            }
            if self.seq_at(p, &ws) {
                Some(6)
            } else {
                None
            }
        } else {
            None
        }
    }

    /// Length of the type token at the current position, if one stands there.
    fn match_type(&self) -> (r: Option<usize>)
        requires
            self.wf(),
            self.pos < self.chars.len(),
        ensures
            r matches Some(n) ==> type_len(self.chars@, self.pos as int) == Some(n as int),
            r is None ==> type_len(self.chars@, self.pos as int) is None,
    {
        let b = match self.match_type_base() {
            Some(b) => b,
            None => return None,
        };
        proof {
            let c = self.chars@[self.pos as int];
            if c == 'i' || c == 'u' || c == 'f' {
                lemma_digits_end_bounds(self.chars@, self.pos + 1);
            }
        }
        let p = self.pos;
        if is_word_char(self.peek_at_index(p + b)) {
            return None;
        }
        let mut e: usize = p + b;
        while self.chars.len() - e > 1 && self.chars[e] == '[' && self.chars[e + 1] == ']'
            invariant
                p + b <= e <= self.chars.len(),
                brackets_end(self.chars@, e as int) == brackets_end(self.chars@, p + b),
            decreases self.chars.len() - e,
        {
            e = e + 2;
        }
        if is_word_char(self.peek_at_index(e)) {
            return None;
        }
        Some(e - p)
    }

    /// Keyword `k` of the keyword table, as characters, with its token kind.
    fn keyword_entry(k: usize) -> (r: (Vec<char>, TokenType))
        requires
            k < 37,
        ensures
            r.0@ == keyword(k as int).0,
            r.1 == keyword(k as int).1,
    {
        if k == 0 {
            let v = vec!['f', 'n'];
            proof {
                assert(v@ =~= seq!['f', 'n']);
            }
            (v, TokenType::Fn)
        } else if k == 1 {
            let v = vec!['r', 'e', 't', 'u', 'r', 'n'];
            proof {
                assert(v@ =~= seq!['r', 'e', 't', 'u', 'r', 'n']);
            }
            (v, TokenType::Return)
        } else if k == 2 {
            let v = vec!['i', 'f'];
            proof {
                assert(v@ =~= seq!['i', 'f']);
            }
            (v, TokenType::If)
        } else if k == 3 {
            let v = vec!['e', 'l', 's', 'e'];
            proof {
                assert(v@ =~= seq!['e', 'l', 's', 'e']);
            }
            (v, TokenType::Else)
        } else if k == 4 {
            let v = vec!['w', 'h', 'i', 'l', 'e'];
            proof {
                assert(v@ =~= seq!['w', 'h', 'i', 'l', 'e']);
            }
            (v, TokenType::While)
        } else if k == 5 {
            let v = vec!['f', 'o', 'r'];
            proof {
                assert(v@ =~= seq!['f', 'o', 'r']);
            }
            (v, TokenType::For)
        } else if k == 6 {
            let v = vec!['t', 'o'];
            proof {
                assert(v@ =~= seq!['t', 'o']);
            }
            (v, TokenType::To)
        } else if k == 7 {
            let v = vec!['i', 'n'];
            proof {
                assert(v@ =~= seq!['i', 'n']);
            }
            (v, TokenType::In)
        } else if k == 8 {
            let v = vec!['b', 'r', 'e', 'a', 'k'];
            proof {
                assert(v@ =~= seq!['b', 'r', 'e', 'a', 'k']);
            }
            (v, TokenType::Break)
        } else if k == 9 {
            let v = vec!['c', 'o', 'n', 't', 'i', 'n', 'u', 'e'];
            proof {
                assert(v@ =~= seq!['c', 'o', 'n', 't', 'i', 'n', 'u', 'e']);
            }
            (v, TokenType::Continue)
        } else if k == 10 {
            let v = vec!['c', 'a', 's', 't'];
            proof {
                assert(v@ =~= seq!['c', 'a', 's', 't']);
            }
            (v, TokenType::Cast)
        } else if k == 11 {
            let v = vec!['a', 's'];
            proof {
                assert(v@ =~= seq!['a', 's']);
            }
            (v, TokenType::As)
        } else if k == 12 {
            let v = vec!['n', 'o', 't'];
            proof {
                assert(v@ =~= seq!['n', 'o', 't']);
            }
            (v, TokenType::Not)
        } else if k == 13 {
            let v = vec!['s', 't', 'r', 'u', 'c', 't'];
            proof {
                assert(v@ =~= seq!['s', 't', 'r', 'u', 'c', 't']);
            }
            (v, TokenType::Struct)
        } else if k == 14 {
            let v = vec!['s', 'o', 'a'];
            proof {
                assert(v@ =~= seq!['s', 'o', 'a']);
            }
            (v, TokenType::Soa)
        } else if k == 15 {
            let v = vec!['r', 'e', 'q', 'u', 'i', 'r', 'e', 's'];
            proof {
                assert(v@ =~= seq!['r', 'e', 'q', 'u', 'i', 'r', 'e', 's']);
            }
            (v, TokenType::Requires)
        } else if k == 16 {
            let v = vec!['o', 'p', 't', 'i', 'o', 'n', 'a', 'l'];
            proof {
                assert(v@ =~= seq!['o', 'p', 't', 'i', 'o', 'n', 'a', 'l']);
            }
            (v, TokenType::Optional)
        } else if k == 17 {
            let v = vec!['L', 'L', 'M'];
            proof {
                assert(v@ =~= seq!['L', 'L', 'M']);
            }
            (v, TokenType::Llm)
        } else if k == 18 {
            let v = vec!['t', 'y', 'p', 'e'];
            proof {
                assert(v@ =~= seq!['t', 'y', 'p', 'e']);
            }
            (v, TokenType::TypeKw)
        } else if k == 19 {
            let v = vec!['m', 'a', 't', 'c', 'h'];
            proof {
                assert(v@ =~= seq!['m', 'a', 't', 'c', 'h']);
            }
            (v, TokenType::Match)
        } else if k == 20 {
            let v = vec!['t', 'r', 'y'];
            proof {
                assert(v@ =~= seq!['t', 'r', 'y']);
            }
            (v, TokenType::Try)
        } else if k == 21 {
            let v = vec!['c', 'a', 't', 'c', 'h'];
            proof {
                assert(v@ =~= seq!['c', 'a', 't', 'c', 'h']);
            }
            (v, TokenType::Catch)
        } else if k == 22 {
            let v = vec!['o', 'k'];
            proof {
                assert(v@ =~= seq!['o', 'k']);
            }
            (v, TokenType::OkKw)
        } else if k == 23 {
            let v = vec!['e', 'r', 'r'];
            proof {
                assert(v@ =~= seq!['e', 'r', 'r']);
            }
            (v, TokenType::ErrKw)
        } else if k == 24 {
            let v = vec!['s', 'o', 'm', 'e'];
            proof {
                assert(v@ =~= seq!['s', 'o', 'm', 'e']);
            }
            (v, TokenType::SomeKw)
        } else if k == 25 {
            let v = vec!['n', 'o', 'n', 'e'];
            proof {
                assert(v@ =~= seq!['n', 'o', 'n', 'e']);
            }
            (v, TokenType::NoneKw)
        } else if k == 26 {
            let v = vec!['i', 's'];
            proof {
                assert(v@ =~= seq!['i', 's']);
            }
            (v, TokenType::Is)
        } else if k == 27 {
            let v = vec!['t', 'e', 'n', 's', 'o', 'r'];
            proof {
                assert(v@ =~= seq!['t', 'e', 'n', 's', 'o', 'r']);
            }
            (v, TokenType::Tensor)
        } else if k == 28 {
            let v = vec!['a', 's', 'y', 'n', 'c'];
            proof {
                assert(v@ =~= seq!['a', 's', 'y', 'n', 'c']);
            }
            (v, TokenType::Async)
        } else if k == 29 {
            let v = vec!['a', 'w', 'a', 'i', 't'];
            proof {
                assert(v@ =~= seq!['a', 'w', 'a', 'i', 't']);
            }
            (v, TokenType::Await)
        } else if k == 30 {
            let v = vec!['s', 'p', 'a', 'w', 'n'];
            proof {
                assert(v@ =~= seq!['s', 'p', 'a', 'w', 'n']);
            }
            (v, TokenType::Spawn)
        } else if k == 31 {
            let v = vec!['p', 'a', 'c', 'k', 'a', 'g', 'e'];
            proof {
                assert(v@ =~= seq!['p', 'a', 'c', 'k', 'a', 'g', 'e']);
            }
            (v, TokenType::Package)
        } else if k == 32 {
            let v = vec!['i', 'm', 'p', 'o', 'r', 't'];
            proof {
                assert(v@ =~= seq!['i', 'm', 'p', 'o', 'r', 't']);
            }
            (v, TokenType::Import)
        } else if k == 33 {
            let v = vec!['p', 'u', 'b'];
            proof {
                assert(v@ =~= seq!['p', 'u', 'b']);
            }
            (v, TokenType::Pub)
        } else if k == 34 {
            let v = vec!['w', 'i', 't', 'h'];
            proof {
                assert(v@ =~= seq!['w', 'i', 't', 'h']);
            }
            (v, TokenType::With)
        } else if k == 35 {
            let v = vec!['t', 'r', 'u', 'e'];
            proof {
                assert(v@ =~= seq!['t', 'r', 'u', 'e']);
            }
            (v, TokenType::True)
        } else {
            let v = vec!['f', 'a', 'l', 's', 'e'];
            proof {
                assert(v@ =~= seq!['f', 'a', 'l', 's', 'e']);
            }
            (v, TokenType::False)
        }
    }

    /// Index of the first keyword that matches at the current position.
    fn find_keyword(&self) -> (r: Option<usize>)
        requires
            self.wf(),
        ensures
            r matches Some(k) ==> first_keyword(self.chars@, self.pos as int) == Some(k as int)
                && k < 37,
            r is None ==> first_keyword(self.chars@, self.pos as int) is None,
    {
        let mut k: usize = 0;
        while k < 37
            invariant
                self.wf(),
                k <= 37,
                first_keyword_from(self.chars@, self.pos as int, k as int) == first_keyword(
                    self.chars@,
                    self.pos as int,
                ),
            decreases 37 - k,
        {
            let (kw, _tt) = Self::keyword_entry(k);
            if self.match_keyword(&kw) {
                return Some(k);
            }
            k = k + 1;
        }
        None
    }

    /// Text of an f-string interpolation: scans to the matching `}`.
    fn scan_fstr_interp(&mut self, q: char) -> (r: String)
        requires
            old(self).wf(),
            q != '{',
            q != '}',
        ensures
            final(self).wf(),
            final(self).chars == old(self).chars,
            r@ == fstr_interp(old(self).chars@, old(self).pos as int, q, 1).0,
            final(self).pos == fstr_interp(old(self).chars@, old(self).pos as int, q, 1).1,
    {
        let ghost s = self.chars@;
        let ghost a = self.pos as int;
        let mut depth: usize = 1;
        let mut expr = String::new();
        while depth > 0 && self.pos < self.chars.len() && self.chars[self.pos] != q
            invariant
                self.wf(),
                self.chars == old(self).chars,
                s == self.chars@,
                a <= self.pos,
                depth <= self.pos - a + 1,
                expr@ + fstr_interp(s, self.pos as int, q, depth as nat).0 == fstr_interp(s, a, q, 1).0,
                fstr_interp(s, self.pos as int, q, depth as nat).1 == fstr_interp(s, a, q, 1).1,
            decreases self.chars.len() - self.pos,
        {
            let c = self.chars[self.pos];
            let ghost p = self.pos as int;
            let ghost d = depth as nat;
            if c == '{' {
                depth = depth + 1;
                push_char(&mut expr, c);
                self.advance();
                assert(expr@ + fstr_interp(s, self.pos as int, q, depth as nat).0 =~= (expr@.drop_last()
                    + (seq![c] + fstr_interp(s, p + 1, q, d + 1).0)));
            } else if c == '}' {
                depth = depth - 1;
                if depth > 0 {
                    push_char(&mut expr, c);
                    self.advance();
                    assert(expr@ + fstr_interp(s, self.pos as int, q, depth as nat).0 =~= (
                    expr@.drop_last() + (seq![c] + fstr_interp(s, p + 1, q, (d - 1) as nat).0)));
                } else {
                    self.advance();
                    assert(expr@ + fstr_interp(s, self.pos as int, q, 0).0 =~= expr@ + Seq::<char>::empty());
                }
            } else {
                push_char(&mut expr, c);
                self.advance();
                assert(expr@ + fstr_interp(s, self.pos as int, q, depth as nat).0 =~= (expr@.drop_last()
                    + (seq![c] + fstr_interp(s, p + 1, q, d).0)));
            }
        }
        assert(expr@ =~= expr@ + fstr_interp(s, self.pos as int, q, depth as nat).0);
        expr
    }

    /// A run of literal f-string text, with escapes decoded.
    fn scan_fstr_text(&mut self, q: char) -> (r: String)
        requires
            old(self).wf(),
        ensures
            final(self).wf(),
            final(self).chars == old(self).chars,
            r@ == fstr_text(old(self).chars@, old(self).pos as int, q).0,
            final(self).pos == fstr_text(old(self).chars@, old(self).pos as int, q).1,
    {
        let ghost s = self.chars@;
        let ghost a = self.pos as int;
        let mut txt = String::new();
        while self.pos < self.chars.len() && self.chars[self.pos] != '{' && self.chars[self.pos] != q
            && !(self.chars[self.pos] == '}' && self.peek_at(1) == '}')
            invariant
                self.wf(),
                self.chars == old(self).chars,
                s == self.chars@,
                a <= self.pos,
                txt@ + fstr_text(s, self.pos as int, q).0 == fstr_text(s, a, q).0,
                fstr_text(s, self.pos as int, q).1 == fstr_text(s, a, q).1,
            decreases self.chars.len() - self.pos,
        {
            let c = self.chars[self.pos];
            let ghost p = self.pos as int;
            if c == '\\' {
                self.advance();
                if self.pos < self.chars.len() {
                    let e = self.chars[self.pos];
                    let u = if e == 'n' {
                        '\n'
                    } else if e == 't' {
                        '\t'
                    } else if e == 'r' {
                        '\r'
                    } else {
                        e
                    };
                    push_char(&mut txt, u);
                    self.advance();
                    assert(txt@ + fstr_text(s, self.pos as int, q).0 =~= (txt@.drop_last() + (seq![u]
                        + fstr_text(s, p + 2, q).0)));
                } else {
                    assert(txt@ + fstr_text(s, self.pos as int, q).0 =~= txt@ + Seq::<char>::empty());
                }
            } else {
                push_char(&mut txt, c);
                self.advance();
                assert(txt@ + fstr_text(s, self.pos as int, q).0 =~= (txt@.drop_last() + (seq![c]
                    + fstr_text(s, p + 1, q).0)));
            }
        }
        assert(txt@ =~= txt@ + fstr_text(s, self.pos as int, q).0);
        txt
    }

    /// One step inside an f-string body.
    fn scan_fstr_step(&mut self, tokens: &mut Vec<Token>, q: char)
        requires
            old(self).wf(),
            old(self).pos < old(self).chars.len(),
            old(self).chars@[old(self).pos as int] != q,
            q == '"' || q == '\'',
        ensures
            final(self).wf(),
            final(self).chars == old(self).chars,
            final(self).pos == fstr_step(old(self).chars@, old(self).pos as int, q).1,
            tokens_extend(old(tokens)@, final(tokens)@, fstr_step(old(self).chars@, old(self).pos as int, q).0, old(self).chars@),
    {
        let ghost s = self.chars@;
        let ghost p = self.pos as int;
        let c = self.chars[self.pos];
        if c == '{' {
            if self.peek_at(1) == '{' {
                let part_start = self.current_position();
                self.advance_n(2);
                let t = self.make_token(TokenType::TemplateStringPart, string_of_char('{'), part_start);
                tokens.push(t);
            } else {
                let interp_start = self.current_position();
                self.advance();
                let open = self.make_token(TokenType::TemplateInterpStart, string_of_char('{'), interp_start);
                tokens.push(open);
                let ghost t1 = tokens@;
                let expr_start = self.current_position();
                let expr = self.scan_fstr_interp(q);
                if !expr.as_str().is_empty() {
                    let part = self.make_token(TokenType::TemplateStringPart, expr, expr_start);
                    tokens.push(part);
                }
                let end_pos = self.current_position();
                let close = self.make_token(TokenType::TemplateInterpEnd, string_of_char('}'), end_pos);
                tokens.push(close);
                proof {
                    let (txt, e) = fstr_interp(s, p + 1, q, 1);
                    let mid = if txt.len() > 0 {
                        seq![lexeme(TokenType::TemplateStringPart, txt, p + 1, e)]
                    } else {
                        seq![]
                    };
                    let ls = seq![lexeme(TokenType::TemplateInterpStart, seq!['{'], p, p + 1)] + mid
                        + seq![lexeme(TokenType::TemplateInterpEnd, seq!['}'], e, e)];
                    assert(fstr_step(s, p, q).0 == ls);
                    assert(tokens_extend(old(tokens)@, tokens@, ls, s)) by {
                        assert(ls.len() == old(tokens)@.len() + ls.len() - old(tokens)@.len());
                        assert forall|j: int| 0 <= j < ls.len() implies #[trigger] token_is(
                            tokens@[old(tokens)@.len() + j],
                            ls[j],
                            s,
                        ) by {
                            if txt.len() > 0 {
                                assert(ls.len() == 3);
                            } else {
                                assert(ls.len() == 2);
                            }
                        }
                    }
                }
            }
        } else if c == '}' {
            let part_start = self.current_position();
            if self.peek_at(1) == '}' {
                self.advance_n(2);
            } else {
                self.advance();
            }
            let t = self.make_token(TokenType::TemplateStringPart, string_of_char('}'), part_start);
            tokens.push(t);
        } else {
            let part_start = self.current_position();
            let txt = self.scan_fstr_text(q);
            if !txt.as_str().is_empty() {
                let t = self.make_token(TokenType::TemplateStringPart, txt, part_start);
                tokens.push(t);
            }
        }
    }

    /// Lexes the f-string whose `f` stands at the current position.
    fn lex_fstring(&mut self, tokens: &mut Vec<Token>, start_pos: Position)
        requires
            old(self).wf(),
            old(self).pos < old(self).chars.len(),
            old(self).chars@[old(self).pos as int] == 'f',
            at(old(self).chars@, old(self).pos + 1) == '"' || at(old(self).chars@, old(self).pos + 1) == '\'',
            pos_is(start_pos, old(self).chars@, old(self).pos as int),
        ensures
            final(self).wf(),
            final(self).chars == old(self).chars,
            final(self).pos == fstring(old(self).chars@, old(self).pos as int).1,
            tokens_extend(old(tokens)@, final(tokens)@, fstring(old(self).chars@, old(self).pos as int).0, old(self).chars@),
    {
        let ghost s = self.chars@;
        let ghost p0 = self.pos as int;
        self.advance();
        let q = self.peek();
        self.advance();
        let open = self.make_token(TokenType::TemplateStringStart, string_of_char(q), start_pos);
        tokens.push(open);
        let ghost tok0 = tokens@;
        let ghost mut done: Seq<Lexeme> = seq![];
        while self.pos < self.chars.len() && self.chars[self.pos] != q
            invariant
                self.wf(),
                self.chars == old(self).chars,
                s == self.chars@,
                p0 + 2 <= self.pos,
                p0 + 1 < s.len(),
                q == s[p0 + 1],
                q == '"' || q == '\'',
                tokens_extend(tok0, tokens@, done, s),
                done + fstr_body(s, self.pos as int, q).0 == fstr_body(s, p0 + 2, q).0,
                fstr_body(s, self.pos as int, q).1 == fstr_body(s, p0 + 2, q).1,
            decreases self.chars.len() - self.pos,
        {
            let ghost before = tokens@;
            let ghost pb = self.pos as int;
            proof {
                lemma_fstr_step_bounds(s, pb, q);
            }
            self.scan_fstr_step(tokens, q);
            proof {
                let st = fstr_step(s, pb, q);
                lemma_tokens_extend_trans(tok0, before, tokens@, done, st.0, s);
                assert(fstr_body(s, pb, q).0 == st.0 + fstr_body(s, st.1, q).0);
                assert(done + st.0 + fstr_body(s, self.pos as int, q).0 =~= done + (st.0 + fstr_body(
                    s,
                    self.pos as int,
                    q,
                ).0));
                done = done + st.0;
            }
        }
        proof {
            assert(fstr_body(s, self.pos as int, q).0 =~= Seq::<Lexeme>::empty());
            assert(done =~= fstr_body(s, p0 + 2, q).0);
        }
        let ghost t2 = tokens@;
        proof {
            let open_l = lexeme(TokenType::TemplateStringStart, seq![q], p0, p0 + 2);
            assert(tokens_extend(old(tokens)@, tok0, seq![open_l], s));
            lemma_tokens_extend_trans(old(tokens)@, tok0, t2, seq![open_l], done, s);
        }
        if self.pos < self.chars.len() && self.chars[self.pos] == q {
            let end_start = self.current_position();
            self.advance();
            let close = self.make_token(TokenType::TemplateStringEnd, string_of_char(q), end_start);
            tokens.push(close);
            proof {
                let open_l = lexeme(TokenType::TemplateStringStart, seq![q], p0, p0 + 2);
                let e = fstr_body(s, p0 + 2, q).1;
                let close_l = lexeme(TokenType::TemplateStringEnd, seq![q], e, e + 1);
                assert(tokens_extend(t2, tokens@, seq![close_l], s));
                lemma_tokens_extend_trans(old(tokens)@, t2, tokens@, seq![open_l] + done, seq![close_l], s);
            }
        } else {
            proof {
                assert(tokens@ == t2);
            }
        }
    }

    /// Lexes a word at the current position: a keyword, an f-string, a type
    /// name, or an identifier.
    fn scan_word(&mut self, tokens: &mut Vec<Token>)
        requires
            old(self).wf(),
            old(self).pos < old(self).chars.len(),
            is_ident_start_char(old(self).chars@[old(self).pos as int]),
        ensures
            final(self).wf(),
            final(self).chars == old(self).chars,
            final(self).pos == word_step(old(self).chars@, old(self).pos as int).1,
            tokens_extend(old(tokens)@, final(tokens)@, word_step(old(self).chars@, old(self).pos as int).0, old(self).chars@),
    {
        let ghost s = self.chars@;
        let start = self.pos;
        let start_pos = self.current_position();
        let c = self.chars[self.pos];
        match self.find_keyword() {
            Some(k) => {
                let (kw, tt) = Self::keyword_entry(k);
                proof {
                    lemma_first_keyword_from(s, start as int, 0);
                }
                self.advance_n(kw.len());
                self.push_slice_token(tokens, tt, start, start_pos);
                return;
            },
            None => {},
        }
        let c1 = self.peek_at(1);
        if c == 'f' && (c1 == '"' || c1 == '\'') {
            self.lex_fstring(tokens, start_pos);
            return;
        }
        match self.match_type() {
            Some(n) => {
                proof {
                    lemma_type_len_bounds(s, start as int);
                }
                self.advance_n(n);
                self.push_slice_token(tokens, TokenType::TypeToken, start, start_pos);
                return;
            },
            None => {},
        }
        let e = self.word_end_from(start + 1);
        self.advance_n(e - start);
        let kind = if e == start + 1 && c == '_' {
            TokenType::Underscore
        } else {
            TokenType::Identifier
        };
        self.push_slice_token(tokens, kind, start, start_pos);
    }

    // -----------------------------------------------------------------------
    // Operators and delimiters
    // -----------------------------------------------------------------------

    fn match_operator(&self) -> (r: Option<(TokenType, usize)>)
        requires
            self.wf(),
            self.pos < self.chars.len(),
        ensures
            r matches Some(x) ==> op_at(self.chars@, self.pos as int) == Some((x.0, x.1 as int)),
            r is None ==> op_at(self.chars@, self.pos as int) is None,
    {
        let c = self.chars[self.pos];
        let d = self.peek_at(1);
        if c == '=' {
            if d == '>' {
                Some((TokenType::FatArrow, 2))
            } else if d == '=' {
                Some((TokenType::Equal, 2))
            } else {
                Some((TokenType::Equal, 1))
            }
        } else if c == '!' {
            if d == '=' {
                Some((TokenType::NotEqual, 2))
            } else {
                None
            }
        } else if c == ':' {
            if d == '=' {
                Some((TokenType::Assign, 2))
            } else {
                Some((TokenType::Colon, 1))
            }
        } else if c == '-' {
            if d == '>' {
                Some((TokenType::Arrow, 2))
            } else {
                Some((TokenType::Minus, 1))
            }
        } else if c == '<' {
            if d == '=' {
                Some((TokenType::LessEqual, 2))
            } else if d == '<' {
                Some((TokenType::LShift, 2))
            } else {
                Some((TokenType::Less, 1))
            }
        } else if c == '>' {
            if d == '=' {
                Some((TokenType::GreaterEqual, 2))
            } else if d == '>' {
                Some((TokenType::RShift, 2))
            } else {
                Some((TokenType::Greater, 1))
            }
        } else if c == '+' {
            Some((TokenType::Plus, 1))
        } else if c == '*' {
            Some((TokenType::Times, 1))
        } else if c == '/' {
            Some((TokenType::Divide, 1))
        } else if c == '%' {
            Some((TokenType::Modulo, 1))
        } else if c == '&' {
            if d == '&' {
                Some((TokenType::LogicalAnd, 2))
            } else {
                Some((TokenType::BitwiseAnd, 1))
            }
        } else if c == '|' {
            if d == '|' {
                Some((TokenType::LogicalOr, 2))
            } else {
                Some((TokenType::BitwiseOr, 1))
            }
        } else if c == '^' {
            Some((TokenType::BitwiseXor, 1))
        } else if c == '~' {
            Some((TokenType::BitwiseNot, 1))
        } else if c == '[' {
            Some((TokenType::LBracket, 1))
        } else if c == ']' {
            Some((TokenType::RBracket, 1))
        } else if c == '{' {
            Some((TokenType::LBrace, 1))
        } else if c == '}' {
            Some((TokenType::RBrace, 1))
        } else if c == '(' {
            Some((TokenType::LParen, 1))
        } else if c == ')' {
            Some((TokenType::RParen, 1))
        } else if c == ',' {
            Some((TokenType::Comma, 1))
        } else if c == ';' {
            Some((TokenType::Semicolon, 1))
        } else if c == '?' {
            Some((TokenType::QuestionMark, 1))
        } else if c == '.' {
            if d == '.' {
                Some((TokenType::Range, 2))
            } else {
                Some((TokenType::Dot, 1))
            }
        } else {
            None
        }
    }

    // -----------------------------------------------------------------------
    // String literals and template strings
    // -----------------------------------------------------------------------

    /// A quoted string literal (escapes kept as written).
    fn scan_string(&mut self, tokens: &mut Vec<Token>, q: char)
        requires
            old(self).wf(),
            old(self).pos < old(self).chars.len(),
            old(self).chars@[old(self).pos as int] == q,
        ensures
            final(self).wf(),
            final(self).chars == old(self).chars,
            final(self).pos == ({
                let e = str_end(old(self).chars@, old(self).pos + 1, q);
                if 0 <= e < old(self).chars@.len() && old(self).chars@[e] == q {
                    e + 1
                } else {
                    e
                }
            }),
            tokens_extend(
                old(tokens)@,
                final(tokens)@,
                seq![lexeme(TokenType::StringLit, old(self).chars@.subrange(old(self).pos as int, final(self).pos as int), old(self).pos as int, final(self).pos as int)],
                old(self).chars@,
            ),
    {
        let ghost s = self.chars@;
        let start = self.pos;
        let start_pos = self.current_position();
        self.advance();
        while self.pos < self.chars.len() && self.chars[self.pos] != q
            invariant
                self.wf(),
                self.chars == old(self).chars,
                s == self.chars@,
                start < self.pos,
                str_end(s, self.pos as int, q) == str_end(s, start + 1, q),
            decreases self.chars.len() - self.pos,
        {
            if self.chars[self.pos] == '\\' {
                self.advance();
                if self.pos < self.chars.len() {
                    self.advance();
                }
            } else {
                self.advance();
            }
        }
        if self.pos < self.chars.len() && self.chars[self.pos] == q {
            self.advance();
        }
        self.push_slice_token(tokens, TokenType::StringLit, start, start_pos);
    }

    /// Literal text inside a template string.
    fn scan_tmpl_text(&mut self) -> (r: String)
        requires
            old(self).wf(),
        ensures
            final(self).wf(),
            final(self).chars == old(self).chars,
            r@ == tmpl_text(old(self).chars@, old(self).pos as int).0,
            final(self).pos == tmpl_text(old(self).chars@, old(self).pos as int).1,
    {
        let ghost s = self.chars@;
        let ghost a = self.pos as int;
        let mut txt = String::new();
        while self.pos < self.chars.len() && self.chars[self.pos] != '{' && self.chars[self.pos] != '"'
            invariant
                self.wf(),
                self.chars == old(self).chars,
                s == self.chars@,
                a <= self.pos,
                txt@ + tmpl_text(s, self.pos as int).0 == tmpl_text(s, a).0,
                tmpl_text(s, self.pos as int).1 == tmpl_text(s, a).1,
            decreases self.chars.len() - self.pos,
        {
            let ghost p = self.pos as int;
            if self.chars[self.pos] == '\\' {
                self.advance();
                if self.pos < self.chars.len() {
                    let e = self.chars[self.pos];
                    push_char(&mut txt, e);
                    self.advance();
                    assert(txt@ + tmpl_text(s, self.pos as int).0 =~= (txt@.drop_last() + (seq![e]
                        + tmpl_text(s, p + 2).0)));
                } else {
                    assert(txt@ + tmpl_text(s, self.pos as int).0 =~= txt@ + Seq::<char>::empty());
                }
            } else {
                let c = self.chars[self.pos];
                push_char(&mut txt, c);
                self.advance();
                assert(txt@ + tmpl_text(s, self.pos as int).0 =~= (txt@.drop_last() + (seq![c]
                    + tmpl_text(s, p + 1).0)));
            }
        }
        assert(txt@ =~= txt@ + tmpl_text(s, self.pos as int).0);
        txt
    }

    /// One step inside a template string body.
    fn scan_tmpl_step(&mut self, tokens: &mut Vec<Token>)
        requires
            old(self).wf(),
            old(self).pos < old(self).chars.len(),
            old(self).chars@[old(self).pos as int] != '"',
        ensures
            final(self).wf(),
            final(self).chars == old(self).chars,
            final(self).pos == tmpl_step(old(self).chars@, old(self).pos as int).1,
            tokens_extend(old(tokens)@, final(tokens)@, tmpl_step(old(self).chars@, old(self).pos as int).0, old(self).chars@),
    {
        let ghost s = self.chars@;
        let ghost p = self.pos as int;
        if self.chars[self.pos] == '{' {
            let interp_start = self.current_position();
            self.advance();
            let open = self.make_token(TokenType::TemplateInterpStart, string_of_char('{'), interp_start);
            tokens.push(open);
            let ghost t1 = tokens@;
            if self.pos < self.chars.len() && self.chars[self.pos] != '}' {
                let expr_start = self.current_position();
                while self.pos < self.chars.len() && (self.chars[self.pos] == ' ' || self.chars[self.pos] == '\t')
                    invariant
                        self.wf(),
                        self.chars == old(self).chars,
                        s == self.chars@,
                        p + 1 <= self.pos,
                        spaces_end(s, self.pos as int) == spaces_end(s, p + 1),
                    decreases self.chars.len() - self.pos,
                {
                    self.advance();
                }
                if self.pos < self.chars.len() && is_ident_start(self.chars[self.pos]) {
                    let w = self.pos;
                    let e = self.word_end_from(w + 1);
                    self.advance_n(e - w);
                    let value = string_from_slice(&self.chars, w, e);
                    let t = self.make_token(TokenType::Identifier, value, expr_start);
                    tokens.push(t);
                }
            }
            if self.pos < self.chars.len() && self.chars[self.pos] == '}' {
                let interp_end = self.current_position();
                self.advance();
                let t = self.make_token(TokenType::TemplateInterpEnd, string_of_char('}'), interp_end);
                tokens.push(t);
            }
            proof {
                let ls = tmpl_interp(s, p).0;
                assert(tokens_extend(old(tokens)@, tokens@, ls, s)) by {
                    assert forall|j: int| 0 <= j < ls.len() implies #[trigger] token_is(
                        tokens@[old(tokens)@.len() + j],
                        ls[j],
                        s,
                    ) by {
                        assert(ls.len() <= 3);
                    }
                }
            }
        } else {
            let part_start = self.current_position();
            let txt = self.scan_tmpl_text();
            if !txt.as_str().is_empty() {
                let t = self.make_token(TokenType::TemplateStringPart, txt, part_start);
                tokens.push(t);
            }
        }
    }

    /// Lexes the template string whose opening `"` stands at the current position.
    fn lex_template_string(&mut self, tokens: &mut Vec<Token>)
        requires
            old(self).wf(),
            old(self).pos < old(self).chars.len(),
            old(self).chars@[old(self).pos as int] == '"',
        ensures
            final(self).wf(),
            final(self).chars == old(self).chars,
            final(self).pos == template(old(self).chars@, old(self).pos as int).1,
            tokens_extend(old(tokens)@, final(tokens)@, template(old(self).chars@, old(self).pos as int).0, old(self).chars@),
    {
        let ghost s = self.chars@;
        let ghost p0 = self.pos as int;
        self.advance();
        let ghost tok0 = tokens@;
        let ghost mut done: Seq<Lexeme> = seq![];
        while self.pos < self.chars.len() && self.chars[self.pos] != '"'
            invariant
                self.wf(),
                self.chars == old(self).chars,
                s == self.chars@,
                p0 + 1 <= self.pos,
                tok0 == old(tokens)@,
                tokens_extend(tok0, tokens@, done, s),
                done + tmpl_body(s, self.pos as int).0 == tmpl_body(s, p0 + 1).0,
                tmpl_body(s, self.pos as int).1 == tmpl_body(s, p0 + 1).1,
            decreases self.chars.len() - self.pos,
        {
            let ghost before = tokens@;
            let ghost pb = self.pos as int;
            proof {
                lemma_tmpl_step_bounds(s, pb);
            }
            self.scan_tmpl_step(tokens);
            proof {
                let st = tmpl_step(s, pb);
                lemma_tokens_extend_trans(tok0, before, tokens@, done, st.0, s);
                assert(done + st.0 + tmpl_body(s, self.pos as int).0 =~= done + (st.0 + tmpl_body(
                    s,
                    self.pos as int,
                ).0));
                done = done + st.0;
            }
        }
        proof {
            assert(tmpl_body(s, self.pos as int).0 =~= Seq::<Lexeme>::empty());
            assert(done =~= tmpl_body(s, p0 + 1).0);
        }
        let ghost t2 = tokens@;
        if self.pos < self.chars.len() && self.chars[self.pos] == '"' {
            let end_start = self.current_position();
            self.advance();
            let close = self.make_token(TokenType::TemplateStringEnd, string_of_char('"'), end_start);
            tokens.push(close);
            proof {
                let e = tmpl_body(s, p0 + 1).1;
                let close_l = lexeme(TokenType::TemplateStringEnd, seq!['"'], e, e + 1);
                assert(tokens_extend(t2, tokens@, seq![close_l], s));
                lemma_tokens_extend_trans(old(tokens)@, t2, tokens@, done, seq![close_l], s);
            }
        }
    }

    // -----------------------------------------------------------------------
    // Numbers
    // -----------------------------------------------------------------------

    /// Length of the number literal at the current position, if any.
    fn match_number(&self) -> (r: Option<usize>)
        requires
            self.wf(),
            self.pos < self.chars.len(),
            is_digit(self.chars@[self.pos as int]),
        ensures
            r matches Some(n) ==> number_len(self.chars@, self.pos as int) == Some(n as int),
            r is None ==> number_len(self.chars@, self.pos as int) is None,
    {
        let ghost s = self.chars@;
        let p = self.pos;
        let c1 = self.peek_at(1);
        if self.chars[p] == '0' && p + 1 < self.chars.len() && (c1 == 'x' || c1 == 'X' || c1 == 'b'
            || c1 == 'B' || c1 == 'o' || c1 == 'O') {
            let radix: u32 = if c1 == 'x' || c1 == 'X' {
                16
            } else if c1 == 'b' || c1 == 'B' {
                2
            } else {
                8
            };
            let mut e: usize = p + 2;
            while e < self.chars.len() && radix_digit_char(self.chars[e], radix)
                invariant
                    p + 2 <= e <= self.chars.len(),
                    radix_end(s, e as int, radix as nat) == radix_end(s, p + 2, radix as nat),
                    s == self.chars@,
                decreases self.chars.len() - e,
            {
                e = e + 1;
            }
            if e > p + 2 {
                Some(e - p)
            } else {
                None
            }
        } else {
            let e1 = self.digits_end_from(p);
            let e2 = if self.peek_at_index(e1) == '.' {
                if self.peek_at_index(e1 + 1) == '.' {
                    e1
                } else {
                    self.digits_end_from(e1 + 1)
                }
            } else {
                e1
            };
            let c2 = self.peek_at_index(e2);
            let e3 = if c2 == 'e' || c2 == 'E' {
                let d = self.peek_at_index(e2 + 1);
                let j = if d == '+' || d == '-' {
                    e2 + 2
                } else {
                    e2 + 1
                };
                if digit_char(self.peek_at_index(j)) {
                    self.digits_end_from(j)
                } else {
                    e2
                }
            } else {
                e2
            };
            Some(e3 - p)
        }
    }

    // -----------------------------------------------------------------------
    // Main loop
    // -----------------------------------------------------------------------

    /// Lexes the token(s) at the current position.
    fn scan_token(&mut self, tokens: &mut Vec<Token>)
        requires
            old(self).wf(),
            old(self).pos < old(self).chars.len(),
        ensures
            final(self).wf(),
            final(self).chars == old(self).chars,
            final(self).pos == step(old(self).chars@, old(self).pos as int).1,
            tokens_extend(old(tokens)@, final(tokens)@, step(old(self).chars@, old(self).pos as int).0, old(self).chars@),
    {
        let ghost s = self.chars@;
        let start = self.pos;
        let start_pos = self.current_position();
        let ch = self.chars[self.pos];
        let c1 = self.peek_at(1);
        if ws_char(ch) {
            self.scan_whitespace(tokens);
        } else if (ch == '/' && c1 == '/') || ch == '#' {
            self.scan_line_comment(tokens);
        } else if ch == '/' && c1 == '*' {
            self.scan_block_comment(tokens);
        } else if is_ident_start(ch) {
            self.scan_word(tokens);
        } else {
            match self.match_operator() {
                Some((kind, n)) => {
                    self.advance_n(n);
                    self.push_slice_token(tokens, kind, start, start_pos);
                },
                None => {
                    if ch == '"' || ch == '\'' {
                        if ch == '"' && c1 == '{' {
                            self.lex_template_string(tokens);
                        } else {
                            self.scan_string(tokens, ch);
                        }
                    } else {
                        let num = if digit_char(ch) {
                            self.match_number()
                        } else {
                            None
                        };
                        match num {
                            Some(n) => {
                                proof {
                                    lemma_number_len_bounds(s, start as int);
                                }
                                self.advance_n(n);
                                self.push_slice_token(tokens, TokenType::Number, start, start_pos);
                            },
                            None => {
                                self.advance();
                                self.push_slice_token(tokens, TokenType::Unknown, start, start_pos);
                            },
                        }
                    }
                },
            }
        }
    }

    /// Lexes the whole input.
    fn run(&mut self) -> (tokens: Vec<Token>)
        requires
            old(self).wf(),
            old(self).pos == 0,
        ensures
            tokens_match(tokens@, lex(old(self).chars@), old(self).chars@),
    {
        let ghost s = self.chars@;
        let mut tokens: Vec<Token> = Vec::new();
        let ghost mut done: Seq<Lexeme> = seq![];
        while self.pos < self.chars.len()
            invariant
                self.wf(),
                self.chars == old(self).chars,
                s == self.chars@,
                tokens_extend(seq![], tokens@, done, s),
                done + lex_from(s, self.pos as int) == lex(s),
            decreases self.chars.len() - self.pos,
        {
            let ghost before = tokens@;
            let ghost pb = self.pos as int;
            proof {
                lemma_step_bounds(s, pb);
            }
            self.scan_token(&mut tokens);
            proof {
                let st = step(s, pb);
                lemma_tokens_extend_trans(seq![], before, tokens@, done, st.0, s);
                assert(lex_from(s, pb) == st.0 + lex_from(s, st.1));
                assert(done + st.0 + lex_from(s, self.pos as int) =~= done + (st.0 + lex_from(
                    s,
                    self.pos as int,
                )));
                done = done + st.0;
            }
        }
        proof {
            assert(lex_from(s, self.pos as int) =~= Seq::<Lexeme>::empty());
            assert(done =~= lex(s));
            assert forall|i: int| 0 <= i < tokens@.len() implies #[trigger] token_is(
                tokens@[i],
                lex(s)[i],
                s,
            ) by {
                assert(token_is(tokens@[0 + i], done[i], s));
            }
        }
        tokens
    }
}

/// Splits Mog source text into tokens, whitespace and comments included.
///
/// The tokens are exactly the lexemes of `lex(input@)`, each with its kind,
/// its text, and the line, column and byte offset where it starts and ends.
pub fn tokenize(input: &str) -> (tokens: Vec<Token>)
    requires
        utf8_len(input@) < u32::MAX,
    ensures
        tokens_match(tokens@, lex(input@), input@),
{
    let chars = chars_of(input);
    let mut lexer = Lexer::new(chars);
    lexer.run()
}

/// Whether every byte offset of `input` fits in a `u32`, the condition
/// under which `tokenize` can report positions.
pub fn fits_positions(input: &str) -> (r: bool)
    ensures
        r == (utf8_len(input@) < u32::MAX),
{
    let chars = chars_of(input);
    let mut total: u64 = 0;
    let mut i: usize = 0;
    while i < chars.len()
        invariant
            i <= chars.len(),
            chars@ == input@,
            total == idx_at(chars@, i as int),
            total < u32::MAX,
        decreases chars.len() - i,
    {
        proof {
            lemma_idx_step(chars@, i as int);
        }
        total = total + char_width(chars[i]) as u64;
        if total >= u32::MAX as u64 {
            proof {
                lemma_idx_mono(chars@, i + 1, chars@.len() as int);
                lemma_idx_total(chars@);
            }
            return false;
        }
        i += 1;
    }
    proof {
        lemma_idx_total(chars@);
    }
    true
}


/// The values of `ts`, one after another.
pub open spec fn token_texts(ts: Seq<Token>) -> Seq<char>
    decreases ts.len(),
{
    if ts.len() == 0 {
        Seq::empty()
    } else {
        token_texts(ts.drop_last()) + ts.last().value@
    }
}

/// The number of newlines in `s`.
pub open spec fn newlines(s: Seq<char>) -> nat {
    s.filter(|c: char| c == '\n').len()
}

proof fn lemma_line_at_counts(s: Seq<char>, p: int)
    requires
        0 <= p <= s.len(),
    ensures
        line_at(s, p) == 1 + newlines(s.take(p)),
    decreases p,
{
    if p > 0 {
        lemma_line_at_counts(s, p - 1);
        assert(s.take(p) =~= s.take(p - 1).push(s[p - 1]));
        s.take(p - 1).lemma_filter_push(s[p - 1], |c: char| c == '\n');
    } else {
        assert(s.take(p) =~= Seq::<char>::empty());
    }
}

proof fn lemma_token_texts(ts: Seq<Token>, ls: Seq<Lexeme>, s: Seq<char>)
    requires
        tokens_match(ts, ls, s),
    ensures
        token_texts(ts) == joined_texts(ls),
    decreases ts.len(),
{
    if ts.len() > 0 {
        let n = ts.len() - 1;
        assert forall|i: int| 0 <= i < n implies #[trigger] token_is(ts.drop_last()[i], ls.drop_last()[i], s) by {
            assert(token_is(ts[i], ls[i], s));
        }
        lemma_token_texts(ts.drop_last(), ls.drop_last(), s);
        assert(token_is(ts[n], ls[n], s));
    }
}

/// Where the source holds no f-string or template string, the tokens that
/// `tokenize` returns (exactly those of `lex`) give back the source, one
/// after another; no token is empty; each starts where the one before it
/// ends; and each starts on the line numbered one more than the newlines
/// before it, at the byte offset of the characters before it.
pub proof fn law_tokens_rebuild_source(input: Seq<char>, ts: Seq<Token>)
    requires
        tokens_match(ts, lex(input), input),
        no_template(lex(input)),
    ensures
        token_texts(ts) == input,
        forall|i: int| 0 <= i < ts.len() ==> #[trigger] ts[i].value@.len() > 0,
        forall|i: int| 0 <= i < ts.len() - 1 ==> #[trigger] ts[i + 1].span.start == ts[i].span.end,
        forall|i: int|
            0 <= i < ts.len() ==> #[trigger] ts[i].span.start.line == 1 + newlines(
                input.take(lex(input)[i].start),
            ) && ts[i].span.start.index == utf8_len(input.take(lex(input)[i].start)),
{
    let ls = lex(input);
    law_lexemes_rebuild_source(input);
    lemma_lex_from_laws(input, 0);
    lemma_token_texts(ts, ls, input);
    assert forall|i: int| 0 <= i < ts.len() implies #[trigger] ts[i].value@.len() > 0 by {
        assert(token_is(ts[i], ls[i], input));
        assert(ls[i].text.len() > 0);
    }
    assert forall|i: int| 0 <= i < ts.len() - 1 implies #[trigger] ts[i + 1].span.start == ts[i].span.end by {
        assert(token_is(ts[i], ls[i], input));
        assert(token_is(ts[i + 1], ls[i + 1], input));
        assert(ls[i].end == ls[i + 1].start);
    }
    assert forall|i: int| 0 <= i < ts.len() implies #[trigger] ts[i].span.start.line == 1 + newlines(
        input.take(ls[i].start),
    ) && ts[i].span.start.index == utf8_len(input.take(ls[i].start)) by {
        assert(token_is(ts[i], ls[i], input));
        lemma_line_at_counts(input, ls[i].start);
    }
}

} // verus!
