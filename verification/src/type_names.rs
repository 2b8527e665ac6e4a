//! Type names as written in annotations (`int`, `[f64; 3]`, `u8[][]`,
//! `Point`), and the literal helpers the parser shares: whitespace
//! trimming, unsigned decimal literals and string escapes.

use vstd::prelude::*;

use crate::lexer_spec::{is_digit, is_hex_digit};
use crate::types::{FloatKind, IntegerKind, Type, UnsignedKind};

verus! {

// ---------------------------------------------------------------------------
// Whitespace and trimming
// ---------------------------------------------------------------------------

/// Unicode `White_Space`, the property that `char::is_whitespace` and
/// `str::trim` use.
pub open spec fn is_unicode_ws(c: char) -> bool {
    ||| '\t' <= c <= '\r'
    ||| c == ' '
    ||| c == '\u{85}'
    ||| c == '\u{A0}'
    ||| c == '\u{1680}'
    ||| '\u{2000}' <= c <= '\u{200A}'
    ||| c == '\u{2028}'
    ||| c == '\u{2029}'
    ||| c == '\u{202F}'
    ||| c == '\u{205F}'
    ||| c == '\u{3000}'
}

/// Number of leading whitespace characters.
pub open spec fn ws_lead(s: Seq<char>) -> nat
    decreases s.len(),
{
    if s.len() > 0 && is_unicode_ws(s[0]) {
        1 + ws_lead(s.drop_first())
    } else {
        0
    }
}

/// Number of trailing whitespace characters.
pub open spec fn ws_trail(s: Seq<char>) -> nat
    decreases s.len(),
{
    if s.len() > 0 && is_unicode_ws(s.last()) {
        1 + ws_trail(s.drop_last())
    } else {
        0
    }
}

pub proof fn lemma_ws_lead_bound(s: Seq<char>)
    ensures
        ws_lead(s) <= s.len(),
    decreases s.len(),
{
    if s.len() > 0 && is_unicode_ws(s[0]) {
        lemma_ws_lead_bound(s.drop_first());
    }
}

pub proof fn lemma_ws_trail_bound(s: Seq<char>)
    ensures
        ws_trail(s) <= s.len(),
    decreases s.len(),
{
    if s.len() > 0 && is_unicode_ws(s.last()) {
        lemma_ws_trail_bound(s.drop_last());
    }
}

/// `s` without leading and trailing whitespace, as `str::trim` gives it.
pub open spec fn trim(s: Seq<char>) -> Seq<char> {
    let t = s.skip(ws_lead(s) as int);
    t.take(t.len() - ws_trail(t))
}

pub proof fn lemma_trim_len(s: Seq<char>)
    ensures
        trim(s).len() <= s.len(),
{
    lemma_ws_lead_bound(s);
    lemma_ws_trail_bound(s.skip(ws_lead(s) as int));
}

fn unicode_ws(c: char) -> (r: bool)
    ensures
        r == is_unicode_ws(c),
{
    ('\t' <= c && c <= '\r') || c == ' ' || c == '\u{85}' || c == '\u{A0}' || c == '\u{1680}' || (
    '\u{2000}' <= c && c <= '\u{200A}') || c == '\u{2028}' || c == '\u{2029}' || c == '\u{202F}'
        || c == '\u{205F}' || c == '\u{3000}'
}

/// The bounds of `v[a..b]` with whitespace trimmed from both ends.
pub(crate) fn trim_range(v: &Vec<char>, a: usize, b: usize) -> (r: (usize, usize))
    requires
        a <= b <= v.len(),
    ensures
        a <= r.0 <= r.1 <= b,
        v@.subrange(r.0 as int, r.1 as int) == trim(v@.subrange(a as int, b as int)),
{
    let ghost s = v@.subrange(a as int, b as int);
    let mut i: usize = a;
    while i < b && unicode_ws(v[i])
        invariant
            a <= i <= b <= v.len(),
            s == v@.subrange(a as int, b as int),
            ws_lead(s) == (i - a) + ws_lead(v@.subrange(i as int, b as int)),
        decreases b - i,
    {
        let ghost t = v@.subrange(i as int, b as int);
        assert(t.drop_first() =~= v@.subrange(i + 1, b as int));
        i += 1;
    }
    let ghost t = v@.subrange(i as int, b as int);
    assert(ws_lead(t) == 0);
    assert(s.skip(ws_lead(s) as int) =~= t);
    let mut j: usize = b;
    while j > i && unicode_ws(v[j - 1])
        invariant
            a <= i <= j <= b <= v.len(),
            t == v@.subrange(i as int, b as int),
            ws_trail(t) == (b - j) + ws_trail(v@.subrange(i as int, j as int)),
        decreases j - i,
    {
        let ghost u = v@.subrange(i as int, j as int);
        assert(u.drop_last() =~= v@.subrange(i as int, j - 1));
        j -= 1;
    }
    assert(ws_trail(v@.subrange(i as int, j as int)) == 0);
    assert(t.take(t.len() - ws_trail(t)) =~= v@.subrange(i as int, j as int));
    (i, j)
}

// ---------------------------------------------------------------------------
// Unsigned decimal literals
// ---------------------------------------------------------------------------

pub open spec fn digit_val(c: char) -> nat {
    if is_digit(c) {
        (c as int - '0' as int) as nat
    } else {
        0
    }
}

/// The value of a string of decimal digits.
pub open spec fn digits_value(d: Seq<char>) -> nat
    decreases d.len(),
{
    if d.len() == 0 {
        0
    } else {
        digits_value(d.drop_last()) * 10 + digit_val(d.last())
    }
}

pub open spec fn all_digits(d: Seq<char>) -> bool {
    forall|i: int| 0 <= i < d.len() ==> is_digit(#[trigger] d[i])
}

/// What `str::parse::<usize>` gives: an optional `+`, then at least one
/// decimal digit, with a value that fits in `usize`.
pub open spec fn usize_literal(s: Seq<char>) -> Option<usize> {
    let d = if s.len() > 0 && s[0] == '+' {
        s.drop_first()
    } else {
        s
    };
    if d.len() > 0 && all_digits(d) && digits_value(d) <= usize::MAX {
        Some(digits_value(d) as usize)
    } else {
        None
    }
}

pub proof fn lemma_digits_value_prefix(d: Seq<char>, j: int)
    requires
        0 <= j <= d.len(),
    ensures
        digits_value(d.take(j)) <= digits_value(d),
    decreases d.len(),
{
    if j < d.len() {
        assert(d.drop_last().take(j) =~= d.take(j));
        lemma_digits_value_prefix(d.drop_last(), j);
    } else {
        assert(d.take(j) =~= d);
    }
}

/// Parses `v[a..b]` as `str::parse::<usize>` does.
pub fn parse_usize(v: &Vec<char>, a: usize, b: usize) -> (r: Option<usize>)
    requires
        a <= b <= v.len(),
    ensures
        r == usize_literal(v@.subrange(a as int, b as int)),
{
    let ghost s = v@.subrange(a as int, b as int);
    let mut start: usize = a;
    if a < b && v[a] == '+' {
        start = a + 1;
    }
    let ghost d = v@.subrange(start as int, b as int);
    proof {
        if a < b && v@[a as int] == '+' {
            assert(s.drop_first() =~= d);
        } else {
            assert(s =~= d);
        }
    }
    if start == b {
        return None;
    }
    let mut acc: usize = 0;
    let mut i: usize = start;
    while i < b
        invariant
            a <= start <= i <= b <= v.len(),
            d == v@.subrange(start as int, b as int),
            s == v@.subrange(a as int, b as int),
            start < b,
            usize_literal(s) == (if d.len() > 0 && all_digits(d) && digits_value(d) <= usize::MAX {
                Some(digits_value(d) as usize)
            } else {
                None::<usize>
            }),
            all_digits(d.take(i - start)),
            acc == digits_value(d.take(i - start)),
        decreases b - i,
    {
        let c = v[i];
        if !('0' <= c && c <= '9') {
            assert(d[i - start] == c);
            return None;
        }
        let dv = (c as u32 - '0' as u32) as usize;
        let ghost k = i - start;
        assert(d.take(k + 1).drop_last() =~= d.take(k));
        assert(d.take(k + 1).last() == c);
        if acc > (usize::MAX - dv) / 10 {
            proof {
                assert(acc * 10 + dv > usize::MAX) by (nonlinear_arith)
                    requires
                        acc > (usize::MAX - dv) / 10,
                        dv <= 9,
                ;
                lemma_digits_value_prefix(d, k + 1);
            }
            return None;
        }
        acc = acc * 10 + dv;
        assert(all_digits(d.take(k + 1)));
        i += 1;
    }
    assert(d.take(i - start) =~= d);
    Some(acc)
}

// ---------------------------------------------------------------------------
// Primitive type names
// ---------------------------------------------------------------------------

/// The bit widths that name sized numeric types.
pub open spec fn bits_named(d: Seq<char>) -> Option<u32> {
    if d == seq!['8'] {
        Some(8)
    } else if d == seq!['1', '6'] {
        Some(16)
    } else if d == seq!['3', '2'] {
        Some(32)
    } else if d == seq!['6', '4'] {
        Some(64)
    } else if d == seq!['1', '2', '8'] {
        Some(128)
    } else if d == seq!['2', '5', '6'] {
        Some(256)
    } else {
        None
    }
}

pub open spec fn integer_kind_of(bits: u32) -> IntegerKind {
    if bits == 8 {
        IntegerKind::I8
    } else if bits == 16 {
        IntegerKind::I16
    } else if bits == 32 {
        IntegerKind::I32
    } else if bits == 64 {
        IntegerKind::I64
    } else if bits == 128 {
        IntegerKind::I128
    } else {
        IntegerKind::I256
    }
}

pub open spec fn unsigned_kind_of(bits: u32) -> UnsignedKind {
    if bits == 8 {
        UnsignedKind::U8
    } else if bits == 16 {
        UnsignedKind::U16
    } else if bits == 32 {
        UnsignedKind::U32
    } else if bits == 64 {
        UnsignedKind::U64
    } else if bits == 128 {
        UnsignedKind::U128
    } else {
        UnsignedKind::U256
    }
}

pub open spec fn float_kind_of(bits: u32) -> FloatKind {
    if bits == 8 {
        FloatKind::F8
    } else if bits == 16 {
        FloatKind::F16
    } else if bits == 32 {
        FloatKind::F32
    } else if bits == 64 {
        FloatKind::F64
    } else if bits == 128 {
        FloatKind::F128
    } else {
        FloatKind::F256
    }
}

/// The primitive type a name denotes: `int`, `float`, `bool`, `string`,
/// `ptr`, `bf16`, and the sized `iN`, `uN`, `fN` for N in 8, 16, 32, 64,
/// 128, 256.
pub open spec fn primitive_named(n: Seq<char>) -> Option<Type> {
    if n == seq!['i', 'n', 't'] {
        Some(Type::Integer(IntegerKind::I64))
    } else if n == seq!['f', 'l', 'o', 'a', 't'] {
        Some(Type::Float(FloatKind::F64))
    } else if n == seq!['b', 'o', 'o', 'l'] {
        Some(Type::Bool)
    } else if n == seq!['s', 't', 'r', 'i', 'n', 'g'] {
        Some(Type::String)
    } else if n == seq!['p', 't', 'r'] {
        Some(Type::Pointer(None))
    } else if n == seq!['b', 'f', '1', '6'] {
        Some(Type::Float(FloatKind::Bf16))
    } else if n.len() > 0 && bits_named(n.drop_first()) is Some {
        let bits = bits_named(n.drop_first())->0;
        if n[0] == 'i' {
            Some(Type::Integer(integer_kind_of(bits)))
        } else if n[0] == 'u' {
            Some(Type::Unsigned(unsigned_kind_of(bits)))
        } else if n[0] == 'f' {
            Some(Type::Float(float_kind_of(bits)))
        } else {
            None
        }
    } else {
        None
    }
}

fn same(v: &Vec<char>, a: usize, w: &Vec<char>) -> (r: bool)
    requires
        a <= v.len(),
    ensures
        r == (v@.skip(a as int) == w@),
{
    if v.len() - a != w.len() {
        return false;
    }
    let mut i: usize = 0;
    while i < w.len()
        invariant
            v.len() - a == w.len(),
            a <= v.len(),
            i <= w.len(),
            forall|j: int| 0 <= j < i ==> v@[a + j] == w@[j],
        decreases w.len() - i,
    {
        if v[a + i] != w[i] {
            return false;
        }
        i += 1;
    }
    assert(v@.skip(a as int) =~= w@);
    true
}

fn bits_of(v: &Vec<char>) -> (r: Option<u32>)
    requires
        v.len() > 0,
    ensures
        r == bits_named(v@.drop_first()),
{
    let w8 = vec!['8'];
    let w16 = vec!['1', '6'];
    let w32 = vec!['3', '2'];
    let w64 = vec!['6', '4'];
    let w128 = vec!['1', '2', '8'];
    let w256 = vec!['2', '5', '6'];
    proof {
        assert(w8@ =~= seq!['8']);
        assert(w16@ =~= seq!['1', '6']);
        assert(w32@ =~= seq!['3', '2']);
        assert(w64@ =~= seq!['6', '4']);
        assert(w128@ =~= seq!['1', '2', '8']);
        assert(w256@ =~= seq!['2', '5', '6']);
        assert(v@.skip(1) =~= v@.drop_first());
    }
    if same(v, 1, &w8) {
        Some(8)
    } else if same(v, 1, &w16) {
        Some(16)
    } else if same(v, 1, &w32) {
        Some(32)
    } else if same(v, 1, &w64) {
        Some(64)
    } else if same(v, 1, &w128) {
        Some(128)
    } else if same(v, 1, &w256) {
        Some(256)
    } else {
        None
    }
}

impl IntegerKind {
    /// The signed integer kind of a bit width.
    pub fn from_bits(bits: u32) -> (k: IntegerKind)
        ensures
            k == integer_kind_of(bits),
    {
        if bits == 8 {
            IntegerKind::I8
        } else if bits == 16 {
            IntegerKind::I16
        } else if bits == 32 {
            IntegerKind::I32
        } else if bits == 64 {
            IntegerKind::I64
        } else if bits == 128 {
            IntegerKind::I128
        } else {
            IntegerKind::I256
        }
    }
}

impl UnsignedKind {
    /// The unsigned integer kind of a bit width.
    pub fn from_bits(bits: u32) -> (k: UnsignedKind)
        ensures
            k == unsigned_kind_of(bits),
    {
        if bits == 8 {
            UnsignedKind::U8
        } else if bits == 16 {
            UnsignedKind::U16
        } else if bits == 32 {
            UnsignedKind::U32
        } else if bits == 64 {
            UnsignedKind::U64
        } else if bits == 128 {
            UnsignedKind::U128
        } else {
            UnsignedKind::U256
        }
    }
}

impl FloatKind {
    /// The floating-point kind of a bit width.
    pub fn from_bits(bits: u32) -> (k: FloatKind)
        ensures
            k == float_kind_of(bits),
    {
        if bits == 8 {
            FloatKind::F8
        } else if bits == 16 {
            FloatKind::F16
        } else if bits == 32 {
            FloatKind::F32
        } else if bits == 64 {
            FloatKind::F64
        } else if bits == 128 {
            FloatKind::F128
        } else {
            FloatKind::F256
        }
    }
}

/// The primitive type `name` denotes, if any.
pub fn parse_primitive_type(name: &Vec<char>) -> (r: Option<Type>)
    ensures
        r == primitive_named(name@),
{
    let w_int = vec!['i', 'n', 't'];
    let w_float = vec!['f', 'l', 'o', 'a', 't'];
    let w_bool = vec!['b', 'o', 'o', 'l'];
    let w_string = vec!['s', 't', 'r', 'i', 'n', 'g'];
    let w_ptr = vec!['p', 't', 'r'];
    let w_bf16 = vec!['b', 'f', '1', '6'];
    proof {
        assert(w_int@ =~= seq!['i', 'n', 't']);
        assert(w_float@ =~= seq!['f', 'l', 'o', 'a', 't']);
        assert(w_bool@ =~= seq!['b', 'o', 'o', 'l']);
        assert(w_string@ =~= seq!['s', 't', 'r', 'i', 'n', 'g']);
        assert(w_ptr@ =~= seq!['p', 't', 'r']);
        assert(w_bf16@ =~= seq!['b', 'f', '1', '6']);
        assert(name@.skip(0) =~= name@);
    }
    if same(name, 0, &w_int) {
        return Some(Type::Integer(IntegerKind::I64));
    }
    if same(name, 0, &w_float) {
        return Some(Type::Float(FloatKind::F64));
    }
    if same(name, 0, &w_bool) {
        return Some(Type::Bool);
    }
    if same(name, 0, &w_string) {
        return Some(Type::String);
    }
    if same(name, 0, &w_ptr) {
        return Some(Type::Pointer(None));
    }
    if same(name, 0, &w_bf16) {
        return Some(Type::Float(FloatKind::Bf16));
    }
    if name.len() == 0 {
        return None;
    }
    match bits_of(name) {
        None => None,
        Some(bits) => {
            let c = name[0];
            if c == 'i' {
                Some(Type::Integer(IntegerKind::from_bits(bits)))
            } else if c == 'u' {
                Some(Type::Unsigned(UnsignedKind::from_bits(bits)))
            } else if c == 'f' {
                Some(Type::Float(FloatKind::from_bits(bits)))
            } else {
                None
            }
        },
    }
}

// ---------------------------------------------------------------------------
// Array type names
// ---------------------------------------------------------------------------

/// Index of the last `c` in `s`, or -1.
pub open spec fn last_index_of(s: Seq<char>, c: char) -> int
    decreases s.len(),
{
    if s.len() == 0 {
        -1
    } else if s.last() == c {
        s.len() - 1
    } else {
        last_index_of(s.drop_last(), c)
    }
}

pub proof fn lemma_last_index_of(s: Seq<char>, c: char)
    ensures
        -1 <= last_index_of(s, c) < s.len(),
        last_index_of(s, c) >= 0 ==> s[last_index_of(s, c)] == c,
        forall|i: int| last_index_of(s, c) < i < s.len() ==> s[i] != c,
    decreases s.len(),
{
    if s.len() > 0 && s.last() != c {
        lemma_last_index_of(s.drop_last(), c);
        assert forall|i: int| last_index_of(s, c) < i < s.len() implies s[i] != c by {
            if i < s.len() - 1 {
                assert(s.drop_last()[i] == s[i]);
            }
        }
    }
}

/// `[T; N]` read as its element-type text `T` (trimmed) and its size `N`.
pub open spec fn fixed_array_parts(n: Seq<char>) -> Option<(Seq<char>, usize)> {
    if n.len() >= 2 && n[0] == '[' && n.last() == ']' {
        let inner = n.subrange(1, n.len() - 1);
        let k = last_index_of(inner, ';');
        if k < 0 {
            None
        } else {
            match usize_literal(trim(inner.subrange(k + 1, inner.len() as int))) {
                Some(size) => Some((trim(inner.take(k)), size)),
                None => None,
            }
        }
    } else {
        None
    }
}

pub proof fn lemma_fixed_array_parts(n: Seq<char>)
    ensures
        fixed_array_parts(n) matches Some((inner, size)) ==> inner.len() < n.len(),
{
    if n.len() >= 2 && n[0] == '[' && n.last() == ']' {
        let inner = n.subrange(1, n.len() - 1);
        let k = last_index_of(inner, ';');
        lemma_last_index_of(inner, ';');
        if k >= 0 {
            lemma_trim_len(inner.take(k));
        }
    }
}

/// Index of the first `[]` in `s` at or after `i`, or -1.
pub open spec fn brackets_from(s: Seq<char>, i: int) -> int
    decreases s.len() - i,
{
    if i < 0 || i + 1 >= s.len() {
        -1
    } else if s[i] == '[' && s[i + 1] == ']' {
        i
    } else {
        brackets_from(s, i + 1)
    }
}

pub proof fn lemma_brackets_from(s: Seq<char>, i: int)
    requires
        0 <= i,
    ensures
        brackets_from(s, i) == -1 || i <= brackets_from(s, i) < s.len() - 1,
    decreases s.len() - i,
{
    if i + 1 < s.len() && !(s[i] == '[' && s[i + 1] == ']') {
        lemma_brackets_from(s, i + 1);
    }
}

/// Number of occurrences of `c` in `s`.
pub open spec fn count_char(s: Seq<char>, c: char) -> nat
    decreases s.len(),
{
    if s.len() == 0 {
        0
    } else {
        count_char(s.drop_last(), c) + if s.last() == c {
            1nat
        } else {
            0nat
        }
    }
}

/// `t` is `p` wrapped in `d` levels of dynamic arrays.
pub open spec fn nested_arrays(t: Type, p: Type, d: nat) -> bool
    decreases d,
{
    if d == 0 {
        t == p
    } else {
        t matches Type::Array { element_type, dimensions } && dimensions@.len() == 0
            && nested_arrays(*element_type, p, (d - 1) as nat)
    }
}

/// `t` is a custom type named `n`.
pub open spec fn custom_named(t: Type, n: Seq<char>) -> bool {
    t matches Type::Custom(x) && x@ == n
}

/// `t` is the type a type name stands for:
/// - `[T; N]`: an array of the primitive `T` with dimension `N`; or, when `T`
///   is itself an array name, an array of that; or else an array of
///   structs `T` with `N` elements;
/// - `[T]` (no `;`): a dynamic array of the primitive `T`, or of structs `T`;
/// - `T[]`, `T[][]`, ...: nested dynamic arrays of the primitive `T`, and
///   `void` when `T` is not primitive;
/// - a primitive name: that type; any other name: a custom type.
pub open spec fn resolves(t: Type, n: Seq<char>) -> bool
    decreases n.len(),
{
    match fixed_array_parts(n) {
        Some((inner, size)) => {
            proof {
                lemma_fixed_array_parts(n);
            }
            match primitive_named(inner) {
                Some(p) => t matches Type::Array { element_type, dimensions } && *element_type == p
                    && dimensions@ == seq![size],
                None => if inner.len() > 0 && inner[0] == '[' {
                    t matches Type::Array { element_type, dimensions } && dimensions@ == seq![size]
                        && resolves(*element_type, inner)
                } else {
                    t matches Type::AOS { element_type, size: sz } && sz == Some(size)
                        && custom_named(*element_type, inner)
                },
            }
        },
        None => {
            if n.len() >= 2 && n[0] == '[' && n.last() == ']' && !n.contains(';') {
                let inner = n.subrange(1, n.len() - 1);
                match primitive_named(inner) {
                    Some(p) => t matches Type::Array { element_type, dimensions } && *element_type
                        == p && dimensions@.len() == 0,
                    None => t matches Type::AOS { element_type, size } && size is None
                        && custom_named(*element_type, inner),
                }
            } else {
                let b = brackets_from(n, 0);
                if b >= 0 {
                    match primitive_named(n.take(b)) {
                        Some(p) => nested_arrays(t, p, count_char(n.skip(b), '[')),
                        None => t == Type::Void,
                    }
                } else {
                    match primitive_named(n) {
                        Some(p) => t == p,
                        None => custom_named(t, n),
                    }
                }
            }
        },
    }
}

fn last_semicolon(v: &Vec<char>, a: usize, b: usize) -> (r: Option<usize>)
    requires
        a <= b <= v.len(),
    ensures
        match r {
            Some(k) => a <= k < b && k - a == last_index_of(v@.subrange(a as int, b as int), ';'),
            None => last_index_of(v@.subrange(a as int, b as int), ';') < 0,
        },
{
    let mut j: usize = b;
    while j > a
        invariant
            a <= j <= b <= v.len(),
            last_index_of(v@.subrange(a as int, b as int), ';') == last_index_of(
                v@.subrange(a as int, j as int),
                ';',
            ),
        decreases j - a,
    {
        let ghost u = v@.subrange(a as int, j as int);
        assert(u.drop_last() =~= v@.subrange(a as int, j - 1));
        if v[j - 1] == ';' {
            return Some(j - 1);
        }
        j -= 1;
    }
    None
}

pub(crate) fn copy_range(v: &Vec<char>, a: usize, b: usize) -> (r: Vec<char>)
    requires
        a <= b <= v.len(),
    ensures
        r@ == v@.subrange(a as int, b as int),
{
    let mut r: Vec<char> = Vec::new();
    let mut i: usize = a;
    while i < b
        invariant
            a <= i <= b <= v.len(),
            r@ == v@.subrange(a as int, i as int),
        decreases b - i,
    {
        r.push(v[i]);
        assert(v@.subrange(a as int, i + 1) =~= v@.subrange(a as int, i as int).push(v@[i as int]));
        i += 1;
    }
    r
}

/// Reads `[T; N]` into the element-type text and the size.
pub fn parse_fixed_array(name: &Vec<char>) -> (r: Option<(Vec<char>, usize)>)
    ensures
        match (r, fixed_array_parts(name@)) {
            (Some((t, n)), Some((tt, nn))) => t@ == tt && n == nn,
            (None, None) => true,
            _ => false,
        },
{
    let len = name.len();
    if !(len >= 2 && name[0] == '[' && name[len - 1] == ']') {
        return None;
    }
    let ghost inner = name@.subrange(1, len - 1);
    let k = match last_semicolon(name, 1, len - 1) {
        None => {
            return None;
        },
        Some(k) => k,
    };
    proof {
        lemma_last_index_of(inner, ';');
        assert(inner.subrange(k - 1 + 1, inner.len() as int) =~= name@.subrange(k + 1, len - 1));
        assert(inner.take(k - 1) =~= name@.subrange(1, k as int));
    }
    let (s0, s1) = trim_range(name, k + 1, len - 1);
    let size = match parse_usize(name, s0, s1) {
        None => {
            return None;
        },
        Some(n) => n,
    };
    let (t0, t1) = trim_range(name, 1, k);
    Some((copy_range(name, t0, t1), size))
}

fn starts_bracket(v: &Vec<char>) -> (r: bool)
    ensures
        r == (v.len() > 0 && v@[0] == '['),
{
    v.len() > 0 && v[0] == '['
}

fn contains_semicolon(v: &Vec<char>) -> (r: bool)
    ensures
        r == v@.contains(';'),
{
    let mut i: usize = 0;
    while i < v.len()
        invariant
            i <= v.len(),
            forall|j: int| 0 <= j < i ==> v@[j] != ';',
        decreases v.len() - i,
    {
        if v[i] == ';' {
            assert(v@[i as int] == ';');
            return true;
        }
        i += 1;
    }
    false
}

fn find_brackets(v: &Vec<char>) -> (r: Option<usize>)
    ensures
        match r {
            Some(b) => b == brackets_from(v@, 0) && b + 1 < v.len(),
            None => brackets_from(v@, 0) < 0,
        },
{
    let mut i: usize = 0;
    while v.len() > 0 && i < v.len() - 1
        invariant
            brackets_from(v@, 0) == brackets_from(v@, i as int),
        decreases v.len() - i,
    {
        if v[i] == '[' && v[i + 1] == ']' {
            return Some(i);
        }
        i += 1;
    }
    None
}

fn count_open(v: &Vec<char>, a: usize) -> (r: usize)
    requires
        a <= v.len(),
    ensures
        r == count_char(v@.skip(a as int), '['),
{
    let mut n: usize = 0;
    let mut i: usize = a;
    while i < v.len()
        invariant
            a <= i <= v.len(),
            n <= i - a,
            n == count_char(v@.subrange(a as int, i as int), '['),
        decreases v.len() - i,
    {
        assert(v@.subrange(a as int, i + 1).drop_last() =~= v@.subrange(a as int, i as int));
        if v[i] == '[' {
            n += 1;
        }
        i += 1;
    }
    assert(v@.subrange(a as int, v.len() as int) =~= v@.skip(a as int));
    n
}

fn custom_of(v: &Vec<char>) -> (t: Type)
    ensures
        custom_named(t, v@),
{
    Type::Custom(crate::text::string_from_chars(v))
}

/// The type a type name stands for (see `resolves`).
pub fn resolve_type_name(name: &Vec<char>) -> (t: Type)
    ensures
        resolves(t, name@),
    decreases name.len(),
{
    match parse_fixed_array(name) {
        Some((inner, size)) => {
            proof {
                lemma_fixed_array_parts(name@);
            }
            let dims = vec![size];
            assert(dims@ =~= seq![size]);
            match parse_primitive_type(&inner) {
                Some(p) => {
                    return Type::Array { element_type: Box::new(p), dimensions: dims };
                },
                None => {},
            }
            if starts_bracket(&inner) {
                let inner_type = resolve_type_name(&inner);
                return Type::Array { element_type: Box::new(inner_type), dimensions: dims };
            }
            return Type::AOS { element_type: Box::new(custom_of(&inner)), size: Some(size) };
        },
        None => {},
    }
    let len = name.len();
    if len >= 2 && name[0] == '[' && name[len - 1] == ']' && !contains_semicolon(name) {
        let inner = copy_range(name, 1, len - 1);
        match parse_primitive_type(&inner) {
            Some(p) => {
                return Type::Array { element_type: Box::new(p), dimensions: Vec::new() };
            },
            None => {
                return Type::AOS { element_type: Box::new(custom_of(&inner)), size: None };
            },
        }
    }
    match find_brackets(name) {
        Some(b) => {
            let base = copy_range(name, 0, b);
            proof {
                assert(name@.subrange(0, b as int) =~= name@.take(b as int));
            }
            match parse_primitive_type(&base) {
                Some(element_type) => {
                    let depth = count_open(name, b);
                    let mut current = element_type;
                    let mut i: usize = 0;
                    while i < depth
                        invariant
                            i <= depth,
                            nested_arrays(current, element_type, i as nat),
                        decreases depth - i,
                    {
                        current = Type::Array { element_type: Box::new(current), dimensions: Vec::new() };
                        i += 1;
                    }
                    return current;
                },
                None => {
                    return Type::Void;
                },
            }
        },
        None => {},
    }
    match parse_primitive_type(name) {
        Some(p) => p,
        None => custom_of(name),
    }
}

// ---------------------------------------------------------------------------
// Escape sequences in string literals
// ---------------------------------------------------------------------------

pub open spec fn hex_val(c: char) -> nat {
    if '0' <= c <= '9' {
        (c as int - '0' as int) as nat
    } else if 'a' <= c <= 'f' {
        (c as int - 'a' as int + 10) as nat
    } else if 'A' <= c <= 'F' {
        (c as int - 'A' as int + 10) as nat
    } else {
        0
    }
}

/// Number of hex digits (at most two) at the start of `s`.
pub open spec fn hex_run(s: Seq<char>) -> int {
    if s.len() > 0 && is_hex_digit(s[0]) {
        if s.len() > 1 && is_hex_digit(s[1]) {
            2
        } else {
            1
        }
    } else {
        0
    }
}

/// What a backslash followed by `c` stands for (other than `\x`).
pub open spec fn escape_pair(c: char) -> Seq<char> {
    if c == 'n' {
        seq!['\n']
    } else if c == 'r' {
        seq!['\r']
    } else if c == 't' {
        seq!['\t']
    } else if c == '\\' {
        seq!['\\']
    } else if c == '"' {
        seq!['"']
    } else if c == '\'' {
        seq!['\'']
    } else {
        seq!['\\', c]
    }
}

/// The text of a string literal with its escapes decoded: `\n \r \t \\ \"
/// \'` stand for one character, `\xHH` for the character with that code
/// (0 to 255); any other escape is kept as written, and so is a `\x` not
/// followed by two hex digits.
pub open spec fn decode_escapes(s: Seq<char>) -> Seq<char>
    decreases s.len(),
{
    if s.len() == 0 {
        Seq::empty()
    } else if s[0] != '\\' {
        seq![s[0]] + decode_escapes(s.drop_first())
    } else if s.len() == 1 {
        seq!['\\']
    } else {
        let c = s[1];
        let rest = s.skip(2);
        if c == 'x' {
            let k = hex_run(rest);
            if k == 2 {
                seq![((hex_val(rest[0]) * 16 + hex_val(rest[1])) as u8) as char] + decode_escapes(
                    rest.skip(2),
                )
            } else {
                seq!['\\', 'x'] + rest.take(k) + decode_escapes(rest.skip(k))
            }
        } else {
            escape_pair(c) + decode_escapes(rest)
        }
    }
}

fn hex_char(c: char) -> (r: bool)
    ensures
        r == is_hex_digit(c),
{
    ('0' <= c && c <= '9') || ('a' <= c && c <= 'f') || ('A' <= c && c <= 'F')
}

fn hex_value(c: char) -> (r: u8)
    requires
        is_hex_digit(c),
    ensures
        r == hex_val(c),
{
    if '0' <= c && c <= '9' {
        (c as u32 - '0' as u32) as u8
    } else if 'a' <= c && c <= 'f' {
        (c as u32 - 'a' as u32 + 10) as u8
    } else {
        (c as u32 - 'A' as u32 + 10) as u8
    }
}

/// Decodes the escape sequences of `v[a..b]`.
pub fn decode_escape_sequences(v: &Vec<char>, a: usize, b: usize) -> (r: Vec<char>)
    requires
        a <= b <= v.len(),
    ensures
        r@ == decode_escapes(v@.subrange(a as int, b as int)),
{
    let ghost s = v@.subrange(a as int, b as int);
    let mut out: Vec<char> = Vec::new();
    let mut i: usize = a;
    while i < b
        invariant
            a <= i <= b <= v.len(),
            s == v@.subrange(a as int, b as int),
            out@ + decode_escapes(v@.subrange(i as int, b as int)) == decode_escapes(s),
        decreases b - i,
    {
        let ghost t = v@.subrange(i as int, b as int);
        let ghost before = out@;
        let c = v[i];
        if c != '\\' {
            out.push(c);
            assert(t.drop_first() =~= v@.subrange(i + 1, b as int));
            assert(out@ + decode_escapes(v@.subrange(i + 1, b as int)) =~= before + decode_escapes(t));
            i += 1;
        } else if i + 1 == b {
            out.push('\\');
            assert(decode_escapes(v@.subrange(b as int, b as int)) =~= Seq::<char>::empty());
            assert(out@ + decode_escapes(v@.subrange(b as int, b as int)) =~= before + decode_escapes(t));
            i += 1;
        } else {
            let e = v[i + 1];
            let ghost rest = t.skip(2);
            assert(rest =~= v@.subrange(i + 2, b as int));
            if e == 'x' {
                let h0 = i + 2 < b && hex_char(v[i + 2]);
                let h1 = h0 && i + 3 < b && hex_char(v[i + 3]);
                if h1 {
                    let code: u8 = hex_value(v[i + 2]) * 16 + hex_value(v[i + 3]);
                    let ch = code as char;
                    out.push(ch);
                    assert(rest.skip(2) =~= v@.subrange(i + 4, b as int));
                    assert(out@ + decode_escapes(v@.subrange(i + 4, b as int)) =~= before + decode_escapes(t));
                    i += 4;
                } else if h0 {
                    out.push('\\');
                    out.push('x');
                    out.push(v[i + 2]);
                    assert(rest.take(1) =~= seq![v@[i + 2]]);
                    assert(rest.skip(1) =~= v@.subrange(i + 3, b as int));
                    assert(out@ + decode_escapes(v@.subrange(i + 3, b as int)) =~= before + decode_escapes(t));
                    i += 3;
                } else {
                    out.push('\\');
                    out.push('x');
                    assert(rest.take(0) =~= Seq::<char>::empty());
                    assert(rest.skip(0) =~= rest);
                    assert(out@ + decode_escapes(v@.subrange(i + 2, b as int)) =~= before + decode_escapes(t));
                    i += 2;
                }
            } else {
                if e == 'n' {
                    out.push('\n');
                } else if e == 'r' {
                    out.push('\r');
                } else if e == 't' {
                    out.push('\t');
                } else if e == '\\' {
                    out.push('\\');
                } else if e == '"' {
                    out.push('"');
                } else if e == '\'' {
                    out.push('\'');
                } else {
                    out.push('\\');
                    out.push(e);
                }
                assert(out@ + decode_escapes(v@.subrange(i + 2, b as int)) =~= before + decode_escapes(t));
                i += 2;
            }
        }
    }
    assert(decode_escapes(v@.subrange(b as int, b as int)) =~= Seq::<char>::empty());
    assert(out@ + Seq::<char>::empty() =~= out@);
    out
}

// ---------------------------------------------------------------------------
// Decimal text of a number
// ---------------------------------------------------------------------------

pub open spec fn digit_char(d: nat) -> char {
    (d + '0' as nat) as char
}

/// The decimal digits of `n`, without leading zeros.
pub open spec fn decimal(n: nat) -> Seq<char>
    decreases n,
{
    if n < 10 {
        seq![digit_char(n)]
    } else {
        decimal(n / 10).push(digit_char(n % 10))
    }
}

/// Appends the decimal digits of `n` to `out`.
pub fn push_decimal(out: &mut Vec<char>, n: u32)
    ensures
        final(out)@ == old(out)@ + decimal(n as nat),
    decreases n,
{
    if n >= 10 {
        push_decimal(out, n / 10);
    }
    let d = (n % 10) as u32;
    let c = (d + '0' as u32) as u8 as char;
    out.push(c);
    proof {
        assert(old(out)@ + decimal(n as nat) =~= final(out)@) by {
            if n >= 10 {
                assert(decimal(n as nat) == decimal((n / 10) as nat).push(digit_char((n % 10) as nat)));
            }
        }
    }
}

} // verus!
