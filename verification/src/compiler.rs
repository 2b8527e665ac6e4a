//! Compilation options and results, and the front end of compilation:
//! source text to a syntax tree and the capabilities it asks for.

use vstd::prelude::*;

use crate::ast::{Statement, StatementKind};
use crate::capability::{parse_capability_decl, CapabilityDecl};
use crate::lexer::tokenize;
use crate::lexer_spec::utf8_len;
use crate::described::stmt_is;
use crate::grammar::{source_toks, start_state};
use crate::lexer_spec::lex;
use crate::parser::{lemma_source_toks, parse_tokens, significant, MAX_NESTING};
use crate::syntax::g_program;
use crate::text::push_str;

verus! {

/// Code-generation backend.
#[derive(Debug, Clone, Copy, PartialEq, Eq, Structural)]
pub enum Backend {
    Qbe,
}

impl Default for Backend {
    fn default() -> (b: Backend)
        ensures
            b == Backend::Qbe,
    {
        Backend::Qbe
    }
}

/// Optimisation level passed to the system compiler.
#[derive(Debug, Clone, Copy, PartialEq, Eq, Structural)]
pub enum OptLevel {
    O0,
    O1,
    O2,
}

impl Default for OptLevel {
    fn default() -> (o: OptLevel)
        ensures
            o == OptLevel::O0,
    {
        OptLevel::O0
    }
}

impl OptLevel {
    /// The flag for `cc`: `-O0`, `-O1` or `-O2`.
    pub fn cc_flag(self) -> (r: &'static str)
        ensures
            self == OptLevel::O0 ==> r@ == "-O0"@,
            self == OptLevel::O1 ==> r@ == "-O1"@,
            self == OptLevel::O2 ==> r@ == "-O2"@,
    {
        match self {
            OptLevel::O0 => "-O0",
            OptLevel::O1 => "-O1",
            OptLevel::O2 => "-O2",
        }
    }
}

/// Options that control one compilation. Paths are held as text.
#[derive(Debug, Clone)]
pub struct CompileOptions {
    pub backend: Backend,
    pub optimization: OptLevel,
    /// Where the final artifact goes, if given.
    pub output_path: Option<String>,
    /// Build a shared library instead of an executable.
    pub plugin_mode: bool,
    pub plugin_name: Option<String>,
    pub plugin_version: Option<String>,
    /// The source file, used to find capability declarations beside it.
    pub source_path: Option<String>,
    /// Whether loop back-edges check for timer interrupts.
    pub loop_interrupt_checks: bool,
    /// Whether those checks run every few iterations, by estimated cost.
    pub adaptive_loop_interrupt_checks: bool,
    /// Target worst-case loop delay for adaptive checks, in microseconds.
    pub loop_interrupt_check_target_micros: u64,
    /// Extra objects, C or Rust sources, or libraries to link in.
    pub extra_link_objects: Vec<String>,
}

impl Default for CompileOptions {
    fn default() -> (o: CompileOptions)
        ensures
            o.backend == Backend::Qbe,
            o.optimization == OptLevel::O0,
            o.output_path is None,
            !o.plugin_mode,
            o.plugin_name is None,
            o.plugin_version is None,
            o.source_path is None,
            o.loop_interrupt_checks,
            !o.adaptive_loop_interrupt_checks,
            o.loop_interrupt_check_target_micros == 1000,
            o.extra_link_objects@.len() == 0,
    {
        CompileOptions {
            backend: Backend::default(),
            optimization: OptLevel::default(),
            output_path: None,
            plugin_mode: false,
            plugin_name: None,
            plugin_version: None,
            source_path: None,
            loop_interrupt_checks: true,
            adaptive_loop_interrupt_checks: false,
            loop_interrupt_check_target_micros: 1000,
            extra_link_objects: Vec::new(),
        }
    }
}

/// What compiling one source gives: IR (empty on error), errors, warnings,
/// and for plugins the hash of the built library.
#[derive(Debug, Clone)]
pub struct CompileResult {
    pub ir: String,
    pub errors: Vec<String>,
    pub warnings: Vec<String>,
    pub plugin_hash: Option<String>,
}

// ---------------------------------------------------------------------------
// Capabilities named in a program
// ---------------------------------------------------------------------------

pub open spec fn texts(v: Seq<String>) -> Seq<Seq<char>> {
    v.map_values(|s: String| s@)
}

pub open spec fn pair_concat(
    a: (Seq<Seq<char>>, Seq<Seq<char>>),
    b: (Seq<Seq<char>>, Seq<Seq<char>>),
) -> (Seq<Seq<char>>, Seq<Seq<char>>) {
    (a.0 + b.0, a.1 + b.1)
}

pub open spec fn no_caps() -> (Seq<Seq<char>>, Seq<Seq<char>>) {
    (Seq::empty(), Seq::empty())
}

/// The capabilities a statement requires and those it names as optional,
/// in source order: `requires`/`optional` declarations, looked for inside
/// programs, blocks, function bodies, both branches of an `if`, the bodies
/// of `while`, counted `for`, `for ... in` over arrays and ranges, `try`
/// and `catch`, and `with`.
pub open spec fn caps_of(s: Statement) -> (Seq<Seq<char>>, Seq<Seq<char>>)
    decreases s, 1int,
{
    match s.kind {
        StatementKind::RequiresDeclaration { capabilities } => (texts(capabilities@), Seq::empty()),
        StatementKind::OptionalDeclaration { capabilities } => (Seq::empty(), texts(capabilities@)),
        StatementKind::Program { statements, .. } => caps_of_list(statements@),
        StatementKind::Block { statements, .. } => caps_of_list(statements@),
        StatementKind::FunctionDeclaration { body, .. } => caps_of_list(body.statements@),
        StatementKind::AsyncFunctionDeclaration { body, .. } => caps_of_list(body.statements@),
        StatementKind::Conditional { true_branch, false_branch, .. } => pair_concat(
            caps_of_list(true_branch.statements@),
            match false_branch {
                Some(fb) => caps_of_list(fb.statements@),
                None => no_caps(),
            },
        ),
        StatementKind::WhileLoop { body, .. } => caps_of_list(body.statements@),
        StatementKind::ForLoop { body, .. } => caps_of_list(body.statements@),
        StatementKind::ForEachLoop { body, .. } => caps_of_list(body.statements@),
        StatementKind::ForInRange { body, .. } => caps_of_list(body.statements@),
        StatementKind::TryCatch { try_body, catch_body, .. } => pair_concat(
            caps_of_list(try_body.statements@),
            caps_of_list(catch_body.statements@),
        ),
        StatementKind::WithBlock { body, .. } => caps_of_list(body.statements@),
        _ => no_caps(),
    }
}

/// The capabilities of a list of statements, in order.
pub open spec fn caps_of_list(ss: Seq<Statement>) -> (Seq<Seq<char>>, Seq<Seq<char>>)
    decreases ss, 0int,
{
    if ss.len() == 0 {
        no_caps()
    } else {
        pair_concat(caps_of_list(ss.subrange(0, ss.len() - 1)), caps_of(ss[ss.len() - 1]))
    }
}

/// The statements of the body of a function declaration, sync or async.
pub open spec fn function_body(s: Statement) -> Seq<Statement> {
    match s.kind {
        StatementKind::FunctionDeclaration { body, .. } => body.statements@,
        StatementKind::AsyncFunctionDeclaration { body, .. } => body.statements@,
        _ => Seq::empty(),
    }
}

/// The capability named at position `i` of a `requires` declaration that
/// is statement `k` of `ss`, if there is one.
pub open spec fn required_at(ss: Seq<Statement>, k: int, i: int) -> Option<Seq<char>> {
    if 0 <= k < ss.len() {
        match ss[k].kind {
            StatementKind::RequiresDeclaration { capabilities } => if 0 <= i < capabilities@.len() {
                Some(capabilities@[i]@)
            } else {
                None
            },
            _ => None,
        }
    } else {
        None
    }
}

/// The capability named at position `i` of an `optional` declaration
/// that is statement `k` of `ss`, if there is one.
pub open spec fn optional_at(ss: Seq<Statement>, k: int, i: int) -> Option<Seq<char>> {
    if 0 <= k < ss.len() {
        match ss[k].kind {
            StatementKind::OptionalDeclaration { capabilities } => if 0 <= i < capabilities@.len() {
                Some(capabilities@[i]@)
            } else {
                None
            },
            _ => None,
        }
    } else {
        None
    }
}

proof fn lemma_list_collects(ss: Seq<Statement>, k: int, i: int)
    ensures
        required_at(ss, k, i) matches Some(c) ==> caps_of_list(ss).0.contains(c),
        optional_at(ss, k, i) matches Some(c) ==> caps_of_list(ss).1.contains(c),
    decreases ss.len(),
{
    if ss.len() > 0 && 0 <= k < ss.len() {
        let pre = ss.subrange(0, ss.len() - 1);
        let last = ss[ss.len() - 1];
        if k < ss.len() - 1 {
            assert(pre[k] == ss[k]);
            assert(required_at(pre, k, i) == required_at(ss, k, i));
            assert(optional_at(pre, k, i) == optional_at(ss, k, i));
            lemma_list_collects(pre, k, i);
            if required_at(ss, k, i) is Some {
                let c = required_at(ss, k, i)->0;
                let a = caps_of_list(pre).0;
                let j = choose|j: int| 0 <= j < a.len() && a[j] == c;
                assert((a + caps_of(last).0)[j] == c);
            }
            if optional_at(ss, k, i) is Some {
                let c = optional_at(ss, k, i)->0;
                let a = caps_of_list(pre).1;
                let j = choose|j: int| 0 <= j < a.len() && a[j] == c;
                assert((a + caps_of(last).1)[j] == c);
            }
        } else {
            let a = caps_of_list(pre);
            match last.kind {
                StatementKind::RequiresDeclaration { capabilities } => {
                    if 0 <= i < capabilities@.len() {
                        assert((a.0 + texts(capabilities@))[a.0.len() + i] == capabilities@[i]@);
                    }
                },
                StatementKind::OptionalDeclaration { capabilities } => {
                    if 0 <= i < capabilities@.len() {
                        assert((a.1 + texts(capabilities@))[a.1.len() + i] == capabilities@[i]@);
                    }
                },
                _ => {},
            }
        }
    }
}

/// Every capability that a `requires` (or `optional`) declaration in the
/// body of a function names, whether the function is async or not, is
/// among the capabilities the declaration requires (or names as optional).
pub proof fn law_function_bodies_collect_capabilities(s: Statement, k: int, i: int)
    requires
        s.kind is FunctionDeclaration || s.kind is AsyncFunctionDeclaration,
    ensures
        required_at(function_body(s), k, i) matches Some(c) ==> caps_of(s).0.contains(c),
        optional_at(function_body(s), k, i) matches Some(c) ==> caps_of(s).1.contains(c),
{
    lemma_list_collects(function_body(s), k, i);
}

/// An async function declaration has the capabilities of a plain function
/// declaration with the same body.
pub proof fn law_async_functions_collect_like_plain_ones(a: Statement, f: Statement)
    requires
        a.kind is AsyncFunctionDeclaration,
        f.kind is FunctionDeclaration,
        function_body(a) == function_body(f),
    ensures
        caps_of(a) == caps_of(f),
{
}

/// The statement lists a statement holds and in which its capability
/// declarations are looked for: a program's or block's statements, a
/// function's body (async or not), both branches of an `if`, the bodies of
/// `while`, counted `for` and `for ... in` over an array or a range, the
/// `try` and `catch` blocks, and a `with` body.
pub open spec fn nested_lists(s: Statement) -> Seq<Seq<Statement>> {
    match s.kind {
        StatementKind::Program { statements, .. } => seq![statements@],
        StatementKind::Block { statements, .. } => seq![statements@],
        StatementKind::FunctionDeclaration { body, .. } => seq![body.statements@],
        StatementKind::AsyncFunctionDeclaration { body, .. } => seq![body.statements@],
        StatementKind::Conditional { true_branch, false_branch, .. } => match false_branch {
            Some(fb) => seq![true_branch.statements@, fb.statements@],
            None => seq![true_branch.statements@],
        },
        StatementKind::WhileLoop { body, .. } => seq![body.statements@],
        StatementKind::ForLoop { body, .. } => seq![body.statements@],
        StatementKind::ForEachLoop { body, .. } => seq![body.statements@],
        StatementKind::ForInRange { body, .. } => seq![body.statements@],
        StatementKind::TryCatch { try_body, catch_body, .. } => seq![try_body.statements@, catch_body.statements@],
        StatementKind::WithBlock { body, .. } => seq![body.statements@],
        _ => seq![],
    }
}

proof fn lemma_contains_concat(a: Seq<Seq<char>>, b: Seq<Seq<char>>, c: Seq<char>)
    ensures
        a.contains(c) ==> (a + b).contains(c),
        b.contains(c) ==> (a + b).contains(c),
{
    if a.contains(c) {
        let j = choose|j: int| 0 <= j < a.len() && a[j] == c;
        assert((a + b)[j] == c);
    }
    if b.contains(c) {
        let j = choose|j: int| 0 <= j < b.len() && b[j] == c;
        assert((a + b)[a.len() + j] == c);
    }
}

/// Every capability named by a `requires` (or `optional`) declaration
/// that stands directly in a statement list the statement holds is among
/// the capabilities the statement requires (or names as optional).
pub proof fn law_nested_declarations_collected(s: Statement, l: int, k: int, i: int)
    requires
        0 <= l < nested_lists(s).len(),
    ensures
        required_at(nested_lists(s)[l], k, i) matches Some(c) ==> caps_of(s).0.contains(c),
        optional_at(nested_lists(s)[l], k, i) matches Some(c) ==> caps_of(s).1.contains(c),
{
    let ss = nested_lists(s)[l];
    lemma_list_collects(ss, k, i);
    match s.kind {
        StatementKind::Conditional { true_branch, false_branch, .. } => {
            let t = caps_of_list(true_branch.statements@);
            let f = match false_branch {
                Some(fb) => caps_of_list(fb.statements@),
                None => no_caps(),
            };
            if required_at(ss, k, i) is Some {
                lemma_contains_concat(t.0, f.0, required_at(ss, k, i)->0);
            }
            if optional_at(ss, k, i) is Some {
                lemma_contains_concat(t.1, f.1, optional_at(ss, k, i)->0);
            }
        },
        StatementKind::TryCatch { try_body, catch_body, .. } => {
            let t = caps_of_list(try_body.statements@);
            let f = caps_of_list(catch_body.statements@);
            if required_at(ss, k, i) is Some {
                lemma_contains_concat(t.0, f.0, required_at(ss, k, i)->0);
            }
            if optional_at(ss, k, i) is Some {
                lemma_contains_concat(t.1, f.1, optional_at(ss, k, i)->0);
            }
        },
        _ => {},
    }
}

fn push_strings(out: &mut Vec<String>, v: &Vec<String>)
    ensures
        texts(final(out)@) == texts(old(out)@) + texts(v@),
{
    let mut i: usize = 0;
    while i < v.len()
        invariant
            i <= v.len(),
            texts(out@) == texts(old(out)@) + texts(v@.take(i as int)),
        decreases v.len() - i,
    {
        let ghost before = out@;
        out.push(v[i].clone());
        assert(texts(out@) =~= texts(before) + seq![v@[i as int]@]);
        assert(texts(v@.take(i + 1)) =~= texts(v@.take(i as int)) + seq![v@[i as int]@]);
        i += 1;
    }
    assert(v@.take(v.len() as int) =~= v@);
}

fn extract_list(ss: &Vec<Statement>, required: &mut Vec<String>, optional: &mut Vec<String>)
    ensures
        texts(final(required)@) == texts(old(required)@) + caps_of_list(ss@).0,
        texts(final(optional)@) == texts(old(optional)@) + caps_of_list(ss@).1,
    decreases ss@, 0int,
{
    let mut i: usize = 0;
    while i < ss.len()
        invariant
            i <= ss.len(),
            texts(required@) == texts(old(required)@) + caps_of_list(ss@.subrange(0, i as int)).0,
            texts(optional@) == texts(old(optional)@) + caps_of_list(ss@.subrange(0, i as int)).1,
        decreases ss.len() - i,
    {
        proof {
            assert(ss@.subrange(0, i + 1).subrange(0, i as int) =~= ss@.subrange(0, i as int));
            assert(ss@.subrange(0, i + 1)[i as int] == ss@[i as int]);
            assert(decreases_to!(ss@ => ss@[i as int]));
        }
        extract_capabilities(&ss[i], required, optional);
        proof {
            assert(texts(required@) =~= texts(old(required)@) + caps_of_list(
                ss@.subrange(0, i + 1),
            ).0);
            assert(texts(optional@) =~= texts(old(optional)@) + caps_of_list(
                ss@.subrange(0, i + 1),
            ).1);
        }
        i += 1;
    }
    assert(ss@.subrange(0, ss.len() as int) =~= ss@);
}

/// Appends the capabilities `stmt` requires to `required` and those it
/// names as optional to `optional` (see `caps_of`).
pub fn extract_capabilities(stmt: &Statement, required: &mut Vec<String>, optional: &mut Vec<String>)
    ensures
        texts(final(required)@) == texts(old(required)@) + caps_of(*stmt).0,
        texts(final(optional)@) == texts(old(optional)@) + caps_of(*stmt).1,
    decreases *stmt, 1int,
{
    match &stmt.kind {
        StatementKind::RequiresDeclaration { capabilities } => {
            push_strings(required, capabilities);
            assert(texts(optional@) =~= texts(optional@) + Seq::<Seq<char>>::empty());
        },
        StatementKind::OptionalDeclaration { capabilities } => {
            push_strings(optional, capabilities);
            assert(texts(required@) =~= texts(required@) + Seq::<Seq<char>>::empty());
        },
        StatementKind::Program { statements, .. } => {
            extract_list(statements, required, optional);
        },
        StatementKind::Block { statements, .. } => {
            extract_list(statements, required, optional);
        },
        StatementKind::FunctionDeclaration { body, .. } => {
            extract_list(&body.statements, required, optional);
        },
        StatementKind::AsyncFunctionDeclaration { body, .. } => {
            extract_list(&body.statements, required, optional);
        },
        StatementKind::Conditional { true_branch, false_branch, .. } => {
            extract_list(&true_branch.statements, required, optional);
            match false_branch {
                Some(fb) => {
                    extract_list(&fb.statements, required, optional);
                },
                None => {
                    assert(texts(required@) =~= texts(required@) + Seq::<Seq<char>>::empty());
                    assert(texts(optional@) =~= texts(optional@) + Seq::<Seq<char>>::empty());
                },
            }
            assert(texts(required@) =~= texts(old(required)@) + caps_of(*stmt).0);
            assert(texts(optional@) =~= texts(old(optional)@) + caps_of(*stmt).1);
        },
        StatementKind::WhileLoop { body, .. } => {
            extract_list(&body.statements, required, optional);
        },
        StatementKind::ForLoop { body, .. } => {
            extract_list(&body.statements, required, optional);
        },
        StatementKind::ForEachLoop { body, .. } => {
            extract_list(&body.statements, required, optional);
        },
        StatementKind::ForInRange { body, .. } => {
            extract_list(&body.statements, required, optional);
        },
        StatementKind::TryCatch { try_body, catch_body, .. } => {
            extract_list(&try_body.statements, required, optional);
            extract_list(&catch_body.statements, required, optional);
            assert(texts(required@) =~= texts(old(required)@) + caps_of(*stmt).0);
            assert(texts(optional@) =~= texts(old(optional)@) + caps_of(*stmt).1);
        },
        StatementKind::WithBlock { body, .. } => {
            extract_list(&body.statements, required, optional);
        },
        _ => {
            assert(texts(required@) =~= texts(required@) + Seq::<Seq<char>>::empty());
            assert(texts(optional@) =~= texts(optional@) + Seq::<Seq<char>>::empty());
        },
    }
}

// ---------------------------------------------------------------------------
// Front end
// ---------------------------------------------------------------------------

/// The front end's findings on one source: its syntax tree (when it has
/// tokens and parses), the capabilities it requires and those it names as
/// optional, and errors and warnings.
#[derive(Debug)]
pub struct FrontEnd {
    pub program: Option<Statement>,
    pub required: Vec<String>,
    pub optional: Vec<String>,
    pub errors: Vec<String>,
    pub warnings: Vec<String>,
}

/// The warning for a source with nothing but whitespace and comments.
pub open spec fn empty_source_warning() -> Seq<char> {
    "source is empty after filtering whitespace/comments"@
}

/// Runs the first steps of compilation: tokenize, drop whitespace and
/// comments, parse, and collect the capabilities the program declares.
///
/// A source with no significant tokens gives a warning and no program; a
/// syntax error gives one error and no program. Otherwise the program is
/// the one the grammar reads from the source's significant tokens.
pub fn compile_front_end(source: &str) -> (f: FrontEnd)
    requires
        utf8_len(source@) < u32::MAX,
    ensures
        ({
            let toks = source_toks(lex(source@), source@);
            &&& f.warnings@.len() == (if toks.len() == 0 { 1int } else { 0 })
            &&& toks.len() == 0 ==> f.warnings@[0]@ == empty_source_warning() && f.errors@.len() == 0
            &&& match g_program(toks, start_state(), MAX_NESTING as nat) {
                Some((d, _)) => toks.len() > 0 ==> (f.errors@.len() == 0 && (f.program matches Some(
                    p,
                ) && stmt_is(p, d))),
                None => toks.len() > 0 ==> f.errors@.len() == 1,
            }
        }),
        f.errors@.len() <= 1,
        f.program is Some <==> f.errors@.len() == 0 && f.warnings@.len() == 0,
        f.program matches Some(p) ==> p.kind is Program && texts(f.required@) == caps_of(p).0
            && texts(f.optional@) == caps_of(p).1,
        f.program is None ==> f.required@.len() == 0 && f.optional@.len() == 0,
{
    let tokens = tokenize(source);
    proof {
        lemma_source_toks(tokens@, lex(source@), source@);
    }
    let mut any = false;
    let mut i: usize = 0;
    while i < tokens.len()
        invariant
            i <= tokens.len(),
            any == (significant(tokens@.take(i as int)).len() > 0),
        decreases tokens.len() - i,
    {
        proof {
            assert(tokens@.take(i + 1).drop_last() =~= tokens@.take(i as int));
        }
        if tokens[i].token_type != crate::token::TokenType::Whitespace && tokens[i].token_type
            != crate::token::TokenType::Comment {
            any = true;
        }
        i += 1;
    }
    proof {
        assert(tokens@.take(tokens.len() as int) =~= tokens@);
    }
    let mut f = FrontEnd {
        program: None,
        required: Vec::new(),
        optional: Vec::new(),
        errors: Vec::new(),
        warnings: Vec::new(),
    };
    if !any {
        let mut w = String::new();
        push_str(&mut w, "source is empty after filtering whitespace/comments");
        f.warnings.push(w);
        return f;
    }
    match parse_tokens(tokens.as_slice()) {
        Err(e) => {
            f.errors.push(e);
            f
        },
        Ok(ast) => {
            let mut required: Vec<String> = Vec::new();
            let mut optional: Vec<String> = Vec::new();
            extract_capabilities(&ast, &mut required, &mut optional);
            assert(texts(required@) =~= caps_of(ast).0);
            assert(texts(optional@) =~= caps_of(ast).1);
            f.required = required;
            f.optional = optional;
            f.program = Some(ast);
            f
        },
    }
}

/// The declaration a `.mogdecl` file gives for capability `name`: its first
/// capability, when that is named `name`.
pub fn capability_decl_for(name: &String, content: &str) -> (r: Option<CapabilityDecl>)
    ensures
        r matches Some(d) ==> d.name@ == name@,
        match crate::capability::mogdecl_decls(content@) {
            Some(ds) => if ds.len() > 0 && ds[0].name == name@ {
                r matches Some(d) && crate::capability::decl_is(d, ds[0])
            } else {
                r is None
            },
            None => r is None,
        },
{
    match parse_capability_decl(content) {
        Some(d) => {
            if d.name == *name {
                Some(d)
            } else {
                None
            }
        },
        None => None,
    }
}

// ---------------------------------------------------------------------------
// Plugin hashes
// ---------------------------------------------------------------------------

/// The BLAKE3 digest of a byte string.
pub uninterp spec fn blake3_digest(data: Seq<u8>) -> Seq<u8>;

/// The BLAKE3 digest of `data`.
///
/// Trusted: calls `blake3::hash` and returns the bytes of the `Hash` it
/// gives. The contract claims only that the digest is 32 bytes and depends
/// on the input bytes alone; what the bytes are is left to the name
/// `blake3_digest`.
#[verifier::external_body]
fn blake3_hash(data: &[u8]) -> (r: [u8; 32])
    ensures
        r@ == blake3_digest(data@),
{
    *blake3::hash(data).as_bytes()
}

/// The lowercase hexadecimal digit for `n` (below 16).
pub open spec fn hex_digit(n: nat) -> char {
    if n < 10 {
        (n + '0' as nat) as char
    } else {
        ((n - 10) + 'a' as nat) as char
    }
}

/// Bytes in lowercase hexadecimal, two digits per byte, high half first.
pub open spec fn lower_hex(bytes: Seq<u8>) -> Seq<char>
    decreases bytes.len(),
{
    if bytes.len() == 0 {
        Seq::empty()
    } else {
        lower_hex(bytes.drop_last()) + seq![
            hex_digit((bytes.last() / 16) as nat),
            hex_digit((bytes.last() % 16) as nat),
        ]
    }
}

fn hex_char(n: u8) -> (c: char)
    requires
        n < 16,
    ensures
        c == hex_digit(n as nat),
{
    if n < 10 {
        (n + 48) as char
    } else {
        (n - 10 + 97) as char
    }
}

/// A BLAKE3 digest in lowercase hexadecimal.
pub fn digest_hex(digest: &[u8; 32]) -> (r: String)
    ensures
        r@ == lower_hex(digest@),
        r@.len() == 64,
{
    let ghost d = digest@;
    let mut out: Vec<char> = Vec::new();
    let mut i: usize = 0;
    while i < 32
        invariant
            i <= 32,
            d == digest@,
            d.len() == 32,
            out@ == lower_hex(d.take(i as int)),
            out@.len() == 2 * i,
        decreases 32 - i,
    {
        let b = digest[i];
        assert(d.take(i + 1).drop_last() =~= d.take(i as int));
        out.push(hex_char(b / 16));
        out.push(hex_char(b % 16));
        assert(out@ =~= lower_hex(d.take(i + 1)));
        i += 1;
    }
    assert(d.take(32) =~= d);
    crate::text::string_from_chars(&out)
}

/// The BLAKE3 hash of a built plugin, in lowercase hexadecimal.
pub fn plugin_hash_hex(binary: &[u8]) -> (r: String)
    ensures
        r@ == lower_hex(blake3_digest(binary@)),
        r@.len() == 64,
{
    let digest = blake3_hash(binary);
    digest_hex(&digest)
}

} // verus!
