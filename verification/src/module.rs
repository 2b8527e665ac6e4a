//! Modules: the `mog.mod` file, packages, and import cycles.
//!
//! A project is rooted at a directory holding `mog.mod`, whose
//! `module <name>` line names it; each directory of `.mog` files below it is
//! a package. Reading directories and files is the caller's part; this
//! module reads the texts and decides.

use vstd::prelude::*;

use crate::ast::Statement;
use crate::lexer_spec::{lemma_line_end_bounds, line_end};
use crate::text::{chars_eq, chars_of, push_str, string_from_slice};
use crate::type_names::{copy_range, trim, trim_range};
use crate::types::Type;

verus! {

/// One package: a directory of `.mog` files.
#[derive(Debug)]
pub struct MogModule {
    /// Import path, e.g. `"math"`.
    pub path: String,
    /// Short package name.
    pub package_name: String,
    /// Paths of the package's `.mog` files.
    pub files: Vec<String>,
    /// The package's syntax tree, once parsed.
    pub ast: Option<Statement>,
    /// Symbols the package exports with `pub`.
    pub exports: Vec<ExportedSymbol>,
}

/// A symbol exported with `pub`.
#[derive(Debug)]
pub struct ExportedSymbol {
    pub name: String,
    pub symbol_type: Type,
}

/// The packages of a project.
#[derive(Debug)]
pub struct ModuleGraph {
    /// The directory holding `mog.mod`.
    pub root: String,
    /// The packages, each with its import path.
    pub packages: Vec<(String, MogModule)>,
    /// The name declared in `mog.mod`.
    pub main_package: String,
}

// ---------------------------------------------------------------------------
// mog.mod
// ---------------------------------------------------------------------------

/// The line that starts at `i`, without its line ending (`\n` or `\r\n`),
/// as `str::lines` gives it.
pub open spec fn line_at(s: Seq<char>, i: int) -> Seq<char> {
    let e = line_end(s, i);
    let raw = s.subrange(i, e);
    if e < s.len() && raw.len() > 0 && raw.last() == '\r' {
        raw.drop_last()
    } else {
        raw
    }
}

pub open spec fn module_keyword() -> Seq<char> {
    seq!['m', 'o', 'd', 'u', 'l', 'e', ' ']
}

/// The name a line declares: the line, trimmed, is `module ` followed by a
/// name that is not empty once trimmed.
pub open spec fn module_decl(line: Seq<char>) -> Option<Seq<char>> {
    let t = trim(line);
    if t.len() >= 7 && t.take(7) == module_keyword() && trim(t.skip(7)).len() > 0 {
        Some(trim(t.skip(7)))
    } else {
        None
    }
}

/// The first module name declared by a line starting at or after `i`.
pub open spec fn module_name_from(s: Seq<char>, i: int) -> Option<Seq<char>>
    decreases s.len() + 1 - i,
{
    if i < 0 || i >= s.len() {
        None
    } else {
        match module_decl(line_at(s, i)) {
            Some(n) => Some(n),
            None => {
                proof {
                    crate::lexer_spec::lemma_line_end_bounds(s, i);
                }
                module_name_from(s, line_end(s, i) + 1)
            },
        }
    }
}

/// The module name of a `mog.mod` file: that of its first `module` line.
pub open spec fn module_name(s: Seq<char>) -> Option<Seq<char>> {
    module_name_from(s, 0)
}

/// A line of `s` starts at `i`: at the start of the text or after a `\n`.
pub open spec fn line_start(s: Seq<char>, i: int) -> bool {
    0 <= i < s.len() && (i == 0 || s[i - 1] == '\n')
}

/// No `\n` stands from `p` up to `line_end(s, p)`, which is the end or a `\n`.
proof fn lemma_line_end_no_newline(s: Seq<char>, p: int)
    requires
        0 <= p <= s.len(),
    ensures
        forall|k: int| p <= k < line_end(s, p) ==> s[k] != '\n',
        line_end(s, p) == s.len() || s[line_end(s, p)] == '\n',
    decreases s.len() - p,
{
    if p < s.len() && s[p] != '\n' {
        lemma_line_end_no_newline(s, p + 1);
    }
}

/// From line start `i` on, the module name is that of the first line, at or
/// after `i`, that declares one.
proof fn lemma_module_name_from(s: Seq<char>, i: int)
    requires
        i == 0 || line_start(s, i) || i >= s.len(),
        i >= 0,
    ensures
        match module_name_from(s, i) {
            Some(n) => exists|k: int|
                i <= k && line_start(s, k) && module_decl(line_at(s, k)) == Some(n) && forall|j: int|
                    i <= j < k && line_start(s, j) ==> module_decl(line_at(s, j)) is None,
            None => forall|j: int| i <= j && line_start(s, j) ==> module_decl(line_at(s, j)) is None,
        },
    decreases s.len() + 1 - i,
{
    if i < s.len() {
        lemma_line_end_bounds(s, i);
        lemma_line_end_no_newline(s, i);
        let e = line_end(s, i);
        match module_decl(line_at(s, i)) {
            Some(n) => {
                assert(line_start(s, i));
            },
            None => {
                lemma_module_name_from(s, e + 1);
                assert forall|j: int| i < j <= e && line_start(s, j) implies false by {
                    assert(s[j - 1] != '\n');
                }
                if module_name_from(s, e + 1) is Some {
                    let n = module_name_from(s, e + 1)->0;
                    let k = choose|k: int|
                        e + 1 <= k && line_start(s, k) && module_decl(line_at(s, k)) == Some(n)
                            && forall|j: int|
                            e + 1 <= j < k && line_start(s, j) ==> module_decl(line_at(s, j)) is None;
                    assert forall|j: int| i <= j < k && line_start(s, j) implies module_decl(
                        line_at(s, j),
                    ) is None by {
                        if j > i && j <= e {
                            assert(s[j - 1] != '\n');
                        }
                    }
                }
            },
        }
    }
}

/// A `mog.mod` file's module name is that of its first line that declares
/// one, and it has none when no line declares one.
pub proof fn law_module_name_first_declaring_line(s: Seq<char>)
    ensures
        match module_name(s) {
            Some(n) => exists|k: int|
                line_start(s, k) && module_decl(line_at(s, k)) == Some(n) && forall|j: int|
                    0 <= j < k && line_start(s, j) ==> module_decl(line_at(s, j)) is None,
            None => forall|j: int| line_start(s, j) ==> module_decl(line_at(s, j)) is None,
        },
{
    lemma_module_name_from(s, 0);
}

/// Reads the module name from the text of a `mog.mod` file: the first line
/// that reads `module <name>` (surrounding whitespace allowed) gives it.
pub fn parse_mod_file(content: &str) -> (r: Option<String>)
    ensures
        match (r, module_name(content@)) {
            (Some(n), Some(m)) => n@ == m,
            (None, None) => true,
            _ => false,
        },
{
    let s = chars_of(content);
    let ghost src = s@;
    let mut i: usize = 0;
    while i < s.len()
        invariant
            src == s@,
            src == content@,
            i <= s.len(),
            module_name(src) == module_name_from(src, i as int),
        decreases s.len() - i,
    {
        let mut e: usize = i;
        while e < s.len() && s[e] != '\n'
            invariant
                i <= e <= s.len(),
                src == s@,
                line_end(src, i as int) == line_end(src, e as int),
            decreases s.len() - e,
        {
            e += 1;
        }
        assert(line_end(src, e as int) == e as int);
        let b = if e < s.len() && e > i && s[e - 1] == '\r' {
            e - 1
        } else {
            e
        };
        proof {
            let raw = src.subrange(i as int, e as int);
            if e < s.len() && e > i && s@[e - 1] == '\r' {
                assert(raw.drop_last() =~= src.subrange(i as int, b as int));
            } else {
                assert(raw =~= src.subrange(i as int, b as int));
            }
        }
        assert(line_at(src, i as int) == src.subrange(i as int, b as int));
        let (t0, t1) = trim_range(&s, i, b);
        assert(trim(line_at(src, i as int)) == src.subrange(t0 as int, t1 as int));
        if t1 - t0 >= 7 && s[t0] == 'm' && s[t0 + 1] == 'o' && s[t0 + 2] == 'd' && s[t0 + 3] == 'u'
            && s[t0 + 4] == 'l' && s[t0 + 5] == 'e' && s[t0 + 6] == ' ' {
            let ghost t = src.subrange(t0 as int, t1 as int);
            assert(t.take(7) =~= module_keyword());
            assert(t.skip(7) =~= src.subrange(t0 + 7, t1 as int));
            let (n0, n1) = trim_range(&s, t0 + 7, t1);
            if n1 > n0 {
                return Some(string_from_slice(&s, n0, n1));
            }
            assert(module_decl(line_at(src, i as int)) is None);
        } else {
            proof {
                let t = src.subrange(t0 as int, t1 as int);
                if t.len() >= 7 && t.take(7) == module_keyword() {
                    assert(t.take(7)[0] == 'm' && t.take(7)[1] == 'o' && t.take(7)[2] == 'd'
                        && t.take(7)[3] == 'u' && t.take(7)[4] == 'l' && t.take(7)[5] == 'e'
                        && t.take(7)[6] == ' ');
                }
                assert(module_decl(line_at(src, i as int)) is None);
            }
        }
        proof {
            crate::lexer_spec::lemma_line_end_bounds(src, i as int);
        }
        assert(module_name_from(src, i as int) == module_name_from(src, e + 1));
        if e >= s.len() {
            assert(module_name_from(src, e + 1) is None);
            return None;
        }
        i = e + 1;
    }
    None
}

// ---------------------------------------------------------------------------
// Import cycles
// ---------------------------------------------------------------------------

/// No two packages share a name.
pub open spec fn names_distinct(e: Seq<(String, Vec<String>)>) -> bool {
    forall|a: int, b: int| 0 <= a < b < e.len() ==> (#[trigger] e[a]).0@ != (#[trigger] e[b]).0@
}

/// The package at position `a` imports the package at position `b`.
pub open spec fn imports(e: Seq<(String, Vec<String>)>, a: int, b: int) -> bool {
    &&& 0 <= a < e.len()
    &&& 0 <= b < e.len()
    &&& exists|j: int| 0 <= j < e[a].1@.len() && #[trigger] e[a].1@[j]@ == e[b].0@
}

/// The position after `i` in a cycle of length `n`.
pub open spec fn next_in(i: int, n: int) -> int {
    if i + 1 == n {
        0
    } else {
        i + 1
    }
}

/// `p` lists packages each of which imports the next, the last importing
/// the first.
pub open spec fn is_import_cycle(e: Seq<(String, Vec<String>)>, p: Seq<int>) -> bool {
    &&& p.len() > 0
    &&& forall|i: int| 0 <= i < p.len() ==> #[trigger] imports(e, p[i], p[next_in(i, p.len() as int)])
}

/// Some packages import each other in a cycle.
pub open spec fn has_import_cycle(e: Seq<(String, Vec<String>)>) -> bool {
    exists|p: Seq<int>| #[trigger] is_import_cycle(e, p)
}

/// A path of imports: each package on it imports the next.
pub open spec fn is_import_path(e: Seq<(String, Vec<String>)>, p: Seq<int>) -> bool {
    &&& p.len() > 0
    &&& 0 <= p[0] < e.len()
    &&& forall|i: int| 0 <= i < p.len() - 1 ==> #[trigger] imports(e, p[i], p[i + 1])
}

/// Package `v` is `u` or is imported, directly or not, by `u`.
pub open spec fn reaches(e: Seq<(String, Vec<String>)>, u: int, v: int) -> bool {
    exists|p: Seq<int>| #[trigger] is_import_path(e, p) && p[0] == u && p.last() == v
}

proof fn lemma_path_prepend(e: Seq<(String, Vec<String>)>, u: int, p: Seq<int>)
    requires
        is_import_path(e, p),
        imports(e, u, p[0]),
    ensures
        is_import_path(e, seq![u] + p),
        (seq![u] + p)[0] == u,
        (seq![u] + p).last() == p.last(),
{
    let q = seq![u] + p;
    assert forall|i: int| 0 <= i < q.len() - 1 implies #[trigger] imports(e, q[i], q[i + 1]) by {
        if i > 0 {
            let k = i - 1;
            assert(imports(e, p[k], p[k + 1]));
            assert(q[i] == p[k] && q[i + 1] == p[k + 1]);
        }
    }
}

/// The search's packages are done along an import path from a done one.
proof fn lemma_done_along(s: CycleSearch, e: Seq<(String, Vec<String>)>, p: Seq<int>)
    requires
        s.inv(e),
        is_import_path(e, p),
        s.done(p[0]),
    ensures
        s.done(p.last()),
    decreases p.len(),
{
    if p.len() > 1 {
        let q = p.drop_last();
        assert forall|i: int| 0 <= i < q.len() - 1 implies #[trigger] imports(e, q[i], q[i + 1]) by {
            assert(imports(e, p[i], p[i + 1]));
        }
        lemma_done_along(s, e, q);
        let k = p.len() - 2;
        assert(imports(e, p[k], p[k + 1]));
        assert(q.last() == p[k]);
    }
}

/// The message for the import of package `b` by package `u`.
pub open spec fn cycle_message(e: Seq<(String, Vec<String>)>, u: int, b: int) -> Seq<char> {
    "Circular import detected: "@ + e[u].0@ + " -> "@ + e[b].0@
}

/// `m` names an import that closes a cycle: that of the first package of
/// the cycle by the last.
pub open spec fn names_cycle_import(e: Seq<(String, Vec<String>)>, m: Seq<char>) -> bool {
    exists|p: Seq<int>| #[trigger] is_import_cycle(e, p) && m == cycle_message(e, p.last(), p[0])
}

/// The error a depth-first search reports from search path `st`, which
/// extends path `start` by packages each importing the next, none twice:
/// `m` names the import from the last package of `st` to one on `st`.
pub open spec fn back_edge_error(e: Seq<(String, Vec<String>)>, start: Seq<int>, st: Seq<int>, m: Seq<char>) -> bool {
    &&& st.len() >= start.len()
    &&& st.take(start.len() as int) == start
    &&& forall|i: int| 0 <= i < st.len() - 1 ==> #[trigger] imports(e, st[i], st[i + 1])
    &&& forall|i: int, k: int| 0 <= i < k < st.len() ==> #[trigger] st[i] != #[trigger] st[k]
    &&& exists|b: int| #[trigger] st.contains(b) && imports(e, st.last(), b) && m == cycle_message(e, st.last(), b)
}

pub open spec fn count_true(s: Seq<bool>) -> nat
    decreases s.len(),
{
    if s.len() == 0 {
        0
    } else {
        count_true(s.drop_last()) + if s.last() {
            1nat
        } else {
            0nat
        }
    }
}

proof fn lemma_count_true_bound(s: Seq<bool>)
    ensures
        count_true(s) <= s.len(),
    decreases s.len(),
{
    if s.len() > 0 {
        lemma_count_true_bound(s.drop_last());
    }
}

proof fn lemma_count_true_grows(a: Seq<bool>, b: Seq<bool>, k: int)
    requires
        a.len() == b.len(),
        forall|i: int| 0 <= i < a.len() && a[i] ==> b[i],
        0 <= k < a.len(),
        !a[k],
        b[k],
    ensures
        count_true(a) < count_true(b),
    decreases a.len(),
{
    lemma_count_true_mono(a.drop_last(), b.drop_last());
    if k < a.len() - 1 {
        lemma_count_true_grows(a.drop_last(), b.drop_last(), k);
    }
}

proof fn lemma_count_true_mono(a: Seq<bool>, b: Seq<bool>)
    requires
        a.len() == b.len(),
        forall|i: int| 0 <= i < a.len() && a[i] ==> b[i],
    ensures
        count_true(a) <= count_true(b),
    decreases a.len(),
{
    if a.len() > 0 {
        lemma_count_true_mono(a.drop_last(), b.drop_last());
    }
}

/// Position of the package named `name`, if any.
fn find_package(e: &Vec<(String, Vec<String>)>, name: &String) -> (r: Option<usize>)
    ensures
        match r {
            Some(b) => b < e.len() && e@[b as int].0@ == name@,
            None => forall|b: int| 0 <= b < e.len() ==> (#[trigger] e@[b]).0@ != name@,
        },
{
    let target = chars_of(name.as_str());
    let mut b: usize = 0;
    while b < e.len()
        invariant
            b <= e.len(),
            target@ == name@,
            forall|c: int| 0 <= c < b ==> (#[trigger] e@[c]).0@ != name@,
        decreases e.len() - b,
    {
        let k = chars_of(e[b].0.as_str());
        if chars_eq(&k, &target) {
            return Some(b);
        }
        b += 1;
    }
    None
}

/// The state of a depth-first search for an import cycle.
struct CycleSearch {
    visited: Vec<bool>,
    in_stack: Vec<bool>,
    /// The path of packages being searched from, outermost first.
    stack: Ghost<Seq<int>>,
    /// When each package was finished.
    finish: Ghost<Seq<int>>,
    time: Ghost<int>,
}

impl CycleSearch {
    spec fn done(&self, v: int) -> bool {
        self.visited@[v] && !self.in_stack@[v]
    }

    spec fn inv(&self, e: Seq<(String, Vec<String>)>) -> bool {
        let n = e.len();
        &&& self.visited@.len() == n
        &&& self.in_stack@.len() == n
        &&& self.finish@.len() == n
        &&& forall|v: int| 0 <= v < n && #[trigger] self.in_stack@[v] ==> self.visited@[v]
        &&& forall|v: int| 0 <= v < n ==> (#[trigger] self.in_stack@[v] <==> self.stack@.contains(v))
        &&& forall|i: int| 0 <= i < self.stack@.len() ==> 0 <= #[trigger] self.stack@[i] < n
        &&& forall|i: int|
            0 <= i < self.stack@.len() - 1 ==> #[trigger] imports(e, self.stack@[i], self.stack@[i + 1])
        &&& forall|i: int, k: int|
            0 <= i < k < self.stack@.len() ==> #[trigger] self.stack@[i] != #[trigger] self.stack@[k]
        &&& forall|u: int, b: int|
            #[trigger] imports(e, u, b) && self.done(u) ==> self.done(b) && self.finish@[b]
                < self.finish@[u]
        &&& forall|v: int| 0 <= v < n && #[trigger] self.done(v) ==> self.finish@[v] < self.time@
    }

    /// Searches from `node`, depth first and in the order of each package's
    /// imports. `Ok` leaves visited exactly what was visited before and what
    /// `node` reaches; `Err` names an import that closes a cycle: the one
    /// from the end of the search path to a package on it.
    fn dfs_cycle_check(&mut self, e: &Vec<(String, Vec<String>)>, node: usize) -> (r: Result<(), String>)
        requires
            old(self).inv(e@),
            names_distinct(e@),
            node < e.len(),
            !old(self).visited@[node as int],
            old(self).stack@.len() == 0 || imports(e@, old(self).stack@.last(), node as int),
        ensures
            r is Ok ==> {
                &&& final(self).inv(e@)
                &&& final(self).done(node as int)
                &&& final(self).stack@ == old(self).stack@
                &&& forall|v: int| 0 <= v < e.len() && old(self).visited@[v] ==> #[trigger] final(self).visited@[v]
                &&& forall|v: int|
                    0 <= v < e.len() ==> (#[trigger] final(self).in_stack@[v] == old(self).in_stack@[v])
                &&& forall|v: int|
                    0 <= v < e.len() && old(self).done(v) ==> #[trigger] final(self).finish@[v]
                        == old(self).finish@[v]
                &&& forall|v: int| #[trigger] reaches(e@, node as int, v) ==> final(self).visited@[v]
                &&& forall|v: int|
                    0 <= v < e.len() && #[trigger] final(self).visited@[v] && !old(self).visited@[v]
                        ==> reaches(e@, node as int, v)
            },
            r matches Err(m) ==> names_cycle_import(e@, m@),
            r matches Err(m) ==> back_edge_error(e@, old(self).stack@.push(node as int), final(self).stack@, m@),
        decreases e.len() - count_true(old(self).visited@),
    {
        let ghost n = e.len() as int;
        let ghost v0 = self.visited@;
        self.visited.set(node, true);
        self.in_stack.set(node, true);
        proof {
            assert(is_import_path(e@, seq![node as int]));
            assert forall|v: int|
                0 <= v < n && #[trigger] self.visited@[v] && !old(self).visited@[v] implies reaches(
                e@,
                node as int,
                v,
            ) by {
                assert(v == node);
                assert(is_import_path(e@, seq![node as int]));
            }
            self.stack@ = self.stack@.push(node as int);
            assert forall|v: int| 0 <= v < n implies (#[trigger] self.in_stack@[v]
                <==> self.stack@.contains(v)) by {
                if v != node {
                    if old(self).stack@.contains(v) {
                        let i = choose|i: int| 0 <= i < old(self).stack@.len() && old(self).stack@[i] == v;
                        assert(self.stack@[i] == v);
                    }
                    if self.stack@.contains(v) {
                        let i = choose|i: int| 0 <= i < self.stack@.len() && self.stack@[i] == v;
                        assert(old(self).stack@[i] == v);
                    }
                } else {
                    assert(self.stack@[self.stack@.len() - 1] == v);
                }
            }
            assert forall|u: int, b: int| #[trigger] imports(e@, u, b) && self.done(u) implies self.done(
                b,
            ) && self.finish@[b] < self.finish@[u] by {
                assert(u != node);
                assert(old(self).done(u));
                assert(old(self).done(b));
                assert(b != node);
            }
            let os = old(self).stack@;
            assert forall|i: int| 0 <= i < self.stack@.len() - 1 implies #[trigger] imports(
                e@,
                self.stack@[i],
                self.stack@[i + 1],
            ) by {
                if i < os.len() - 1 {
                    assert(self.stack@[i] == os[i] && self.stack@[i + 1] == os[i + 1]);
                } else {
                    assert(self.stack@[i] == os.last());
                    assert(self.stack@[i + 1] == node);
                }
            }
            assert forall|i: int| 0 <= i < self.stack@.len() implies 0 <= #[trigger] self.stack@[i]
                < n by {
                if i < os.len() {
                    assert(self.stack@[i] == os[i]);
                }
            }
            assert(!os.contains(node as int)) by {
                assert(!old(self).in_stack@[node as int]);
            }
            assert forall|i: int, k: int| 0 <= i < k < self.stack@.len() implies #[trigger] self.stack@[i]
                != #[trigger] self.stack@[k] by {
                assert(self.stack@[i] == os[i]);
                if k < os.len() {
                    assert(self.stack@[k] == os[k]);
                } else {
                    assert(self.stack@[k] == node);
                }
            }
            assert forall|v: int| 0 <= v < n && #[trigger] self.in_stack@[v] implies self.visited@[v] by {
                if v != node {
                    assert(old(self).in_stack@[v]);
                }
            }
            assert forall|v: int| 0 <= v < n && #[trigger] self.done(v) implies self.finish@[v]
                < self.time@ by {
                assert(old(self).done(v));
            }
            lemma_count_true_grows(v0, self.visited@, node as int);
        }
        let deps = &e[node].1;
        let mut j: usize = 0;
        while j < deps.len()
            invariant
                self.inv(e@),
                names_distinct(e@),
                node < e.len(),
                n == e.len(),
                deps@ == e@[node as int].1@,
                j <= deps.len(),
                self.visited@[node as int],
                self.in_stack@[node as int],
                self.stack@ == old(self).stack@.push(node as int),
                !old(self).visited@[node as int],
                !old(self).in_stack@[node as int],
                count_true(old(self).visited@) < count_true(self.visited@),
                forall|v: int| 0 <= v < n && old(self).visited@[v] ==> #[trigger] self.visited@[v],
                forall|v: int|
                    0 <= v < n && v != node ==> (#[trigger] self.in_stack@[v] == old(self).in_stack@[v]),
                forall|v: int|
                    0 <= v < n && old(self).done(v) ==> #[trigger] self.finish@[v]
                        == old(self).finish@[v],
                forall|q: int, b: int|
                    0 <= q < j && 0 <= b < n && #[trigger] deps@[q]@ == #[trigger] e@[b].0@ ==> self.done(b),
                forall|v: int|
                    0 <= v < n && #[trigger] self.visited@[v] && !old(self).visited@[v] ==> reaches(
                        e@,
                        node as int,
                        v,
                    ),
            decreases deps.len() - j,
        {
            match find_package(e, &deps[j]) {
                None => {},
                Some(b) => {
                    if self.in_stack[b] {
                        proof {
                            let st = self.stack@;
                            assert(st.contains(b as int));
                            let idx = choose|i: int| 0 <= i < st.len() && st[i] == b as int;
                            let p = st.subrange(idx, st.len() as int);
                            assert(imports(e@, node as int, b as int)) by {
                                assert(e@[node as int].1@[j as int]@ == e@[b as int].0@);
                            }
                            assert forall|i: int| 0 <= i < p.len() implies #[trigger] imports(
                                e@,
                                p[i],
                                p[next_in(i, p.len() as int)],
                            ) by {
                                if i + 1 < p.len() {
                                    assert(p[i] == st[idx + i]);
                                    assert(p[i + 1] == st[idx + i + 1]);
                                    assert(imports(e@, st[idx + i], st[idx + i + 1]));
                                } else {
                                    assert(p[i] == st[st.len() - 1]);
                                    assert(p[0] == b);
                                }
                            }
                            assert(is_import_cycle(e@, p));
                        }
                        let mut msg = String::new();
                        push_str(&mut msg, "Circular import detected: ");
                        push_str(&mut msg, e[node].0.as_str());
                        push_str(&mut msg, " -> ");
                        push_str(&mut msg, deps[j].as_str());
                        proof {
                            let st = self.stack@;
                            let idx = choose|i: int| 0 <= i < st.len() && st[i] == b as int;
                            let p = st.subrange(idx, st.len() as int);
                            assert(is_import_cycle(e@, p));
                            assert(p.last() == node && p[0] == b);
                            assert(deps@[j as int]@ == e@[b as int].0@);
                            assert(msg@ == cycle_message(e@, p.last(), p[0]));
                            assert(st.take(st.len() as int) =~= st);
                            assert(st.last() == node);
                            assert(st.contains(b as int) && imports(e@, st.last(), b as int) && msg@
                                == cycle_message(e@, st.last(), b as int));
                        }
                        return Err(msg);
                    }
                    if !self.visited[b] {
                        proof {
                            assert(imports(e@, node as int, b as int)) by {
                                assert(e@[node as int].1@[j as int]@ == e@[b as int].0@);
                            }
                            assert(self.stack@.last() == node);
                        }
                        let ghost before = *self;
                        proof {
                            lemma_count_true_bound(self.visited@);
                        }
                        match self.dfs_cycle_check(e, b) {
                            Err(m) => {
                                proof {
                                    let st = self.stack@;
                                    let outer = old(self).stack@.push(node as int);
                                    let inner = before.stack@.push(b as int);
                                    assert(before.stack@ == outer);
                                    assert(st.take(outer.len() as int) =~= st.take(inner.len() as int).take(
                                        outer.len() as int,
                                    ));
                                    assert(inner.take(outer.len() as int) =~= outer);
                                }
                                return Err(m);
                            },
                            Ok(()) => {},
                        }
                        proof {
                            lemma_count_true_mono(before.visited@, self.visited@);
                            assert forall|v: int|
                                0 <= v < n && #[trigger] self.visited@[v] && !old(self).visited@[v]
                                implies reaches(e@, node as int, v) by {
                                if !before.visited@[v] {
                                    let p = choose|p: Seq<int>| #[trigger] is_import_path(e@, p) && p[0] == b as int && p.last() == v;
                                    lemma_path_prepend(e@, node as int, p);
                                    assert(is_import_path(e@, seq![node as int] + p));
                                }
                            }
                            assert forall|v: int| 0 <= v < n && old(self).done(v) implies #[trigger] self.finish@[v]
                                == old(self).finish@[v] by {
                                assert(v != node);
                                assert(before.done(v));
                            }
                        }
                    }
                },
            }
            proof {
                assert forall|q: int, b: int|
                    0 <= q < j + 1 && 0 <= b < n && #[trigger] deps@[q]@ == #[trigger] e@[b].0@
                    implies self.done(b) by {
                }
            }
            j += 1;
        }
        let ghost mid = *self;
        self.in_stack.set(node, false);
        proof {
            self.stack@ = self.stack@.drop_last();
            assert(self.stack@ =~= old(self).stack@);
            self.finish@ = self.finish@.update(node as int, self.time@);
            self.time@ = self.time@ + 1;
            assert forall|v: int| 0 <= v < n implies (#[trigger] self.in_stack@[v]
                <==> self.stack@.contains(v)) by {
                if v != node {
                    if mid.stack@.contains(v) {
                        let i = choose|i: int| 0 <= i < mid.stack@.len() && mid.stack@[i] == v;
                        assert(i < mid.stack@.len() - 1);
                        assert(self.stack@[i] == v);
                    }
                    if self.stack@.contains(v) {
                        let i = choose|i: int| 0 <= i < self.stack@.len() && self.stack@[i] == v;
                        assert(mid.stack@[i] == v);
                    }
                } else {
                    assert(!old(self).in_stack@[node as int]);
                }
            }
            assert forall|u: int, b: int| #[trigger] imports(e@, u, b) && self.done(u) implies self.done(
                b,
            ) && self.finish@[b] < self.finish@[u] by {
                if u == node {
                    let jj = choose|jj: int| 0 <= jj < e@[u].1@.len() && #[trigger] e@[u].1@[jj]@
                        == e@[b].0@;
                    assert(deps@[jj]@ == e@[b].0@);
                    assert(mid.done(b));
                } else {
                    assert(mid.done(u));
                    assert(mid.done(b));
                }
            }
            assert forall|v: int| 0 <= v < n && #[trigger] self.in_stack@[v] implies self.visited@[v] by {
                assert(mid.in_stack@[v]);
            }
            assert forall|i: int| 0 <= i < self.stack@.len() - 1 implies #[trigger] imports(
                e@,
                self.stack@[i],
                self.stack@[i + 1],
            ) by {
                assert(self.stack@[i] == mid.stack@[i] && self.stack@[i + 1] == mid.stack@[i + 1]);
            }
            assert forall|i: int| 0 <= i < self.stack@.len() implies 0 <= #[trigger] self.stack@[i]
                < n by {
                assert(self.stack@[i] == mid.stack@[i]);
            }
            assert forall|v: int| 0 <= v < n && #[trigger] self.done(v) implies self.finish@[v]
                < self.time@ by {
                if v != node {
                    assert(mid.done(v));
                }
            }
            assert(!old(self).in_stack@[node as int]);
            assert forall|v: int| 0 <= v < e.len() implies (#[trigger] self.in_stack@[v]
                == old(self).in_stack@[v]) by {
                if v != node {
                    assert(mid.in_stack@[v] == old(self).in_stack@[v]);
                }
            }
            assert forall|v: int| 0 <= v < e.len() && old(self).done(v) implies #[trigger] self.finish@[v]
                == old(self).finish@[v] by {
                assert(v != node);
                assert(mid.finish@[v] == old(self).finish@[v]);
            }
            assert forall|v: int| #[trigger] reaches(e@, node as int, v) implies self.visited@[v] by {
                let p = choose|p: Seq<int>| #[trigger] is_import_path(e@, p) && p[0] == node as int && p.last() == v;
                lemma_done_along(*self, e@, p);
            }
        }
        Ok(())
    }
}

proof fn lemma_no_cycle(s: CycleSearch, e: Seq<(String, Vec<String>)>)
    requires
        s.inv(e),
        forall|v: int| 0 <= v < e.len() ==> #[trigger] s.done(v),
    ensures
        !has_import_cycle(e),
{
    if has_import_cycle(e) {
        let p = choose|p: Seq<int>| #[trigger] is_import_cycle(e, p);
        let l = p.len() as int;
        lemma_finish_descends(s, e, p, l - 1);
        assert(imports(e, p[l - 1], p[next_in(l - 1, l)]));
        assert(next_in(l - 1, l) == 0);
        assert(s.done(p[l - 1]));
    }
}

proof fn lemma_finish_descends(s: CycleSearch, e: Seq<(String, Vec<String>)>, p: Seq<int>, i: int)
    requires
        s.inv(e),
        forall|v: int| 0 <= v < e.len() ==> #[trigger] s.done(v),
        is_import_cycle(e, p),
        0 <= i < p.len(),
    ensures
        s.finish@[p[i]] <= s.finish@[p[0]] - i,
    decreases i,
{
    if i > 0 {
        lemma_finish_descends(s, e, p, i - 1);
        assert(imports(e, p[i - 1], p[next_in(i - 1, p.len() as int)]));
        assert(next_in(i - 1, p.len() as int) == i);
        assert(s.done(p[i - 1]));
    }
}

/// Looks for packages that import each other in a cycle; the error names
/// an import that closes one.
pub fn detect_circular_imports(e: &Vec<(String, Vec<String>)>) -> (r: Result<(), String>)
    requires
        names_distinct(e@),
    ensures
        r is Err <==> has_import_cycle(e@),
        r matches Err(m) ==> names_cycle_import(e@, m@),
{
    let n = e.len();
    let mut visited: Vec<bool> = Vec::new();
    let mut in_stack: Vec<bool> = Vec::new();
    let mut i: usize = 0;
    while i < n
        invariant
            i <= n,
            n == e.len(),
            visited@.len() == i,
            in_stack@.len() == i,
            forall|v: int| 0 <= v < i ==> !(#[trigger] visited@[v]),
            forall|v: int| 0 <= v < i ==> !(#[trigger] in_stack@[v]),
        decreases n - i,
    {
        visited.push(false);
        in_stack.push(false);
        i += 1;
    }
    let mut search = CycleSearch {
        visited,
        in_stack,
        stack: Ghost(Seq::empty()),
        finish: Ghost(Seq::new(n as nat, |v: int| 0)),
        time: Ghost(0),
    };
    proof {
        assert forall|u: int| 0 <= u < n implies (#[trigger] search.in_stack@[u]
            <==> search.stack@.contains(u)) by {}
    }
    let mut v: usize = 0;
    while v < n
        invariant
            v <= n,
            n == e.len(),
            names_distinct(e@),
            search.inv(e@),
            search.stack@.len() == 0,
            forall|u: int| 0 <= u < n ==> !#[trigger] search.in_stack@[u],
            forall|u: int| 0 <= u < v ==> #[trigger] search.visited@[u],
        decreases n - v,
    {
        if !search.visited[v] {
            match search.dfs_cycle_check(e, v) {
                Err(m) => {
                    return Err(m);
                },
                Ok(()) => {},
            }
        }
        v += 1;
    }
    proof {
        assert forall|u: int| 0 <= u < n implies #[trigger] search.done(u) by {
            assert(search.visited@[u]);
        }
        lemma_no_cycle(search, e@);
    }
    Ok(())
}

// ---------------------------------------------------------------------------
// Import lines
// ---------------------------------------------------------------------------

pub open spec fn import_keyword() -> Seq<char> {
    seq!['i', 'm', 'p', 'o', 'r', 't', ' ']
}

/// The first `"` at or after `p`, or the end.
pub open spec fn quote_end(s: Seq<char>, p: int) -> int
    decreases s.len() - p,
{
    if 0 <= p < s.len() && s[p] != '"' {
        quote_end(s, p + 1)
    } else {
        p
    }
}

pub proof fn lemma_quote_end(s: Seq<char>, p: int)
    requires
        0 <= p <= s.len(),
    ensures
        p <= quote_end(s, p) <= s.len(),
        quote_end(s, p) < s.len() ==> s[quote_end(s, p)] == '"',
    decreases s.len() - p,
{
    if p < s.len() && s[p] != '"' {
        lemma_quote_end(s, p + 1);
    }
}

/// The pieces of `s` from `p` on between `"` characters, as `str::split`
/// gives them.
pub open spec fn quote_pieces(s: Seq<char>, p: int) -> Seq<Seq<char>>
    decreases s.len() + 1 - p,
{
    if p < 0 || p > s.len() {
        Seq::empty()
    } else {
        let e = quote_end(s, p);
        proof {
            lemma_quote_end(s, p);
        }
        if e < s.len() {
            seq![s.subrange(p, e)] + quote_pieces(s, e + 1)
        } else {
            seq![s.subrange(p, e)]
        }
    }
}

/// The names a piece of an import group contributes: the piece, trimmed,
/// unless it is empty or starts with a parenthesis.
pub open spec fn group_name(piece: Seq<char>) -> Seq<Seq<char>> {
    let t = trim(piece);
    if t.len() > 0 && t[0] != '(' && t[0] != ')' {
        seq![t]
    } else {
        Seq::empty()
    }
}

pub open spec fn group_names(pieces: Seq<Seq<char>>) -> Seq<Seq<char>>
    decreases pieces.len(),
{
    if pieces.len() == 0 {
        Seq::empty()
    } else {
        group_names(pieces.drop_last()) + group_name(pieces.last())
    }
}

/// The packages one line imports: `import "pkg"`, or `import ( "a" "b" )`
/// with the names between quotes.
pub open spec fn line_imports(line: Seq<char>) -> Seq<Seq<char>> {
    let t = trim(line);
    if t.len() >= 7 && t.take(7) == import_keyword() {
        let rest = trim(t.skip(7));
        if rest.len() > 0 && rest[0] == '(' {
            group_names(quote_pieces(rest, 0))
        } else if rest.len() >= 2 && rest[0] == '"' && rest.last() == '"' {
            seq![rest.subrange(1, rest.len() - 1)]
        } else {
            Seq::empty()
        }
    } else {
        Seq::empty()
    }
}

/// The packages imported by the lines starting at or after `i`.
pub open spec fn imports_from(s: Seq<char>, i: int) -> Seq<Seq<char>>
    decreases s.len() + 1 - i,
{
    if i < 0 || i >= s.len() {
        Seq::empty()
    } else {
        proof {
            crate::lexer_spec::lemma_line_end_bounds(s, i);
        }
        line_imports(line_at(s, i)) + imports_from(s, line_end(s, i) + 1)
    }
}

/// The packages a source file imports, line by line.
pub open spec fn file_imports(s: Seq<char>) -> Seq<Seq<char>> {
    imports_from(s, 0)
}

fn push_group_names(rest: &Vec<char>, out: &mut Vec<String>)
    ensures
        crate::compiler::texts(final(out)@) == crate::compiler::texts(old(out)@) + group_names(
            quote_pieces(rest@, 0),
        ),
{
    let ghost s = rest@;
    let ghost acc: Seq<Seq<char>> = Seq::empty();
    let mut p: usize = 0;
    loop
        invariant
            p <= rest.len(),
            s == rest@,
            quote_pieces(s, 0) == acc + quote_pieces(s, p as int),
            crate::compiler::texts(out@) == crate::compiler::texts(old(out)@) + group_names(acc),
        decreases rest.len() + 1 - p,
    {
        let mut e: usize = p;
        while e < rest.len() && rest[e] != '"'
            invariant
                p <= e <= rest.len(),
                s == rest@,
                quote_end(s, p as int) == quote_end(s, e as int),
            decreases rest.len() - e,
        {
            e += 1;
        }
        assert(quote_end(s, e as int) == e);
        let ghost piece = s.subrange(p as int, e as int);
        let (a, b) = trim_range(rest, p, e);
        let ghost before = out@;
        if a < b && rest[a] != '(' && rest[a] != ')' {
            out.push(crate::text::string_from_slice(rest, a, b));
            assert(crate::compiler::texts(out@) =~= crate::compiler::texts(before) + group_name(piece));
        } else {
            assert(crate::compiler::texts(out@) =~= crate::compiler::texts(before) + group_name(piece));
        }
        proof {
            assert(group_names(acc.push(piece)) =~= group_names(acc) + group_name(piece)) by {
                assert(acc.push(piece).drop_last() =~= acc);
            }
            acc = acc.push(piece);
        }
        if e >= rest.len() {
            assert(quote_pieces(s, p as int) =~= seq![piece]);
            assert(quote_pieces(s, 0) =~= acc);
            return;
        }
        assert(quote_pieces(s, p as int) =~= seq![piece] + quote_pieces(s, e + 1));
        assert(acc.drop_last() + (seq![piece] + quote_pieces(s, e + 1)) =~= acc + quote_pieces(s, e + 1));
        p = e + 1;
    }
}

/// The packages a source file imports (see `file_imports`).
#[verifier::spinoff_prover]
#[verifier::rlimit(30)]
pub fn scan_imports(content: &str) -> (r: Vec<String>)
    ensures
        crate::compiler::texts(r@) == file_imports(content@),
{
    let s = chars_of(content);
    let ghost src = s@;
    let mut out: Vec<String> = Vec::new();
    let ghost mut done: Seq<Seq<char>> = Seq::empty();
    let mut i: usize = 0;
    while i < s.len()
        invariant
            src == s@,
            src == content@,
            i <= s.len(),
            crate::compiler::texts(out@) == done,
            file_imports(src) == done + imports_from(src, i as int),
        decreases s.len() - i,
    {
        let mut e: usize = i;
        while e < s.len() && s[e] != '\n'
            invariant
                i <= e <= s.len(),
                src == s@,
                line_end(src, i as int) == line_end(src, e as int),
            decreases s.len() - e,
        {
            e += 1;
        }
        assert(line_end(src, e as int) == e as int);
        let b = if e < s.len() && e > i && s[e - 1] == '\r' {
            e - 1
        } else {
            e
        };
        proof {
            let raw = src.subrange(i as int, e as int);
            if e < s.len() && e > i && s@[e - 1] == '\r' {
                assert(raw.drop_last() =~= src.subrange(i as int, b as int));
            } else {
                assert(raw =~= src.subrange(i as int, b as int));
            }
        }
        let ghost line = line_at(src, i as int);
        assert(line == src.subrange(i as int, b as int));
        let (t0, t1) = trim_range(&s, i, b);
        let ghost t = src.subrange(t0 as int, t1 as int);
        assert(trim(line) == t);
        let ghost before = out@;
        if t1 - t0 >= 7 && s[t0] == 'i' && s[t0 + 1] == 'm' && s[t0 + 2] == 'p' && s[t0 + 3] == 'o'
            && s[t0 + 4] == 'r' && s[t0 + 5] == 't' && s[t0 + 6] == ' ' {
            assert(t.take(7) =~= import_keyword());
            assert(t.skip(7) =~= src.subrange(t0 + 7, t1 as int));
            let (r0, r1) = trim_range(&s, t0 + 7, t1);
            let ghost rest = src.subrange(r0 as int, r1 as int);
            if r0 < r1 && s[r0] == '(' {
                let rv = copy_range(&s, r0, r1);
                push_group_names(&rv, &mut out);
            } else if r1 - r0 >= 2 && s[r0] == '"' && s[r1 - 1] == '"' {
                out.push(string_from_slice(&s, r0 + 1, r1 - 1));
                assert(rest.subrange(1, rest.len() - 1) =~= src.subrange(r0 + 1, r1 - 1));
                assert(crate::compiler::texts(out@) =~= crate::compiler::texts(before) + seq![
                    src.subrange(r0 + 1, r1 - 1),
                ]);
            } else {
                assert(crate::compiler::texts(out@) =~= crate::compiler::texts(before) + Seq::<
                    Seq<char>,
                >::empty());
            }
            assert(crate::compiler::texts(out@) == crate::compiler::texts(before) + line_imports(line));
        } else {
            proof {
                if t.len() >= 7 && t.take(7) == import_keyword() {
                    assert(t.take(7)[0] == 'i' && t.take(7)[1] == 'm' && t.take(7)[2] == 'p'
                        && t.take(7)[3] == 'o' && t.take(7)[4] == 'r' && t.take(7)[5] == 't'
                        && t.take(7)[6] == ' ');
                }
                assert(line_imports(line) =~= Seq::<Seq<char>>::empty());
                assert(crate::compiler::texts(out@) =~= crate::compiler::texts(before) + line_imports(
                    line,
                ));
            }
        }
        proof {
            crate::lexer_spec::lemma_line_end_bounds(src, i as int);
            assert(imports_from(src, i as int) == line_imports(line) + imports_from(src, e + 1));
            assert(file_imports(src) =~= (done + line_imports(line)) + imports_from(src, e + 1));
            done = done + line_imports(line);
        }
        if e >= s.len() {
            assert(imports_from(src, e + 1) =~= Seq::<Seq<char>>::empty());
            assert(file_imports(src) =~= done);
            return out;
        }
        i = e + 1;
    }
    assert(imports_from(src, i as int) =~= Seq::<Seq<char>>::empty());
    assert(file_imports(src) =~= done);
    out
}

} // verus!
