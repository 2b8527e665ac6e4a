//! Scopes, symbols and the state of semantic analysis.

use vstd::prelude::*;

use crate::ast::{
    Expr, ExprKind, FieldDef, FunctionParam, IfElseBranch, MapEntry, MatchArm, MatchPattern, NamedArg, Span,
    Statement, StatementKind, StructFieldInit, TemplatePart,
};
use crate::scope_rules::{
    any_default, check_cond, declare_in, env_of, err, lemma_env_pop, lemma_env_push,
    lemma_lookup_resolve, lemma_scope_names, lookup_in, popped, pushed, scope_names, w_block,
    missing_required, param_view, unknown_named, w_arm, w_arms, w_entries, w_exprs, w_expr,
    w_fields, w_function, w_inits, w_lambda_params, w_loop, w_named, w_names, w_params, w_parts,
    w_stmt, w_stmts, w_tail, Walk,
};
use crate::capability::CapabilityDecl;
use crate::text::{chars_eq, chars_of};
use crate::types::{holds_vec, tview, FloatKind, IntegerKind, Type, UnsignedKind};

verus! {

/// An error or warning found during analysis.
#[derive(Debug, Clone)]
pub struct SemanticError {
    pub message: String,
    pub span: Option<Span>,
}

/// What a name stands for.
#[derive(Debug, Clone, Copy, PartialEq, Eq, Structural)]
pub enum SymbolKind {
    Variable,
    Function,
    Parameter,
    Type,
}

/// A declared name.
#[derive(Debug, Clone)]
pub struct SymbolInfo {
    pub name: String,
    pub symbol_kind: SymbolKind,
    pub declared_type: Option<Type>,
    pub inferred_type: Option<Type>,
    pub depth: usize,
}

/// A parameter of a declared function, for checking named arguments.
#[derive(Debug, Clone)]
pub struct FunctionParamInfo {
    pub name: String,
    pub param_type: Type,
    pub has_default: bool,
}

// ---------------------------------------------------------------------------
// Symbol table
// ---------------------------------------------------------------------------

/// Nested scopes of declared names; the last scope is the innermost.
#[derive(Debug)]
pub struct SymbolTable {
    stack: Vec<Vec<SymbolInfo>>,
    depth: usize,
}

/// Index in `scope` of the symbol named `name`, or -1.
pub open spec fn index_in_scope(scope: Seq<SymbolInfo>, name: Seq<char>) -> int
    decreases scope.len(),
{
    if scope.len() == 0 {
        -1
    } else if scope.last().name@ == name {
        scope.len() - 1
    } else {
        index_in_scope(scope.drop_last(), name)
    }
}

pub proof fn lemma_index_in_scope(scope: Seq<SymbolInfo>, name: Seq<char>)
    ensures
        -1 <= index_in_scope(scope, name) < scope.len(),
        index_in_scope(scope, name) >= 0 ==> scope[index_in_scope(scope, name)].name@ == name,
        index_in_scope(scope, name) < 0 ==> forall|j: int|
            0 <= j < scope.len() ==> (#[trigger] scope[j]).name@ != name,
    decreases scope.len(),
{
    if scope.len() > 0 && scope.last().name@ != name {
        lemma_index_in_scope(scope.drop_last(), name);
        assert forall|j: int| 0 <= j < scope.len() - 1 implies scope.drop_last()[j] == scope[j] by {}
    }
}

/// `name` is declared in `scope`.
pub open spec fn declares(scope: Seq<SymbolInfo>, name: Seq<char>) -> bool {
    index_in_scope(scope, name) >= 0
}

/// `b` is `a` with its innermost scope possibly grown at the end: what
/// declaring in the innermost scope leaves of a table.
pub open spec fn grows(a: Seq<Seq<SymbolInfo>>, b: Seq<Seq<SymbolInfo>>) -> bool {
    &&& a.len() >= 1
    &&& a.len() == b.len()
    &&& a.drop_last() == b.drop_last()
    &&& a.last().len() <= b.last().len()
    &&& forall|i: int| 0 <= i < a.last().len() ==> #[trigger] b.last()[i] == a.last()[i]
}

pub proof fn lemma_grows_trans(a: Seq<Seq<SymbolInfo>>, b: Seq<Seq<SymbolInfo>>, c: Seq<Seq<SymbolInfo>>)
    requires
        grows(a, b),
        grows(b, c),
    ensures
        grows(a, c),
{
    assert forall|i: int| 0 <= i < a.last().len() implies #[trigger] c.last()[i] == a.last()[i] by {
        assert(c.last()[i] == b.last()[i]);
    }
}

/// A declared name stays declared as the scope grows.
pub proof fn lemma_declares_grows(a: Seq<Seq<SymbolInfo>>, b: Seq<Seq<SymbolInfo>>, name: Seq<char>)
    requires
        grows(a, b),
        declares(a.last(), name),
    ensures
        declares(b.last(), name),
{
    lemma_index_in_scope(a.last(), name);
    lemma_index_in_scope(b.last(), name);
    let i = index_in_scope(a.last(), name);
    assert(b.last()[i] == a.last()[i]);
}

/// The innermost scope (at or below `k`) that declares `name`, or -1.
pub open spec fn scope_of(stack: Seq<Seq<SymbolInfo>>, name: Seq<char>, k: int) -> int
    decreases k + 1,
{
    if k < 0 {
        -1
    } else if index_in_scope(stack[k], name) >= 0 {
        k
    } else {
        scope_of(stack, name, k - 1)
    }
}

/// The symbol that `name` resolves to: its declaration in the innermost
/// scope that has one.
pub open spec fn resolve(stack: Seq<Seq<SymbolInfo>>, name: Seq<char>) -> Option<SymbolInfo> {
    let k = scope_of(stack, name, stack.len() - 1);
    if k >= 0 {
        Some(stack[k][index_in_scope(stack[k], name)])
    } else {
        None
    }
}

/// Opening a scope, declaring in it, and closing it again leaves every
/// name resolving as before: `pushed` is what `push_scope` makes of
/// scopes `a`, `declared` what declarations in the innermost scope make of
/// `pushed`, and `popped` what `pop_scope` makes of `declared`.
pub proof fn law_scope_round_trip(
    a: Seq<Seq<SymbolInfo>>,
    pushed: Seq<Seq<SymbolInfo>>,
    declared: Seq<Seq<SymbolInfo>>,
    popped: Seq<Seq<SymbolInfo>>,
)
    requires
        a.len() >= 1,
        pushed == a.push(Seq::<SymbolInfo>::empty()),
        declared.len() == pushed.len(),
        declared.drop_last() == pushed.drop_last(),
        popped == declared.drop_last(),
    ensures
        popped == a,
        forall|n: Seq<char>| #[trigger] resolve(popped, n) == resolve(a, n),
{
    assert(pushed.drop_last() =~= a);
}

/// No scope declares a name twice.
pub open spec fn scopes_distinct(stack: Seq<Seq<SymbolInfo>>) -> bool {
    forall|k: int, i: int, j: int|
        0 <= k < stack.len() && 0 <= i < j < stack[k].len() ==> (#[trigger] stack[k][i]).name@
            != (#[trigger] stack[k][j]).name@
}

impl SymbolTable {
    /// The scopes, outermost first.
    pub closed spec fn scopes(&self) -> Seq<Seq<SymbolInfo>> {
        self.stack@.map_values(|s: Vec<SymbolInfo>| s@)
    }

    /// The table's invariant: one scope at least, a depth equal to the
    /// number of scopes, and no name declared twice in a scope.
    pub closed spec fn wf(&self) -> bool {
        &&& self.stack.len() >= 1
        &&& self.depth == self.stack.len()
        &&& scopes_distinct(self.scopes())
    }

    pub closed spec fn depth_spec(&self) -> nat {
        self.depth as nat
    }

    pub proof fn lemma_wf(&self)
        requires
            self.wf(),
        ensures
            self.scopes().len() >= 1,
            self.depth_spec() == self.scopes().len(),
            scopes_distinct(self.scopes()),
    {
    }

    /// A table with one empty scope.
    pub fn new() -> (t: SymbolTable)
        ensures
            t.wf(),
            t.scopes() == seq![Seq::<SymbolInfo>::empty()],
    {
        let mut st = SymbolTable { stack: Vec::new(), depth: 0 };
        st.stack.push(Vec::new());
        st.depth = 1;
        assert(st.scopes() =~= seq![Seq::<SymbolInfo>::empty()]);
        st
    }

    /// Opens a new innermost scope.
    pub fn push_scope(&mut self)
        requires
            old(self).wf(),
        ensures
            final(self).wf(),
            final(self).scopes() == old(self).scopes().push(Seq::<SymbolInfo>::empty()),
            final(self).depth_spec() == old(self).depth_spec() + 1,
    {
        self.stack.push(Vec::new());
        self.depth = self.stack.len();
        assert(self.scopes() =~= old(self).scopes().push(Seq::<SymbolInfo>::empty()));
    }

    /// Closes the innermost scope, unless it is the only one.
    pub fn pop_scope(&mut self)
        requires
            old(self).wf(),
        ensures
            final(self).wf(),
            old(self).scopes().len() > 1 ==> final(self).scopes() == old(self).scopes().drop_last()
                && final(self).depth_spec() == old(self).depth_spec() - 1,
            old(self).scopes().len() <= 1 ==> final(self).scopes() == old(self).scopes()
                && final(self).depth_spec() == old(self).depth_spec(),
    {
        if self.stack.len() > 1 {
            self.stack.pop();
            self.depth = self.depth - 1;
            assert(self.scopes() =~= old(self).scopes().drop_last());
        }
    }

    fn find_in_scope(scope: &Vec<SymbolInfo>, name: &str) -> (r: Option<usize>)
        ensures
            match r {
                Some(j) => j == index_in_scope(scope@, name@) && j < scope.len(),
                None => index_in_scope(scope@, name@) < 0,
            },
    {
        let target = chars_of(name);
        let mut j: usize = scope.len();
        assert(scope@.take(j as int) =~= scope@);
        while j > 0
            invariant
                j <= scope.len(),
                target@ == name@,
                index_in_scope(scope@, name@) == index_in_scope(scope@.take(j as int), name@),
            decreases j,
        {
            let ghost t = scope@.take(j as int);
            assert(t.drop_last() =~= scope@.take(j - 1));
            let n = chars_of(scope[j - 1].name.as_str());
            if crate::text::chars_eq(&n, &target) {
                return Some(j - 1);
            }
            j -= 1;
        }
        None
    }

    /// Declares `name` in the innermost scope, unless that scope already
    /// declares it.
    pub fn declare(&mut self, name: &str, kind: SymbolKind, declared_type: Option<Type>)
        requires
            old(self).wf(),
        ensures
            final(self).wf(),
            final(self).depth_spec() == old(self).depth_spec(),
            final(self).scopes().len() == old(self).scopes().len(),
            final(self).scopes().drop_last() == old(self).scopes().drop_last(),
            index_in_scope(old(self).scopes().last(), name@) >= 0 ==> final(self).scopes()
                == old(self).scopes(),
            index_in_scope(old(self).scopes().last(), name@) < 0 ==> final(self).scopes().last()
                == old(self).scopes().last().push(
                SymbolInfo {
                    name: final(self).scopes().last().last().name,
                    symbol_kind: kind,
                    declared_type,
                    inferred_type: None,
                    depth: old(self).depth_spec() as usize,
                },
            ) && final(self).scopes().last().last().name@ == name@,
    {
        let k = self.stack.len() - 1;
        let found = SymbolTable::find_in_scope(&self.stack[k], name);
        if found.is_some() {
            return;
        }
        let ghost before = self.scopes();
        let info = SymbolInfo {
            name: name.to_string(),
            symbol_kind: kind,
            declared_type,
            inferred_type: None,
            depth: self.depth,
        };
        let mut scope = self.stack.pop().unwrap();
        proof {
            lemma_index_in_scope(scope@, name@);
        }
        scope.push(info);
        self.stack.push(scope);
        proof {
            assert(self.scopes().drop_last() =~= before.drop_last());
            assert(self.scopes().last() =~= before.last().push(info));
            assert forall|kk: int, i: int, j: int|
                0 <= kk < self.scopes().len() && 0 <= i < j < self.scopes()[kk].len() implies (
            #[trigger] self.scopes()[kk][i]).name@ != (#[trigger] self.scopes()[kk][j]).name@ by {
                if kk < k {
                    assert(self.scopes()[kk] == before[kk]);
                } else {
                    if j < before[kk].len() {
                        assert(self.scopes()[kk][i] == before[kk][i]);
                        assert(self.scopes()[kk][j] == before[kk][j]);
                    } else {
                        assert(self.scopes()[kk][i] == before[kk][i]);
                    }
                }
            }
        }
    }

    /// The symbol `name` resolves to, searching from the innermost scope out.
    pub fn lookup(&self, name: &str) -> (r: Option<&SymbolInfo>)
        requires
            self.wf(),
        ensures
            match (r, resolve(self.scopes(), name@)) {
                (Some(s), Some(t)) => *s == t,
                (None, None) => true,
                _ => false,
            },
    {
        let ghost st = self.scopes();
        let mut k: usize = self.stack.len();
        while k > 0
            invariant
                k <= self.stack.len(),
                st == self.scopes(),
                scope_of(st, name@, st.len() - 1) == scope_of(st, name@, k - 1),
            decreases k,
        {
            assert(st[k - 1] == self.stack@[k - 1]@);
            match SymbolTable::find_in_scope(&self.stack[k - 1], name) {
                Some(j) => {
                    return Some(&self.stack[k - 1][j]);
                },
                None => {},
            }
            k -= 1;
        }
        None
    }

    /// Records the type inferred for `name` on the symbol it resolves to.
    pub fn set_current_type(&mut self, name: &str, ty: Type)
        requires
            old(self).wf(),
        ensures
            final(self).wf(),
            final(self).depth_spec() == old(self).depth_spec(),
            final(self).scopes().len() == old(self).scopes().len(),
            match resolve(old(self).scopes(), name@) {
                None => final(self).scopes() == old(self).scopes(),
                Some(s) => {
                    let k = scope_of(old(self).scopes(), name@, old(self).scopes().len() - 1);
                    let j = index_in_scope(old(self).scopes()[k], name@);
                    final(self).scopes() == old(self).scopes().update(
                        k,
                        old(self).scopes()[k].update(
                            j,
                            SymbolInfo { inferred_type: Some(ty), ..s },
                        ),
                    )
                },
            },
    {
        let ghost st = self.scopes();
        let mut k: usize = self.stack.len();
        while k > 0
            invariant
                k <= self.stack.len(),
                self.stack.len() == old(self).stack.len(),
                st == self.scopes(),
                st == old(self).scopes(),
                scopes_distinct(st),
                self.stack.len() >= 1,
                self.depth == old(self).depth,
                self.depth == self.stack.len(),
                scope_of(st, name@, st.len() - 1) == scope_of(st, name@, k - 1),
            decreases k,
        {
            assert(st[k - 1] == self.stack@[k - 1]@);
            match SymbolTable::find_in_scope(&self.stack[k - 1], name) {
                Some(j) => {
                    let mut scope = self.stack.remove(k - 1);
                    let mut entry = scope.remove(j);
                    let ghost e0 = entry;
                    entry.inferred_type = Some(ty);
                    scope.insert(j, entry);
                    self.stack.insert(k - 1, scope);
                    proof {
                        let kk = (k - 1) as int;
                        assert(st[kk][j as int] == e0);
                        assert(self.scopes() =~= st.update(
                            kk,
                            st[kk].update(j as int, SymbolInfo { inferred_type: Some(ty), ..e0 }),
                        )) by {
                            assert(scope@ =~= st[kk].update(
                                j as int,
                                SymbolInfo { inferred_type: Some(ty), ..e0 },
                            ));
                        }
                        let e1 = SymbolInfo { inferred_type: Some(ty), ..e0 };
                        assert forall|a: int, i: int, b: int|
                            0 <= a < self.scopes().len() && 0 <= i < b < self.scopes()[a].len()
                            implies (#[trigger] self.scopes()[a][i]).name@ != (
                        #[trigger] self.scopes()[a][b]).name@ by {
                            if a == kk {
                                assert(self.scopes()[a] == st[kk].update(j as int, e1));
                                assert(self.scopes()[a][i].name == st[a][i].name);
                                assert(self.scopes()[a][b].name == st[a][b].name);
                            } else {
                                assert(self.scopes()[a] == st[a]);
                            }
                        }
                    }
                    return;
                },
                None => {},
            }
            k -= 1;
        }
    }

    /// The number of open scopes.
    pub fn current_depth(&self) -> (d: usize)
        requires
            self.wf(),
        ensures
            d == self.depth_spec(),
            d == self.scopes().len(),
    {
        self.depth
    }
}

// ---------------------------------------------------------------------------
// Analyzer state
// ---------------------------------------------------------------------------

/// The state of semantic analysis: scopes, diagnostics, and what is known
/// of capabilities and functions.
pub struct SemanticAnalyzer {
    symbol_table: SymbolTable,
    errors: Vec<SemanticError>,
    warnings: Vec<SemanticError>,
    current_function: Option<String>,
    loop_depth: usize,
    required_capabilities: Vec<String>,
    optional_capabilities: Vec<String>,
    capability_decls: Vec<(String, CapabilityDecl)>,
    in_async_function: bool,
    function_param_info: Vec<(String, Vec<FunctionParamInfo>)>,
    expected_array_element_type: Option<Type>,
}

/// The map that inserting the pairs of `ps` in order builds (a later pair
/// replaces an earlier one with the same key).
pub open spec fn map_of_pairs(ps: Seq<(String, CapabilityDecl)>) -> Map<Seq<char>, CapabilityDecl>
    decreases ps.len(),
{
    if ps.len() == 0 {
        Map::empty()
    } else {
        map_of_pairs(ps.drop_last()).insert(ps.last().0@, ps.last().1)
    }
}

/// Index of the pair keyed `key`, or -1.
pub open spec fn key_index(ps: Seq<(String, CapabilityDecl)>, key: Seq<char>) -> int
    decreases ps.len(),
{
    if ps.len() == 0 {
        -1
    } else if ps.last().0@ == key {
        ps.len() - 1
    } else {
        key_index(ps.drop_last(), key)
    }
}

pub open spec fn keys_distinct(ps: Seq<(String, CapabilityDecl)>) -> bool {
    forall|i: int, j: int| 0 <= i < j < ps.len() ==> (#[trigger] ps[i]).0@ != (#[trigger] ps[j]).0@
}

proof fn lemma_key_index(ps: Seq<(String, CapabilityDecl)>, key: Seq<char>)
    ensures
        -1 <= key_index(ps, key) < ps.len(),
        key_index(ps, key) >= 0 ==> ps[key_index(ps, key)].0@ == key,
        key_index(ps, key) < 0 ==> forall|j: int| 0 <= j < ps.len() ==> (#[trigger] ps[j]).0@ != key,
        key_index(ps, key) < 0 <==> !map_of_pairs(ps).dom().contains(key),
    decreases ps.len(),
{
    if ps.len() > 0 {
        lemma_key_index(ps.drop_last(), key);
        if ps.last().0@ != key {
            assert forall|j: int| 0 <= j < ps.len() - 1 implies ps.drop_last()[j] == ps[j] by {}
        }
    }
}

impl SemanticAnalyzer {
    /// A fresh analyzer: one empty scope, no diagnostics, no capabilities.
    pub fn new() -> (a: SemanticAnalyzer)
        ensures
            a.symbols().wf(),
            a.symbols().scopes() == seq![Seq::<SymbolInfo>::empty()],
            a.error_list().len() == 0,
            a.warning_list().len() == 0,
            a.function_name() is None,
            a.loop_nesting() == 0,
            a.required_list().len() == 0,
            a.optional_list().len() == 0,
            a.capability_map() == Map::<Seq<char>, CapabilityDecl>::empty(),
            !a.in_async(),
            a.param_info_list().len() == 0,
            a.expected_element_type() is None,
    {
        let a = SemanticAnalyzer {
            symbol_table: SymbolTable::new(),
            errors: Vec::new(),
            warnings: Vec::new(),
            current_function: None,
            loop_depth: 0,
            required_capabilities: Vec::new(),
            optional_capabilities: Vec::new(),
            capability_decls: Vec::new(),
            in_async_function: false,
            function_param_info: Vec::new(),
            expected_array_element_type: None,
        };
        assert(a.capability_map() =~= Map::<Seq<char>, CapabilityDecl>::empty());
        a
    }

    /// How many loops enclose the point reached, the function being
    /// analyzed, and whether it is async.
    pub closed spec fn context(&self) -> (usize, Option<String>, bool) {
        (self.loop_depth, self.current_function, self.in_async_function)
    }

    /// The scopes of declared names.
    pub closed spec fn symbols(&self) -> SymbolTable {
        self.symbol_table
    }

    /// The function being analyzed, if any.
    pub closed spec fn function_name(&self) -> Option<String> {
        self.current_function
    }

    /// How many loops enclose the statement being analyzed.
    pub closed spec fn loop_nesting(&self) -> usize {
        self.loop_depth
    }

    pub closed spec fn required_list(&self) -> Seq<String> {
        self.required_capabilities@
    }

    pub closed spec fn optional_list(&self) -> Seq<String> {
        self.optional_capabilities@
    }

    pub closed spec fn in_async(&self) -> bool {
        self.in_async_function
    }

    pub closed spec fn param_info_list(&self) -> Seq<(String, Vec<FunctionParamInfo>)> {
        self.function_param_info@
    }

    pub closed spec fn expected_element_type(&self) -> Option<Type> {
        self.expected_array_element_type
    }

    /// The capability declarations known, by capability name.
    pub closed spec fn capability_map(&self) -> Map<Seq<char>, CapabilityDecl> {
        map_of_pairs(self.capability_decls@)
    }

    /// The diagnostics recorded so far.
    pub closed spec fn error_list(&self) -> Seq<SemanticError> {
        self.errors@
    }

    pub closed spec fn warning_list(&self) -> Seq<SemanticError> {
        self.warnings@
    }

    /// Replaces the known capability declarations by `decls`, keyed by
    /// name (a later pair replaces an earlier one with the same name).
    pub fn set_capability_decls(&mut self, decls: Vec<(String, CapabilityDecl)>)
        ensures
            final(self).capability_map() == map_of_pairs(decls@),
            final(self).error_list() == old(self).error_list(),
            final(self).warning_list() == old(self).warning_list(),
    {
        let mut table: Vec<(String, CapabilityDecl)> = Vec::new();
        let mut rest = decls;
        let ghost all = rest@;
        while rest.len() > 0
            invariant
                keys_distinct(table@),
                rest@.len() <= all.len(),
                map_of_pairs(table@) == map_of_pairs(all.take(all.len() - rest@.len())),
                all.skip(all.len() - rest@.len()) == rest@,
            decreases rest.len(),
        {
            let ghost m = all.len() - rest@.len();
            let ghost r0 = rest@;
            let p = rest.remove(0);
            assert(all[m] == p) by {
                assert(all.skip(m)[0] == r0[0]);
            }
            assert(all.take(m + 1).drop_last() =~= all.take(m));
            assert(all.skip(m + 1) =~= rest@) by {
                assert forall|j: int| 0 <= j < rest@.len() implies all.skip(m + 1)[j] == rest@[j] by {
                    assert(all.skip(m)[j + 1] == r0[j + 1]);
                }
            }
            let key = chars_of(p.0.as_str());
            let mut j: usize = 0;
            let mut found: Option<usize> = None;
            while j < table.len()
                invariant
                    j <= table.len(),
                    key@ == p.0@,
                    found matches Some(x) ==> x < table.len() && table@[x as int].0@ == p.0@,
                    found is None ==> forall|q: int| 0 <= q < j ==> (#[trigger] table@[q]).0@ != p.0@,
                decreases table.len() - j,
            {
                if found.is_none() {
                    let kj = chars_of(table[j].0.as_str());
                    if crate::text::chars_eq(&kj, &key) {
                        found = Some(j);
                    }
                }
                j += 1;
            }
            let ghost t0 = table@;
            match found {
                Some(j) => {
                    table.set(j, p);
                    proof {
                        lemma_map_of_pairs_replace(t0, j as int, p);
                    }
                },
                None => {
                    table.push(p);
                    proof {
                        lemma_key_index(t0, p.0@);
                        assert(table@.drop_last() =~= t0);
                    }
                },
            }
        }
        assert(all.take(all.len() as int) =~= all);
        self.capability_decls = table;
    }

    /// The errors recorded so far, in order.
    pub fn errors(&self) -> (r: &Vec<SemanticError>)
        ensures
            r@ == self.error_list(),
    {
        &self.errors
    }

    /// The warnings recorded so far, in order.
    pub fn warnings(&self) -> (r: &Vec<SemanticError>)
        ensures
            r@ == self.warning_list(),
    {
        &self.warnings
    }

    /// Records an error at `span`.
    pub fn emit_error(&mut self, message: String, span: Span)
        ensures
            final(self).error_list() == old(self).error_list().push(
                SemanticError { message, span: Some(span) },
            ),
            final(self).warning_list() == old(self).warning_list(),
            final(self).capability_map() == old(self).capability_map(),
            final(self).symbols() == old(self).symbols(),
    {
        self.errors.push(SemanticError { message, span: Some(span) });
    }

    /// Records a warning at `span`.
    pub fn emit_warning(&mut self, message: String, span: Span)
        ensures
            final(self).warning_list() == old(self).warning_list().push(
                SemanticError { message, span: Some(span) },
            ),
            final(self).error_list() == old(self).error_list(),
            final(self).capability_map() == old(self).capability_map(),
            final(self).symbols() == old(self).symbols(),
    {
        self.warnings.push(SemanticError { message, span: Some(span) });
    }
}

proof fn lemma_map_of_pairs_replace(
    t: Seq<(String, CapabilityDecl)>,
    j: int,
    p: (String, CapabilityDecl),
)
    requires
        0 <= j < t.len(),
        t[j].0@ == p.0@,
        keys_distinct(t),
    ensures
        map_of_pairs(t.update(j, p)) == map_of_pairs(t).insert(p.0@, p.1),
        keys_distinct(t.update(j, p)),
    decreases t.len(),
{
    if j == t.len() - 1 {
        assert(t.update(j, p).drop_last() =~= t.drop_last());
        lemma_key_index(t.drop_last(), p.0@);
        assert forall|q: int| 0 <= q < t.len() - 1 implies (#[trigger] t.drop_last()[q]).0@ != p.0@ by {
            assert(t.drop_last()[q] == t[q]);
        }
        assert(map_of_pairs(t.update(j, p)) =~= map_of_pairs(t).insert(p.0@, p.1));
    } else {
        let u = t.drop_last();
        assert(t.update(j, p).drop_last() =~= u.update(j, p));
        assert forall|a: int, b: int| 0 <= a < b < u.len() implies (#[trigger] u[a]).0@ != (
        #[trigger] u[b]).0@ by {
            assert(u[a] == t[a] && u[b] == t[b]);
        }
        lemma_map_of_pairs_replace(u, j, p);
        assert(t.last().0@ != p.0@);
        assert(map_of_pairs(t.update(j, p)) =~= map_of_pairs(t).insert(p.0@, p.1));
    }
}

/// Whether two strings hold the same characters.
fn str_eq(a: &str, b: &str) -> (r: bool)
    ensures
        r == (a@ == b@),
{
    let x = chars_of(a);
    let y = chars_of(b);
    chars_eq(&x, &y)
}

/// The POSIX functions that take a buffer or a path.
pub open spec fn posix_buffer_fn(name: Seq<char>) -> bool {
    ||| name == "read"@
    ||| name == "write"@
    ||| name == "pread"@
    ||| name == "pwrite"@
    ||| name == "stat"@
    ||| name == "lstat"@
    ||| name == "fstat"@
    ||| name == "readlink"@
    ||| name == "getcwd"@
    ||| name == "access"@
    ||| name == "faccessat"@
    ||| name == "chmod"@
    ||| name == "fchmod"@
    ||| name == "chown"@
    ||| name == "fchown"@
    ||| name == "utimes"@
    ||| name == "futimes"@
    ||| name == "utimensat"@
    ||| name == "truncate"@
    ||| name == "ftruncate"@
    ||| name == "link"@
    ||| name == "symlink"@
    ||| name == "rename"@
    ||| name == "unlink"@
    ||| name == "mkdir"@
    ||| name == "rmdir"@
    ||| name == "chdir"@
    ||| name == "fchdir"@
    ||| name == "mkfifo"@
    ||| name == "mknod"@
}

/// Whether `name` is a POSIX function that takes a buffer or a path.
pub fn is_posix_buffer_fn(name: &str) -> (r: bool)
    ensures
        r == posix_buffer_fn(name@),
{
    str_eq(name, "read") || str_eq(name, "write") || str_eq(name, "pread") || str_eq(name, "pwrite")
        || str_eq(name, "stat") || str_eq(name, "lstat") || str_eq(name, "fstat") || str_eq(
        name,
        "readlink",
    ) || str_eq(name, "getcwd") || str_eq(name, "access") || str_eq(name, "faccessat") || str_eq(
        name,
        "chmod",
    ) || str_eq(name, "fchmod") || str_eq(name, "chown") || str_eq(name, "fchown") || str_eq(
        name,
        "utimes",
    ) || str_eq(name, "futimes") || str_eq(name, "utimensat") || str_eq(name, "truncate")
        || str_eq(name, "ftruncate") || str_eq(name, "link") || str_eq(name, "symlink") || str_eq(
        name,
        "rename",
    ) || str_eq(name, "unlink") || str_eq(name, "mkdir") || str_eq(name, "rmdir") || str_eq(
        name,
        "chdir",
    ) || str_eq(name, "fchdir") || str_eq(name, "mkfifo") || str_eq(name, "mknod")
}

/// Types that may hold a string: `string`, pointers, and `[u8]`.
pub open spec fn string_like(t: Type) -> bool {
    match t {
        Type::String => true,
        Type::Pointer(_) => true,
        Type::Array { element_type, dimensions } => *element_type == Type::Unsigned(UnsignedKind::U8)
            && dimensions@.len() == 0,
        _ => false,
    }
}

/// Whether a type may hold a string.
pub fn is_string_like(ty: &Type) -> (r: bool)
    ensures
        r == string_like(*ty),
{
    match ty {
        Type::String => true,
        Type::Pointer(_) => true,
        Type::Array { element_type, dimensions } => {
            let u8_elem = match &**element_type {
                Type::Unsigned(UnsignedKind::U8) => true,
                _ => false,
            };
            u8_elem && dimensions.len() == 0
        },
        _ => false,
    }
}

/// The type a built-in is declared with: a function type, by its
/// parameter and return types, or another type.
pub enum BuiltinType {
    Function(Seq<Type>, Type),
    Plain(Type),
}

/// A built-in: its name, the kind of symbol it is, and its type.
pub struct BuiltinDecl {
    pub name: Seq<char>,
    pub kind: SymbolKind,
    pub ty: BuiltinType,
}

pub open spec fn i64_t() -> Type {
    Type::Integer(IntegerKind::I64)
}

pub open spec fn u64_t() -> Type {
    Type::Unsigned(UnsignedKind::U64)
}

pub open spec fn f64_t() -> Type {
    Type::Float(FloatKind::F64)
}

pub open spec fn ptr_t() -> Type {
    Type::Pointer(None)
}

/// A built-in function.
pub open spec fn fn_decl(name: Seq<char>, params: Seq<Type>, ret: Type) -> BuiltinDecl {
    BuiltinDecl { name, kind: SymbolKind::Function, ty: BuiltinType::Function(params, ret) }
}

/// Built-in functions that share one signature.
pub open spec fn fn_decls(names: Seq<Seq<char>>, params: Seq<Type>, ret: Type) -> Seq<BuiltinDecl> {
    names.map_values(|n: Seq<char>| fn_decl(n, params, ret))
}

/// A built-in whose type is not a function type.
pub open spec fn plain_decl(name: Seq<char>, kind: SymbolKind, t: Type) -> BuiltinDecl {
    BuiltinDecl { name, kind, ty: BuiltinType::Plain(t) }
}

/// The built-ins `declare_posix_builtins` declares, in order.
pub open spec fn builtin_decls() -> Seq<BuiltinDecl> {
    file_builtin_decls() + io_builtin_decls() + table_builtin_decls() + string_builtin_decls()
        + math_builtin_decls()
}

/// The built-ins for POSIX file calls.
pub open spec fn file_builtin_decls() -> Seq<BuiltinDecl> {
    fn_decls(seq!["close"@, "fsync"@, "fdatasync"@, "umask"@, "unlink"@, "rmdir"@, "dup"@, "opendir"@, "readdir"@, "closedir"@, "chdir"@, "fchdir"@], seq![i64_t()], i64_t())
        + fn_decls(seq!["open"@, "stat"@, "lstat"@, "fstat"@, "access"@, "utimes"@, "futimes"@, "chmod"@, "fchmod"@, "truncate"@, "ftruncate"@, "link"@, "symlink"@, "rename"@, "mkdir"@, "fcntl"@, "pathconf"@, "fpathconf"@, "dup2"@, "creat"@, "mkfifo"@, "getcwd"@], seq![i64_t(), i64_t()], i64_t())
        + fn_decls(seq!["read"@, "write"@, "lseek"@, "chown"@, "fchown"@, "readlink"@, "mknod"@], seq![i64_t(), i64_t(), i64_t()], i64_t())
        + fn_decls(seq!["pread"@, "pwrite"@, "faccessat"@, "utimensat"@], seq![i64_t(), i64_t(), i64_t(), i64_t()], i64_t())
        + seq![fn_decl("rewinddir"@, seq![i64_t()], Type::Void)]
}

/// The built-ins for printing and input.
pub open spec fn io_builtin_decls() -> Seq<BuiltinDecl> {
    fn_decls(seq!["print"@, "print_i64"@, "println_i64"@], seq![i64_t()], Type::Void)
        + fn_decls(seq!["print_u64"@, "println_u64"@], seq![u64_t()], Type::Void)
        + fn_decls(seq!["print_f64"@, "println_f64"@], seq![f64_t()], Type::Void)
        + fn_decls(seq!["print_string"@, "println_string"@], seq![Type::String], Type::Void)
        + seq![fn_decl("println"@, seq![], Type::Void)]
        + seq![fn_decl("input_i64"@, seq![], i64_t())]
        + seq![fn_decl("input_u64"@, seq![], u64_t())]
        + seq![fn_decl("input_f64"@, seq![], f64_t())]
        + seq![fn_decl("input_string"@, seq![], i64_t())]
}

/// The built-ins for tables, maps and allocation.
pub open spec fn table_builtin_decls() -> Seq<BuiltinDecl> {
    seq![fn_decl("table_new"@, seq![i64_t()], ptr_t())]
        + seq![fn_decl("table_get"@, seq![ptr_t(), i64_t(), i64_t()], i64_t())]
        + seq![fn_decl("table_set"@, seq![ptr_t(), i64_t(), i64_t(), i64_t()], Type::Void)]
        + seq![fn_decl("map_has"@, seq![ptr_t(), ptr_t(), i64_t()], i64_t())]
        + seq![fn_decl("map_size"@, seq![ptr_t()], i64_t())]
        + seq![fn_decl("map_key_at"@, seq![ptr_t(), i64_t()], ptr_t())]
        + seq![fn_decl("map_value_at"@, seq![ptr_t(), i64_t()], i64_t())]
        + seq![fn_decl("gc_alloc"@, seq![i64_t()], ptr_t())]
}

/// The built-ins for strings, terminal input and time.
pub open spec fn string_builtin_decls() -> Seq<BuiltinDecl> {
    seq![fn_decl("string_length"@, seq![ptr_t()], u64_t())]
        + fn_decls(seq!["string_concat"@, "string_split"@], seq![ptr_t(), ptr_t()], ptr_t())
        + fn_decls(seq!["string_upper"@, "string_lower"@, "string_trim"@, "int_from_string"@, "float_from_string"@], seq![ptr_t()], ptr_t())
        + fn_decls(seq!["string_contains"@, "string_starts_with"@, "string_ends_with"@], seq![ptr_t(), ptr_t()], Type::Bool)
        + seq![fn_decl("string_replace"@, seq![ptr_t(), ptr_t(), ptr_t()], ptr_t())]
        + seq![fn_decl("str"@, seq![i64_t()], Type::String)]
        + seq![fn_decl("stdin_poll"@, seq![i64_t()], i64_t())]
        + seq![fn_decl("stdin_read_line"@, seq![], ptr_t())]
        + seq![fn_decl("time_ms"@, seq![], i64_t())]
        + seq![fn_decl("string_eq"@, seq![ptr_t(), ptr_t()], i64_t())]
        + seq![fn_decl("flush_stdout"@, seq![], Type::Void)]
        + seq![fn_decl("parse_int"@, seq![ptr_t()], i64_t())]
        + seq![fn_decl("parse_float"@, seq![ptr_t()], f64_t())]
        + seq![fn_decl("async_read_line"@, seq![], Type::Future(Box::new(ptr_t())))]
}

/// The built-ins for math, the constants `PI` and `E`, tensors and `len`.
pub open spec fn math_builtin_decls() -> Seq<BuiltinDecl> {
    fn_decls(seq!["abs"@, "sqrt"@, "sin"@, "cos"@, "tan"@, "asin"@, "acos"@, "exp"@, "log"@, "log2"@, "floor"@, "ceil"@, "round"@], seq![f64_t()], f64_t())
        + fn_decls(seq!["pow"@, "atan2"@, "min"@, "max"@], seq![f64_t(), f64_t()], f64_t())
        + seq![plain_decl("PI"@, SymbolKind::Variable, f64_t())]
        + seq![plain_decl("E"@, SymbolKind::Variable, f64_t())]
        + seq![plain_decl("matmul"@, SymbolKind::Function, Type::Tensor { dtype: Box::new(Type::Float(FloatKind::F32)), shape: None })]
        + seq![fn_decl("tensor_print"@, seq![], Type::Void)]
        + seq![fn_decl("len"@, seq![ptr_t()], u64_t())]
}

/// The first of `ds` named `n`, if any.
pub open spec fn first_decl(ds: Seq<BuiltinDecl>, n: Seq<char>) -> Option<BuiltinDecl>
    decreases ds.len(),
{
    if ds.len() == 0 {
        None
    } else if ds[0].name == n {
        Some(ds[0])
    } else {
        first_decl(ds.drop_first(), n)
    }
}

/// The entry `scope` holds for `name`.
pub open spec fn entry_of(scope: Seq<SymbolInfo>, name: Seq<char>) -> SymbolInfo {
    scope[index_in_scope(scope, name)]
}

/// No two symbols of `scope` have one name.
pub open spec fn scope_distinct(scope: Seq<SymbolInfo>) -> bool {
    forall|i: int, j: int|
        0 <= i < j < scope.len() ==> (#[trigger] scope[i]).name@ != (#[trigger] scope[j]).name@
}

/// `t` is a declared type of the form `ty` describes.
pub open spec fn type_as(t: Option<Type>, ty: BuiltinType) -> bool {
    match ty {
        BuiltinType::Function(params, ret) => t matches Some(Type::Function { param_types, return_type })
            && param_types@ == params && *return_type == ret,
        BuiltinType::Plain(p) => t == Some(p),
    }
}

/// `info` is what declaring built-in `d` records.
pub open spec fn declared_as(info: SymbolInfo, d: BuiltinDecl) -> bool {
    &&& info.symbol_kind == d.kind
    &&& info.inferred_type is None
    &&& type_as(info.declared_type, d.ty)
}

/// After declaring the built-ins `ds` in order, starting from innermost
/// scope `a`, innermost scope `b` holds built-in name `n`: the entry `a`
/// had for it, if any, else the first of `ds` with that name, recorded at
/// scope depth `depth`.
pub open spec fn builtin_holds(a: Seq<SymbolInfo>, b: Seq<SymbolInfo>, ds: Seq<BuiltinDecl>, n: Seq<char>, depth: nat) -> bool {
    &&& declares(b, n)
    &&& if declares(a, n) {
        entry_of(b, n) == entry_of(a, n)
    } else {
        first_decl(ds, n) matches Some(d) && declared_as(entry_of(b, n), d) && entry_of(b, n).depth
            == depth
    }
}

/// Scopes `b` are scopes `a` after declaring the built-ins `ds`, in order,
/// in the innermost scope (a name already declared there keeps its entry).
pub open spec fn builtins_added(a: Seq<Seq<SymbolInfo>>, b: Seq<Seq<SymbolInfo>>, ds: Seq<BuiltinDecl>) -> bool {
    &&& grows(a, b)
    &&& scope_distinct(b.last())
    &&& forall|n: Seq<char>|
        #[trigger] declares(b.last(), n) ==> declares(a.last(), n) || ds.map_values(
            |d: BuiltinDecl| d.name,
        ).contains(n)
    &&& forall|j: int|
        0 <= j < ds.len() ==> builtin_holds(a.last(), b.last(), ds, #[trigger] ds[j].name, b.len())
}

proof fn lemma_first_decl_concat(a: Seq<BuiltinDecl>, b: Seq<BuiltinDecl>, n: Seq<char>)
    ensures
        first_decl(a + b, n) == (if first_decl(a, n) is Some {
            first_decl(a, n)
        } else {
            first_decl(b, n)
        }),
        first_decl(a, n) is None <==> !a.map_values(|d: BuiltinDecl| d.name).contains(n),
    decreases a.len(),
{
    let names = a.map_values(|d: BuiltinDecl| d.name);
    if a.len() == 0 {
        assert(a + b =~= b);
    } else {
        assert((a + b).drop_first() =~= a.drop_first() + b);
        lemma_first_decl_concat(a.drop_first(), b, n);
        let rest = a.drop_first().map_values(|d: BuiltinDecl| d.name);
        assert(names =~= seq![a[0].name] + rest);
        assert(names[0] == a[0].name);
        if names.contains(n) && a[0].name != n {
            let k = choose|k: int| 0 <= k < names.len() && names[k] == n;
            assert(rest[k - 1] == n);
        }
        if rest.contains(n) {
            let k = choose|k: int| 0 <= k < rest.len() && rest[k] == n;
            assert(names[k + 1] == n);
        }
    }
}

/// An entry of a scope stays as the scope grows without repeating a name.
proof fn lemma_entry_persists(a: Seq<Seq<SymbolInfo>>, b: Seq<Seq<SymbolInfo>>, n: Seq<char>)
    requires
        grows(a, b),
        scope_distinct(b.last()),
        declares(a.last(), n),
    ensures
        declares(b.last(), n),
        entry_of(b.last(), n) == entry_of(a.last(), n),
{
    lemma_declares_grows(a, b, n);
    lemma_index_in_scope(a.last(), n);
    lemma_index_in_scope(b.last(), n);
    let i = index_in_scope(a.last(), n);
    let j = index_in_scope(b.last(), n);
    assert(b.last()[i] == a.last()[i]);
    if i < j {
        assert(b.last()[i].name@ != b.last()[j].name@);
    } else if j < i {
        assert(b.last()[j].name@ != b.last()[i].name@);
    }
}

/// Declaring `done` and then `added` declares `done + added`.
proof fn lemma_builtins_compose(
    start: Seq<Seq<SymbolInfo>>,
    prev: Seq<Seq<SymbolInfo>>,
    cur: Seq<Seq<SymbolInfo>>,
    done: Seq<BuiltinDecl>,
    added: Seq<BuiltinDecl>,
) -> (r: Seq<BuiltinDecl>)
    requires
        builtins_added(start, prev, done),
        builtins_added(prev, cur, added),
    ensures
        r == done + added,
        builtins_added(start, cur, r),
{
    let r = done + added;
    lemma_grows_trans(start, prev, cur);
    let dn = done.map_values(|d: BuiltinDecl| d.name);
    let an = added.map_values(|d: BuiltinDecl| d.name);
    let rn = r.map_values(|d: BuiltinDecl| d.name);
    assert(rn =~= dn + an);
    assert forall|n: Seq<char>| #[trigger] declares(cur.last(), n) implies declares(start.last(), n)
        || rn.contains(n) by {
        if declares(prev.last(), n) {
            if !declares(start.last(), n) {
                let k = choose|k: int| 0 <= k < dn.len() && dn[k] == n;
                assert(rn[k] == n);
            }
        } else {
            let k = choose|k: int| 0 <= k < an.len() && an[k] == n;
            assert(rn[dn.len() + k] == n);
        }
    }
    assert forall|j: int| 0 <= j < r.len() implies builtin_holds(start.last(), cur.last(), r, #[trigger] r[j].name, cur.len()) by {
        let n = r[j].name;
        lemma_first_decl_concat(done, added, n);
        if declares(start.last(), n) {
            lemma_entry_persists(start, prev, n);
            lemma_entry_persists(prev, cur, n);
        } else if dn.contains(n) {
            let k = choose|k: int| 0 <= k < dn.len() && dn[k] == n;
            assert(done[k].name == n);
            assert(builtin_holds(start.last(), prev.last(), done, done[k].name, prev.len()));
            lemma_entry_persists(prev, cur, n);
        } else {
            assert(j >= done.len()) by {
                if j < done.len() {
                    assert(dn[j] == n);
                }
            }
            assert(added[j - done.len()].name == n);
            assert(builtin_holds(prev.last(), cur.last(), added, added[j - done.len()].name, cur.len()));
            assert(!declares(prev.last(), n));
        }
    }
    r
}

/// Nothing declared: the scopes are unchanged.
proof fn lemma_builtins_none(a: Seq<Seq<SymbolInfo>>)
    requires
        a.len() >= 1,
        scope_distinct(a.last()),
    ensures
        builtins_added(a, a, Seq::empty()),
{
}

impl SemanticAnalyzer {
    /// The capability declarations known, by capability name.
    pub fn get_capability_decls(&self) -> (r: &Vec<(String, CapabilityDecl)>)
        ensures
            map_of_pairs(r@) == self.capability_map(),
    {
        &self.capability_decls
    }

    fn declare_fn(&mut self, name: &str, params: Vec<Type>, ret: Type)
        requires
            old(self).symbols().wf(),
        ensures
            final(self).symbols().wf(),
            final(self).symbols().scopes().len() == old(self).symbols().scopes().len(),
            final(self).error_list() == old(self).error_list(),
            final(self).warning_list() == old(self).warning_list(),
            final(self).context() == old(self).context(),
            final(self).capability_map() == old(self).capability_map(),
            builtins_added(
                old(self).symbols().scopes(),
                final(self).symbols().scopes(),
                seq![fn_decl(name@, params@, ret)],
            ),
    {
        let ghost d = fn_decl(name@, params@, ret);
        let t = Type::function(params, ret);
        self.declare_symbol(name, SymbolKind::Function, Some(t), Ghost(d));
    }

    /// Declares `name` in the innermost scope unless it is declared there;
    /// `d` describes the symbol.
    fn declare_symbol(&mut self, name: &str, kind: SymbolKind, declared_type: Option<Type>, Ghost(d): Ghost<BuiltinDecl>)
        requires
            old(self).symbols().wf(),
            d.name == name@,
            d.kind == kind,
            type_as(declared_type, d.ty),
        ensures
            final(self).symbols().wf(),
            final(self).symbols().scopes().len() == old(self).symbols().scopes().len(),
            final(self).error_list() == old(self).error_list(),
            final(self).warning_list() == old(self).warning_list(),
            final(self).context() == old(self).context(),
            final(self).capability_map() == old(self).capability_map(),
            builtins_added(old(self).symbols().scopes(), final(self).symbols().scopes(), seq![d]),
    {
        proof {
            self.symbol_table.lemma_wf();
        }
        let ghost before = self.symbol_table.scopes();
        self.symbol_table.declare(name, kind, declared_type);
        proof {
            let after = self.symbol_table.scopes();
            self.symbol_table.lemma_wf();
            let k = after.len() - 1;
            assert(scope_distinct(after.last())) by {
                assert forall|i: int, j: int| 0 <= i < j < after.last().len() implies (#[trigger] after.last()[i]).name@
                    != (#[trigger] after.last()[j]).name@ by {
                    assert(after[k][i] == after.last()[i]);
                    assert(after[k][j] == after.last()[j]);
                }
            }
            lemma_index_in_scope(before.last(), name@);
            if index_in_scope(before.last(), name@) < 0 {
                assert(after.last().drop_last() =~= before.last());
                assert(index_in_scope(after.last(), name@) == after.last().len() - 1);
            }
            assert(grows(before, after));
            assert(seq![d].map_values(|x: BuiltinDecl| x.name) =~= seq![name@]);
            assert forall|n: Seq<char>| #[trigger] declares(after.last(), n) implies declares(before.last(), n)
                || seq![d].map_values(|x: BuiltinDecl| x.name).contains(n) by {
                if n != name@ && index_in_scope(before.last(), name@) < 0 {
                    assert(after.last().drop_last() =~= before.last());
                    assert(index_in_scope(after.last(), n) == index_in_scope(before.last(), n));
                }
                if n == name@ {
                    assert(seq![d].map_values(|x: BuiltinDecl| x.name)[0] == n);
                }
            }
            assert(builtin_holds(before.last(), after.last(), seq![d], seq![d][0].name, after.len())) by {
                if declares(before.last(), name@) {
                    lemma_entry_persists(before, after, name@);
                }
                reveal_with_fuel(first_decl, 2);
            }
        }
    }

    /// Declares each of `names` as a function taking `params` and returning
    /// `ret`.
    fn declare_fns(&mut self, names: &[&str], params: &Vec<Type>, ret: &Type)
        requires
            old(self).symbols().wf(),
            forall|i: int| 0 <= i < params@.len() ==> !holds_vec(#[trigger] params@[i]),
            !holds_vec(*ret),
        ensures
            final(self).symbols().wf(),
            final(self).symbols().scopes().len() == old(self).symbols().scopes().len(),
            final(self).error_list() == old(self).error_list(),
            final(self).warning_list() == old(self).warning_list(),
            final(self).context() == old(self).context(),
            final(self).capability_map() == old(self).capability_map(),
            builtins_added(
                old(self).symbols().scopes(),
                final(self).symbols().scopes(),
                fn_decls(names@.map_values(|n: &str| n@), params@, *ret),
            ),
    {
        proof {
            self.symbol_table.lemma_wf();
            let s = self.symbols().scopes();
            let k = s.len() - 1;
            assert(scope_distinct(s.last())) by {
                assert forall|i: int, j: int| 0 <= i < j < s.last().len() implies (#[trigger] s.last()[i]).name@
                    != (#[trigger] s.last()[j]).name@ by {
                    assert(s[k][i] == s.last()[i]);
                    assert(s[k][j] == s.last()[j]);
                }
            }
            lemma_builtins_none(s);
        }
        let ghost start = self.symbols().scopes();
        let ghost names_v = names@.map_values(|n: &str| n@);
        let mut i: usize = 0;
        while i < names.len()
            invariant
                i <= names.len(),
                names_v == names@.map_values(|n: &str| n@),
                forall|j: int| 0 <= j < params@.len() ==> !holds_vec(#[trigger] params@[j]),
                !holds_vec(*ret),
                start == old(self).symbols().scopes(),
                self.symbols().wf(),
                self.symbols().scopes().len() == old(self).symbols().scopes().len(),
                self.error_list() == old(self).error_list(),
                self.warning_list() == old(self).warning_list(),
                self.context() == old(self).context(),
                self.capability_map() == old(self).capability_map(),
                builtins_added(start, self.symbols().scopes(), fn_decls(names_v.take(i as int), params@, *ret)),
            decreases names.len() - i,
        {
            let ghost before = self.symbols().scopes();
            let ps = clone_type_list(params);
            let r = ret.clone_type();
            assert(ps@ =~= params@);
            self.declare_fn(names[i], ps, r);
            proof {
                let d = fn_decl(names_v[i as int], params@, *ret);
                assert(fn_decls(names_v.take(i + 1), params@, *ret) =~= fn_decls(names_v.take(i as int), params@, *ret) + seq![d]);
                lemma_builtins_compose(start, before, self.symbols().scopes(), fn_decls(names_v.take(i as int), params@, *ret), seq![d]);
            }
            i += 1;
        }
        assert(names_v.take(names.len() as int) =~= names_v);
    }

    /// Declares the built-in functions and constants: POSIX file calls,
    /// printing and input, tables and maps, strings, terminal and time,
    /// math, tensors and `len`: each of `builtin_decls`, with its kind and
    /// type, in the innermost scope (a name already declared there keeps
    /// its entry).
    pub fn declare_posix_builtins(&mut self)
        requires
            old(self).symbols().wf(),
        ensures
            final(self).symbols().wf(),
            final(self).symbols().scopes().len() == old(self).symbols().scopes().len(),
            final(self).error_list() == old(self).error_list(),
            final(self).warning_list() == old(self).warning_list(),
            final(self).context() == old(self).context(),
            final(self).capability_map() == old(self).capability_map(),
            builtins_added(old(self).symbols().scopes(), final(self).symbols().scopes(), builtin_decls()),
    {
        let ghost start = self.symbols().scopes();
        let ghost mut done: Seq<BuiltinDecl> = Seq::empty();
        proof {
            self.symbol_table.lemma_wf();
            let k = start.len() - 1;
            assert(scope_distinct(start.last())) by {
                assert forall|i: int, j: int| 0 <= i < j < start.last().len() implies (#[trigger] start.last()[i]).name@
                    != (#[trigger] start.last()[j]).name@ by {
                    assert(start[k][i] == start.last()[i]);
                    assert(start[k][j] == start.last()[j]);
                }
            }
            lemma_builtins_none(start);
        }
        let ghost before = self.symbols().scopes();
        self.declare_file_builtins();
        proof {
            done = lemma_builtins_compose(start, before, self.symbols().scopes(), done, file_builtin_decls());
        }
        let ghost before = self.symbols().scopes();
        self.declare_io_builtins();
        proof {
            done = lemma_builtins_compose(start, before, self.symbols().scopes(), done, io_builtin_decls());
        }
        let ghost before = self.symbols().scopes();
        self.declare_table_builtins();
        proof {
            done = lemma_builtins_compose(start, before, self.symbols().scopes(), done, table_builtin_decls());
        }
        let ghost before = self.symbols().scopes();
        self.declare_string_builtins();
        proof {
            done = lemma_builtins_compose(start, before, self.symbols().scopes(), done, string_builtin_decls());
        }
        let ghost before = self.symbols().scopes();
        self.declare_math_builtins();
        proof {
            done = lemma_builtins_compose(start, before, self.symbols().scopes(), done, math_builtin_decls());
        }
        assert(done =~= builtin_decls());
    }

    /// Declares the built-ins for POSIX file calls: each of `file_builtin_decls`.
    fn declare_file_builtins(&mut self)
        requires
            old(self).symbols().wf(),
        ensures
            final(self).symbols().wf(),
            final(self).symbols().scopes().len() == old(self).symbols().scopes().len(),
            final(self).error_list() == old(self).error_list(),
            final(self).warning_list() == old(self).warning_list(),
            final(self).context() == old(self).context(),
            final(self).capability_map() == old(self).capability_map(),
            builtins_added(old(self).symbols().scopes(), final(self).symbols().scopes(), file_builtin_decls()),
    {
        let ghost start = self.symbols().scopes();
        let ghost mut done: Seq<BuiltinDecl> = Seq::empty();
        proof {
            self.symbol_table.lemma_wf();
            let k = start.len() - 1;
            assert(scope_distinct(start.last())) by {
                assert forall|i: int, j: int| 0 <= i < j < start.last().len() implies (#[trigger] start.last()[i]).name@
                    != (#[trigger] start.last()[j]).name@ by {
                    assert(start[k][i] == start.last()[i]);
                    assert(start[k][j] == start.last()[j]);
                }
            }
            lemma_builtins_none(start);
        }
        let i64t = Type::Integer(IntegerKind::I64);
        let one = [
            "close", "fsync", "fdatasync", "umask", "unlink", "rmdir", "dup",
            "opendir", "readdir", "closedir", "chdir", "fchdir",
        ];
        let ghost before = self.symbols().scopes();
        let ps = vec![i64t.clone_type()];
        assert(ps@ =~= seq![i64_t()]);
        self.declare_fns(&one, &ps, &i64t);
        proof {
            done = lemma_builtins_compose(start, before, self.symbols().scopes(), done, fn_decls(one@.map_values(|n: &str| n@), seq![i64_t()], i64_t()));
        }
        let two = [
            "open", "stat", "lstat", "fstat", "access", "utimes", "futimes", "chmod",
            "fchmod", "truncate", "ftruncate", "link", "symlink", "rename", "mkdir",
            "fcntl", "pathconf", "fpathconf", "dup2", "creat", "mkfifo", "getcwd",
        ];
        let ghost before = self.symbols().scopes();
        let ps = vec![i64t.clone_type(), i64t.clone_type()];
        assert(ps@ =~= seq![i64_t(), i64_t()]);
        self.declare_fns(&two, &ps, &i64t);
        proof {
            done = lemma_builtins_compose(start, before, self.symbols().scopes(), done, fn_decls(two@.map_values(|n: &str| n@), seq![i64_t(), i64_t()], i64_t()));
        }
        let three = ["read", "write", "lseek", "chown", "fchown", "readlink", "mknod"];
        let ghost before = self.symbols().scopes();
        let ps = vec![i64t.clone_type(), i64t.clone_type(), i64t.clone_type()];
        assert(ps@ =~= seq![i64_t(), i64_t(), i64_t()]);
        self.declare_fns(&three, &ps, &i64t);
        proof {
            done = lemma_builtins_compose(start, before, self.symbols().scopes(), done, fn_decls(three@.map_values(|n: &str| n@), seq![i64_t(), i64_t(), i64_t()], i64_t()));
        }
        let four = ["pread", "pwrite", "faccessat", "utimensat"];
        let ghost before = self.symbols().scopes();
        let ps = vec![i64t.clone_type(), i64t.clone_type(), i64t.clone_type(), i64t.clone_type()];
        assert(ps@ =~= seq![i64_t(), i64_t(), i64_t(), i64_t()]);
        self.declare_fns(&four, &ps, &i64t);
        proof {
            done = lemma_builtins_compose(start, before, self.symbols().scopes(), done, fn_decls(four@.map_values(|n: &str| n@), seq![i64_t(), i64_t(), i64_t(), i64_t()], i64_t()));
        }
        let ghost before = self.symbols().scopes();
        let ps = vec![i64t.clone_type()];
        assert(ps@ =~= seq![i64_t()]);
        self.declare_fn("rewinddir", ps, Type::Void);
        proof {
            done = lemma_builtins_compose(start, before, self.symbols().scopes(), done, seq![fn_decl("rewinddir"@, seq![i64_t()], Type::Void)]);
        }
        assert(done =~= file_builtin_decls());
    }

    /// Declares the built-ins for printing and input: each of `io_builtin_decls`.
    fn declare_io_builtins(&mut self)
        requires
            old(self).symbols().wf(),
        ensures
            final(self).symbols().wf(),
            final(self).symbols().scopes().len() == old(self).symbols().scopes().len(),
            final(self).error_list() == old(self).error_list(),
            final(self).warning_list() == old(self).warning_list(),
            final(self).context() == old(self).context(),
            final(self).capability_map() == old(self).capability_map(),
            builtins_added(old(self).symbols().scopes(), final(self).symbols().scopes(), io_builtin_decls()),
    {
        let ghost start = self.symbols().scopes();
        let ghost mut done: Seq<BuiltinDecl> = Seq::empty();
        proof {
            self.symbol_table.lemma_wf();
            let k = start.len() - 1;
            assert(scope_distinct(start.last())) by {
                assert forall|i: int, j: int| 0 <= i < j < start.last().len() implies (#[trigger] start.last()[i]).name@
                    != (#[trigger] start.last()[j]).name@ by {
                    assert(start[k][i] == start.last()[i]);
                    assert(start[k][j] == start.last()[j]);
                }
            }
            lemma_builtins_none(start);
        }
        let i64t = Type::Integer(IntegerKind::I64);
        let u64t = Type::Unsigned(UnsignedKind::U64);
        let f64t = Type::Float(FloatKind::F64);
        let print_int = ["print", "print_i64", "println_i64"];
        let ghost before = self.symbols().scopes();
        let ps = vec![i64t.clone_type()];
        assert(ps@ =~= seq![i64_t()]);
        self.declare_fns(&print_int, &ps, &Type::Void);
        proof {
            done = lemma_builtins_compose(start, before, self.symbols().scopes(), done, fn_decls(print_int@.map_values(|n: &str| n@), seq![i64_t()], Type::Void));
        }
        let print_unsigned = ["print_u64", "println_u64"];
        let ghost before = self.symbols().scopes();
        let ps = vec![u64t.clone_type()];
        assert(ps@ =~= seq![u64_t()]);
        self.declare_fns(&print_unsigned, &ps, &Type::Void);
        proof {
            done = lemma_builtins_compose(start, before, self.symbols().scopes(), done, fn_decls(print_unsigned@.map_values(|n: &str| n@), seq![u64_t()], Type::Void));
        }
        let print_float = ["print_f64", "println_f64"];
        let ghost before = self.symbols().scopes();
        let ps = vec![f64t.clone_type()];
        assert(ps@ =~= seq![f64_t()]);
        self.declare_fns(&print_float, &ps, &Type::Void);
        proof {
            done = lemma_builtins_compose(start, before, self.symbols().scopes(), done, fn_decls(print_float@.map_values(|n: &str| n@), seq![f64_t()], Type::Void));
        }
        let print_text = ["print_string", "println_string"];
        let ghost before = self.symbols().scopes();
        let ps = vec![Type::String];
        assert(ps@ =~= seq![Type::String]);
        self.declare_fns(&print_text, &ps, &Type::Void);
        proof {
            done = lemma_builtins_compose(start, before, self.symbols().scopes(), done, fn_decls(print_text@.map_values(|n: &str| n@), seq![Type::String], Type::Void));
        }
        let ghost before = self.symbols().scopes();
        let ps: Vec<Type> = Vec::new();
        assert(ps@ =~= Seq::<Type>::empty());
        self.declare_fn("println", ps, Type::Void);
        proof {
            done = lemma_builtins_compose(start, before, self.symbols().scopes(), done, seq![fn_decl("println"@, seq![], Type::Void)]);
        }
        let ghost before = self.symbols().scopes();
        let ps: Vec<Type> = Vec::new();
        assert(ps@ =~= Seq::<Type>::empty());
        self.declare_fn("input_i64", ps, i64t.clone_type());
        proof {
            done = lemma_builtins_compose(start, before, self.symbols().scopes(), done, seq![fn_decl("input_i64"@, seq![], i64_t())]);
        }
        let ghost before = self.symbols().scopes();
        let ps: Vec<Type> = Vec::new();
        assert(ps@ =~= Seq::<Type>::empty());
        self.declare_fn("input_u64", ps, u64t.clone_type());
        proof {
            done = lemma_builtins_compose(start, before, self.symbols().scopes(), done, seq![fn_decl("input_u64"@, seq![], u64_t())]);
        }
        let ghost before = self.symbols().scopes();
        let ps: Vec<Type> = Vec::new();
        assert(ps@ =~= Seq::<Type>::empty());
        self.declare_fn("input_f64", ps, f64t.clone_type());
        proof {
            done = lemma_builtins_compose(start, before, self.symbols().scopes(), done, seq![fn_decl("input_f64"@, seq![], f64_t())]);
        }
        let ghost before = self.symbols().scopes();
        let ps: Vec<Type> = Vec::new();
        assert(ps@ =~= Seq::<Type>::empty());
        self.declare_fn("input_string", ps, i64t.clone_type());
        proof {
            done = lemma_builtins_compose(start, before, self.symbols().scopes(), done, seq![fn_decl("input_string"@, seq![], i64_t())]);
        }
        assert(done =~= io_builtin_decls());
    }

    /// Declares the built-ins for tables, maps and allocation: each of `table_builtin_decls`.
    fn declare_table_builtins(&mut self)
        requires
            old(self).symbols().wf(),
        ensures
            final(self).symbols().wf(),
            final(self).symbols().scopes().len() == old(self).symbols().scopes().len(),
            final(self).error_list() == old(self).error_list(),
            final(self).warning_list() == old(self).warning_list(),
            final(self).context() == old(self).context(),
            final(self).capability_map() == old(self).capability_map(),
            builtins_added(old(self).symbols().scopes(), final(self).symbols().scopes(), table_builtin_decls()),
    {
        let ghost start = self.symbols().scopes();
        let ghost mut done: Seq<BuiltinDecl> = Seq::empty();
        proof {
            self.symbol_table.lemma_wf();
            let k = start.len() - 1;
            assert(scope_distinct(start.last())) by {
                assert forall|i: int, j: int| 0 <= i < j < start.last().len() implies (#[trigger] start.last()[i]).name@
                    != (#[trigger] start.last()[j]).name@ by {
                    assert(start[k][i] == start.last()[i]);
                    assert(start[k][j] == start.last()[j]);
                }
            }
            lemma_builtins_none(start);
        }
        let i64t = Type::Integer(IntegerKind::I64);
        let ptr = Type::Pointer(None);
        let ghost before = self.symbols().scopes();
        let ps = vec![i64t.clone_type()];
        assert(ps@ =~= seq![i64_t()]);
        self.declare_fn("table_new", ps, ptr.clone_type());
        proof {
            done = lemma_builtins_compose(start, before, self.symbols().scopes(), done, seq![fn_decl("table_new"@, seq![i64_t()], ptr_t())]);
        }
        let ghost before = self.symbols().scopes();
        let ps = vec![ptr.clone_type(), i64t.clone_type(), i64t.clone_type()];
        assert(ps@ =~= seq![ptr_t(), i64_t(), i64_t()]);
        self.declare_fn("table_get", ps, i64t.clone_type());
        proof {
            done = lemma_builtins_compose(start, before, self.symbols().scopes(), done, seq![fn_decl("table_get"@, seq![ptr_t(), i64_t(), i64_t()], i64_t())]);
        }
        let ghost before = self.symbols().scopes();
        let ps = vec![ptr.clone_type(), i64t.clone_type(), i64t.clone_type(), i64t.clone_type()];
        assert(ps@ =~= seq![ptr_t(), i64_t(), i64_t(), i64_t()]);
        self.declare_fn("table_set", ps, Type::Void);
        proof {
            done = lemma_builtins_compose(start, before, self.symbols().scopes(), done, seq![fn_decl("table_set"@, seq![ptr_t(), i64_t(), i64_t(), i64_t()], Type::Void)]);
        }
        let ghost before = self.symbols().scopes();
        let ps = vec![ptr.clone_type(), ptr.clone_type(), i64t.clone_type()];
        assert(ps@ =~= seq![ptr_t(), ptr_t(), i64_t()]);
        self.declare_fn("map_has", ps, i64t.clone_type());
        proof {
            done = lemma_builtins_compose(start, before, self.symbols().scopes(), done, seq![fn_decl("map_has"@, seq![ptr_t(), ptr_t(), i64_t()], i64_t())]);
        }
        let ghost before = self.symbols().scopes();
        let ps = vec![ptr.clone_type()];
        assert(ps@ =~= seq![ptr_t()]);
        self.declare_fn("map_size", ps, i64t.clone_type());
        proof {
            done = lemma_builtins_compose(start, before, self.symbols().scopes(), done, seq![fn_decl("map_size"@, seq![ptr_t()], i64_t())]);
        }
        let ghost before = self.symbols().scopes();
        let ps = vec![ptr.clone_type(), i64t.clone_type()];
        assert(ps@ =~= seq![ptr_t(), i64_t()]);
        self.declare_fn("map_key_at", ps, ptr.clone_type());
        proof {
            done = lemma_builtins_compose(start, before, self.symbols().scopes(), done, seq![fn_decl("map_key_at"@, seq![ptr_t(), i64_t()], ptr_t())]);
        }
        let ghost before = self.symbols().scopes();
        let ps = vec![ptr.clone_type(), i64t.clone_type()];
        assert(ps@ =~= seq![ptr_t(), i64_t()]);
        self.declare_fn("map_value_at", ps, i64t.clone_type());
        proof {
            done = lemma_builtins_compose(start, before, self.symbols().scopes(), done, seq![fn_decl("map_value_at"@, seq![ptr_t(), i64_t()], i64_t())]);
        }
        let ghost before = self.symbols().scopes();
        let ps = vec![i64t.clone_type()];
        assert(ps@ =~= seq![i64_t()]);
        self.declare_fn("gc_alloc", ps, ptr.clone_type());
        proof {
            done = lemma_builtins_compose(start, before, self.symbols().scopes(), done, seq![fn_decl("gc_alloc"@, seq![i64_t()], ptr_t())]);
        }
        assert(done =~= table_builtin_decls());
    }

    /// Declares the built-ins for strings, terminal input and time: each of `string_builtin_decls`.
    fn declare_string_builtins(&mut self)
        requires
            old(self).symbols().wf(),
        ensures
            final(self).symbols().wf(),
            final(self).symbols().scopes().len() == old(self).symbols().scopes().len(),
            final(self).error_list() == old(self).error_list(),
            final(self).warning_list() == old(self).warning_list(),
            final(self).context() == old(self).context(),
            final(self).capability_map() == old(self).capability_map(),
            builtins_added(old(self).symbols().scopes(), final(self).symbols().scopes(), string_builtin_decls()),
    {
        let ghost start = self.symbols().scopes();
        let ghost mut done: Seq<BuiltinDecl> = Seq::empty();
        proof {
            self.symbol_table.lemma_wf();
            let k = start.len() - 1;
            assert(scope_distinct(start.last())) by {
                assert forall|i: int, j: int| 0 <= i < j < start.last().len() implies (#[trigger] start.last()[i]).name@
                    != (#[trigger] start.last()[j]).name@ by {
                    assert(start[k][i] == start.last()[i]);
                    assert(start[k][j] == start.last()[j]);
                }
            }
            lemma_builtins_none(start);
        }
        let i64t = Type::Integer(IntegerKind::I64);
        let u64t = Type::Unsigned(UnsignedKind::U64);
        let f64t = Type::Float(FloatKind::F64);
        let ptr = Type::Pointer(None);
        let ghost before = self.symbols().scopes();
        let ps = vec![ptr.clone_type()];
        assert(ps@ =~= seq![ptr_t()]);
        self.declare_fn("string_length", ps, u64t.clone_type());
        proof {
            done = lemma_builtins_compose(start, before, self.symbols().scopes(), done, seq![fn_decl("string_length"@, seq![ptr_t()], u64_t())]);
        }
        let string_pair = ["string_concat", "string_split"];
        let ghost before = self.symbols().scopes();
        let ps = vec![ptr.clone_type(), ptr.clone_type()];
        assert(ps@ =~= seq![ptr_t(), ptr_t()]);
        self.declare_fns(&string_pair, &ps, &ptr);
        proof {
            done = lemma_builtins_compose(start, before, self.symbols().scopes(), done, fn_decls(string_pair@.map_values(|n: &str| n@), seq![ptr_t(), ptr_t()], ptr_t()));
        }
        let string_one = [
            "string_upper", "string_lower", "string_trim", "int_from_string",
            "float_from_string",
        ];
        let ghost before = self.symbols().scopes();
        let ps = vec![ptr.clone_type()];
        assert(ps@ =~= seq![ptr_t()]);
        self.declare_fns(&string_one, &ps, &ptr);
        proof {
            done = lemma_builtins_compose(start, before, self.symbols().scopes(), done, fn_decls(string_one@.map_values(|n: &str| n@), seq![ptr_t()], ptr_t()));
        }
        let string_test = ["string_contains", "string_starts_with", "string_ends_with"];
        let ghost before = self.symbols().scopes();
        let ps = vec![ptr.clone_type(), ptr.clone_type()];
        assert(ps@ =~= seq![ptr_t(), ptr_t()]);
        self.declare_fns(&string_test, &ps, &Type::Bool);
        proof {
            done = lemma_builtins_compose(start, before, self.symbols().scopes(), done, fn_decls(string_test@.map_values(|n: &str| n@), seq![ptr_t(), ptr_t()], Type::Bool));
        }
        let ghost before = self.symbols().scopes();
        let ps = vec![ptr.clone_type(), ptr.clone_type(), ptr.clone_type()];
        assert(ps@ =~= seq![ptr_t(), ptr_t(), ptr_t()]);
        self.declare_fn("string_replace", ps, ptr.clone_type());
        proof {
            done = lemma_builtins_compose(start, before, self.symbols().scopes(), done, seq![fn_decl("string_replace"@, seq![ptr_t(), ptr_t(), ptr_t()], ptr_t())]);
        }
        let ghost before = self.symbols().scopes();
        let ps = vec![i64t.clone_type()];
        assert(ps@ =~= seq![i64_t()]);
        self.declare_fn("str", ps, Type::String);
        proof {
            done = lemma_builtins_compose(start, before, self.symbols().scopes(), done, seq![fn_decl("str"@, seq![i64_t()], Type::String)]);
        }
        let ghost before = self.symbols().scopes();
        let ps = vec![i64t.clone_type()];
        assert(ps@ =~= seq![i64_t()]);
        self.declare_fn("stdin_poll", ps, i64t.clone_type());
        proof {
            done = lemma_builtins_compose(start, before, self.symbols().scopes(), done, seq![fn_decl("stdin_poll"@, seq![i64_t()], i64_t())]);
        }
        let ghost before = self.symbols().scopes();
        let ps: Vec<Type> = Vec::new();
        assert(ps@ =~= Seq::<Type>::empty());
        self.declare_fn("stdin_read_line", ps, ptr.clone_type());
        proof {
            done = lemma_builtins_compose(start, before, self.symbols().scopes(), done, seq![fn_decl("stdin_read_line"@, seq![], ptr_t())]);
        }
        let ghost before = self.symbols().scopes();
        let ps: Vec<Type> = Vec::new();
        assert(ps@ =~= Seq::<Type>::empty());
        self.declare_fn("time_ms", ps, i64t.clone_type());
        proof {
            done = lemma_builtins_compose(start, before, self.symbols().scopes(), done, seq![fn_decl("time_ms"@, seq![], i64_t())]);
        }
        let ghost before = self.symbols().scopes();
        let ps = vec![ptr.clone_type(), ptr.clone_type()];
        assert(ps@ =~= seq![ptr_t(), ptr_t()]);
        self.declare_fn("string_eq", ps, i64t.clone_type());
        proof {
            done = lemma_builtins_compose(start, before, self.symbols().scopes(), done, seq![fn_decl("string_eq"@, seq![ptr_t(), ptr_t()], i64_t())]);
        }
        let ghost before = self.symbols().scopes();
        let ps: Vec<Type> = Vec::new();
        assert(ps@ =~= Seq::<Type>::empty());
        self.declare_fn("flush_stdout", ps, Type::Void);
        proof {
            done = lemma_builtins_compose(start, before, self.symbols().scopes(), done, seq![fn_decl("flush_stdout"@, seq![], Type::Void)]);
        }
        let ghost before = self.symbols().scopes();
        let ps = vec![ptr.clone_type()];
        assert(ps@ =~= seq![ptr_t()]);
        self.declare_fn("parse_int", ps, i64t.clone_type());
        proof {
            done = lemma_builtins_compose(start, before, self.symbols().scopes(), done, seq![fn_decl("parse_int"@, seq![ptr_t()], i64_t())]);
        }
        let ghost before = self.symbols().scopes();
        let ps = vec![ptr.clone_type()];
        assert(ps@ =~= seq![ptr_t()]);
        self.declare_fn("parse_float", ps, f64t.clone_type());
        proof {
            done = lemma_builtins_compose(start, before, self.symbols().scopes(), done, seq![fn_decl("parse_float"@, seq![ptr_t()], f64_t())]);
        }
        let ghost before = self.symbols().scopes();
        let ps: Vec<Type> = Vec::new();
        assert(ps@ =~= Seq::<Type>::empty());
        self.declare_fn("async_read_line", ps, Type::future(ptr.clone_type()));
        proof {
            done = lemma_builtins_compose(start, before, self.symbols().scopes(), done, seq![fn_decl("async_read_line"@, seq![], Type::Future(Box::new(ptr_t())))]);
        }
        assert(done =~= string_builtin_decls());
    }

    /// Declares the built-ins for math, the constants `PI` and `E`, tensors and `len`: each of `math_builtin_decls`.
    fn declare_math_builtins(&mut self)
        requires
            old(self).symbols().wf(),
        ensures
            final(self).symbols().wf(),
            final(self).symbols().scopes().len() == old(self).symbols().scopes().len(),
            final(self).error_list() == old(self).error_list(),
            final(self).warning_list() == old(self).warning_list(),
            final(self).context() == old(self).context(),
            final(self).capability_map() == old(self).capability_map(),
            builtins_added(old(self).symbols().scopes(), final(self).symbols().scopes(), math_builtin_decls()),
    {
        let ghost start = self.symbols().scopes();
        let ghost mut done: Seq<BuiltinDecl> = Seq::empty();
        proof {
            self.symbol_table.lemma_wf();
            let k = start.len() - 1;
            assert(scope_distinct(start.last())) by {
                assert forall|i: int, j: int| 0 <= i < j < start.last().len() implies (#[trigger] start.last()[i]).name@
                    != (#[trigger] start.last()[j]).name@ by {
                    assert(start[k][i] == start.last()[i]);
                    assert(start[k][j] == start.last()[j]);
                }
            }
            lemma_builtins_none(start);
        }
        let u64t = Type::Unsigned(UnsignedKind::U64);
        let f64t = Type::Float(FloatKind::F64);
        let ptr = Type::Pointer(None);
        let math_one = [
            "abs", "sqrt", "sin", "cos", "tan", "asin", "acos", "exp", "log", "log2",
            "floor", "ceil", "round",
        ];
        let ghost before = self.symbols().scopes();
        let ps = vec![f64t.clone_type()];
        assert(ps@ =~= seq![f64_t()]);
        self.declare_fns(&math_one, &ps, &f64t);
        proof {
            done = lemma_builtins_compose(start, before, self.symbols().scopes(), done, fn_decls(math_one@.map_values(|n: &str| n@), seq![f64_t()], f64_t()));
        }
        let math_two = ["pow", "atan2", "min", "max"];
        let ghost before = self.symbols().scopes();
        let ps = vec![f64t.clone_type(), f64t.clone_type()];
        assert(ps@ =~= seq![f64_t(), f64_t()]);
        self.declare_fns(&math_two, &ps, &f64t);
        proof {
            done = lemma_builtins_compose(start, before, self.symbols().scopes(), done, fn_decls(math_two@.map_values(|n: &str| n@), seq![f64_t(), f64_t()], f64_t()));
        }
        let ghost before = self.symbols().scopes();
        self.declare_symbol("PI", SymbolKind::Variable, Some(f64t.clone_type()), Ghost(plain_decl("PI"@, SymbolKind::Variable, f64_t())));
        proof {
            done = lemma_builtins_compose(start, before, self.symbols().scopes(), done, seq![plain_decl("PI"@, SymbolKind::Variable, f64_t())]);
        }
        let ghost before = self.symbols().scopes();
        self.declare_symbol("E", SymbolKind::Variable, Some(f64t.clone_type()), Ghost(plain_decl("E"@, SymbolKind::Variable, f64_t())));
        proof {
            done = lemma_builtins_compose(start, before, self.symbols().scopes(), done, seq![plain_decl("E"@, SymbolKind::Variable, f64_t())]);
        }
        let ghost before = self.symbols().scopes();
        self.declare_symbol("matmul", SymbolKind::Function, Some(Type::tensor(Type::Float(FloatKind::F32), None)), Ghost(plain_decl("matmul"@, SymbolKind::Function, Type::Tensor { dtype: Box::new(Type::Float(FloatKind::F32)), shape: None })));
        proof {
            done = lemma_builtins_compose(start, before, self.symbols().scopes(), done, seq![plain_decl("matmul"@, SymbolKind::Function, Type::Tensor { dtype: Box::new(Type::Float(FloatKind::F32)), shape: None })]);
        }
        let ghost before = self.symbols().scopes();
        let ps: Vec<Type> = Vec::new();
        assert(ps@ =~= Seq::<Type>::empty());
        self.declare_fn("tensor_print", ps, Type::Void);
        proof {
            done = lemma_builtins_compose(start, before, self.symbols().scopes(), done, seq![fn_decl("tensor_print"@, seq![], Type::Void)]);
        }
        let ghost before = self.symbols().scopes();
        let ps = vec![ptr.clone_type()];
        assert(ps@ =~= seq![ptr_t()]);
        self.declare_fn("len", ps, u64t.clone_type());
        proof {
            done = lemma_builtins_compose(start, before, self.symbols().scopes(), done, seq![fn_decl("len"@, seq![ptr_t()], u64_t())]);
        }
        assert(done =~= math_builtin_decls());
    }

    /// A custom type name resolved to the type its symbol declares; any
    /// other type unchanged.
    pub fn resolve_custom_type(&self, ty: &Type) -> (r: Type)
        requires
            self.symbols().wf(),
        ensures
            match *ty {
                Type::Custom(name) => match resolve(self.symbols().scopes(), name@) {
                    Some(s) => match s.declared_type {
                        Some(dt) => tview(r) == tview(dt),
                        None => r == *ty,
                    },
                    None => r == *ty,
                },
                _ => tview(r) == tview(*ty),
            },
    {
        match ty {
            Type::Custom(name) => {
                match self.symbol_table.lookup(name.as_str()) {
                    Some(sym) => match &sym.declared_type {
                        Some(dt) => {
                            return dt.clone_type();
                        },
                        None => {},
                    },
                    None => {},
                }
                ty.clone_type()
            },
            _ => ty.clone_type(),
        }
    }

    /// An array of a custom element type with the element type resolved to
    /// the type its symbol declares; any other type unchanged.
    pub fn resolve_array_custom(&self, ty: &Type) -> (r: Type)
        requires
            self.symbols().wf(),
        ensures
            match *ty {
                Type::Array { element_type, dimensions } => match *element_type {
                    Type::Custom(name) => match resolve(self.symbols().scopes(), name@) {
                        Some(s) => match s.declared_type {
                            Some(dt) => r matches Type::Array { element_type: e2, dimensions: d2 }
                                && tview(*e2) == tview(dt) && d2@ == dimensions@,
                            None => r matches Type::Array { element_type: e2, dimensions: d2 }
                                && *e2 == *element_type && d2@ == dimensions@,
                        },
                        None => r matches Type::Array { element_type: e2, dimensions: d2 } && *e2
                            == *element_type && d2@ == dimensions@,
                    },
                    _ => tview(r) == tview(*ty),
                },
                _ => tview(r) == tview(*ty),
            },
    {
        match ty {
            Type::Array { element_type, dimensions } => {
                match &**element_type {
                    Type::Custom(name) => {
                        match self.symbol_table.lookup(name.as_str()) {
                            Some(sym) => match &sym.declared_type {
                                Some(dt) => {
                                    return Type::Array {
                                        element_type: Box::new(dt.clone_type()),
                                        dimensions: crate::types::clone_usizes(dimensions),
                                    };
                                },
                                None => {},
                            },
                            None => {},
                        }
                        Type::Array {
                            element_type: Box::new(Type::Custom(name.clone())),
                            dimensions: crate::types::clone_usizes(dimensions),
                        }
                    },
                    _ => ty.clone_type(),
                }
            },
            _ => ty.clone_type(),
        }
    }
}

// ---------------------------------------------------------------------------
// Types of names, literals, method calls and match bindings
// ---------------------------------------------------------------------------

/// `r` is `t`: both absent, or both types with one view.
pub open spec fn copy_of(r: Option<Type>, t: Option<Type>) -> bool {
    match t {
        Some(tt) => r matches Some(x) && tview(x) == tview(tt),
        None => r is None,
    }
}

/// The type a name has: the one declared for it, else the one inferred.
pub open spec fn symbol_type(s: SymbolInfo) -> Option<Type> {
    match s.declared_type {
        Some(t) => Some(t),
        None => s.inferred_type,
    }
}

/// The message for a name that resolves to nothing.
pub open spec fn undefined_message(name: Seq<char>) -> Seq<char> {
    "Undefined variable '"@ + name + "'"@
}

/// The type of a number literal: its suffix type when it has one, else
/// `float` when its text holds `.`, `e` or `E`, else `int`.
pub open spec fn number_type(value: Seq<char>, literal_type: Option<Type>) -> Option<Type> {
    match literal_type {
        Some(t) => Some(t),
        None => if value.contains('.') || value.contains('e') || value.contains('E') {
            Some(Type::Float(FloatKind::F64))
        } else {
            Some(Type::Integer(IntegerKind::I64))
        },
    }
}

/// The type a name bound by a `match` arm gets: the payload of `ok(..)`
/// on a `Result`, of `some(..)` on an optional; `int` otherwise.
pub open spec fn binding_type(subject: Option<Type>, pattern: Seq<char>) -> Type {
    match subject {
        Some(Type::Result(inner)) => if pattern == "ok"@ {
            *inner
        } else {
            Type::Integer(IntegerKind::I64)
        },
        Some(Type::Optional(inner)) => if pattern == "some"@ {
            *inner
        } else {
            Type::Integer(IntegerKind::I64)
        },
        _ => Type::Integer(IntegerKind::I64),
    }
}

/// `r` is the type of calling string method `m`.
pub open spec fn string_method_type(m: Seq<char>, r: Option<Type>) -> bool {
    if m == "upper"@ || m == "lower"@ || m == "trim"@ || m == "replace"@ {
        r == Some(Type::String)
    } else if m == "split"@ {
        r matches Some(Type::Array { element_type, dimensions }) && *element_type == Type::String
            && dimensions@ == seq![0usize]
    } else if m == "contains"@ || m == "starts_with"@ || m == "ends_with"@ {
        r == Some(Type::Integer(IntegerKind::I64))
    } else if m == "len"@ {
        r == Some(Type::Unsigned(UnsignedKind::U64))
    } else if m == "slice"@ {
        r == Some(Type::String)
    } else {
        r is None
    }
}

/// The element type of an array type; `int` for any other type.
pub open spec fn element_of(t: Type) -> Type {
    match t {
        Type::Array { element_type, .. } => *element_type,
        _ => Type::Integer(IntegerKind::I64),
    }
}

/// `r` is the type of calling array method `m` with `nargs` arguments on
/// an array of type `t`.
pub open spec fn array_method_type(t: Type, m: Seq<char>, nargs: nat, r: Option<Type>) -> bool {
    let elem = element_of(t);
    let int_t = Type::Integer(IntegerKind::I64);
    if m == "push"@ || m == "contains"@ || m == "sort"@ || m == "reverse"@ || m == "reduce"@ {
        r == Some(int_t)
    } else if m == "pop"@ {
        copy_of(r, Some(elem))
    } else if m == "join"@ {
        r == Some(Type::String)
    } else if m == "len"@ {
        r == Some(Type::Unsigned(UnsignedKind::U64))
    } else if m == "map"@ || m == "filter"@ {
        r matches Some(Type::Array { element_type, dimensions }) && dimensions@.len() == 0 && (
        tview(*element_type) == tview(elem))
    } else if nargs == 1 {
        copy_of(r, Some(elem))
    } else {
        r is None
    }
}

/// `r` is the type of calling map method `m`.
pub open spec fn map_method_type(m: Seq<char>) -> Option<Type> {
    if m == "has"@ {
        Some(Type::Integer(IntegerKind::I64))
    } else if m == "len"@ {
        Some(Type::Unsigned(UnsignedKind::U64))
    } else {
        None
    }
}

/// `r` is the type of calling tensor method `m` on a tensor of type `t`:
/// a reduction gives `f64`, `argmax` and `argmin` give `int`, and every
/// other method gives the tensor's own type.
pub open spec fn tensor_method_type(t: Type, m: Seq<char>, r: Option<Type>) -> bool {
    if m == "norm"@ || m == "sum"@ || m == "mean"@ || m == "max"@ || m == "min"@ || m == "prod"@
        || m == "dot"@ {
        r == Some(Type::Float(FloatKind::F64))
    } else if m == "argmax"@ || m == "argmin"@ {
        r == Some(Type::Integer(IntegerKind::I64))
    } else {
        copy_of(r, Some(t))
    }
}

fn copy_type_opt(t: &Option<Type>) -> (r: Option<Type>)
    ensures
        copy_of(r, *t),
{
    match t {
        Some(x) => Some(x.clone_type()),
        None => None,
    }
}

impl SemanticAnalyzer {
    /// The type of identifier `name`: that of the symbol it resolves to (its
    /// declared type, else its inferred one). A name that resolves to
    /// nothing is an error, reported at `span`, and has no type.
    pub fn visit_identifier(&mut self, name: &str, span: Span) -> (r: Option<Type>)
        requires
            old(self).symbols().wf(),
        ensures
            final(self).symbols() == old(self).symbols(),
            final(self).warning_list() == old(self).warning_list(),
            final(self).capability_map() == old(self).capability_map(),
            match resolve(old(self).symbols().scopes(), name@) {
                Some(s) => final(self).error_list() == old(self).error_list() && copy_of(
                    r,
                    symbol_type(s),
                ),
                None => r is None && final(self).error_list().len() == old(self).error_list().len()
                    + 1 && final(self).error_list().drop_last() == old(self).error_list()
                    && final(self).error_list().last().message@ == undefined_message(name@)
                    && final(self).error_list().last().span == Some(span),
            },
    {
        match self.symbol_table.lookup(name) {
            Some(sym) => match &sym.declared_type {
                Some(t) => Some(t.clone_type()),
                None => copy_type_opt(&sym.inferred_type),
            },
            None => {
                let mut m = String::new();
                crate::text::push_str(&mut m, "Undefined variable '");
                crate::text::push_str(&mut m, name);
                crate::text::push_str(&mut m, "'");
                let ghost before = self.error_list();
                self.emit_error(m, span);
                proof {
                    assert(self.error_list().drop_last() =~= before);
                }
                None
            },
        }
    }

    /// The type of a number literal with text `value` and, when it has a
    /// suffix, the suffix's type.
    pub fn visit_number_literal(&self, value: &str, literal_type: Option<&Type>) -> (r: Option<
        Type,
    >)
        ensures
            copy_of(
                r,
                number_type(
                    value@,
                    match literal_type {
                        Some(t) => Some(*t),
                        None => None,
                    },
                ),
            ),
    {
        match literal_type {
            Some(lt) => {
                return Some(lt.clone_type());
            },
            None => {},
        }
        let cs = chars_of(value);
        let mut is_float = false;
        let mut i: usize = 0;
        while i < cs.len()
            invariant
                i <= cs.len(),
                cs@ == value@,
                is_float == (cs@.take(i as int).contains('.') || cs@.take(i as int).contains('e')
                    || cs@.take(i as int).contains('E')),
            decreases cs.len() - i,
        {
            let c = cs[i];
            proof {
                let t = cs@.take(i + 1);
                assert(t =~= cs@.take(i as int).push(c));
                assert(t[i as int] == c);
                assert forall|x: char| t.contains(x) <==> (cs@.take(i as int).contains(x) || x == c) by {
                    if t.contains(x) {
                        let k = choose|k: int| 0 <= k < t.len() && t[k] == x;
                        if k < i {
                            assert(cs@.take(i as int)[k] == x);
                        }
                    }
                    if cs@.take(i as int).contains(x) {
                        let k = choose|k: int| 0 <= k < i && cs@.take(i as int)[k] == x;
                        assert(t[k] == x);
                    }
                }
            }
            if c == '.' || c == 'e' || c == 'E' {
                is_float = true;
            }
            i += 1;
        }
        proof {
            assert(cs@.take(cs.len() as int) =~= cs@);
        }
        if is_float {
            Some(Type::float())
        } else {
            Some(Type::int_type())
        }
    }

    /// The type a name bound by a `match` arm with pattern `pattern_name`
    /// gets when the subject has type `subject_type`.
    pub fn get_binding_type(&self, subject_type: &Option<Type>, pattern_name: &str) -> (r: Type)
        ensures
            tview(r) == tview(binding_type(*subject_type, pattern_name@)),
    {
        match subject_type {
            Some(Type::Result(inner)) => {
                if str_eq(pattern_name, "ok") {
                    return (**inner).clone_type();
                }
            },
            Some(Type::Optional(inner)) => {
                if str_eq(pattern_name, "some") {
                    return (**inner).clone_type();
                }
            },
            _ => {},
        }
        Type::int_type()
    }

    /// The type of calling string method `method`.
    pub fn resolve_string_method_call(&self, method: &str) -> (r: Option<Type>)
        ensures
            string_method_type(method@, r),
    {
        if str_eq(method, "upper") || str_eq(method, "lower") || str_eq(method, "trim") || str_eq(
            method,
            "replace",
        ) {
            Some(Type::String)
        } else if str_eq(method, "split") {
            let mut dims: Vec<usize> = Vec::new();
            dims.push(0);
            assert(dims@ =~= seq![0usize]);
            Some(Type::Array { element_type: Box::new(Type::String), dimensions: dims })
        } else if str_eq(method, "contains") || str_eq(method, "starts_with") || str_eq(
            method,
            "ends_with",
        ) {
            Some(Type::int_type())
        } else if str_eq(method, "len") {
            Some(Type::Unsigned(UnsignedKind::U64))
        } else if str_eq(method, "slice") {
            Some(Type::String)
        } else {
            None
        }
    }

    /// The type of calling array method `method` with `arguments` on an
    /// array of type `array_type`; a call of an unknown method with one
    /// argument indexes the array.
    pub fn resolve_array_method_call(&self, array_type: &Type, method: &str, arguments: &[Expr]) -> (r:
        Option<Type>)
        ensures
            array_method_type(*array_type, method@, arguments@.len(), r),
    {
        let elem = match array_type {
            Type::Array { element_type, .. } => (**element_type).clone_type(),
            _ => Type::int_type(),
        };
        if str_eq(method, "push") || str_eq(method, "contains") || str_eq(method, "sort") || str_eq(
            method,
            "reverse",
        ) || str_eq(method, "reduce") {
            Some(Type::int_type())
        } else if str_eq(method, "pop") {
            Some(elem)
        } else if str_eq(method, "join") {
            Some(Type::String)
        } else if str_eq(method, "len") {
            Some(Type::Unsigned(UnsignedKind::U64))
        } else if str_eq(method, "map") || str_eq(method, "filter") {
            Some(Type::array(elem))
        } else if arguments.len() == 1 {
            Some(elem)
        } else {
            None
        }
    }

    /// The type of calling map method `method`.
    pub fn resolve_map_method_call(&self, method: &str) -> (r: Option<Type>)
        ensures
            r == map_method_type(method@),
    {
        if str_eq(method, "has") {
            Some(Type::int_type())
        } else if str_eq(method, "len") {
            Some(Type::Unsigned(UnsignedKind::U64))
        } else {
            None
        }
    }

    /// The type of calling tensor method `method` on a tensor of type
    /// `tensor_type`.
    pub fn resolve_tensor_method_call(&self, tensor_type: &Type, method: &str) -> (r: Option<Type>)
        ensures
            tensor_method_type(*tensor_type, method@, r),
    {
        if str_eq(method, "norm") || str_eq(method, "sum") || str_eq(method, "mean") || str_eq(
            method,
            "max",
        ) || str_eq(method, "min") || str_eq(method, "prod") || str_eq(method, "dot") {
            Some(Type::float())
        } else if str_eq(method, "argmax") || str_eq(method, "argmin") {
            Some(Type::int_type())
        } else {
            Some(tensor_type.clone_type())
        }
    }
}

fn clone_type_list(v: &Vec<Type>) -> (r: Vec<Type>)
    ensures
        r.len() == v.len(),
        forall|i: int| 0 <= i < v.len() && !holds_vec(v@[i]) ==> #[trigger] r@[i] == v@[i],
{
    let mut r: Vec<Type> = Vec::new();
    let mut i: usize = 0;
    while i < v.len()
        invariant
            i <= v.len(),
            r.len() == i,
            forall|k: int| 0 <= k < i && !holds_vec(v@[k]) ==> #[trigger] r@[k] == v@[k],
        decreases v.len() - i,
    {
        r.push(v[i].clone_type());
        i += 1;
    }
    r
}


// ---------------------------------------------------------------------------
// Name resolution and control flow
// ---------------------------------------------------------------------------

/// Parameters' names and whether each has a default value.
pub open spec fn info_view(v: Seq<FunctionParamInfo>) -> Seq<(Seq<char>, bool)> {
    v.map_values(|p: FunctionParamInfo| (p.name@, p.has_default))
}

/// The recorded parameters of each function: a later record for a name
/// replaces an earlier one.
pub open spec fn pinfo_map(v: Seq<(String, Vec<FunctionParamInfo>)>) -> Map<Seq<char>, Seq<(Seq<char>, bool)>>
    decreases v.len(),
{
    if v.len() == 0 {
        Map::empty()
    } else {
        pinfo_map(v.drop_last()).insert(v.last().0@, info_view(v.last().1@))
    }
}

/// The names in `v`.
pub open spec fn names_set(v: Seq<String>) -> Set<Seq<char>> {
    Set::new(|n: Seq<char>| exists|i: int| 0 <= i < v.len() && (#[trigger] v[i])@ == n)
}

proof fn lemma_names_set_push(v: Seq<String>, x: String)
    ensures
        names_set(v.push(x)) == names_set(v).insert(x@),
{
    assert forall|n: Seq<char>| names_set(v.push(x)).contains(n) == names_set(v).insert(x@).contains(n) by {
        if names_set(v.push(x)).contains(n) && n != x@ {
            let i = choose|i: int| 0 <= i < v.len() + 1 && (#[trigger] v.push(x)[i])@ == n;
            assert(v[i] == v.push(x)[i]);
        }
        if names_set(v).contains(n) {
            let i = choose|i: int| 0 <= i < v.len() && (#[trigger] v[i])@ == n;
            assert(v.push(x)[i] == v[i]);
        }
        if n == x@ {
            assert(v.push(x)[v.len() as int] == x);
        }
    }
    assert(names_set(v.push(x)) =~= names_set(v).insert(x@));
}

/// Errors as (message, span) pairs.
pub open spec fn err_view(es: Seq<SemanticError>) -> Seq<(Seq<char>, Option<Span>)> {
    es.map_values(|e: SemanticError| (e.message@, e.span))
}

/// The scope of the built-ins: each name `declare_posix_builtins` declares,
/// with the kind of its first declaration.
pub open spec fn builtin_scope() -> Map<Seq<char>, SymbolKind> {
    Map::new(
        |n: Seq<char>| first_decl(builtin_decls(), n) is Some,
        |n: Seq<char>|
            match first_decl(builtin_decls(), n) {
                Some(d) => d.kind,
                None => SymbolKind::Variable,
            },
    )
}

/// The walk that analysis of a whole program starts from: the built-ins in
/// the only scope, no errors, no functions or capabilities seen, the given
/// loop, function and async flags, and the capability declarations known.
pub open spec fn start_walk(in_loop: bool, in_function: bool, in_async: bool, decls: Map<Seq<char>, CapabilityDecl>) -> Walk {
    Walk {
        env: seq![builtin_scope()],
        in_loop,
        in_function,
        in_async,
        errors: seq![],
        params: Map::empty(),
        caps: Set::empty(),
        decls,
        warnings: seq![],
    }
}

/// The errors analysis of `program` reports, starting from `start_walk`.
pub open spec fn analysis_errors(
    program: Statement,
    in_loop: bool,
    in_function: bool,
    in_async: bool,
    decls: Map<Seq<char>, CapabilityDecl>,
) -> Seq<(Seq<char>, Option<Span>)> {
    w_stmt(start_walk(in_loop, in_function, in_async, decls), program).errors
}

/// The warnings analysis of `program` reports, starting from `start_walk`.
pub open spec fn analysis_warnings(
    program: Statement,
    in_loop: bool,
    in_function: bool,
    in_async: bool,
    decls: Map<Seq<char>, CapabilityDecl>,
) -> Seq<(Seq<char>, Option<Span>)> {
    w_stmt(start_walk(in_loop, in_function, in_async, decls), program).warnings
}

proof fn lemma_first_decl_names(ds: Seq<BuiltinDecl>, n: Seq<char>)
    ensures
        (first_decl(ds, n) is Some) <==> ds.map_values(|d: BuiltinDecl| d.name).contains(n),
        first_decl(ds, n) matches Some(d) ==> d.name == n,
    decreases ds.len(),
{
    let names = ds.map_values(|d: BuiltinDecl| d.name);
    if ds.len() > 0 {
        lemma_first_decl_names(ds.drop_first(), n);
        let rest = ds.drop_first().map_values(|d: BuiltinDecl| d.name);
        assert(names =~= seq![ds[0].name] + rest);
        if ds[0].name != n {
            if names.contains(n) {
                let j = choose|j: int| 0 <= j < names.len() && names[j] == n;
                assert(rest[j - 1] == n);
            }
            if first_decl(ds.drop_first(), n) is Some {
                let j = choose|j: int| 0 <= j < rest.len() && rest[j] == n;
                assert(names[j + 1] == n);
            }
        } else {
            assert(names[0] == n);
        }
    }
}

/// After the built-ins are declared in one empty scope, the walk's scopes
/// are the built-in scope.
proof fn lemma_builtin_env(a: Seq<Seq<SymbolInfo>>, b: Seq<Seq<SymbolInfo>>)
    requires
        a == seq![Seq::<SymbolInfo>::empty()],
        builtins_added(a, b, builtin_decls()),
    ensures
        env_of(b) == seq![builtin_scope()],
{
    let ds = builtin_decls();
    assert(b.len() == 1);
    assert forall|n: Seq<char>| scope_names(b.last()).dom().contains(n) <==> builtin_scope().dom().contains(n) by {
        lemma_scope_names(b.last(), n);
        lemma_first_decl_names(ds, n);
        lemma_index_in_scope(a.last(), n);
        if first_decl(ds, n) is Some {
            let names = ds.map_values(|d: BuiltinDecl| d.name);
            let j = choose|j: int| 0 <= j < names.len() && names[j] == n;
            assert(builtin_holds(a.last(), b.last(), ds, ds[j].name, b.len()));
        }
        if declares(b.last(), n) {
            assert(declares(b.last(), n));
        }
    }
    assert forall|n: Seq<char>| scope_names(b.last()).dom().contains(n) implies scope_names(b.last())[n]
        == builtin_scope()[n] by {
        lemma_scope_names(b.last(), n);
        lemma_first_decl_names(ds, n);
        lemma_index_in_scope(a.last(), n);
        assert(declares(b.last(), n));
        let names = ds.map_values(|d: BuiltinDecl| d.name);
        assert(names.contains(n));
        let j = choose|j: int| 0 <= j < names.len() && names[j] == n;
        assert(builtin_holds(a.last(), b.last(), ds, ds[j].name, b.len()));
    }
    assert(scope_names(b.last()) =~= builtin_scope());
    assert(env_of(b) =~= seq![builtin_scope()]) by {
        assert(env_of(b)[0] == scope_names(b[0]));
    }
}

/// Declaring in the table declares in the walk.
proof fn lemma_declare_env(a: Seq<Seq<SymbolInfo>>, b: Seq<Seq<SymbolInfo>>, n: Seq<char>, k: SymbolKind)
    requires
        a.len() >= 1,
        b.len() == a.len(),
        b.drop_last() == a.drop_last(),
        index_in_scope(a.last(), n) >= 0 ==> b == a,
        index_in_scope(a.last(), n) < 0 ==> b.last() == a.last().push(b.last().last())
            && b.last().last().name@ == n && b.last().last().symbol_kind == k,
    ensures
        env_of(b) == crate::scope_rules::env_declare(env_of(a), n, k),
{
    lemma_scope_names(a.last(), n);
    let ea = env_of(a);
    assert(ea.last() == scope_names(a.last()));
    if index_in_scope(a.last(), n) < 0 {
        assert(b.last().drop_last() =~= a.last());
        assert(scope_names(b.last()) == scope_names(a.last()).insert(n, k));
        assert forall|i: int| 0 <= i < b.len() - 1 implies b[i] == a[i] by {
            assert(b.drop_last()[i] == a.drop_last()[i]);
        }
        assert(env_of(b) =~= ea.update(ea.len() - 1, ea.last().insert(n, k)));
    }
}

/// `a` and `b` agree on what the walk does not describe and is kept.
spec fn kept(a: SemanticAnalyzer, b: SemanticAnalyzer) -> bool {
    a.capability_decls@ == b.capability_decls@
}

/// `a` followed by `n` followed by `b`.
fn wrap(a: &str, n: &str, b: &str) -> (r: String)
    ensures
        r@ == a@ + n@ + b@,
{
    let mut m = String::new();
    crate::text::push_str(&mut m, a);
    crate::text::push_str(&mut m, n);
    crate::text::push_str(&mut m, b);
    m
}

/// A symbol kind as the analyzer prints it.
fn kind_label(k: SymbolKind) -> (r: &'static str)
    ensures
        r@ == crate::scope_rules::kind_text(k),
{
    match k {
        SymbolKind::Variable => "Variable",
        SymbolKind::Function => "Function",
        SymbolKind::Parameter => "Parameter",
        SymbolKind::Type => "Type",
    }
}

fn assign_text(k: SymbolKind, n: &str) -> (r: String)
    ensures
        r@ == crate::scope_rules::assign_message(k, n@),
{
    let mut m = String::new();
    crate::text::push_str(&mut m, "Cannot assign to ");
    crate::text::push_str(&mut m, kind_label(k));
    crate::text::push_str(&mut m, " '");
    crate::text::push_str(&mut m, n);
    crate::text::push_str(&mut m, "'");
    m
}

fn text_of(t: &str) -> (r: String)
    ensures
        r@ == t@,
{
    let mut m = String::new();
    crate::text::push_str(&mut m, t);
    m
}

impl SemanticAnalyzer {
    /// The analyzer's state as a walk: its scopes, whether a loop, a
    /// function and an async function enclose the point reached, and its
    /// errors.
    pub closed spec fn walk(&self) -> Walk {
        Walk {
            env: env_of(self.symbol_table.scopes()),
            in_loop: self.loop_depth > 0,
            in_function: self.current_function is Some,
            in_async: self.in_async_function,
            errors: err_view(self.errors@),
            params: pinfo_map(self.function_param_info@),
            caps: names_set(self.required_capabilities@).union(names_set(self.optional_capabilities@)),
            decls: map_of_pairs(self.capability_decls@),
            warnings: err_view(self.warnings@),
        }
    }

    fn report(&mut self, m: String, sp: Span)
        requires
            old(self).symbol_table.wf(),
        ensures
            final(self).symbol_table.wf(),
            final(self).walk() == err(old(self).walk(), m@, sp),
            kept(*old(self), *final(self)),
            final(self).function_param_info@ == old(self).function_param_info@,
    {
        let ghost before = self.errors@;
        let ghost mv = m@;
        self.errors.push(SemanticError { message: m, span: Some(sp) });
        assert(err_view(self.errors@) =~= err_view(before).push((mv, Some(sp))));
    }

    fn declare_name(&mut self, n: &str, k: SymbolKind)
        requires
            old(self).symbol_table.wf(),
        ensures
            final(self).symbol_table.wf(),
            final(self).walk() == declare_in(old(self).walk(), n@, k),
            kept(*old(self), *final(self)),
    {
        let ghost a = self.symbol_table.scopes();
        proof {
            self.symbol_table.lemma_wf();
        }
        self.symbol_table.declare(n, k, None);
        proof {
            lemma_declare_env(a, self.symbol_table.scopes(), n@, k);
        }
    }

    fn find_kind(&self, n: &str) -> (r: Option<SymbolKind>)
        requires
            self.symbol_table.wf(),
        ensures
            r == lookup_in(self.walk(), n@),
    {
        proof {
            lemma_lookup_resolve(self.symbol_table.scopes(), n@);
        }
        match self.symbol_table.lookup(n) {
            Some(s) => Some(s.symbol_kind),
            None => None,
        }
    }

    fn open_scope(&mut self)
        requires
            old(self).symbol_table.wf(),
        ensures
            final(self).symbol_table.wf(),
            final(self).walk() == pushed(old(self).walk()),
            kept(*old(self), *final(self)),
    {
        proof {
            lemma_env_push(self.symbol_table.scopes());
        }
        self.symbol_table.push_scope();
    }

    fn close_scope(&mut self)
        requires
            old(self).symbol_table.wf(),
        ensures
            final(self).symbol_table.wf(),
            final(self).walk() == popped(old(self).walk()),
            kept(*old(self), *final(self)),
    {
        proof {
            if self.symbol_table.scopes().len() > 1 {
                lemma_env_pop(self.symbol_table.scopes());
            }
        }
        self.symbol_table.pop_scope();
    }

    /// Records the capabilities `cs` as required (or optional) and declares
    /// each as a variable.
    fn check_names(&mut self, cs: &Vec<String>, required: bool)
        requires
            old(self).symbol_table.wf(),
        ensures
            final(self).symbol_table.wf(),
            final(self).walk() == w_names(old(self).walk(), cs@),
            kept(*old(self), *final(self)),
    {
        let mut i: usize = 0;
        while i < cs.len()
            invariant
                i <= cs.len(),
                self.symbol_table.wf(),
                self.walk() == w_names(old(self).walk(), cs@.take(i as int)),
                kept(*old(self), *self),
            decreases cs.len() - i,
        {
            assert(cs@.take(i + 1).drop_last() =~= cs@.take(i as int));
            let ghost w1 = self.walk();
            let c = cs[i].clone();
            if required {
                let ghost v = self.required_capabilities@;
                self.required_capabilities.push(c);
                proof {
                    lemma_names_set_push(v, cs@[i as int]);
                }
            } else {
                let ghost v = self.optional_capabilities@;
                self.optional_capabilities.push(c);
                proof {
                    lemma_names_set_push(v, cs@[i as int]);
                }
            }
            assert(self.walk().caps =~= w1.caps.insert(cs@[i as int]@));
            assert(self.walk() == Walk { caps: w1.caps.insert(cs@[i as int]@), ..w1 });
            self.declare_name(cs[i].as_str(), SymbolKind::Variable);
            i += 1;
        }
        assert(cs@.take(cs.len() as int) =~= cs@);
    }

    fn check_cast_warnings(&mut self, es: &Vec<Expr>)
        requires
            old(self).symbol_table.wf(),
        ensures
            final(self).symbol_table.wf(),
            final(self).walk() == crate::scope_rules::w_cast_warnings(old(self).walk(), es@),
            kept(*old(self), *final(self)),
    {
        let mut i: usize = 0;
        while i < es.len()
            invariant
                i <= es.len(),
                self.symbol_table.wf(),
                self.walk() == crate::scope_rules::w_cast_warnings(old(self).walk(), es@.take(i as int)),
                kept(*old(self), *self),
            decreases es.len() - i,
        {
            assert(es@.take(i + 1).drop_last() =~= es@.take(i as int));
            if matches!(es[i].kind, ExprKind::CastExpression { .. }) {
                let m = text_of(
                    "Avoid cast<i64>() with POSIX buffer parameters. Pass arrays directly instead of casting to i64.",
                );
                let ghost before = self.warnings@;
                let ghost mv = m@;
                self.warnings.push(SemanticError { message: m, span: Some(es[i].span) });
                assert(err_view(self.warnings@) =~= err_view(before).push((mv, Some(es@[i as int].span))));
            }
            i += 1;
        }
        assert(es@.take(es.len() as int) =~= es@);
    }

    fn has_cap(&self, n: &str) -> (r: bool)
        ensures
            r == self.walk().caps.contains(n@),
    {
        let mut i: usize = 0;
        while i < self.required_capabilities.len()
            invariant
                i <= self.required_capabilities.len(),
                forall|j: int| 0 <= j < i ==> (#[trigger] self.required_capabilities@[j])@ != n@,
            decreases self.required_capabilities.len() - i,
        {
            if str_eq(self.required_capabilities[i].as_str(), n) {
                assert(names_set(self.required_capabilities@).contains(n@));
                return true;
            }
            i += 1;
        }
        let mut k: usize = 0;
        while k < self.optional_capabilities.len()
            invariant
                k <= self.optional_capabilities.len(),
                forall|j: int| 0 <= j < k ==> (#[trigger] self.optional_capabilities@[j])@ != n@,
            decreases self.optional_capabilities.len() - k,
        {
            if str_eq(self.optional_capabilities[k].as_str(), n) {
                assert(names_set(self.optional_capabilities@).contains(n@));
                return true;
            }
            k += 1;
        }
        false
    }

    /// The index of the declaration `capability_map` gives for `cap`.
    fn find_cap_decl(&self, cap: &str) -> (r: Option<usize>)
        ensures
            match r {
                Some(i) => i < self.capability_decls@.len() && self.walk().decls.dom().contains(cap@)
                    && self.walk().decls[cap@] == self.capability_decls@[i as int].1,
                None => !self.walk().decls.dom().contains(cap@),
            },
    {
        let v = &self.capability_decls;
        let mut j: usize = v.len();
        assert(v@.take(j as int) =~= v@);
        while j > 0
            invariant
                j <= v.len(),
                v@ == self.capability_decls@,
                map_of_pairs(v@).dom().contains(cap@) == map_of_pairs(v@.take(j as int)).dom().contains(cap@),
                map_of_pairs(v@).dom().contains(cap@) ==> map_of_pairs(v@)[cap@] == map_of_pairs(
                    v@.take(j as int),
                )[cap@],
            decreases j,
        {
            assert(v@.take(j as int).drop_last() =~= v@.take(j - 1));
            if str_eq(v[j - 1].0.as_str(), cap) {
                assert(v@.take(j as int).last() == v@[j - 1]);
                return Some(j - 1);
            }
            j -= 1;
        }
        None
    }

    /// A call of function `f` of capability `cap` with `nargs` arguments.
    fn check_cap_call(&mut self, cap: &str, f: &str, nargs: usize, sp: Span)
        requires
            old(self).symbol_table.wf(),
        ensures
            final(self).symbol_table.wf(),
            final(self).walk() == crate::scope_rules::w_cap_call(old(self).walk(), cap@, f@, nargs as nat, sp),
            kept(*old(self), *final(self)),
    {
        match self.find_cap_decl(cap) {
            None => {},
            Some(k) => {
                let ghost fs = self.capability_decls@[k as int].1.functions@;
                let n = self.capability_decls[k].1.functions.len();
                let mut q: usize = 0;
                let mut found: Option<usize> = None;
                assert(fs.skip(0) =~= fs);
                while q < n
                    invariant
                        q <= n,
                        k < self.capability_decls@.len(),
                        fs == self.capability_decls@[k as int].1.functions@,
                        n == fs.len(),
                        found is None ==> crate::scope_rules::first_fn(fs, f@) == crate::scope_rules::first_fn(
                            fs.skip(q as int),
                            f@,
                        ),
                        found matches Some(x) ==> x < n && crate::scope_rules::first_fn(fs, f@) == Some(fs[x as int]),
                    decreases n - q,
                {
                    if found.is_none() {
                        assert(fs.skip(q as int).drop_first() =~= fs.skip(q + 1));
                        assert(fs.skip(q as int)[0] == fs[q as int]);
                        if str_eq(self.capability_decls[k].1.functions[q].name.as_str(), f) {
                            found = Some(q);
                        }
                    }
                    q += 1;
                }
                match found {
                    None => {
                        assert(fs.skip(n as int).len() == 0);
                        let mut m = wrap("Capability '", cap, "' has no function '");
                        crate::text::push_str(&mut m, f);
                        crate::text::push_str(&mut m, "'");
                        self.report(m, sp);
                    },
                    Some(x) => {
                        let np = self.capability_decls[k].1.functions[x].params.len();
                        if nargs > np {
                            let mut m = text_of(cap);
                            crate::text::push_str(&mut m, ".");
                            crate::text::push_str(&mut m, f);
                            crate::text::push_str(&mut m, "() expects at most ");
                            crate::bench::push_count(&mut m, np);
                            crate::text::push_str(&mut m, " arguments, got ");
                            crate::bench::push_count(&mut m, nargs);
                            self.report(m, sp);
                        }
                    },
                }
            },
        }
    }

    fn check_fields(&mut self, fs: &Vec<FieldDef>, sp: Span)
        requires
            old(self).symbol_table.wf(),
        ensures
            final(self).symbol_table.wf(),
            final(self).walk() == w_fields(old(self).walk(), fs@, sp),
            kept(*old(self), *final(self)),
    {
        let mut i: usize = 0;
        while i < fs.len()
            invariant
                i <= fs.len(),
                self.symbol_table.wf(),
                self.walk() == w_fields(old(self).walk(), fs@.take(i as int), sp),
                kept(*old(self), *self),
            decreases fs.len() - i,
        {
            assert(fs@.take(i + 1).drop_last() =~= fs@.take(i as int));
            if matches!(fs[i].field_type, Type::Void) {
                let m = wrap("Struct field '", fs[i].name.as_str(), "' cannot have void type");
                self.report(m, sp);
            }
            i += 1;
        }
        assert(fs@.take(fs.len() as int) =~= fs@);
    }

    fn check_lambda_params(&mut self, ps: &Vec<FunctionParam>)
        requires
            old(self).symbol_table.wf(),
        ensures
            final(self).symbol_table.wf(),
            final(self).walk() == w_lambda_params(old(self).walk(), ps@),
            kept(*old(self), *final(self)),
    {
        let mut i: usize = 0;
        while i < ps.len()
            invariant
                i <= ps.len(),
                self.symbol_table.wf(),
                self.walk() == w_lambda_params(old(self).walk(), ps@.take(i as int)),
                kept(*old(self), *self),
            decreases ps.len() - i,
        {
            assert(ps@.take(i + 1).drop_last() =~= ps@.take(i as int));
            self.declare_name(ps[i].name.as_str(), SymbolKind::Parameter);
            i += 1;
        }
        assert(ps@.take(ps.len() as int) =~= ps@);
    }

    fn check_params(&mut self, ps: &Vec<FunctionParam>, sp: Span)
        requires
            old(self).symbol_table.wf(),
        ensures
            final(self).symbol_table.wf(),
            final(self).walk() == w_params(old(self).walk(), ps@, sp),
            kept(*old(self), *final(self)),
        decreases ps@, 0int,
    {
        let mut i: usize = 0;
        let mut seen = false;
        while i < ps.len()
            invariant
                i <= ps.len(),
                self.symbol_table.wf(),
                self.walk() == w_params(old(self).walk(), ps@.subrange(0, i as int), sp),
                seen == any_default(ps@.subrange(0, i as int)),
                kept(*old(self), *self),
            decreases ps.len() - i,
        {
            let ghost prefix = ps@.subrange(0, i as int);
            let ghost next = ps@.subrange(0, i + 1);
            proof {
                assert(next.subrange(0, i as int) =~= prefix);
                assert(next[i as int] == ps@[i as int]);
                assert(decreases_to!(ps@ => ps@[i as int]));
            }
            match &ps[i].default_value {
                Some(d) => {
                    proof {
                        assert(decreases_to!(ps@[i as int] => ps@[i as int].default_value));
                    }
                    self.check_expr(d);
                    seen = true;
                },
                None => {
                    if seen {
                        let m = wrap(
                            "Parameter '",
                            ps[i].name.as_str(),
                            "' must have a default value because it follows a parameter with a default value",
                        );
                        self.report(m, sp);
                    }
                },
            }
            self.declare_name(ps[i].name.as_str(), SymbolKind::Parameter);
            proof {
                if ps@[i as int].default_value is Some {
                    assert(next[i as int].default_value is Some);
                } else {
                    if any_default(next) {
                        let j = choose|j: int| 0 <= j < next.len() && (#[trigger] next[j]).default_value is Some;
                        assert(prefix[j] == next[j]);
                    }
                    if any_default(prefix) {
                        let j = choose|j: int| 0 <= j < prefix.len() && (#[trigger] prefix[j]).default_value is Some;
                        assert(next[j] == prefix[j]);
                    }
                }
            }
            i += 1;
        }
        assert(ps@.subrange(0, ps.len() as int) =~= ps@);
    }

    fn check_stmts(&mut self, ss: &Vec<Statement>)
        requires
            old(self).symbol_table.wf(),
        ensures
            final(self).symbol_table.wf(),
            final(self).walk() == w_stmts(old(self).walk(), ss@),
            kept(*old(self), *final(self)),
        decreases ss@, 0int,
    {
        let mut i: usize = 0;
        while i < ss.len()
            invariant
                i <= ss.len(),
                self.symbol_table.wf(),
                self.walk() == w_stmts(old(self).walk(), ss@.subrange(0, i as int)),
                kept(*old(self), *self),
            decreases ss.len() - i,
        {
            proof {
                assert(ss@.subrange(0, i + 1).subrange(0, i as int) =~= ss@.subrange(0, i as int));
                assert(ss@.subrange(0, i + 1)[i as int] == ss@[i as int]);
                assert(decreases_to!(ss@ => ss@[i as int]));
            }
            self.check_stmt(&ss[i]);
            i += 1;
        }
        assert(ss@.subrange(0, ss.len() as int) =~= ss@);
    }

    fn check_block(&mut self, ss: &Vec<Statement>)
        requires
            old(self).symbol_table.wf(),
        ensures
            final(self).symbol_table.wf(),
            final(self).walk() == w_block(old(self).walk(), ss@),
            kept(*old(self), *final(self)),
        decreases ss@, 1int,
    {
        self.open_scope();
        self.check_stmts(ss);
        self.close_scope();
    }

    fn check_loop_body(&mut self, ss: &Vec<Statement>)
        requires
            old(self).symbol_table.wf(),
        ensures
            final(self).symbol_table.wf(),
            final(self).walk() == w_loop(old(self).walk(), ss@),
            kept(*old(self), *final(self)),
        decreases ss@, 2int,
    {
        let prev = self.loop_depth;
        if prev < usize::MAX {
            self.loop_depth = prev + 1;
        }
        assert(self.walk() == Walk { in_loop: true, ..old(self).walk() });
        self.check_block(ss);
        self.loop_depth = prev;
    }

    fn check_tail(&mut self, ss: &Vec<Statement>)
        requires
            old(self).symbol_table.wf(),
        ensures
            final(self).symbol_table.wf(),
            final(self).walk() == w_tail(old(self).walk(), ss@),
            kept(*old(self), *final(self)),
        decreases ss@, 1int,
    {
        if ss.len() > 0 {
            let last = &ss[ss.len() - 1];
            proof {
                assert(decreases_to!(ss@ => ss@[ss.len() - 1]));
            }
            match &last.kind {
                StatementKind::ExpressionStatement { expression } => {
                    self.check_expr(expression);
                },
                _ => {},
            }
        }
    }

    fn check_exprs(&mut self, es: &Vec<Expr>)
        requires
            old(self).symbol_table.wf(),
        ensures
            final(self).symbol_table.wf(),
            final(self).walk() == w_exprs(old(self).walk(), es@),
            kept(*old(self), *final(self)),
        decreases es@, 0int,
    {
        let mut i: usize = 0;
        while i < es.len()
            invariant
                i <= es.len(),
                self.symbol_table.wf(),
                self.walk() == w_exprs(old(self).walk(), es@.subrange(0, i as int)),
                kept(*old(self), *self),
            decreases es.len() - i,
        {
            proof {
                assert(es@.subrange(0, i + 1).subrange(0, i as int) =~= es@.subrange(0, i as int));
                assert(es@.subrange(0, i + 1)[i as int] == es@[i as int]);
                assert(decreases_to!(es@ => es@[i as int]));
            }
            self.check_expr(&es[i]);
            i += 1;
        }
        assert(es@.subrange(0, es.len() as int) =~= es@);
    }

    fn copy_function(&self) -> (r: Option<String>)
        ensures
            r == self.current_function,
    {
        match &self.current_function {
            Some(f) => Some(f.clone()),
            None => None,
        }
    }

    fn check_function(&mut self, s: &Statement)
        requires
            old(self).symbol_table.wf(),
        ensures
            final(self).symbol_table.wf(),
            final(self).walk() == w_function(old(self).walk(), *s),
            kept(*old(self), *final(self)),
        decreases *s, 2int,
    {
        match &s.kind {
            StatementKind::FunctionDeclaration { name, params, body, .. } => {
                self.declare_name(name.as_str(), SymbolKind::Function);
                self.record_params(name, params);
                let prev_fn = self.copy_function();
                let prev_async = self.in_async_function;
                self.current_function = Some(name.clone());
                self.open_scope();
                self.check_params(params, s.span);
                self.check_block(&body.statements);
                self.close_scope();
                self.current_function = prev_fn;
                self.in_async_function = prev_async;
            },
            StatementKind::AsyncFunctionDeclaration { name, params, body, .. } => {
                self.declare_name(name.as_str(), SymbolKind::Function);
                self.record_params(name, params);
                let prev_fn = self.copy_function();
                let prev_async = self.in_async_function;
                self.current_function = Some(name.clone());
                self.in_async_function = true;
                self.open_scope();
                self.check_params(params, s.span);
                self.check_block(&body.statements);
                self.close_scope();
                self.current_function = prev_fn;
                self.in_async_function = prev_async;
            },
            _ => {},
        }
    }

    fn check_condition(&mut self, c: &Expr)
        requires
            old(self).symbol_table.wf(),
        ensures
            final(self).symbol_table.wf(),
            final(self).walk() == check_cond(old(self).walk(), *c),
            kept(*old(self), *final(self)),
    {
        if matches!(c.kind, ExprKind::AssignmentExpression { .. }) {
            let m = text_of("Assignment (:=) cannot be used as a condition. Use == for comparison.");
            self.report(m, c.span);
        }
    }

    fn check_binding_branch(&mut self, binding: &String, ss: &Vec<Statement>)
        requires
            old(self).symbol_table.wf(),
        ensures
            final(self).symbol_table.wf(),
            final(self).walk() == popped(
                w_stmts(declare_in(pushed(old(self).walk()), binding@, SymbolKind::Variable), ss@),
            ),
            kept(*old(self), *final(self)),
        decreases ss@, 1int,
    {
        self.open_scope();
        self.declare_name(binding.as_str(), SymbolKind::Variable);
        self.check_stmts(ss);
        self.close_scope();
    }
}


impl SemanticAnalyzer {
    fn check_stmt(&mut self, stmt: &Statement)
        requires
            old(self).symbol_table.wf(),
        ensures
            final(self).symbol_table.wf(),
            final(self).walk() == w_stmt(old(self).walk(), *stmt),
            kept(*old(self), *final(self)),
        decreases *stmt, 3int,
    {
        match &stmt.kind {
            StatementKind::Program { statements, .. } => {
                self.check_stmts(statements);
            },
            StatementKind::PackageDeclaration { .. } => {},
            StatementKind::ImportDeclaration { .. } => {},
            StatementKind::StructDefinition { name, fields, .. } => {
                self.check_fields(fields, stmt.span);
                self.declare_name(name.as_str(), SymbolKind::Type);
            },
            StatementKind::VariableDeclaration { name, var_type, value } => {
                match value {
                    Some(v) => {
                        self.check_expr(v);
                        self.declare_name(name.as_str(), SymbolKind::Variable);
                    },
                    None => {
                        if var_type.is_some() {
                            self.declare_name(name.as_str(), SymbolKind::Variable);
                        } else {
                            let m = wrap("Cannot infer type for variable '", name.as_str(), "'");
                            self.report(m, stmt.span);
                        }
                    },
                }
            },
            StatementKind::Assignment { name, value } => {
                match self.find_kind(name.as_str()) {
                    None => {
                        let m = wrap("Undefined variable '", name.as_str(), "'");
                        self.report(m, stmt.span);
                    },
                    Some(k) => {
                        if k != SymbolKind::Variable {
                            let m = assign_text(k, name.as_str());
                            self.report(m, stmt.span);
                        }
                    },
                }
                self.check_expr(value);
            },
            StatementKind::ExpressionStatement { expression } => {
                self.check_expr(expression);
            },
            StatementKind::Block { statements, .. } => {
                self.check_block(statements);
            },
            StatementKind::Return { value } => {
                if self.current_function.is_none() {
                    let m = text_of("Return statement outside function");
                    self.report(m, stmt.span);
                }
                match value {
                    Some(v) => {
                        self.check_expr(v);
                    },
                    None => {},
                }
            },
            StatementKind::Conditional { condition, true_branch, false_branch } => {
                self.check_expr(condition);
                self.check_condition(condition);
                match &condition.kind {
                    ExprKind::IsSomeExpression { binding, .. } => {
                        self.check_binding_branch(binding, &true_branch.statements);
                    },
                    ExprKind::IsOkExpression { binding, .. } => {
                        self.check_binding_branch(binding, &true_branch.statements);
                    },
                    ExprKind::IsErrExpression { binding, .. } => {
                        self.check_binding_branch(binding, &true_branch.statements);
                    },
                    _ => {
                        self.check_block(&true_branch.statements);
                    },
                }
                match false_branch {
                    Some(fb) => {
                        self.check_block(&fb.statements);
                    },
                    None => {},
                }
            },
            StatementKind::WhileLoop { test, body } => {
                self.check_expr(test);
                self.check_condition(test);
                self.check_loop_body(&body.statements);
            },
            StatementKind::ForLoop { variable, start, end, body } => {
                self.check_expr(start);
                self.check_expr(end);
                self.open_scope();
                self.declare_name(variable.as_str(), SymbolKind::Variable);
                self.check_loop_body(&body.statements);
                self.close_scope();
            },
            StatementKind::ForEachLoop { variable, array, body, .. } => {
                self.check_expr(array);
                self.open_scope();
                self.declare_name(variable.as_str(), SymbolKind::Variable);
                self.check_loop_body(&body.statements);
                self.close_scope();
            },
            StatementKind::ForInRange { variable, start, end, body } => {
                self.check_expr(start);
                self.check_expr(end);
                self.open_scope();
                self.declare_name(variable.as_str(), SymbolKind::Variable);
                self.check_loop_body(&body.statements);
                self.close_scope();
            },
            StatementKind::ForInIndex { index_variable, value_variable, iterable, body } => {
                self.check_expr(iterable);
                self.open_scope();
                self.declare_name(index_variable.as_str(), SymbolKind::Variable);
                self.declare_name(value_variable.as_str(), SymbolKind::Variable);
                self.check_loop_body(&body.statements);
                self.close_scope();
            },
            StatementKind::ForInMap { key_variable, value_variable, map, body } => {
                self.check_expr(map);
                self.open_scope();
                self.declare_name(key_variable.as_str(), SymbolKind::Variable);
                self.declare_name(value_variable.as_str(), SymbolKind::Variable);
                self.check_loop_body(&body.statements);
                self.close_scope();
            },
            StatementKind::Break => {
                if self.loop_depth == 0 {
                    let m = text_of("break statement can only be used inside a loop");
                    self.report(m, stmt.span);
                }
            },
            StatementKind::Continue => {
                if self.loop_depth == 0 {
                    let m = text_of("continue statement can only be used inside a loop");
                    self.report(m, stmt.span);
                }
            },
            StatementKind::FunctionDeclaration { .. } => {
                self.check_function(stmt);
            },
            StatementKind::AsyncFunctionDeclaration { .. } => {
                self.check_function(stmt);
            },
            StatementKind::RequiresDeclaration { capabilities } => {
                self.check_names(capabilities, true);
            },
            StatementKind::OptionalDeclaration { capabilities } => {
                self.check_names(capabilities, false);
            },
            StatementKind::TryCatch { try_body, error_var, catch_body } => {
                self.check_block(&try_body.statements);
                self.check_binding_branch(error_var, &catch_body.statements);
            },
            StatementKind::WithBlock { context, body } => {
                self.check_expr(context);
                self.check_block(&body.statements);
            },
            StatementKind::TypeAliasDeclaration { name, .. } => {
                self.declare_name(name.as_str(), SymbolKind::Type);
            },
        }
    }

    fn check_in_async(&mut self, m: &str, sp: Span)
        requires
            old(self).symbol_table.wf(),
        ensures
            final(self).symbol_table.wf(),
            final(self).walk() == (if old(self).walk().in_async {
                old(self).walk()
            } else {
                err(old(self).walk(), m@, sp)
            }),
            kept(*old(self), *final(self)),
    {
        if !self.in_async_function {
            let t = text_of(m);
            self.report(t, sp);
        }
    }

    fn check_expr(&mut self, e: &Expr)
        requires
            old(self).symbol_table.wf(),
        ensures
            final(self).symbol_table.wf(),
            final(self).walk() == w_expr(old(self).walk(), *e),
            kept(*old(self), *final(self)),
        decreases *e, 3int,
    {
        match &e.kind {
            ExprKind::Identifier { name } => {
                if self.find_kind(name.as_str()).is_none() {
                    let m = wrap("Undefined variable '", name.as_str(), "'");
                    self.report(m, e.span);
                }
            },
            ExprKind::ArrayLiteral { elements } => {
                self.check_exprs(elements);
            },
            ExprKind::ArrayFill { value, count } => {
                self.check_expr(count);
                self.check_expr(value);
            },
            ExprKind::TensorConstruction { args, .. } => {
                self.check_exprs(args);
            },
            ExprKind::BinaryExpression { left, right, .. } => {
                self.check_expr(left);
                self.check_expr(right);
            },
            ExprKind::UnaryExpression { operand, .. } => {
                self.check_expr(operand);
            },
            ExprKind::AssignmentExpression { name, target, value } => {
                self.check_expr(value);
                match name {
                    Some(n) => {
                        match self.find_kind(n.as_str()) {
                            None => {
                                self.declare_name(n.as_str(), SymbolKind::Variable);
                            },
                            Some(k) => {
                                if k != SymbolKind::Variable {
                                    let m = assign_text(k, n.as_str());
                                    self.report(m, e.span);
                                }
                            },
                        }
                    },
                    None => {
                        match target {
                            Some(t) => {
                                match &t.kind {
                                    ExprKind::IndexExpression { object, index } => {
                                        self.check_expr(object);
                                        self.check_expr(index);
                                    },
                                    ExprKind::MemberExpression { object, .. } => {
                                        self.check_expr(object);
                                    },
                                    _ => {
                                        self.check_expr(t);
                                    },
                                }
                            },
                            None => {},
                        }
                    },
                }
            },
            ExprKind::CallExpression { .. } => {
                self.check_call_args(e);
            },
            ExprKind::MemberExpression { object, .. } => {
                self.check_expr(object);
            },
            ExprKind::IndexExpression { object, index } => {
                self.check_expr(object);
                self.check_expr(index);
            },
            ExprKind::SliceExpression { object, start, end, step } => {
                self.check_expr(object);
                self.check_expr(start);
                self.check_expr(end);
                match step {
                    Some(st) => {
                        self.check_expr(st);
                    },
                    None => {},
                }
            },
            ExprKind::Lambda { params, body, .. } => {
                let prev_fn = self.copy_function();
                self.current_function = Some(text_of("__lambda__"));
                self.open_scope();
                self.check_lambda_params(params);
                self.check_block(&body.statements);
                self.close_scope();
                self.current_function = prev_fn;
            },
            ExprKind::BlockExpression { block } => {
                self.check_block(&block.statements);
                self.check_tail(&block.statements);
            },
            ExprKind::CastExpression { value, .. } => {
                self.check_expr(value);
            },
            ExprKind::IfExpression { condition, true_branch, false_branch } => {
                self.check_expr(condition);
                self.check_block(&true_branch.statements);
                self.check_tail(&true_branch.statements);
                match false_branch {
                    IfElseBranch::IfExpression(n) => {
                        self.check_expr(n);
                    },
                    IfElseBranch::Block(b) => {
                        self.check_block(&b.statements);
                        self.check_tail(&b.statements);
                    },
                }
            },
            ExprKind::MatchExpression { subject, arms } => {
                self.check_expr(subject);
                self.check_arms(arms);
            },
            ExprKind::TemplateLiteral { parts } => {
                self.check_parts(parts);
            },
            ExprKind::MapLiteral { entries } => {
                self.check_entries(entries);
            },
            ExprKind::StructLiteral { .. } => {
                self.check_struct_literal(e);
            },
            ExprKind::OkExpression { value } => {
                self.check_expr(value);
            },
            ExprKind::ErrExpression { value } => {
                self.check_expr(value);
            },
            ExprKind::SomeExpression { value } => {
                self.check_expr(value);
            },
            ExprKind::PropagateExpression { value } => {
                self.check_expr(value);
            },
            ExprKind::IsSomeExpression { value, .. } => {
                self.check_expr(value);
            },
            ExprKind::IsNoneExpression { value } => {
                self.check_expr(value);
            },
            ExprKind::IsOkExpression { value, .. } => {
                self.check_expr(value);
            },
            ExprKind::IsErrExpression { value, .. } => {
                self.check_expr(value);
            },
            ExprKind::AwaitExpression { argument } => {
                self.check_in_async("await can only be used inside an async function", e.span);
                self.check_expr(argument);
            },
            ExprKind::SpawnExpression { argument } => {
                self.check_in_async("spawn can only be used inside an async function", e.span);
                self.check_expr(argument);
            },
            ExprKind::LLMExpression { prompt, model_size, reasoning_effort, context, .. } => {
                self.check_expr(prompt);
                self.check_expr(model_size);
                self.check_expr(reasoning_effort);
                self.check_expr(context);
            },
            _ => {},
        }
    }

    /// Analyzes `program`: the symbol table, the diagnostics and the
    /// capabilities seen are reset, the built-ins are declared, and the
    /// program is walked under the rules of name resolution and control
    /// flow (see `scope_rules`). Returns the errors found, which the
    /// analyzer keeps too.
    pub fn analyze(&mut self, program: &Statement) -> (errors: Vec<SemanticError>)
        ensures
            err_view(errors@) == analysis_errors(
                *program,
                old(self).loop_nesting() > 0,
                old(self).function_name() is Some,
                old(self).in_async(),
                old(self).capability_map(),
            ),
            final(self).error_list() == errors@,
            err_view(final(self).warning_list()) == analysis_warnings(
                *program,
                old(self).loop_nesting() > 0,
                old(self).function_name() is Some,
                old(self).in_async(),
                old(self).capability_map(),
            ),
            final(self).symbols().wf(),
            final(self).capability_map() == old(self).capability_map(),
    {
        self.symbol_table = SymbolTable::new();
        self.errors = Vec::new();
        self.warnings = Vec::new();
        let ghost s0 = self.symbol_table.scopes();
        self.declare_posix_builtins();
        self.required_capabilities = Vec::new();
        self.optional_capabilities = Vec::new();
        self.function_param_info = Vec::new();
        assert(pinfo_map(self.function_param_info@) =~= Map::<Seq<char>, Seq<(Seq<char>, bool)>>::empty());
        assert(names_set(self.required_capabilities@) =~= Set::<Seq<char>>::empty());
        assert(names_set(self.optional_capabilities@) =~= Set::<Seq<char>>::empty());
        assert(names_set(self.required_capabilities@).union(names_set(self.optional_capabilities@)) =~= Set::<
            Seq<char>,
        >::empty());
        proof {
            lemma_builtin_env(s0, self.symbol_table.scopes());
            assert(err_view(self.errors@) =~= Seq::<(Seq<char>, Option<Span>)>::empty());
        }
        self.check_stmt(program);
        let mut out: Vec<SemanticError> = Vec::new();
        let mut i: usize = 0;
        while i < self.errors.len()
            invariant
                i <= self.errors.len(),
                out@ == self.errors@.take(i as int),
            decreases self.errors.len() - i,
        {
            let e = SemanticError { message: self.errors[i].message.clone(), span: self.errors[i].span };
            out.push(e);
            assert(out@ =~= self.errors@.take(i + 1));
            i += 1;
        }
        assert(self.errors@.take(self.errors.len() as int) =~= self.errors@);
        out
    }
}


impl SemanticAnalyzer {
    fn check_parts(&mut self, ps: &Vec<TemplatePart>)
        requires
            old(self).symbol_table.wf(),
        ensures
            final(self).symbol_table.wf(),
            final(self).walk() == w_parts(old(self).walk(), ps@),
            kept(*old(self), *final(self)),
        decreases ps@, 0int,
    {
        let mut i: usize = 0;
        while i < ps.len()
            invariant
                i <= ps.len(),
                self.symbol_table.wf(),
                self.walk() == w_parts(old(self).walk(), ps@.subrange(0, i as int)),
                kept(*old(self), *self),
            decreases ps.len() - i,
        {
            proof {
                assert(ps@.subrange(0, i + 1).subrange(0, i as int) =~= ps@.subrange(0, i as int));
                assert(ps@.subrange(0, i + 1)[i as int] == ps@[i as int]);
                assert(decreases_to!(ps@ => ps@[i as int]));
            }
            match &ps[i] {
                TemplatePart::Expr(x) => {
                    self.check_expr(x);
                },
                TemplatePart::String(_) => {},
            }
            i += 1;
        }
        assert(ps@.subrange(0, ps.len() as int) =~= ps@);
    }

    fn check_entries(&mut self, es: &Vec<MapEntry>)
        requires
            old(self).symbol_table.wf(),
        ensures
            final(self).symbol_table.wf(),
            final(self).walk() == w_entries(old(self).walk(), es@),
            kept(*old(self), *final(self)),
        decreases es@, 0int,
    {
        let mut i: usize = 0;
        while i < es.len()
            invariant
                i <= es.len(),
                self.symbol_table.wf(),
                self.walk() == w_entries(old(self).walk(), es@.subrange(0, i as int)),
                kept(*old(self), *self),
            decreases es.len() - i,
        {
            proof {
                assert(es@.subrange(0, i + 1).subrange(0, i as int) =~= es@.subrange(0, i as int));
                assert(es@.subrange(0, i + 1)[i as int] == es@[i as int]);
                assert(decreases_to!(es@ => es@[i as int]));
            }
            self.check_expr(&es[i].value);
            i += 1;
        }
        assert(es@.subrange(0, es.len() as int) =~= es@);
    }

    fn check_inits(&mut self, fs: &Vec<StructFieldInit>)
        requires
            old(self).symbol_table.wf(),
        ensures
            final(self).symbol_table.wf(),
            final(self).walk() == w_inits(old(self).walk(), fs@),
            kept(*old(self), *final(self)),
        decreases fs@, 0int,
    {
        let mut i: usize = 0;
        while i < fs.len()
            invariant
                i <= fs.len(),
                self.symbol_table.wf(),
                self.walk() == w_inits(old(self).walk(), fs@.subrange(0, i as int)),
                kept(*old(self), *self),
            decreases fs.len() - i,
        {
            proof {
                assert(fs@.subrange(0, i + 1).subrange(0, i as int) =~= fs@.subrange(0, i as int));
                assert(fs@.subrange(0, i + 1)[i as int] == fs@[i as int]);
                assert(decreases_to!(fs@ => fs@[i as int]));
            }
            self.check_expr(&fs[i].value);
            i += 1;
        }
        assert(fs@.subrange(0, fs.len() as int) =~= fs@);
    }

    fn check_arm(&mut self, a: &MatchArm)
        requires
            old(self).symbol_table.wf(),
        ensures
            final(self).symbol_table.wf(),
            final(self).walk() == w_arm(old(self).walk(), *a),
            kept(*old(self), *final(self)),
        decreases *a, 1int,
    {
        match &a.pattern {
            MatchPattern::VariantPattern { binding: Some(b), .. } => {
                self.open_scope();
                self.declare_name(b.as_str(), SymbolKind::Variable);
                self.check_expr(&a.body);
                self.close_scope();
            },
            MatchPattern::LiteralPattern(l) => {
                self.check_expr(l);
                self.check_expr(&a.body);
            },
            _ => {
                self.check_expr(&a.body);
            },
        }
    }

    fn check_arms(&mut self, arms: &Vec<MatchArm>)
        requires
            old(self).symbol_table.wf(),
        ensures
            final(self).symbol_table.wf(),
            final(self).walk() == w_arms(old(self).walk(), arms@),
            kept(*old(self), *final(self)),
        decreases arms@, 0int,
    {
        let mut i: usize = 0;
        while i < arms.len()
            invariant
                i <= arms.len(),
                self.symbol_table.wf(),
                self.walk() == w_arms(old(self).walk(), arms@.subrange(0, i as int)),
                kept(*old(self), *self),
            decreases arms.len() - i,
        {
            proof {
                assert(arms@.subrange(0, i + 1).subrange(0, i as int) =~= arms@.subrange(0, i as int));
                assert(arms@.subrange(0, i + 1)[i as int] == arms@[i as int]);
                assert(decreases_to!(arms@ => arms@[i as int]));
            }
            self.check_arm(&arms[i]);
            i += 1;
        }
        assert(arms@.subrange(0, arms.len() as int) =~= arms@);
    }

    fn check_struct_literal(&mut self, e: &Expr)
        requires
            old(self).symbol_table.wf(),
            e.kind is StructLiteral,
        ensures
            final(self).symbol_table.wf(),
            final(self).walk() == w_expr(old(self).walk(), *e),
            kept(*old(self), *final(self)),
        decreases *e, 2int,
    {
        match &e.kind {
            ExprKind::StructLiteral { struct_name, fields } => {
                match struct_name {
                    Some(n) => {
                        match self.find_kind(n.as_str()) {
                            None => {
                                let m = wrap("Undefined struct type '", n.as_str(), "'");
                                self.report(m, e.span);
                            },
                            Some(k) => {
                                if k == SymbolKind::Type {
                                    self.check_inits(fields);
                                } else {
                                    let m = wrap("'", n.as_str(), "' is not a struct type");
                                    self.report(m, e.span);
                                }
                            },
                        }
                    },
                    None => {
                        self.check_inits(fields);
                    },
                }
            },
            _ => {},
        }
    }
}

impl SemanticAnalyzer {
    fn record_params(&mut self, name: &String, ps: &Vec<FunctionParam>)
        requires
            old(self).symbol_table.wf(),
        ensures
            final(self).symbol_table.wf(),
            final(self).walk() == (Walk {
                params: old(self).walk().params.insert(name@, param_view(ps@)),
                ..old(self).walk()
            }),
            kept(*old(self), *final(self)),
    {
        let mut infos: Vec<FunctionParamInfo> = Vec::new();
        let mut i: usize = 0;
        while i < ps.len()
            invariant
                i <= ps.len(),
                info_view(infos@) == param_view(ps@.take(i as int)),
            decreases ps.len() - i,
        {
            let p = &ps[i];
            let ghost before = infos@;
            infos.push(
                FunctionParamInfo {
                    name: p.name.clone(),
                    param_type: p.param_type.clone_type(),
                    has_default: p.default_value.is_some(),
                },
            );
            assert(info_view(infos@) =~= info_view(before).push((ps@[i as int].name@, ps@[i as int].default_value is Some)));
            assert(param_view(ps@.take(i + 1)) =~= param_view(ps@.take(i as int)).push(
                (ps@[i as int].name@, ps@[i as int].default_value is Some),
            ));
            assert(info_view(infos@) =~= param_view(ps@.take(i + 1)));
            i += 1;
        }
        assert(ps@.take(ps.len() as int) =~= ps@);
        let ghost before = self.function_param_info@;
        self.function_param_info.push((name.clone(), infos));
        assert(self.function_param_info@.drop_last() =~= before);
    }

    fn find_params(&self, name: &str) -> (r: Option<usize>)
        ensures
            match r {
                Some(i) => i < self.function_param_info@.len() && pinfo_map(
                    self.function_param_info@,
                ).dom().contains(name@) && pinfo_map(self.function_param_info@)[name@] == info_view(
                    self.function_param_info@[i as int].1@,
                ),
                None => !pinfo_map(self.function_param_info@).dom().contains(name@),
            },
    {
        let v = &self.function_param_info;
        let mut j: usize = v.len();
        assert(v@.take(j as int) =~= v@);
        while j > 0
            invariant
                j <= v.len(),
                v@ == self.function_param_info@,
                pinfo_map(v@).dom().contains(name@) == pinfo_map(v@.take(j as int)).dom().contains(name@),
                pinfo_map(v@).dom().contains(name@) ==> pinfo_map(v@)[name@] == pinfo_map(
                    v@.take(j as int),
                )[name@],
            decreases j,
        {
            assert(v@.take(j as int).drop_last() =~= v@.take(j - 1));
            if str_eq(v[j - 1].0.as_str(), name) {
                assert(v@.take(j as int).last() == v@[j - 1]);
                assert(pinfo_map(v@.take(j as int)) == pinfo_map(v@.take(j - 1)).insert(
                    v@[j - 1].0@,
                    info_view(v@[j - 1].1@),
                ));
                assert(v@[j - 1].0@ == name@);
                return Some(j - 1);
            }
            j -= 1;
        }
        None
    }

    fn check_named(&mut self, na: &Vec<NamedArg>)
        requires
            old(self).symbol_table.wf(),
        ensures
            final(self).symbol_table.wf(),
            final(self).walk() == w_named(old(self).walk(), na@),
            kept(*old(self), *final(self)),
        decreases na@, 0int,
    {
        let mut i: usize = 0;
        while i < na.len()
            invariant
                i <= na.len(),
                self.symbol_table.wf(),
                self.walk() == w_named(old(self).walk(), na@.subrange(0, i as int)),
                kept(*old(self), *self),
            decreases na.len() - i,
        {
            proof {
                assert(na@.subrange(0, i + 1).subrange(0, i as int) =~= na@.subrange(0, i as int));
                assert(na@.subrange(0, i + 1)[i as int] == na@[i as int]);
                assert(decreases_to!(na@ => na@[i as int]));
            }
            self.check_expr(&na[i].value);
            i += 1;
        }
        assert(na@.subrange(0, na.len() as int) =~= na@);
    }

    fn check_unknown_named(&mut self, f: &str, k: usize, na: &Vec<NamedArg>)
        requires
            old(self).symbol_table.wf(),
            k < old(self).function_param_info@.len(),
        ensures
            final(self).symbol_table.wf(),
            final(self).walk() == unknown_named(
                old(self).walk(),
                f@,
                info_view(old(self).function_param_info@[k as int].1@),
                na@,
            ),
            kept(*old(self), *final(self)),
            final(self).function_param_info@ == old(self).function_param_info@,
    {
        let ghost info = info_view(self.function_param_info@[k as int].1@);
        let mut i: usize = 0;
        while i < na.len()
            invariant
                i <= na.len(),
                k < self.function_param_info@.len(),
                info == info_view(self.function_param_info@[k as int].1@),
                self.function_param_info@ == old(self).function_param_info@,
                self.symbol_table.wf(),
                self.walk() == unknown_named(old(self).walk(), f@, info, na@.take(i as int)),
                kept(*old(self), *self),
            decreases na.len() - i,
        {
            assert(na@.take(i + 1).drop_last() =~= na@.take(i as int));
            let ps = &self.function_param_info[k].1;
            let mut q: usize = 0;
            let mut found = false;
            while q < ps.len()
                invariant
                    q <= ps.len(),
                    i < na.len(),
                    info == info_view(ps@),
                    found <==> info.take(q as int).map_values(|p: (Seq<char>, bool)| p.0).contains(na@[i as int].name@),
                decreases ps.len() - q,
            {
                let hit = str_eq(ps[q].name.as_str(), na[i].name.as_str());
                proof {
                    let x = na@[i as int].name@;
                    let a = info.take(q as int).map_values(|p: (Seq<char>, bool)| p.0);
                    let b = info.take(q + 1).map_values(|p: (Seq<char>, bool)| p.0);
                    assert(b =~= a.push(ps@[q as int].name@));
                    if a.contains(x) {
                        let t = choose|t: int| 0 <= t < a.len() && a[t] == x;
                        assert(b[t] == a[t]);
                    }
                    if hit {
                        assert(b[q as int] == x);
                    }
                    if b.contains(x) && !hit {
                        let t = choose|t: int| 0 <= t < b.len() && b[t] == x;
                        assert(t < q);
                        assert(a[t] == x);
                    }
                }
                if hit {
                    found = true;
                }
                q += 1;
            }
            assert(info.take(ps.len() as int) =~= info);
            if !found {
                let mut m = wrap("Unknown named argument '", na[i].name.as_str(), "' in call to '");
                crate::text::push_str(&mut m, f);
                crate::text::push_str(&mut m, "'");
                self.report(m, na[i].value.span);
            }
            i += 1;
        }
        assert(na@.take(na.len() as int) =~= na@);
    }

    fn check_missing_required(&mut self, f: &str, k: usize, npos: usize, na: &Vec<NamedArg>, sp: Span)
        requires
            old(self).symbol_table.wf(),
            k < old(self).function_param_info@.len(),
        ensures
            final(self).symbol_table.wf(),
            final(self).walk() == missing_required(
                old(self).walk(),
                f@,
                info_view(old(self).function_param_info@[k as int].1@),
                npos as int,
                na@,
                sp,
            ),
            kept(*old(self), *final(self)),
            final(self).function_param_info@ == old(self).function_param_info@,
    {
        let ghost info = info_view(self.function_param_info@[k as int].1@);
        let ghost names = na@.map_values(|a: NamedArg| a.name@);
        let n = self.function_param_info[k].1.len();
        let mut i: usize = 0;
        while i < n
            invariant
                i <= n,
                k < self.function_param_info@.len(),
                n == info.len(),
                info == info_view(self.function_param_info@[k as int].1@),
                names == na@.map_values(|a: NamedArg| a.name@),
                self.function_param_info@ == old(self).function_param_info@,
                self.symbol_table.wf(),
                self.walk() == missing_required(old(self).walk(), f@, info.take(i as int), npos as int, na@, sp),
                kept(*old(self), *self),
            decreases n - i,
        {
            assert(info.take(i + 1).drop_last() =~= info.take(i as int));
            let mut q: usize = 0;
            let mut named = false;
            while q < na.len()
                invariant
                    q <= na.len(),
                    i < n,
                    k < self.function_param_info@.len(),
                    n == self.function_param_info@[k as int].1@.len(),
                    names == na@.map_values(|a: NamedArg| a.name@),
                    named <==> names.take(q as int).contains(self.function_param_info@[k as int].1@[i as int].name@),
                decreases na.len() - q,
            {
                let hit = str_eq(na[q].name.as_str(), self.function_param_info[k].1[i].name.as_str());
                proof {
                    let x = self.function_param_info@[k as int].1@[i as int].name@;
                    let a = names.take(q as int);
                    let b = names.take(q + 1);
                    assert(b =~= a.push(na@[q as int].name@));
                    if a.contains(x) {
                        let t = choose|t: int| 0 <= t < a.len() && a[t] == x;
                        assert(b[t] == a[t]);
                    }
                    if hit {
                        assert(b[q as int] == x);
                    }
                    if b.contains(x) && !hit {
                        let t = choose|t: int| 0 <= t < b.len() && b[t] == x;
                        assert(t < q);
                        assert(a[t] == x);
                    }
                }
                if hit {
                    named = true;
                }
                q += 1;
            }
            assert(names.take(na.len() as int) =~= names);
            let has_default = self.function_param_info[k].1[i].has_default;
            if i >= npos && !named && !has_default {
                let mut m = wrap(
                    "Missing required argument '",
                    self.function_param_info[k].1[i].name.as_str(),
                    "' in call to '",
                );
                crate::text::push_str(&mut m, f);
                crate::text::push_str(&mut m, "'");
                self.report(m, sp);
            }
            i += 1;
        }
        assert(info.take(n as int) =~= info);
    }

    fn check_call_args(&mut self, e: &Expr)
        requires
            old(self).symbol_table.wf(),
            e.kind is CallExpression,
        ensures
            final(self).symbol_table.wf(),
            final(self).walk() == w_expr(old(self).walk(), *e),
            kept(*old(self), *final(self)),
        decreases *e, 2int,
    {
        match &e.kind {
            ExprKind::CallExpression { callee, arguments, named_args } => {
                match &callee.kind {
                    ExprKind::Identifier { name } => {
                        if str_eq(name.as_str(), "all") || str_eq(name.as_str(), "race") {
                            if arguments.len() != 1 {
                                let mut m = text_of(name.as_str());
                                crate::text::push_str(
                                    &mut m,
                                    "() expects exactly 1 argument (an array of futures)",
                                );
                                self.report(m, e.span);
                            } else {
                                self.check_exprs(arguments);
                            }
                        } else {
                            match self.find_kind(name.as_str()) {
                                None => {
                                    let m = wrap("Undefined function '", name.as_str(), "'");
                                    self.report(m, e.span);
                                },
                                Some(k) => {
                                    if is_posix_buffer_fn(name.as_str()) {
                                        self.check_cast_warnings(arguments);
                                    }
                                    self.check_exprs(arguments);
                                    if k == SymbolKind::Function {
                                        match named_args {
                                            Some(na) => {
                                                self.check_named(na);
                                                match self.find_params(name.as_str()) {
                                                    Some(idx) => {
                                                        self.check_unknown_named(name.as_str(), idx, na);
                                                        self.check_missing_required(
                                                            name.as_str(),
                                                            idx,
                                                            arguments.len(),
                                                            na,
                                                            e.span,
                                                        );
                                                    },
                                                    None => {},
                                                }
                                            },
                                            None => {},
                                        }
                                    }
                                },
                            }
                        }
                    },
                    ExprKind::MemberExpression { object, property } => {
                        let is_cap = match &object.kind {
                            ExprKind::Identifier { name } => self.has_cap(name.as_str()),
                            _ => false,
                        };
                        if is_cap {
                            match &object.kind {
                                ExprKind::Identifier { name } => {
                                    self.check_exprs(arguments);
                                    self.check_cap_call(name.as_str(), property.as_str(), arguments.len(), e.span);
                                },
                                _ => {},
                            }
                        } else {
                            self.check_expr(object);
                            self.check_exprs(arguments);
                            match named_args {
                                Some(na) => {
                                    self.check_named(na);
                                },
                                None => {},
                            }
                        }
                    },
                    _ => {
                        self.check_expr(callee);
                    },
                }
            },
            _ => {},
        }
    }
}
} // verus!
