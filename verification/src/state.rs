//! What an evaluation reads and writes besides the expression: the state of one
//! evaluation, and the module it runs in.
use vstd::prelude::*;

use crate::semantics::agrees;
use crate::syntax::{Expr, Ident, SExpr, Span};
use crate::value::{sopt, EvaluateResultValue, SValue};

verus! {

/// The deepest nesting any walk is prepared to go; the evaluation ceiling is
/// clamped to it.
pub const DEEPEST_CARRIED: usize = 8192;

/// A name the injected function map answers for, and the value it answers.
pub struct NamedValue {
    pub name: String,
    pub value: EvaluateResultValue,
}

/// The functions and names a caller injects into an evaluation.
pub struct FunctionMap {
    pub identifiers: Vec<NamedValue>,
    pub disable_imports: bool,
}

/// The state of one evaluation: whether it is still confident, and the first
/// refusal that ended its confidence.
pub struct EvaluationState {
    pub confident: bool,
    pub deopt_path: Option<Expr>,
    pub deopt_reason: Option<String>,
    pub added_imports: Vec<String>,
    pub functions: FunctionMap,
}

/// What the memo remembers of a subtree: the value it folded to, or that it
/// was refused.
pub struct SeenValue {
    pub value: Option<EvaluateResultValue>,
    pub resolved: bool,
}

/// One subtree the memo answers for.
pub struct MemoEntry {
    pub key: Expr,
    pub seen: SeenValue,
}

/// A binding, as the pair of spelling and syntax context that identifies it.
pub struct BindingId {
    pub sym: String,
    pub ctxt: u32,
}

/// A `const`/`let`/`var` declarator that binds one name.
pub struct VarDeclarator {
    pub name: Ident,
    pub init: Option<Expr>,
    pub span: Span,
}

/// How an import specifier binds its local name.
pub enum ImportKind {
    Default,
    /// `import { imported as local }`; `None` where the two are spelled alike.
    Named(Option<String>),
    Namespace,
}

/// One import specifier of the module.
pub struct ImportBinding {
    pub local: Ident,
    pub source: String,
    pub kind: ImportKind,
}

/// Where an import source resolved to, or `None` where it did not resolve.
pub struct Resolution {
    pub source: String,
    pub path: Option<String>,
}

/// The module being compiled, as far as the evaluator reads it, and the
/// budgets and memo every evaluation in it shares.
pub struct StateManager {
    pub declared_bindings: Vec<BindingId>,
    pub declarations: Vec<VarDeclarator>,
    pub class_name_declarations: Vec<Ident>,
    pub function_name_declarations: Vec<Ident>,
    pub reassigned: Vec<BindingId>,
    pub mutated: Vec<BindingId>,
    pub imports: Vec<ImportBinding>,
    pub resolutions: Vec<Resolution>,
    pub treeshake_compensation: bool,
    pub theme_imports: Vec<String>,
    pub class_name_prefix: String,
    pub evaluation_depth_limit: usize,
    pub character_ceiling: usize,
    pub entry_ceiling: usize,
    pub evaluation_depth: usize,
    pub depth_refused: bool,
    pub speculating: bool,
    pub seen: Vec<MemoEntry>,
    pub framed_declaration: Option<String>,
}

// ---------------------------------------------------------------------------
// Views and the questions asked of the module.
// ---------------------------------------------------------------------------

pub open spec fn sseen(s: SeenValue) -> (Option<SValue>, bool) {
    (sopt(s.value), s.resolved)
}

/// What the memo answers for a subtree: the first entry written for the same
/// tree, wherever that tree was written.
pub open spec fn memo_lookup(seen: Seq<MemoEntry>, key: SExpr) -> Option<(Option<SValue>, bool)>
    decreases seen.len(),
{
    if seen.len() == 0 {
        None
    } else if seen[0].key@ == key {
        Some(sseen(seen[0].seen))
    } else {
        memo_lookup(seen.subrange(1, seen.len() as int), key)
    }
}

pub proof fn lemma_memo_lookup_push(seen: Seq<MemoEntry>, e: MemoEntry, key: SExpr)
    ensures
        memo_lookup(seen.push(e), key) == (match memo_lookup(seen, key) {
            Some(a) => Some(a),
            None => if e.key@ == key {
                Some(sseen(e.seen))
            } else {
                None
            },
        }),
    decreases seen.len(),
{
    if seen.len() == 0 {
        assert(seen.push(e)[0] == e);
        assert(seen.push(e).subrange(1, 1) =~= Seq::<MemoEntry>::empty());
        assert(memo_lookup(seen.push(e).subrange(1, 1), key) is None);
    } else {
        assert(seen.push(e)[0] == seen[0]);
        assert(seen.push(e).subrange(1, seen.push(e).len() as int) =~= seen.subrange(
            1,
            seen.len() as int,
        ).push(e));
        lemma_memo_lookup_push(seen.subrange(1, seen.len() as int), e, key);
    }
}

/// Every answer the memo held before, it still holds.
pub open spec fn memo_extends(old_seen: Seq<MemoEntry>, new_seen: Seq<MemoEntry>) -> bool {
    forall|k: SExpr| #[trigger] memo_lookup(old_seen, k) is Some ==> memo_lookup(new_seen, k)
        == memo_lookup(old_seen, k)
}

/// Whether a binding of `id` is one the module records.
pub open spec fn binding_listed(list: Seq<BindingId>, id: (Seq<char>, u32)) -> bool {
    exists|i: int| 0 <= i < list.len() && (#[trigger] list[i]).sym@ == id.0 && list[i].ctxt == id.1
}

/// Whether some declarator binds `id`.
pub open spec fn declares_var(decls: Seq<VarDeclarator>, id: (Seq<char>, u32)) -> bool {
    exists|i: int| 0 <= i < decls.len() && (#[trigger] decls[i]).name@ == id
}

/// Whether some identifier of `list` names `id`.
pub open spec fn ident_listed(list: Seq<Ident>, id: (Seq<char>, u32)) -> bool {
    exists|i: int| 0 <= i < list.len() && (#[trigger] list[i])@ == id
}

/// What the memo may hold: a subtree remembered as folded carries the value it
/// folded to, and that value is the subtree's meaning wherever its meaning is
/// self-contained.
pub open spec fn memo_ok(seen: Seq<MemoEntry>) -> bool {
    forall|i: int|
        0 <= i < seen.len() && (#[trigger] seen[i]).seen.resolved ==> {
            &&& seen[i].seen.value is Some
            &&& agrees(seen[i].key@, sopt(seen[i].seen.value))
        }
}

impl StateManager {
    /// The pre-scan's promise that a declarator is a binding, what the memo may
    /// hold, and a depth within the ceiling.
    pub open spec fn wf(&self) -> bool {
        &&& forall|i: int|
            0 <= i < self.declarations@.len() ==> binding_listed(
                self.declared_bindings@,
                #[trigger] self.declarations@[i].name@,
            )
        &&& memo_ok(self.seen@)
        &&& self.evaluation_depth <= self.spec_evaluation_ceiling()
    }

    /// Everything an evaluation leaves as it found it: the module itself and
    /// the budgets it is evaluated under.
    pub open spec fn same_module(&self, other: &StateManager) -> bool {
        &&& self.declared_bindings == other.declared_bindings
        &&& self.declarations == other.declarations
        &&& self.class_name_declarations == other.class_name_declarations
        &&& self.function_name_declarations == other.function_name_declarations
        &&& self.reassigned == other.reassigned
        &&& self.mutated == other.mutated
        &&& self.imports == other.imports
        &&& self.resolutions == other.resolutions
        &&& self.treeshake_compensation == other.treeshake_compensation
        &&& self.class_name_prefix == other.class_name_prefix
        &&& self.evaluation_depth_limit == other.evaluation_depth_limit
        &&& self.character_ceiling == other.character_ceiling
        &&& self.entry_ceiling == other.entry_ceiling
        &&& self.evaluation_depth == other.evaluation_depth
        &&& self.speculating == other.speculating
    }

    pub open spec fn spec_evaluation_ceiling(&self) -> usize {
        if self.evaluation_depth_limit <= DEEPEST_CARRIED {
            self.evaluation_depth_limit
        } else {
            DEEPEST_CARRIED
        }
    }

    /// How many levels an evaluation may descend: the configured depth,
    /// clamped to what a claimed stack can carry.
    pub fn evaluation_ceiling(&self) -> (r: usize)
        ensures
            r == self.spec_evaluation_ceiling(),
            r <= DEEPEST_CARRIED,
    {
        if self.evaluation_depth_limit <= DEEPEST_CARRIED {
            self.evaluation_depth_limit
        } else {
            DEEPEST_CARRIED
        }
    }

    pub open spec fn spec_owns_its_refusals(&self) -> bool {
        !self.speculating && !self.depth_refused
    }

    /// Whether a refusal the evaluation meets now is about the subtree itself,
    /// and so worth remembering: not one met while speculating, whose refusals
    /// are put back, and not one the depth ceiling caused, which says nothing
    /// about the subtree written shallowly.
    pub fn owns_its_refusals(&self) -> (r: bool)
        ensures
            r == self.spec_owns_its_refusals(),
    {
        !self.speculating && !self.depth_refused
    }

    /// Whether the module records a binding of `ident`, of any kind.
    pub fn declares_binding(&self, ident: &Ident) -> (r: bool)
        ensures
            r == binding_listed(self.declared_bindings@, ident@),
    {
        let mut i: usize = 0;
        while i < self.declared_bindings.len()
            invariant
                i <= self.declared_bindings@.len(),
                forall|j: int|
                    0 <= j < i ==> !((#[trigger] self.declared_bindings@[j]).sym@ == ident@.0
                        && self.declared_bindings@[j].ctxt == ident@.1),
            decreases self.declared_bindings@.len() - i,
        {
            if self.declared_bindings[i].sym == ident.sym && self.declared_bindings[i].ctxt
                == ident.ctxt {
                return true;
            }
            i = i + 1;
        }
        false
    }

    /// Whether a write to `ident` was recorded after its declaration.
    pub fn has_binding_reassignment(&self, ident: &Ident) -> (r: bool)
        ensures
            r == binding_listed(self.reassigned@, ident@),
    {
        binding_in(&self.reassigned, ident)
    }

    /// Whether `ident` was mutated in place.
    pub fn has_binding_mutation(&self, ident: &Ident) -> (r: bool)
        ensures
            r == binding_listed(self.mutated@, ident@),
    {
        binding_in(&self.mutated, ident)
    }
}

impl Default for StateManager {
    /// An empty module: nothing declared, imported or remembered, evaluated
    /// to the deepest a walk is prepared to go, and under a million characters
    /// and a hundred thousand entries per fold.
    fn default() -> (r: StateManager)
        ensures
            r.wf(),
            r.declared_bindings@.len() == 0,
            r.declarations@.len() == 0,
            r.class_name_declarations@.len() == 0,
            r.function_name_declarations@.len() == 0,
            r.reassigned@.len() == 0,
            r.mutated@.len() == 0,
            r.imports@.len() == 0,
            r.resolutions@.len() == 0,
            r.seen@.len() == 0,
            r.evaluation_depth == 0,
            r.evaluation_depth_limit == DEEPEST_CARRIED,
            !r.speculating,
            !r.depth_refused,
    {
        StateManager {
            declared_bindings: Vec::new(),
            declarations: Vec::new(),
            class_name_declarations: Vec::new(),
            function_name_declarations: Vec::new(),
            reassigned: Vec::new(),
            mutated: Vec::new(),
            imports: Vec::new(),
            resolutions: Vec::new(),
            treeshake_compensation: false,
            theme_imports: Vec::new(),
            class_name_prefix: String::from_str("x"),
            evaluation_depth_limit: DEEPEST_CARRIED,
            character_ceiling: 1000000,
            entry_ceiling: 100000,
            evaluation_depth: 0,
            depth_refused: false,
            speculating: false,
            seen: Vec::new(),
            framed_declaration: None,
        }
    }
}

/// Whether `list` holds the binding `ident` names.
pub fn binding_in(list: &Vec<BindingId>, ident: &Ident) -> (r: bool)
    ensures
        r == binding_listed(list@, ident@),
{
    let mut i: usize = 0;
    while i < list.len()
        invariant
            i <= list@.len(),
            forall|j: int|
                0 <= j < i ==> !((#[trigger] list@[j]).sym@ == ident@.0 && list@[j].ctxt
                    == ident@.1),
        decreases list@.len() - i,
    {
        if list[i].sym == ident.sym && list[i].ctxt == ident.ctxt {
            return true;
        }
        i = i + 1;
    }
    false
}

/// Whether `list` holds an identifier naming `ident`.
pub fn ident_in(list: &Vec<Ident>, ident: &Ident) -> (r: bool)
    ensures
        r == ident_listed(list@, ident@),
{
    let mut i: usize = 0;
    while i < list.len()
        invariant
            i <= list@.len(),
            forall|j: int| 0 <= j < i ==> (#[trigger] list@[j])@ != ident@,
        decreases list@.len() - i,
    {
        if list[i].sym == ident.sym && list[i].ctxt == ident.ctxt {
            return true;
        }
        i = i + 1;
    }
    false
}

/// Whether `i` is the first position of `s` whose item satisfies `p`.
pub open spec fn is_first<T>(s: Seq<T>, p: spec_fn(T) -> bool, i: int) -> bool {
    &&& 0 <= i < s.len()
    &&& p(s[i])
    &&& forall|j: int| 0 <= j < i ==> !p(#[trigger] s[j])
}

/// The first position of `s` whose item satisfies `p`, if any does.
pub open spec fn first_index<T>(s: Seq<T>, p: spec_fn(T) -> bool) -> Option<int> {
    if exists|i: int| is_first(s, p, i) {
        Some(choose|i: int| is_first(s, p, i))
    } else {
        None
    }
}

/// A scan that stopped at `i` found the first match, or none where it ran off
/// the end.
pub proof fn lemma_first_index<T>(s: Seq<T>, p: spec_fn(T) -> bool, i: int)
    requires
        0 <= i <= s.len(),
        forall|j: int| 0 <= j < i ==> !p(#[trigger] s[j]),
        i == s.len() || p(s[i]),
    ensures
        first_index(s, p) == (if i == s.len() {
            None
        } else {
            Some(i)
        }),
{
    if i < s.len() {
        assert(is_first(s, p, i));
        let k = choose|k: int| is_first(s, p, k);
        assert(is_first(s, p, k));
        if k < i {
            assert(!p(s[k]));
        }
        if k > i {
            assert(!p(s[i]));
        }
    } else {
        if exists|k: int| is_first(s, p, k) {
            let k = choose|k: int| is_first(s, p, k);
            assert(!p(s[k]));
        }
    }
}

/// The first declarator binding `id`.
pub open spec fn declarator_of(decls: Seq<VarDeclarator>, id: (Seq<char>, u32)) -> Option<
    VarDeclarator,
> {
    match first_index(decls, |d: VarDeclarator| d.name@ == id) {
        Some(i) => Some(decls[i]),
        None => None,
    }
}

/// The first import specifier binding `id`.
pub open spec fn import_of(imports: Seq<ImportBinding>, id: (Seq<char>, u32)) -> Option<
    ImportBinding,
> {
    match first_index(imports, |b: ImportBinding| b.local@ == id) {
        Some(i) => Some(imports[i]),
        None => None,
    }
}

/// Where the first resolution recorded for `source` sent it: `Some(None)`
/// where it did not resolve, `None` where none was recorded.
pub open spec fn resolution_of(resolutions: Seq<Resolution>, source: Seq<char>) -> Option<
    Option<Seq<char>>,
> {
    match first_index(resolutions, |r: Resolution| r.source@ == source) {
        Some(i) => Some(
            match resolutions[i].path {
                Some(p) => Some(p@),
                None => None,
            },
        ),
        None => None,
    }
}

/// The declarator binding `ident`, the first one written where there are
/// several.
pub fn get_var_decl_from<'a>(state: &'a StateManager, ident: &Ident) -> (r: Option<&'a VarDeclarator>)
    ensures
        r is Some <==> declares_var(state.declarations@, ident@),
        match r {
            Some(d) => declarator_of(state.declarations@, ident@) == Some(*d),
            None => declarator_of(state.declarations@, ident@) is None,
        },
{
    let ghost p = |d: VarDeclarator| d.name@ == ident@;
    let mut i: usize = 0;
    while i < state.declarations.len()
        invariant
            i <= state.declarations@.len(),
            p == (|d: VarDeclarator| d.name@ == ident@),
            forall|j: int| 0 <= j < i ==> !p(#[trigger] state.declarations@[j]),
        decreases state.declarations@.len() - i,
    {
        let d = &state.declarations[i];
        if d.name.sym == ident.sym && d.name.ctxt == ident.ctxt {
            proof {
                lemma_first_index(state.declarations@, p, i as int);
            }
            return Some(d);
        }
        i = i + 1;
    }
    proof {
        lemma_first_index(state.declarations@, p, i as int);
        assert forall|j: int| 0 <= j < state.declarations@.len() implies (#[trigger] state.declarations@[j]).name@ != ident@ by {
            assert(!p(state.declarations@[j]));
        }
    }
    None
}

/// The import specifier binding `ident`, if an import binds it.
pub fn get_import_by_ident<'a>(ident: &Ident, state: &'a StateManager) -> (r: Option<&'a ImportBinding>)
    ensures
        match r {
            Some(b) => import_of(state.imports@, ident@) == Some(*b),
            None => import_of(state.imports@, ident@) is None,
        },
{
    let ghost p = |b: ImportBinding| b.local@ == ident@;
    let mut i: usize = 0;
    while i < state.imports.len()
        invariant
            i <= state.imports@.len(),
            p == (|b: ImportBinding| b.local@ == ident@),
            forall|j: int| 0 <= j < i ==> !p(#[trigger] state.imports@[j]),
        decreases state.imports@.len() - i,
    {
        let b = &state.imports[i];
        if b.local.sym == ident.sym && b.local.ctxt == ident.ctxt {
            proof {
                lemma_first_index(state.imports@, p, i as int);
            }
            return Some(b);
        }
        i = i + 1;
    }
    proof {
        lemma_first_index(state.imports@, p, i as int);
    }
    None
}

/// Where the module's resolver sent `source`: the path, or `None` where the
/// source did not resolve (or no resolution was recorded for it).
pub fn import_path_resolver(state: &StateManager, source: &String) -> (r: Option<String>)
    ensures
        match r {
            Some(p) => resolution_of(state.resolutions@, source@) == Some(Some(p@)),
            None => !(resolution_of(state.resolutions@, source@) matches Some(Some(_))),
        },
{
    let ghost p = |r: Resolution| r.source@ == source@;
    let mut i: usize = 0;
    while i < state.resolutions.len()
        invariant
            i <= state.resolutions@.len(),
            p == (|r: Resolution| r.source@ == source@),
            forall|j: int| 0 <= j < i ==> !p(#[trigger] state.resolutions@[j]),
        decreases state.resolutions@.len() - i,
    {
        if state.resolutions[i].source == *source {
            proof {
                lemma_first_index(state.resolutions@, p, i as int);
            }
            return match &state.resolutions[i].path {
                Some(path) => Some(path.clone()),
                None => None,
            };
        }
        i = i + 1;
    }
    proof {
        lemma_first_index(state.resolutions@, p, i as int);
    }
    None
}

} // verus!
