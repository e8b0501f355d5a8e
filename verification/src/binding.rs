//! Resolving a reference to the binding it names.
//!
//! One ordered question with one answer, asked of every identifier the
//! injected function map does not answer for. The steps, in order:
//!
//! 1. an import specifier: a named one resolves to a theme reference (unless
//!    imports are disabled), a default one is refused, a namespace one falls
//!    through;
//! 2. a reassigned binding is not a constant;
//! 3. a binding mutated in place is not a constant;
//! 4. a reference above its own declarator is early;
//! 5. `undefined`, `Infinity` and `NaN` are their values, unless a binding
//!    took the name over;
//! 6. the declarator's initializer, else the class and function refusals,
//!    else the name is undefined.
use vstd::prelude::*;

use crate::cache::{cached, evaluate_cached, evaluated, recorded_against, room_left, settles};
use crate::coerce::str_eq;
use crate::deopt::{deopt, deopt_at_declaration, refused_for};
use crate::evaluator::lemma_peel_fold;
use crate::messages::{
    unsupported_expression, IMPORT_FILE_EVAL_ERROR, IMPORT_PATH_RESOLUTION_ERROR, NON_CONSTANT,
    UNDEFINED_CONST, UNINITIALIZED_CONST, USED_BEFORE_DECLARATION,
};
use crate::semantics::{agrees, peel};
use crate::state::{
    binding_in, declarator_of, get_import_by_ident, get_var_decl_from, ident_in, ident_listed,
    binding_listed, import_of, import_path_resolver, resolution_of, EvaluationState, FunctionMap,
    ImportKind, StateManager, VarDeclarator,
};
use crate::syntax::{copy_expr, ident_span, strings_view, Expr, Ident, Lit, SExpr, SLit, Span};
use crate::value::{sopt, EvaluateResultValue, SValue, ThemeRef};

verus! {

/// Whether `reference` is written before the declarator it reads ends.
/// A synthesized node on either side has no authored position, and is never
/// early.
pub open spec fn spec_reads_before(reference: Ident, declarator: VarDeclarator) -> bool {
    &&& !reference.span.spec_is_dummy()
    &&& !declarator.span.spec_is_dummy()
    &&& reference.span.lo < declarator.span.hi
}

/// Whether a reference reads a binding the program does not hold yet, because
/// the declarator naming it ends after the reference begins.
pub fn reads_before_its_declaration(reference: &Ident, declarator: &VarDeclarator) -> (r: bool)
    ensures
        r == spec_reads_before(*reference, *declarator),
{
    !reference.span.is_dummy() && !declarator.span.is_dummy() && reference.span.lo
        < declarator.span.hi
}

/// The value of a global the grammar spells as an identifier: `undefined`
/// answers itself, and `Infinity` and `NaN` are the numbers.
pub open spec fn global_value(name: Seq<char>) -> Option<SExpr> {
    if name == "undefined"@ {
        Some(SExpr::Ident("undefined"@, 0))
    } else if name == "Infinity"@ {
        Some(SExpr::Lit(SLit::Num("Infinity"@)))
    } else if name == "NaN"@ {
        Some(SExpr::Lit(SLit::Num("NaN"@)))
    } else {
        None
    }
}

/// The value a global spelled as an identifier stands for, if `ident` spells
/// one.
pub fn global_spelled_as_an_identifier_as_a_value(ident: &Ident) -> (r: Option<Expr>)
    ensures
        match r {
            Some(e) => global_value(ident.sym@) == Some(e@),
            None => global_value(ident.sym@) is None,
        },
{
    proof {
        reveal_strlit("undefined");
        reveal_strlit("Infinity");
        reveal_strlit("NaN");
    }
    let nowhere = Span { lo: 0, hi: 0 };
    if str_eq(ident.sym.as_str(), "undefined") {
        Some(Expr::Ident(Ident { sym: String::from_str("undefined"), ctxt: 0, span: nowhere }))
    } else if str_eq(ident.sym.as_str(), "Infinity") {
        Some(Expr::Lit(Lit::Num(String::from_str("Infinity"))))
    } else if str_eq(ident.sym.as_str(), "NaN") {
        Some(Expr::Lit(Lit::Num(String::from_str("NaN"))))
    } else {
        None
    }
}

/// The theme reference an import names: the file it resolved to, the export
/// it reads, and the module's class name prefix.
pub fn evaluate_theme_ref(file_name: &String, export_name: String, state: &StateManager) -> (r:
    ThemeRef)
    ensures
        r.file_name@ == file_name@,
        r.export_name@ == export_name@,
        r.class_name_prefix@ == state.class_name_prefix@,
{
    ThemeRef {
        file_name: file_name.clone(),
        export_name,
        class_name_prefix: state.class_name_prefix.clone(),
    }
}

/// The name a named import reads from the imported file.
pub open spec fn export_name(imported: Option<String>, local: Ident) -> Seq<char> {
    match imported {
        Some(name) => name@,
        None => local.sym@,
    }
}

/// `list` with `item` added, unless a string spelled alike is there already.
pub open spec fn with_once(list: Seq<Seq<char>>, item: Seq<char>) -> Seq<Seq<char>> {
    if list.contains(item) {
        list
    } else {
        list.push(item)
    }
}

/// How a reference resolves, as the ordered chain answers it.
pub enum Answer {
    /// A theme reference: file, export and class name prefix.
    Theme(Seq<char>, Seq<char>, Seq<char>),
    /// Refused, for this reason, against the reference as it was written.
    Refused(Seq<char>),
    /// Refused at the end of the chain, where no value is bound: for this
    /// reason, against the reference with its parentheses peeled.
    Unbound(Seq<char>),
    /// A global, answered as this expression.
    Global(SExpr),
    /// Whatever this initializer evaluates to.
    Initializer(SExpr),
}

/// The step of the chain that answers for `ident` in module `ts`.
pub open spec fn resolution(ident: Ident, ts: StateManager, disable_imports: bool) -> Answer {
    let id = ident@;
    let from_import: Option<Answer> = match import_of(ts.imports@, id) {
        Some(b) => match b.kind {
            ImportKind::Default => Some(Answer::Refused(IMPORT_FILE_EVAL_ERROR@)),
            ImportKind::Named(imported) => if disable_imports {
                None
            } else {
                match resolution_of(ts.resolutions@, b.source@) {
                    Some(Some(p)) => Some(
                        Answer::Theme(p, export_name(imported, b.local), ts.class_name_prefix@),
                    ),
                    _ => Some(Answer::Refused(IMPORT_PATH_RESOLUTION_ERROR@)),
                }
            },
            ImportKind::Namespace => None,
        },
        None => None,
    };
    let decl = declarator_of(ts.declarations@, id);
    match from_import {
        Some(a) => a,
        None => if binding_listed(ts.reassigned@, id) && decl is Some {
            Answer::Refused(NON_CONSTANT@)
        } else if binding_listed(ts.mutated@, id) && decl is Some {
            Answer::Refused(NON_CONSTANT@)
        } else if decl matches Some(d) && spec_reads_before(ident, d) {
            Answer::Refused(USED_BEFORE_DECLARATION@)
        } else if global_value(ident.sym@) is Some {
            if binding_listed(ts.declared_bindings@, id) {
                Answer::Refused(UNINITIALIZED_CONST@)
            } else {
                Answer::Global(global_value(ident.sym@)->0)
            }
        } else if decl is Some && decl->0.init is Some {
            Answer::Initializer(decl->0.init->0@)
        } else if ident_listed(ts.class_name_declarations@, id) {
            Answer::Unbound("Unsupported expression: "@ + "ClassDeclaration"@)
        } else if ident_listed(ts.function_name_declarations@, id) {
            Answer::Unbound("Unsupported expression: "@ + "FunctionDeclaration"@)
        } else {
            Answer::Unbound(UNDEFINED_CONST@)
        },
    }
}

/// What answering `ident` as `answer` means for the evaluation: the value
/// handed back, or the refusal recorded.
pub open spec fn answered(
    answer: Answer,
    st1: EvaluationState,
    r: Option<EvaluateResultValue>,
) -> bool {
    match answer {
        Answer::Theme(f, e, c) => sopt(r) == Some(SValue::ThemeRef(f, e, c)),
        Answer::Refused(reason) => r is None && refused_for(st1, reason),
        Answer::Unbound(reason) => r is None && refused_for(st1, reason),
        Answer::Global(v) => sopt(r) == Some(SValue::Expr(v)),
        Answer::Initializer(init) => agrees(init, sopt(r)),
    }
}

/// Refuses a name whose binding holds no initializer: for the kind of
/// declaration it names, reported against that declaration, or for naming
/// nothing the module declares.
pub fn check_ident_declaration(
    ident: &Ident,
    state: &mut EvaluationState,
    traversal_state: &mut StateManager,
    path: &Expr,
) -> (r: Option<EvaluateResultValue>)
    ensures
        r is None,
        final(traversal_state).same_module(&*old(traversal_state)),
        final(traversal_state).seen == old(traversal_state).seen,
        final(traversal_state).theme_imports == old(traversal_state).theme_imports,
        final(traversal_state).depth_refused == old(traversal_state).depth_refused,
        final(state).functions == old(state).functions,
        final(state).added_imports == old(state).added_imports,
        !old(state).confident ==> *final(state) == *old(state),
        old(state).confident ==> !final(state).confident && recorded_against(*final(state), path@)
            && (final(state).deopt_path matches Some(p) && ident_span(p) == ident_span(*path))
            && refused_for(
            *final(state),
            if ident_listed(old(traversal_state).class_name_declarations@, ident@) {
                "Unsupported expression: "@ + "ClassDeclaration"@
            } else if ident_listed(old(traversal_state).function_name_declarations@, ident@) {
                "Unsupported expression: "@ + "FunctionDeclaration"@
            } else {
                UNDEFINED_CONST@
            },
        ),
{
    if ident_in(&traversal_state.class_name_declarations, ident) {
        let reason = unsupported_expression("ClassDeclaration");
        return deopt_at_declaration(path, &ident.sym, state, traversal_state, reason.as_str());
    }
    if ident_in(&traversal_state.function_name_declarations, ident) {
        let reason = unsupported_expression("FunctionDeclaration");
        return deopt_at_declaration(path, &ident.sym, state, traversal_state, reason.as_str());
    }
    deopt(path, state, UNDEFINED_CONST)
}

/// Whether `list` holds a string spelled as `item`.
pub fn contains_string(list: &Vec<String>, item: &String) -> (r: bool)
    ensures
        r == strings_view(list@).contains(item@),
{
    proof {
        crate::syntax::lemma_strings_view(list@);
    }
    let mut i: usize = 0;
    while i < list.len()
        invariant
            i <= list@.len(),
            strings_view(list@).len() == list@.len(),
            forall|j: int| 0 <= j < list@.len() ==> #[trigger] strings_view(list@)[j] == list@[j]@,
            forall|j: int| 0 <= j < i ==> list@[j]@ != item@,
        decreases list@.len() - i,
    {
        if str_eq(list[i].as_str(), item.as_str()) {
            assert(strings_view(list@)[i as int] == item@);
            return true;
        }
        i = i + 1;
    }
    false
}

/// Adds `item` to `list` unless a string spelled alike is there.
pub fn push_once(list: &mut Vec<String>, item: &String)
    ensures
        strings_view(final(list)@) == with_once(strings_view(old(list)@), item@),
{
    if !contains_string(list, item) {
        let ghost before = list@;
        list.push(item.clone());
        proof {
            assert(list@.drop_last() == before);
        }
    }
}

/// What resolving `ident`, read as `path`, promises from the state
/// `st0`/`ts0` it started in to the state `st1`/`ts1` it left and the answer
/// `r`: what every evaluation promises; the answer the chain gives, with its
/// refusal recorded against the expression that step names; a theme
/// reference queues its import once where the module compensates for tree
/// shaking; and a name bound to an initializer answers exactly what one
/// evaluation of that initializer, from the same state, answers.
pub open spec fn resolves(
    ident: Ident,
    path: SExpr,
    st0: EvaluationState,
    st1: EvaluationState,
    ts0: StateManager,
    ts1: StateManager,
    r: Option<EvaluateResultValue>,
) -> bool {
    let answer = resolution(ident, ts0, st0.functions.disable_imports);
    &&& evaluated(path, st0, st1, ts0, ts1, r)
    &&& answered(answer, st1, r)
    &&& match answer {
        Answer::Theme(_, _, _) => {
            let source = import_of(ts0.imports@, ident@)->0.source@;
            let queued = ts0.treeshake_compensation && !strings_view(st0.added_imports@).contains(
                source,
            );
            &&& strings_view(st1.added_imports@) == if queued {
                strings_view(st0.added_imports@).push(source)
            } else {
                strings_view(st0.added_imports@)
            }
            &&& strings_view(ts1.theme_imports@) == if queued {
                with_once(strings_view(ts0.theme_imports@), source)
            } else {
                strings_view(ts0.theme_imports@)
            }
        },
        Answer::Refused(_) => recorded_against(st1, path),
        Answer::Unbound(_) => recorded_against(st1, peel(path)),
        Answer::Initializer(init) => cached(init, st0, st1, ts0, ts1, r),
        Answer::Global(_) => true,
    }
}

/// Resolves `ident` to the binding it names and folds that binding to a value,
/// or refuses, by the ordered chain of `resolution`.
///
/// `path` is the expression as the caller received it, and `normalized_path`
/// the same with its parentheses peeled; each step reports against the one it
/// names.
pub fn resolve_reference(
    ident: &Ident,
    path: &Expr,
    normalized_path: &Expr,
    state: &mut EvaluationState,
    traversal_state: &mut StateManager,
    fns: &FunctionMap,
) -> (r: Option<EvaluateResultValue>)
    requires
        old(traversal_state).wf(),
        old(state).confident,
        normalized_path@ == peel(path@),
        normalized_path@ == SExpr::Ident(ident.sym@, ident.ctxt),
        *normalized_path == Expr::Ident(*ident),
        ident_span(*path) == Some(ident.span),
    ensures
        resolves(*ident, path@, *old(state), *final(state), *old(traversal_state), *final(traversal_state), r),
        (resolution(*ident, *old(traversal_state), old(state).functions.disable_imports) is Refused
            || resolution(*ident, *old(traversal_state), old(state).functions.disable_imports) is Unbound)
            ==> (final(state).deopt_path matches Some(p) && ident_span(p) == Some(ident.span)),
    decreases 2 * (old(traversal_state).spec_evaluation_ceiling() - old(traversal_state).evaluation_depth) + 1, 2int,
{
    proof {
        lemma_peel_fold(path@);
    }
    // 1. an import specifier.
    match get_import_by_ident(ident, traversal_state) {
        Some(binding) => {
            match &binding.kind {
                ImportKind::Default => {
                    return deopt(path, state, IMPORT_FILE_EVAL_ERROR);
                },
                ImportKind::Named(imported) => {
                    if !state.functions.disable_imports {
                        let imported_name = match imported {
                            Some(name) => name.clone(),
                            None => binding.local.sym.clone(),
                        };
                        let source = binding.source.clone();
                        match import_path_resolver(traversal_state, &source) {
                            None => {
                                return deopt(path, state, IMPORT_PATH_RESOLUTION_ERROR);
                            },
                            Some(file) => {
                                let theme = evaluate_theme_ref(
                                    &file,
                                    imported_name,
                                    traversal_state,
                                );
                                if !contains_string(&state.added_imports, &source)
                                    && traversal_state.treeshake_compensation {
                                    push_once(&mut traversal_state.theme_imports, &source);
                                    let ghost before = state.added_imports@;
                                    state.added_imports.push(source);
                                    proof {
                                        assert(state.added_imports@.drop_last() == before);
                                    }
                                }
                                return Some(EvaluateResultValue::ThemeRef(theme));
                            },
                        }
                    }
                },
                ImportKind::Namespace => {},
            }
        },
        None => {},
    }
    // 2. and 3. a binding written to is not a constant.
    if traversal_state.has_binding_reassignment(ident) && get_var_decl_from(
        traversal_state,
        ident,
    ).is_some() {
        return deopt(path, state, NON_CONSTANT);
    }
    if traversal_state.has_binding_mutation(ident) && get_var_decl_from(
        traversal_state,
        ident,
    ).is_some() {
        return deopt(path, state, NON_CONSTANT);
    }
    // 4. a reference above its own declarator.
    let init: Option<Expr> = match get_var_decl_from(traversal_state, ident) {
        Some(declarator) => {
            if reads_before_its_declaration(ident, declarator) {
                return deopt(path, state, USED_BEFORE_DECLARATION);
            }
            match &declarator.init {
                Some(e) => Some(copy_expr(e)),
                None => None,
            }
        },
        None => None,
    };
    // 5. `undefined`, `Infinity`, `NaN`.
    match global_spelled_as_an_identifier_as_a_value(ident) {
        Some(value) => {
            if traversal_state.declares_binding(ident) {
                return deopt(path, state, UNINITIALIZED_CONST);
            }
            return Some(EvaluateResultValue::Expr(value));
        },
        None => {},
    }
    // 6. the initializer, else the declaration kinds.
    match init {
        Some(e) => evaluate_cached(&e, state, traversal_state, fns),
        None => check_ident_declaration(ident, state, traversal_state, normalized_path),
    }
}

} // verus!
