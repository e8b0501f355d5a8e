//! Ending an evaluation's confidence.
use vstd::prelude::*;

use crate::state::{EvaluationState, StateManager};
use crate::syntax::{copy_expr, ident_span, Expr, SExpr};
use crate::value::EvaluateResultValue;

verus! {

/// Whether the refusal `st` records was made for `reason`.
pub open spec fn refused_for(st: EvaluationState, reason: Seq<char>) -> bool {
    st.deopt_reason matches Some(r) && r@ == reason
}

/// The state after a refusal of `path` for `reason`: the first refusal
/// records itself and ends the evaluation's confidence; a later one changes
/// nothing.
pub open spec fn deopted(
    old: EvaluationState,
    new: EvaluationState,
    path: SExpr,
    reason: Seq<char>,
) -> bool {
    if old.confident {
        &&& !new.confident
        &&& new.deopt_path matches Some(p) && p@ == path
        &&& new.deopt_reason matches Some(r) && r@ == reason
        &&& new.added_imports == old.added_imports
        &&& new.functions == old.functions
    } else {
        new == old
    }
}

/// Refuses `path` for `reason`, unless the evaluation has already refused,
/// and answers no value.
pub fn deopt(path: &Expr, state: &mut EvaluationState, reason: &str) -> (r: Option<
    EvaluateResultValue,
>)
    ensures
        r is None,
        deopted(*old(state), *final(state), path@, reason@),
        old(state).confident ==> (final(state).deopt_path matches Some(p) && ident_span(p)
            == ident_span(*path)),
{
    if state.confident {
        state.confident = false;
        state.deopt_path = Some(copy_expr(path));
        state.deopt_reason = Some(String::from_str(reason));
    }
    None
}

/// The same refusal, reported against the declaration of `name`: where it
/// takes effect, the module records which declaration the report frames.
pub fn deopt_at_declaration(
    path: &Expr,
    name: &String,
    state: &mut EvaluationState,
    traversal_state: &mut StateManager,
    reason: &str,
) -> (r: Option<EvaluateResultValue>)
    ensures
        r is None,
        deopted(*old(state), *final(state), path@, reason@),
        old(state).confident ==> (final(state).deopt_path matches Some(p) && ident_span(p)
            == ident_span(*path)),
        old(state).confident ==> (final(traversal_state).framed_declaration matches Some(n) && n@
            == name@),
        !old(state).confident ==> final(traversal_state).framed_declaration == old(
            traversal_state,
        ).framed_declaration,
        final(traversal_state).same_module(&*old(traversal_state)),
        final(traversal_state).seen == old(traversal_state).seen,
        final(traversal_state).theme_imports == old(traversal_state).theme_imports,
        final(traversal_state).depth_refused == old(traversal_state).depth_refused,
{
    if state.confident {
        traversal_state.framed_declaration = Some(name.clone());
    }
    deopt(path, state, reason)
}

} // verus!
