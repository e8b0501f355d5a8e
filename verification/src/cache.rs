//! The one way a subtree is evaluated: under the depth ceiling, on a stack that
//! grows with the walk, and through the memo of subtrees already folded.
use vstd::prelude::*;

use crate::deopt::{deopt, deopted, refused_for};
use crate::evaluator::_evaluate;
use crate::growable_stack::grown_per_level;
use crate::messages::{expression_too_deep, spec_decimal, PATH_WITHOUT_NODE};
use crate::evaluator::{answers_name, lemma_peel_fold};
use crate::semantics::{agrees, const_fold, fits, height, peel, simple};
use crate::state::{
    lemma_memo_lookup_push, memo_extends, memo_lookup, sseen, EvaluationState, FunctionMap,
    MemoEntry, SeenValue, StateManager,
};
use crate::syntax::{copy_expr, same_expr, Expr, SExpr};
use crate::value::{copy_opt_value, sopt, EvaluateResultValue, SValue};

verus! {

/// What every evaluation of `path` promises, from the state `st0`/`ts0` it
/// started in to the state `st1`/`ts1` it left and the answer `r`:
///
/// - the module and the budgets are as they were, the memo still answers
///   everything it answered, and the module is still well formed;
/// - an evaluation that had already refused changes nothing about its state;
/// - one that had not answers exactly when it stays confident, a refusal
///   records what was refused and why, and one that stays confident leaves
///   the record as it was;
/// - an answer is the meaning of `path` wherever that meaning is
///   self-contained.
pub open spec fn evaluated(
    path: SExpr,
    st0: EvaluationState,
    st1: EvaluationState,
    ts0: StateManager,
    ts1: StateManager,
    r: Option<EvaluateResultValue>,
) -> bool {
    &&& ts1.same_module(&ts0)
    &&& ts1.wf()
    &&& memo_extends(ts0.seen@, ts1.seen@)
    &&& st1.functions == st0.functions
    &&& (!st0.confident ==> st1 == st0)
    &&& (st0.confident ==> (r is Some <==> st1.confident))
    &&& (st0.confident && !st1.confident ==> st1.deopt_path is Some && st1.deopt_reason is Some)
    &&& (st0.confident && st1.confident ==> st1.deopt_path == st0.deopt_path && st1.deopt_reason
        == st0.deopt_reason)
    &&& agrees(path, sopt(r))
}

/// What the memo answers for `path`, where the evaluation is within the
/// depth ceiling: a subtree remembered as folded is answered with the value it
/// folded to and leaves the evaluation as it was; one remembered as refused is
/// refused again, as any refusal is.
pub open spec fn from_memo(
    path: SExpr,
    st0: EvaluationState,
    st1: EvaluationState,
    ts0: StateManager,
    r: Option<EvaluateResultValue>,
) -> bool {
    ts0.evaluation_depth < ts0.spec_evaluation_ceiling() ==> match memo_lookup(ts0.seen@, path) {
        Some(remembered) => if remembered.1 {
            sopt(r) == remembered.0 && st1 == st0
        } else {
            r is None && deopted(st0, st1, path, PATH_WITHOUT_NODE@)
        },
        None => true,
    }
}

/// Whether an evaluation of `path` in `ts` folds it: within the depth
/// ceiling, and not remembered by the memo.
pub open spec fn unseen_within(path: SExpr, ts: StateManager) -> bool {
    ts.evaluation_depth < ts.spec_evaluation_ceiling() && memo_lookup(ts.seen@, path) is None
}

/// Whether the refusal `st` records was recorded against `path`.
pub open spec fn recorded_against(st: EvaluationState, path: SExpr) -> bool {
    st.deopt_path matches Some(p) && p@ == path
}

/// What a fold of `path` the memo did not remember writes into it: the value
/// it folded to, where it stayed confident; a refusal, where it was refused
/// and owns its refusal.
pub open spec fn remembered(
    path: SExpr,
    st1: EvaluationState,
    ts0: StateManager,
    ts1: StateManager,
    r: Option<EvaluateResultValue>,
) -> bool {
    memo_lookup(ts0.seen@, path) is None ==> {
        &&& st1.confident ==> memo_lookup(ts1.seen@, path) == Some((sopt(r), true))
        &&& !st1.confident && ts1.spec_owns_its_refusals() ==> memo_lookup(ts1.seen@, path)
            == Some((None::<SValue>, false))
    }
}

/// Everything an evaluation of `path` through the memo and the depth ceiling
/// promises: what every evaluation promises; past the ceiling, a refusal for
/// depth, made as any refusal is, that leaves the memo as it was; within it, the memo's answer where it
/// remembers `path` (with the memo as it was), and a fold written into the
/// memo where it does not; and what is owed of literals and simple
/// expressions.
pub open spec fn cached(
    path: SExpr,
    st0: EvaluationState,
    st1: EvaluationState,
    ts0: StateManager,
    ts1: StateManager,
    r: Option<EvaluateResultValue>,
) -> bool {
    &&& evaluated(path, st0, st1, ts0, ts1, r)
    &&& from_memo(path, st0, st1, ts0, r)
    &&& owed(path, st0, st1, ts0, r)
    &&& settles(path, st0, st1, ts0, ts1, r, room_left(ts0))
    &&& ts0.evaluation_depth < ts0.spec_evaluation_ceiling() ==> {
        &&& remembered(path, st1, ts0, ts1, r)
        &&& memo_lookup(ts0.seen@, path) is Some ==> ts1.seen@ == ts0.seen@
    }
    &&& ts0.evaluation_depth >= ts0.spec_evaluation_ceiling() ==> {
        &&& r is None
        &&& ts1.depth_refused
        &&& ts1.seen@ == ts0.seen@
        &&& deopted(
            st0,
            st1,
            path,
            "The expression nests more than "@ + spec_decimal(ts0.spec_evaluation_ceiling() as nat)
                + " levels deep."@,
        )
    }
}

/// Whether `path` is written as a string, number, boolean or `null` literal,
/// under however many parentheses: an expression whose value is itself.
pub open spec fn plain_literal(path: SExpr) -> bool {
    peel(path) matches SExpr::Lit(l) && (l is Str || l is Num || l is Bool || l is Null)
}

/// Whether the memo, where it remembers `path` at all, remembers it folded.
pub open spec fn not_refused_before(seen: Seq<MemoEntry>, path: SExpr) -> bool {
    !(memo_lookup(seen, path) matches Some(remembered) && !remembered.1)
}

/// What an evaluation that nothing stops owes: a plain literal, evaluated by
/// a confident evaluation under the depth ceiling and not remembered as
/// refused, is answered with itself.
pub open spec fn owed(
    path: SExpr,
    st0: EvaluationState,
    st1: EvaluationState,
    ts0: StateManager,
    r: Option<EvaluateResultValue>,
) -> bool {
    st0.confident && plain_literal(path) && ts0.evaluation_depth < ts0.spec_evaluation_ceiling()
        && not_refused_before(ts0.seen@, path) ==> st1.confident && sopt(r) == Some(
        SValue::Expr(peel(path)),
    )
}

/// Whether the memo remembers no refusal at all.
pub open spec fn remembers_no_refusal(seen: Seq<MemoEntry>) -> bool {
    forall|i: int| 0 <= i < seen.len() ==> (#[trigger] seen[i]).seen.resolved
}

/// What an evaluation owes a simple expression that has a meaning: started
/// confident, with `room` levels left for it to nest into, a memo that
/// remembers no refusal, and a character ceiling every string it builds
/// fits, it stays confident, answers with that meaning, and leaves a memo
/// that still remembers no refusal.
pub open spec fn settles(
    path: SExpr,
    st0: EvaluationState,
    st1: EvaluationState,
    ts0: StateManager,
    ts1: StateManager,
    r: Option<EvaluateResultValue>,
    room: int,
) -> bool {
    st0.confident && simple(path) && const_fold(path) is Some && height(path) <= room
        && remembers_no_refusal(ts0.seen@) && fits(path, ts0.character_ceiling as nat)
        ==> st1.confident && sopt(r) == const_fold(path) && remembers_no_refusal(ts1.seen@)
}

/// The levels an evaluation started in `ts` may still descend.
pub open spec fn room_left(ts: StateManager) -> int {
    ts.spec_evaluation_ceiling() - ts.evaluation_depth
}

/// The memo extends through two evaluations in a row.
pub proof fn lemma_memo_extends_trans(a: Seq<MemoEntry>, b: Seq<MemoEntry>, c: Seq<MemoEntry>)
    requires
        memo_extends(a, b),
        memo_extends(b, c),
    ensures
        memo_extends(a, c),
{
    assert forall|k: SExpr| #[trigger] memo_lookup(a, k) is Some implies memo_lookup(c, k)
        == memo_lookup(a, k) by {
        assert(memo_lookup(b, k) == memo_lookup(a, k));
    }
}

/// `path` evaluated, or refused.
///
/// Every subtree the evaluator reads goes through here, so the depth ceiling,
/// the stack and the memo apply to each of them.
pub fn evaluate_cached(
    path: &Expr,
    state: &mut EvaluationState,
    traversal_state: &mut StateManager,
    fns: &FunctionMap,
) -> (r: Option<EvaluateResultValue>)
    requires
        old(traversal_state).wf(),
    ensures
        cached(path@, *old(state), *final(state), *old(traversal_state), *final(traversal_state), r),
        unseen_within(path@, *old(traversal_state)) ==> answers_name(*path, *old(state), *final(state), *old(traversal_state), r),
    decreases 2 * (old(traversal_state).spec_evaluation_ceiling() - old(traversal_state).evaluation_depth), 5int,
{
    folded_once(path, state, traversal_state, fns)
}

/// `path` folded at most once per module: one level deeper, and through the
/// memo.
pub fn folded_once(
    path: &Expr,
    state: &mut EvaluationState,
    traversal_state: &mut StateManager,
    fns: &FunctionMap,
) -> (r: Option<EvaluateResultValue>)
    requires
        old(traversal_state).wf(),
    ensures
        cached(path@, *old(state), *final(state), *old(traversal_state), *final(traversal_state), r),
        unseen_within(path@, *old(traversal_state)) ==> answers_name(*path, *old(state), *final(state), *old(traversal_state), r),
    decreases 2 * (old(traversal_state).spec_evaluation_ceiling() - old(traversal_state).evaluation_depth), 4int,
{
    descend_one_level(path, state, traversal_state, fns)
}

/// An evaluation state that stands in while the real one is lent to a level
/// running on a grown stack.
fn placeholder_state() -> (r: EvaluationState)
    ensures
        !r.confident,
        r.deopt_path is None,
        r.deopt_reason is None,
        r.added_imports@.len() == 0,
        r.functions.identifiers@.len() == 0,
        !r.functions.disable_imports,
{
    EvaluationState {
        confident: false,
        deopt_path: None,
        deopt_reason: None,
        added_imports: Vec::new(),
        functions: FunctionMap { identifiers: Vec::new(), disable_imports: false },
    }
}

/// A module that stands in while the real one is lent to a level running on a
/// grown stack.
fn placeholder_module() -> (r: StateManager)
    ensures
        r.declared_bindings@.len() == 0,
        r.declarations@.len() == 0,
        r.class_name_declarations@.len() == 0,
        r.function_name_declarations@.len() == 0,
        r.reassigned@.len() == 0,
        r.mutated@.len() == 0,
        r.imports@.len() == 0,
        r.resolutions@.len() == 0,
        !r.treeshake_compensation,
        r.theme_imports@.len() == 0,
        r.class_name_prefix@.len() == 0,
        r.evaluation_depth_limit == 0,
        r.character_ceiling == 0,
        r.entry_ceiling == 0,
        r.evaluation_depth == 0,
        !r.depth_refused,
        !r.speculating,
        r.seen@.len() == 0,
        r.framed_declaration is None,
{
    StateManager {
        declared_bindings: Vec::new(),
        declarations: Vec::new(),
        class_name_declarations: Vec::new(),
        function_name_declarations: Vec::new(),
        reassigned: Vec::new(),
        mutated: Vec::new(),
        imports: Vec::new(),
        resolutions: Vec::new(),
        treeshake_compensation: false,
        theme_imports: Vec::new(),
        class_name_prefix: String::new(),
        evaluation_depth_limit: 0,
        character_ceiling: 0,
        entry_ceiling: 0,
        evaluation_depth: 0,
        depth_refused: false,
        speculating: false,
        seen: Vec::new(),
        framed_declaration: None,
    }
}

/// One level deeper: refused past the ceiling, and otherwise run on a stack
/// with room for the level.
///
/// The first level of an evaluation forgets whether an earlier evaluation was
/// refused for depth, so only a refusal met in this one keeps its refusals out
/// of the memo.
pub fn descend_one_level(
    path: &Expr,
    state: &mut EvaluationState,
    traversal_state: &mut StateManager,
    fns: &FunctionMap,
) -> (r: Option<EvaluateResultValue>)
    requires
        old(traversal_state).wf(),
    ensures
        cached(path@, *old(state), *final(state), *old(traversal_state), *final(traversal_state), r),
        unseen_within(path@, *old(traversal_state)) ==> answers_name(*path, *old(state), *final(state), *old(traversal_state), r),
    decreases 2 * (old(traversal_state).spec_evaluation_ceiling() - old(traversal_state).evaluation_depth), 3int,
{
    proof {
        crate::semantics::lemma_height_and_peel(path@);
    }
    let ceiling = traversal_state.evaluation_ceiling();
    if traversal_state.evaluation_depth == 0 {
        traversal_state.depth_refused = false;
    }
    if traversal_state.evaluation_depth >= ceiling {
        traversal_state.depth_refused = true;
        let reason = expression_too_deep(ceiling);
        return deopt(path, state, reason.as_str());
    }
    traversal_state.evaluation_depth = traversal_state.evaluation_depth + 1;
    let mut lent_state = placeholder_state();
    std::mem::swap(&mut lent_state, state);
    let mut lent_module = placeholder_module();
    std::mem::swap(&mut lent_module, traversal_state);
    let ghost st0 = lent_state;
    let ghost ts0 = lent_module;
    let level = move || -> (o: (Option<EvaluateResultValue>, EvaluationState, StateManager))
        requires
            ts0.wf(),
            lent_state == st0,
            lent_module == ts0,
        ensures
            evaluated(path@, st0, o.1, ts0, o.2, o.0),
            memo_lookup(ts0.seen@, path@) matches Some(remembered) ==> (if remembered.1 {
                sopt(o.0) == remembered.0 && o.1 == st0
            } else {
                o.0 is None && deopted(st0, o.1, path@, PATH_WITHOUT_NODE@)
            }) && o.2 == ts0,
            remembered(path@, o.1, ts0, o.2, o.0),
            st0.confident && plain_literal(path@) && not_refused_before(ts0.seen@, path@)
                ==> o.1.confident && sopt(o.0) == Some(SValue::Expr(peel(path@))),
            settles(path@, st0, o.1, ts0, o.2, o.0, room_left(ts0) + 1),
            memo_lookup(ts0.seen@, path@) is None ==> answers_name(*path, st0, o.1, ts0, o.0),
        {
            let mut st = lent_state;
            let mut ts = lent_module;
            let r = memoized_fold(path, &mut st, &mut ts, fns);
            (r, st, ts)
        };
    let (r, st, ts) = grown_per_level(level);
    *state = st;
    *traversal_state = ts;
    traversal_state.evaluation_depth = traversal_state.evaluation_depth - 1;
    r
}

/// The first memo entry remembering `path`, if one does.
fn memo_find(seen: &Vec<MemoEntry>, path: &Expr) -> (r: Option<usize>)
    ensures
        r is None ==> memo_lookup(seen@, path@) is None,
        r matches Some(i) ==> i < seen@.len() && seen@[i as int].key@ == path@ && memo_lookup(
            seen@,
            path@,
        ) == Some(sseen(seen@[i as int].seen)) && forall|j: int|
            0 <= j < i ==> (#[trigger] seen@[j]).key@ != path@,
{
    let mut i: usize = 0;
    while i < seen.len()
        invariant
            i <= seen@.len(),
            forall|j: int| 0 <= j < i ==> (#[trigger] seen@[j]).key@ != path@,
        decreases seen@.len() - i,
    {
        if same_expr(&seen[i].key, path) {
            proof {
                lemma_memo_lookup_from(seen@, path@, i as int);
                assert(seen@.subrange(i as int, seen@.len() as int)[0] == seen@[i as int]);
            }
            return Some(i);
        }
        i = i + 1;
    }
    proof {
        lemma_memo_lookup_from(seen@, path@, i as int);
        assert(seen@.subrange(i as int, seen@.len() as int).len() == 0);
    }
    None
}

/// Past entries that do not remember `key`, the memo answers as its rest does.
proof fn lemma_memo_lookup_from(seen: Seq<MemoEntry>, key: SExpr, i: int)
    requires
        0 <= i <= seen.len(),
        forall|j: int| 0 <= j < i ==> (#[trigger] seen[j]).key@ != key,
    ensures
        memo_lookup(seen, key) == memo_lookup(seen.subrange(i, seen.len() as int), key),
    decreases i,
{
    if i > 0 {
        let rest = seen.subrange(1, seen.len() as int);
        assert forall|j: int| 0 <= j < i - 1 implies (#[trigger] rest[j]).key@ != key by {
            assert(rest[j] == seen[j + 1]);
        }
        lemma_memo_lookup_from(rest, key, i - 1);
        assert(rest.subrange(i - 1, rest.len() as int) =~= seen.subrange(i, seen.len() as int));
    } else {
        assert(seen.subrange(0, seen.len() as int) =~= seen);
    }
}

/// `path` answered from the memo where it was seen before, and folded and
/// remembered where it was not.
///
/// A remembered refusal is refused again, without folding. A refusal is
/// remembered only where the evaluation owns it: not while speculating, and
/// not once the depth ceiling has refused, since a subtree refused for depth
/// may fold where it is written less deeply.
pub fn memoized_fold(
    path: &Expr,
    state: &mut EvaluationState,
    traversal_state: &mut StateManager,
    fns: &FunctionMap,
) -> (r: Option<EvaluateResultValue>)
    requires
        old(traversal_state).wf(),
    ensures
        evaluated(path@, *old(state), *final(state), *old(traversal_state), *final(traversal_state), r),
        memo_lookup(old(traversal_state).seen@, path@) matches Some(remembered) ==> {
            &&& *final(traversal_state) == *old(traversal_state)
            &&& remembered.1 ==> sopt(r) == remembered.0 && *final(state) == *old(state)
            &&& !remembered.1 ==> r is None && deopted(*old(state), *final(state), path@, PATH_WITHOUT_NODE@)
        },
        remembered(path@, *final(state), *old(traversal_state), *final(traversal_state), r),
        old(state).confident && plain_literal(path@) && not_refused_before(old(traversal_state).seen@, path@)
            ==> final(state).confident && sopt(r) == Some(SValue::Expr(peel(path@))),
        settles(path@, *old(state), *final(state), *old(traversal_state), *final(traversal_state), r, room_left(*old(traversal_state)) + 1),
        memo_lookup(old(traversal_state).seen@, path@) is None ==> answers_name(*path, *old(state), *final(state), *old(traversal_state), r),
    decreases 2 * (old(traversal_state).spec_evaluation_ceiling() - old(traversal_state).evaluation_depth) + 1, 4int,
{
    match memo_find(&traversal_state.seen, path) {
        Some(i) => {
            if traversal_state.seen[i].seen.resolved {
                proof {
                    lemma_peel_fold(path@);
                    assert(crate::state::memo_ok(traversal_state.seen@));
                    assert(traversal_state.seen@[i as int].seen.resolved);
                }
                return copy_opt_value(&traversal_state.seen[i].seen.value);
            }
            deopt(path, state, PATH_WITHOUT_NODE)
        },
        None => {
            let ghost ts_mid_seen = traversal_state.seen@;
            let val = _evaluate(path, state, traversal_state, fns);
            let ghost before = traversal_state.seen@;
            if state.confident {
                let entry = MemoEntry {
                    key: copy_expr(path),
                    seen: SeenValue { value: copy_opt_value(&val), resolved: true },
                };
                remember(&mut traversal_state.seen, entry);
            } else if traversal_state.owns_its_refusals() {
                let entry = MemoEntry {
                    key: copy_expr(path),
                    seen: SeenValue { value: None, resolved: false },
                };
                remember(&mut traversal_state.seen, entry);
            }
            proof {
                assert forall|k: SExpr| #[trigger] memo_lookup(old(traversal_state).seen@, k) is Some
                    implies memo_lookup(traversal_state.seen@, k) == memo_lookup(
                    old(traversal_state).seen@,
                    k,
                ) by {
                    assert(memo_lookup(before, k) == memo_lookup(old(traversal_state).seen@, k));
                }
            }
            val
        },
    }
}

/// Writes `entry` into the memo: in place of the first entry for the same
/// subtree where there is one, and after the others where there is none. The
/// memo then answers the entry for its subtree and as before for every other.
fn remember(seen: &mut Vec<MemoEntry>, entry: MemoEntry)
    requires
        crate::state::memo_ok(old(seen)@),
        entry.seen.resolved ==> entry.seen.value is Some && agrees(
            entry.key@,
            sopt(entry.seen.value),
        ),
    ensures
        crate::state::memo_ok(final(seen)@),
        remembers_no_refusal(old(seen)@) && entry.seen.resolved ==> remembers_no_refusal(
            final(seen)@,
        ),
        forall|k: SExpr| #[trigger]
            memo_lookup(final(seen)@, k) == if k == entry.key@ {
                Some(sseen(entry.seen))
            } else {
                memo_lookup(old(seen)@, k)
            },
{
    let found = memo_find(seen, &entry.key);
    let ghost e = entry;
    let ghost before = seen@;
    match found {
        Some(i) => {
            seen.set(i, entry);
            proof {
                assert(seen@ == before.update(i as int, e));
                assert forall|k: SExpr| #[trigger]
                    memo_lookup(seen@, k) == if k == e.key@ {
                        Some(sseen(e.seen))
                    } else {
                        memo_lookup(before, k)
                    } by {
                    lemma_memo_lookup_update(before, i as int, e, k);
                }
            }
        },
        None => {
            seen.push(entry);
            proof {
                assert forall|k: SExpr| #[trigger]
                    memo_lookup(seen@, k) == if k == e.key@ {
                        Some(sseen(e.seen))
                    } else {
                        memo_lookup(before, k)
                    } by {
                    lemma_memo_lookup_push(before, e, k);
                }
            }
        },
    }
}

/// Replacing the first entry for a subtree changes the memo's answer for that
/// subtree and for no other.
proof fn lemma_memo_lookup_update(seen: Seq<MemoEntry>, i: int, e: MemoEntry, k: SExpr)
    requires
        0 <= i < seen.len(),
        seen[i].key@ == e.key@,
        forall|j: int| 0 <= j < i ==> (#[trigger] seen[j]).key@ != e.key@,
    ensures
        memo_lookup(seen.update(i, e), k) == if k == e.key@ {
            Some(sseen(e.seen))
        } else {
            memo_lookup(seen, k)
        },
    decreases i,
{
    let u = seen.update(i, e);
    assert(u.subrange(1, u.len() as int) =~= if i == 0 {
        seen.subrange(1, seen.len() as int)
    } else {
        seen.subrange(1, seen.len() as int).update(i - 1, e)
    });
    if i > 0 {
        let rest = seen.subrange(1, seen.len() as int);
        assert forall|j: int| 0 <= j < i - 1 implies (#[trigger] rest[j]).key@ != e.key@ by {
            assert(rest[j] == seen[j + 1]);
        }
        lemma_memo_lookup_update(rest, i - 1, e, k);
    }
}

/// Remembering one more subtree keeps every answer the memo gave.
proof fn lemma_memo_push_extends(seen: Seq<MemoEntry>, e: MemoEntry)
    ensures
        memo_extends(seen, seen.push(e)),
{
    assert forall|k: SExpr| #[trigger] memo_lookup(seen, k) is Some implies memo_lookup(
        seen.push(e),
        k,
    ) == memo_lookup(seen, k) by {
        lemma_memo_lookup_push(seen, e, k);
    }
}

} // verus!
