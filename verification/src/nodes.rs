//! The arms of one level of evaluation, one per kind of expression that reads
//! its subtrees.
use vstd::prelude::*;

use crate::cache::{
    cached, evaluate_cached, evaluated, lemma_memo_extends_trans, recorded_against,
    remembers_no_refusal, room_left, settles,
};
use crate::property::property_key;
use crate::coerce::{
    evaluate_result_is_nullish, evaluate_result_to_js_boolean, expr_to_string, nullish, string_of,
    to_boolean, type_of, type_of_value,
};
use crate::deopt::{deopt, deopted, refused_for};
use crate::messages::{
    decimal, spec_decimal, ENV_PROPERTY_NOT_FOUND, ILLEGAL_PROP_ARRAY_VALUE, MEMBER_NOT_RESOLVED, OBJECT_METHOD,
    NULLISH_TO_OBJECT, SPREAD_MUST_BE_OBJECT, SPREAD_NOT_SUPPORTED, THEME_IMPORT_KEY_AS_OBJECT_KEY,
    UNEXPECTED_MEMBER_LOOKUP, VALUE_MUST_BE_STATIC,
};
use crate::evaluator::evaluate_with_functions;
use crate::helpers::{
    element_exprs, evaluate_result_vec_to_array_expr, function_fold_to_object, key_name,
    method_args_object, normalize_js_object_method_args, spec_function_fold_to_object,
    spec_receiver, ObjectMethodReceiver, OwnKeysQuestion,
};
use crate::coerce::expr_string;
use crate::syntax::{copy_elems, copy_expr, copy_member, lemma_sprops, spropname, sprop, sprops, Prop, PropName};
use crate::property::{
    set_prop, index_read, lookup_key, lookup_prop, property_key_of, slot_value, spec_index_read, Found,
    IndexRead, Lookup,
};
use crate::state::{first_index, lemma_first_index};
use crate::semantics::agrees;
use crate::text::utf16_len;
use crate::value::{lemma_sconfig_entries, lemma_senv_entries, sconfig_entries, senv_entries, senv_entry};
use crate::syntax::{SProp, SPropName};
use crate::grown::{GrownString, StringAppend};
use crate::messages::{
    unsupported_expression, unsupported_operator, NOT_A_NUMBER, NOT_A_STRING, NOT_COMPARABLE,
    NO_ARITHMETIC, NO_TRUTHINESS, SPREAD_ELEMENT,
};
use crate::semantics::{
    concatenation, const_fold, fold_elems, negated, negation_fixed, number_spelling, primitive_of,
    reading, strictly_equal, tpl_fold, undefined_value, Reading, const_key, fold_prop, fold_props,
    merge_spread, written_form, WrittenForm, concat_strings, is_own_keys_static, fold_args,
    join_separator, method_fold, short_circuits, simple, height, fits, own_keys_fold, question_of,
};
use crate::state::{EvaluationState, FunctionMap, StateManager};
use crate::syntax::{
    lemma_selems, lemma_sexprs, selem, selems, sexprs, strings_view, BinaryOp, Elem, Expr, Ident,
    Lit, MemberProp, SElem, SExpr, SLit, SMemberProp, Span, UnaryOp, smember,
};
use crate::value::{copy_value, lemma_svalues, sopt, svalue, svalues, EvaluateResultValue, SValue};

verus! {

/// `undefined`, as a value the evaluator is confident about: the identifier,
/// since a confident `None` is how the evaluator says it failed.
pub fn js_undefined() -> (r: EvaluateResultValue)
    ensures
        r@ == undefined_value(),
{
    proof {
        reveal_strlit("undefined");
    }
    EvaluateResultValue::Expr(
        Expr::Ident(Ident { sym: String::from_str("undefined"), ctxt: 0, span: Span { lo: 0, hi: 0 } }),
    )
}

/// The last expression of a sequence, which is its value.
pub fn evaluate_sequence(
    path: &Expr,
    exprs: &Vec<Expr>,
    state: &mut EvaluationState,
    traversal_state: &mut StateManager,
    fns: &FunctionMap,
) -> (r: Option<EvaluateResultValue>)
    requires
        old(traversal_state).wf(),
        old(state).confident,
        path@ == SExpr::Sequence(sexprs(exprs@)),
    ensures
        evaluated(path@, *old(state), *final(state), *old(traversal_state), *final(traversal_state), r),
        settles(path@, *old(state), *final(state), *old(traversal_state), *final(traversal_state), r, room_left(*old(traversal_state)) + 1),
        exprs@.len() > 0 ==> cached(exprs@.last()@, *old(state), *final(state), *old(traversal_state), *final(traversal_state), r),
    decreases 2 * (old(traversal_state).spec_evaluation_ceiling() - old(traversal_state).evaluation_depth) + 1, 2int,
{
    proof {
        lemma_sexprs(exprs@);
    }
    let n = exprs.len();
    if n == 0 {
        let reason = unsupported_expression("SequenceExpression");
        return deopt(path, state, reason.as_str());
    }
    evaluate_cached(&exprs[n - 1], state, traversal_state, fns)
}

/// What a conditional answers from what its test evaluated to: there is an
/// evaluation of `test` from `st0`/`ts0`, and where it answered confidently,
/// the branch its truthiness chooses is evaluated from the state it left, or
/// the test is refused where it has no truthiness.
pub open spec fn branch_taken(
    test: SExpr,
    cons: SExpr,
    alt: SExpr,
    st0: EvaluationState,
    st1: EvaluationState,
    ts0: StateManager,
    ts1: StateManager,
    r: Option<EvaluateResultValue>,
) -> bool {
    exists|st_t: EvaluationState, ts_t: StateManager, t: Option<EvaluateResultValue>|
        #[trigger] cached(test, st0, st_t, ts0, ts_t, t) && (st_t.confident && t is Some ==> match to_boolean(
            svalue(t->0),
        ) {
            Some(true) => cached(cons, st_t, st1, ts_t, ts1, r),
            Some(false) => cached(alt, st_t, st1, ts_t, ts1, r),
            None => r is None && deopted(st_t, st1, test, NO_TRUTHINESS@) && ts1 == ts_t,
        })
}

/// The branch a conditional's test chooses.
pub fn evaluate_conditional(
    path: &Expr,
    test: &Expr,
    cons: &Expr,
    alt: &Expr,
    state: &mut EvaluationState,
    traversal_state: &mut StateManager,
    fns: &FunctionMap,
) -> (r: Option<EvaluateResultValue>)
    requires
        old(traversal_state).wf(),
        old(state).confident,
        path@ == SExpr::Cond(Box::new(test@), Box::new(cons@), Box::new(alt@)),
    ensures
        evaluated(path@, *old(state), *final(state), *old(traversal_state), *final(traversal_state), r),
        settles(path@, *old(state), *final(state), *old(traversal_state), *final(traversal_state), r, room_left(*old(traversal_state)) + 1),
        branch_taken(test@, cons@, alt@, *old(state), *final(state), *old(traversal_state), *final(traversal_state), r),
    decreases 2 * (old(traversal_state).spec_evaluation_ceiling() - old(traversal_state).evaluation_depth) + 1, 2int,
{
    let ghost ts0 = *traversal_state;
    let tested = evaluate_cached(test, state, traversal_state, fns);
    let ghost ts1 = *traversal_state;
    let ghost st_t = *state;
    proof {
        assert(cached(test@, *old(state), st_t, ts0, ts1, tested));
    }
    match tested {
        None => None,
        Some(value) => {
            if !state.confident {
                return None;
            }
            match evaluate_result_to_js_boolean(&value) {
                Some(true) => {
                    let r = evaluate_cached(cons, state, traversal_state, fns);
                    proof {
                        lemma_memo_extends_trans(ts0.seen@, ts1.seen@, traversal_state.seen@);
                    }
                    r
                },
                Some(false) => {
                    let r = evaluate_cached(alt, state, traversal_state, fns);
                    proof {
                        lemma_memo_extends_trans(ts0.seen@, ts1.seen@, traversal_state.seen@);
                    }
                    r
                },
                None => deopt(test, state, NO_TRUTHINESS),
            }
        },
    }
}




/// The spelling of `-t` for the number spelled `t`.
pub fn negate_number(t: &str) -> (r: String)
    ensures
        r@ == negated(t@),
{
    proof {
        reveal_strlit("0");
        reveal_strlit("NaN");
        reveal_strlit("-");
    }
    if crate::coerce::str_eq(t, "0") || crate::coerce::str_eq(t, "NaN") {
        return String::from_str(t);
    }
    let n = t.unicode_len();
    if n > 0 && t.get_char(0) == '-' {
        return String::from_str(t.substring_char(1, n));
    }
    let mut s = String::from_str("-");
    s.append(t);
    proof {
        assert("-"@ =~= seq!['-']);
    }
    s
}

/// The spelling of the number a value converts to, where the conversion
/// reads no text.
pub fn number_of(value: &EvaluateResultValue) -> (r: Option<String>)
    ensures
        match r {
            Some(t) => number_spelling(value@) == Some(t@),
            None => number_spelling(value@) is None,
        },
{
    proof {
        reveal_strlit("1");
        reveal_strlit("0");
        reveal_strlit("NaN");
    }
    match value {
        EvaluateResultValue::Expr(Expr::Lit(Lit::Num(t))) => Some(t.clone()),
        EvaluateResultValue::Expr(Expr::Lit(Lit::Bool(b))) => Some(
            if *b {
                String::from_str("1")
            } else {
                String::from_str("0")
            },
        ),
        EvaluateResultValue::Expr(Expr::Lit(Lit::Null)) => Some(String::from_str("0")),
        EvaluateResultValue::Expr(Expr::Ident(i)) => if crate::coerce::is_undefined_ident(i) {
            Some(String::from_str("NaN"))
        } else {
            None
        },
        _ => None,
    }
}

/// What `!`, `typeof`, `+` or `-` answers of the value `v` its operand `arg`
/// evaluated to, from the state `st` that evaluation left.
pub open spec fn unary_read(
    path: SExpr,
    op: UnaryOp,
    arg: SExpr,
    v: SValue,
    st: EvaluationState,
    st1: EvaluationState,
    r: Option<EvaluateResultValue>,
) -> bool {
    match op {
        UnaryOp::Bang => match to_boolean(v) {
            Some(b) => sopt(r) == Some(SValue::Expr(SExpr::Lit(SLit::Bool(!b)))) && st1 == st,
            None => r is None && deopted(st, st1, arg, NO_TRUTHINESS@),
        },
        UnaryOp::TypeOf => match type_of(v) {
            Some(t) => sopt(r) == Some(SValue::Expr(SExpr::Lit(SLit::Str(t)))) && st1 == st,
            None => r is None && deopted(st, st1, path, "Unsupported operator: "@ + "typeof"@),
        },
        UnaryOp::Plus => match number_spelling(v) {
            Some(t) => sopt(r) == Some(SValue::Expr(SExpr::Lit(SLit::Num(t)))) && st1 == st,
            None => r is None && deopted(st, st1, arg, NOT_A_NUMBER@),
        },
        _ => match number_spelling(v) {
            Some(t) => sopt(r) == Some(SValue::Expr(SExpr::Lit(SLit::Num(negated(t))))) && st1 == st,
            None => r is None && deopted(st, st1, arg, NOT_A_NUMBER@),
        },
    }
}

/// What a unary operator answers from what its operand evaluated to: there
/// is an evaluation of `arg` from `st0`/`ts0`, and where it answered
/// confidently, the operator is applied to its value, with the module as
/// that evaluation left it.
pub open spec fn operand_read(
    path: SExpr,
    op: UnaryOp,
    arg: SExpr,
    st0: EvaluationState,
    st1: EvaluationState,
    ts0: StateManager,
    ts1: StateManager,
    r: Option<EvaluateResultValue>,
) -> bool {
    exists|st_a: EvaluationState, ts_a: StateManager, a: Option<EvaluateResultValue>|
        #[trigger] cached(arg, st0, st_a, ts0, ts_a, a) && (st_a.confident && a is Some ==> ts1 == ts_a
            && unary_read(path, op, arg, svalue(a->0), st_a, st1, r))
}

/// A unary operator applied to its evaluated operand: `!`, `typeof`, and the
/// numeric `+` and `-` where the operand's number needs no text read; `void`
/// is `undefined` without reading its operand.
pub fn evaluate_unary(
    path: &Expr,
    op: UnaryOp,
    arg: &Expr,
    state: &mut EvaluationState,
    traversal_state: &mut StateManager,
    fns: &FunctionMap,
) -> (r: Option<EvaluateResultValue>)
    requires
        old(traversal_state).wf(),
        old(state).confident,
        path@ == SExpr::Unary(op, Box::new(arg@)),
    ensures
        evaluated(path@, *old(state), *final(state), *old(traversal_state), *final(traversal_state), r),
        op == UnaryOp::Void ==> sopt(r) == Some(undefined_value()),
        settles(path@, *old(state), *final(state), *old(traversal_state), *final(traversal_state), r, room_left(*old(traversal_state)) + 1),
        op != UnaryOp::Void && op != UnaryOp::Tilde && op != UnaryOp::Delete ==> operand_read(
            path@,
            op,
            arg@,
            *old(state),
            *final(state),
            *old(traversal_state),
            *final(traversal_state),
            r,
        ),
    decreases 2 * (old(traversal_state).spec_evaluation_ceiling() - old(traversal_state).evaluation_depth) + 1, 2int,
{
    match op {
        UnaryOp::Void => {
            return Some(js_undefined());
        },
        UnaryOp::Tilde => {
            let reason = unsupported_operator("~");
            return deopt(path, state, reason.as_str());
        },
        UnaryOp::Delete => {
            let reason = unsupported_operator("delete");
            return deopt(path, state, reason.as_str());
        },
        _ => {},
    }
    let operand = evaluate_cached(arg, state, traversal_state, fns);
    let ghost st_a = *state;
    let ghost ts_a = *traversal_state;
    proof {
        assert(cached(arg@, *old(state), st_a, *old(traversal_state), ts_a, operand));
    }
    let value = match operand {
        None => {
            return None;
        },
        Some(v) => v,
    };
    if !state.confident {
        return None;
    }
    match op {
        UnaryOp::Bang => match evaluate_result_to_js_boolean(&value) {
            Some(b) => Some(EvaluateResultValue::Expr(Expr::Lit(Lit::Bool(!b)))),
            None => deopt(arg, state, NO_TRUTHINESS),
        },
        UnaryOp::TypeOf => match type_of_value(&value) {
            Some(t) => Some(EvaluateResultValue::Expr(Expr::Lit(Lit::Str(t)))),
            None => {
                let reason = unsupported_operator("typeof");
                deopt(path, state, reason.as_str())
            },
        },
        UnaryOp::Plus => match number_of(&value) {
            Some(t) => Some(EvaluateResultValue::Expr(Expr::Lit(Lit::Num(t)))),
            None => deopt(arg, state, NOT_A_NUMBER),
        },
        _ => match number_of(&value) {
            Some(t) => Some(
                EvaluateResultValue::Expr(Expr::Lit(Lit::Num(negate_number(t.as_str())))),
            ),
            None => deopt(arg, state, NOT_A_NUMBER),
        },
    }
}

/// One slot of an array read from `st`/`ts` to `st1`/`ts1`, answering `r`
/// confidently: an expression evaluated through the memo, a hole read as
/// nothing.
pub open spec fn slot_step(
    slot: SElem,
    st: EvaluationState,
    st1: EvaluationState,
    ts: StateManager,
    ts1: StateManager,
    r: Option<EvaluateResultValue>,
) -> bool {
    match slot {
        SElem::Expr(x) => cached(x, st, st1, ts, ts1, r) && st1.confident && r is Some,
        SElem::Hole => st1 == st && ts1 == ts && r == Some(EvaluateResultValue::Null),
        SElem::Spread(_) => false,
    }
}

/// Whether `sts`/`tss`/`rs` are the first `k` slots of `slots` read one after
/// another, each from the state the one before left.
pub open spec fn slots_read(
    slots: Seq<SElem>,
    sts: Seq<EvaluationState>,
    tss: Seq<StateManager>,
    rs: Seq<Option<EvaluateResultValue>>,
    k: int,
) -> bool {
    &&& 0 <= k <= slots.len()
    &&& sts.len() == k + 1
    &&& tss.len() == k + 1
    &&& rs.len() == k
    &&& forall|j: int|
        0 <= j < k ==> #[trigger] slot_step(slots[j], sts[j], sts[j + 1], tss[j], tss[j + 1], rs[j])
}

/// The values slot readings answered, in order.
pub open spec fn answers_of(rs: Seq<Option<EvaluateResultValue>>) -> Seq<EvaluateResultValue> {
    rs.map_values(|o: Option<EvaluateResultValue>| o->0)
}

/// What an array literal `path` of `slots` answers from its slots' readings:
/// they are read one after another from `st0`/`ts0`; where every slot
/// answered, the array is their values in order; otherwise it is refused at
/// the first slot that did not, a spread for being one and an expression as
/// its evaluation was.
pub open spec fn array_read(
    path: SExpr,
    slots: Seq<SElem>,
    st0: EvaluationState,
    st1: EvaluationState,
    ts0: StateManager,
    ts1: StateManager,
    r: Option<EvaluateResultValue>,
) -> bool {
    exists|sts: Seq<EvaluationState>, tss: Seq<StateManager>, rs: Seq<Option<EvaluateResultValue>>, k: int|
        #[trigger] slots_read(slots, sts, tss, rs, k) && sts[0] == st0 && tss[0] == ts0 && if k
            == slots.len() {
            &&& st1 == sts[k]
            &&& ts1 == tss[k]
            &&& r matches Some(v) && v is Vec && v->Vec_0@ == answers_of(rs)
        } else {
            &&& r is None
            &&& match slots[k] {
                SElem::Spread(_) => deopted(sts[k], st1, path, SPREAD_ELEMENT@) && ts1 == tss[k],
                SElem::Expr(x) => exists|rk: Option<EvaluateResultValue>|
                    #[trigger] cached(x, sts[k], st1, tss[k], ts1, rk) && !(st1.confident && rk is Some),
                SElem::Hole => false,
            }
        }
}

/// The elements of an array literal, each evaluated in turn; a hole is an
/// absent value, and a spread is refused.
pub fn evaluate_array(
    path: &Expr,
    elems: &Vec<Elem>,
    state: &mut EvaluationState,
    traversal_state: &mut StateManager,
    fns: &FunctionMap,
) -> (r: Option<EvaluateResultValue>)
    requires
        old(traversal_state).wf(),
        old(state).confident,
        path@ == SExpr::Array(selems(elems@)),
    ensures
        evaluated(path@, *old(state), *final(state), *old(traversal_state), *final(traversal_state), r),
        r matches Some(v) ==> v is Vec && v->Vec_0@.len() == elems@.len(),
        settles(path@, *old(state), *final(state), *old(traversal_state), *final(traversal_state), r, room_left(*old(traversal_state)) + 1),
        array_read(path@, selems(elems@), *old(state), *final(state), *old(traversal_state), *final(traversal_state), r),
    decreases 2 * (old(traversal_state).spec_evaluation_ceiling() - old(traversal_state).evaluation_depth) + 1, 2int,
{
    let ghost ts0 = *traversal_state;
    let ghost st0 = *state;
    let ghost slots = selems(elems@);
    let ghost owed = simple(path@) && const_fold(path@) is Some && height(path@) <= room_left(ts0)
        + 1 && remembers_no_refusal(ts0.seen@) && fits(path@, ts0.character_ceiling as nat);
    proof {
        lemma_selems(elems@);
        assert(slots.take(0) =~= Seq::<SElem>::empty());
    }
    let mut values: Vec<EvaluateResultValue> = Vec::new();
    let mut i: usize = 0;
    let ghost mut sts: Seq<EvaluationState> = seq![st0];
    let ghost mut tss: Seq<StateManager> = seq![ts0];
    let ghost mut rs: Seq<Option<EvaluateResultValue>> = Seq::empty();
    proof {
        assert(answers_of(rs) =~= values@);
    }
    while i < elems.len()
        invariant
            ts0 == *old(traversal_state),
            st0 == *old(state),
            st0.confident,
            slots_read(slots, sts, tss, rs, i as int),
            sts[0] == st0,
            tss[0] == ts0,
            sts[i as int] == *state,
            tss[i as int] == *traversal_state,
            values@ == answers_of(rs),
            slots == selems(elems@),
            slots.len() == elems@.len(),
            forall|j: int| 0 <= j < elems@.len() ==> #[trigger] slots[j] == selem(elems@[j]),
            i <= elems@.len(),
            traversal_state.wf(),
            traversal_state.same_module(&ts0),
            memo_extends_from(ts0, *traversal_state),
            state.functions == st0.functions,
            state.confident,
            state.deopt_path == st0.deopt_path && state.deopt_reason == st0.deopt_reason,
            values@.len() == i,
            fold_elems(slots.take(i as int)) is Some ==> fold_elems(slots.take(i as int)) == Some(
                svalues(values@),
            ),
            owed == (simple(path@) && const_fold(path@) is Some && height(path@) <= room_left(ts0)
                + 1 && remembers_no_refusal(ts0.seen@) && fits(path@, ts0.character_ceiling as nat)),
            path@ == SExpr::Array(slots),
            owed ==> remembers_no_refusal(traversal_state.seen@),
            owed ==> fold_elems(slots) is Some,
            owed ==> crate::semantics::simple_elems(slots),
            owed ==> crate::semantics::fits_elems(slots, ts0.character_ceiling as nat),
            owed ==> crate::semantics::elems_height(slots) <= room_left(ts0),
        decreases elems@.len() - i,
    {
        proof {
            assert(slots.take(i + 1).drop_last() =~= slots.take(i as int));
            assert(slots.take(i + 1).last() == slots[i as int]);
            crate::semantics::lemma_elems_at(slots, i as int);
            if i + 1 < slots.len() {
                crate::semantics::lemma_elems_at(slots, i + 1);
            } else {
                assert(slots.take(i + 1) =~= slots);
            }
        }
        match &elems[i] {
            Elem::Hole => {
                let ghost before = values@;
                values.push(EvaluateResultValue::Null);
                proof {
                    let ghost rs0 = rs;
                    sts = sts.push(*state);
                    tss = tss.push(*traversal_state);
                    rs = rs.push(Some(EvaluateResultValue::Null));
                    assert(answers_of(rs) =~= values@);
                    assert(slot_step(slots[i as int], sts[i as int], sts[i + 1], tss[i as int], tss[i + 1], rs[i as int]));
                    assert(slots_read(slots, sts, tss, rs, i + 1));
                    assert(values@.drop_last() =~= before);
                    assert(slots[i as int] == SElem::Hole);
                    assert(values@.last() == EvaluateResultValue::Null);
                    assert(svalue(EvaluateResultValue::Null) == SValue::Null);
                    assert(svalues(values@) == svalues(before).push(SValue::Null));
                }
            },
            Elem::Expr(e) => {
                let ghost ts_before = *traversal_state;
                let ghost st_before = *state;
                let got = evaluate_cached(e, state, traversal_state, fns);
                proof {
                    lemma_memo_extends_trans(ts0.seen@, ts_before.seen@, traversal_state.seen@);
                    assert(slots[i as int] == SElem::Expr(e@));
                    assert(cached(e@, sts[i as int], *state, tss[i as int], *traversal_state, got));
                    assert(slots_read(slots, sts, tss, rs, i as int));
                }
                match got {
                    None => {
                        return None;
                    },
                    Some(v) => {
                        if !state.confident {
                            return None;
                        }
                        let ghost before = values@;
                        values.push(v);
                        proof {
                            sts = sts.push(*state);
                            tss = tss.push(*traversal_state);
                            rs = rs.push(got);
                            assert(answers_of(rs) =~= values@);
                            assert(slot_step(slots[i as int], sts[i as int], sts[i + 1], tss[i as int], tss[i + 1], rs[i as int]));
                            assert(slots_read(slots, sts, tss, rs, i + 1));
                            assert(values@.drop_last() =~= before);
                            assert(slots[i as int] == SElem::Expr(e@));
                            assert(svalues(values@) == svalues(before).push(v@));
                        }
                    },
                }
            },
            Elem::Spread(_) => {
                proof {
                    assert(slots_read(slots, sts, tss, rs, i as int));
                }
                return deopt(path, state, SPREAD_ELEMENT);
            },
        }
        i = i + 1;
    }
    proof {
        assert(slots.take(elems@.len() as int) =~= slots);
        lemma_svalues(values@);
        assert(slots_read(slots, sts, tss, rs, i as int));
    }
    Some(EvaluateResultValue::Vec(values))
}

/// The text of the first `k` quasis with the string of each of `vals`
/// between them, or `None` where a value has no string.
pub open spec fn tpl_text(qs: Seq<Seq<char>>, vals: Seq<SValue>, k: nat) -> Option<Seq<char>>
    decreases k,
{
    if k == 0 {
        Some(Seq::empty())
    } else if k > qs.len() {
        None
    } else {
        match tpl_text(qs, vals, (k - 1) as nat) {
            Some(prefix) => {
                let text = prefix + qs[k - 1];
                if k - 1 < vals.len() {
                    match string_of(vals[k - 1]) {
                        Some(x) => Some(text + x),
                        None => None,
                    }
                } else {
                    Some(text)
                }
            },
            None => None,
        }
    }
}

/// Expressions as the slots they fill.
pub open spec fn expr_slots(es: Seq<SExpr>) -> Seq<SElem> {
    es.map_values(|x: SExpr| SElem::Expr(x))
}

/// More values past the first `k` quasis change nothing of their text.
proof fn lemma_tpl_text_more(qs: Seq<Seq<char>>, vals: Seq<SValue>, v: SValue, k: nat)
    requires
        k <= vals.len(),
    ensures
        tpl_text(qs, vals.push(v), k) == tpl_text(qs, vals, k),
    decreases k,
{
    if k > 0 {
        lemma_tpl_text_more(qs, vals, v, (k - 1) as nat);
    }
}

/// How many of `es` a template of quasis `qs` interpolates: one after each
/// quasi, as far as there are expressions.
pub open spec fn interpolated(qs: Seq<Seq<char>>, es: Seq<SExpr>) -> int {
    if es.len() < qs.len() {
        es.len() as int
    } else {
        qs.len() as int
    }
}

/// What a template literal answers where it answers: its expressions were
/// evaluated one after another from `st0`/`ts0`, each answering
/// confidently, and the text is its quasis with the string of each value
/// between them.
pub open spec fn tpl_read(
    qs: Seq<Seq<char>>,
    es: Seq<SExpr>,
    st0: EvaluationState,
    st1: EvaluationState,
    ts0: StateManager,
    ts1: StateManager,
    r: Option<EvaluateResultValue>,
) -> bool {
    let n = interpolated(qs, es);
    r is Some ==> exists|sts: Seq<EvaluationState>, tss: Seq<StateManager>, rs: Seq<Option<EvaluateResultValue>>|
        #[trigger] slots_read(expr_slots(es), sts, tss, rs, n) && sts[0] == st0
            && tss[0] == ts0 && st1 == sts[n] && ts1 == tss[n] && (tpl_text(
            qs,
            svalues(answers_of(rs)),
            qs.len(),
        ) matches Some(t) && sopt(r) == Some(SValue::Expr(SExpr::Lit(SLit::Str(t)))))
}

/// A template literal: its quasis, with the string of each interpolated value
/// between them, grown under the character ceiling.
pub fn evaluate_quasis(
    path: &Expr,
    quasis: &Vec<String>,
    exprs: &Vec<Expr>,
    state: &mut EvaluationState,
    traversal_state: &mut StateManager,
    fns: &FunctionMap,
) -> (r: Option<EvaluateResultValue>)
    requires
        old(traversal_state).wf(),
        old(state).confident,
        path@ == SExpr::Tpl(strings_view(quasis@), sexprs(exprs@)),
    ensures
        evaluated(path@, *old(state), *final(state), *old(traversal_state), *final(traversal_state), r),
        r matches Some(v) ==> v@ matches SValue::Expr(SExpr::Lit(SLit::Str(_))),
        settles(path@, *old(state), *final(state), *old(traversal_state), *final(traversal_state), r, room_left(*old(traversal_state)) + 1),
        tpl_read(strings_view(quasis@), sexprs(exprs@), *old(state), *final(state), *old(traversal_state), *final(traversal_state), r),
    decreases 2 * (old(traversal_state).spec_evaluation_ceiling() - old(traversal_state).evaluation_depth) + 1, 2int,
{
    let ghost ts0 = *traversal_state;
    let ghost st0 = *state;
    let ghost qs = strings_view(quasis@);
    let ghost es = sexprs(exprs@);
    let ghost ceiling = ts0.character_ceiling as nat;
    let ghost owed = simple(path@) && const_fold(path@) is Some && height(path@) <= room_left(ts0)
        + 1 && remembers_no_refusal(ts0.seen@) && fits(path@, ceiling);
    proof {
        crate::syntax::lemma_strings_view(quasis@);
        lemma_sexprs(exprs@);
    }
    let mut grown = GrownString::new("template literal");
    let mut i: usize = 0;
    let ghost slots = expr_slots(es);
    let ghost mut sts: Seq<EvaluationState> = seq![st0];
    let ghost mut tss: Seq<StateManager> = seq![ts0];
    let ghost mut rs: Seq<Option<EvaluateResultValue>> = Seq::empty();
    proof {
        assert(svalues(answers_of(rs)) =~= Seq::<SValue>::empty());
    }
    while i < quasis.len()
        invariant
            slots == expr_slots(es),
            slots_read(slots, sts, tss, rs, if i < es.len() { i as int } else { es.len() as int }),
            sts[0] == st0,
            tss[0] == ts0,
            sts.last() == *state,
            tss.last() == *traversal_state,
            tpl_text(qs, svalues(answers_of(rs)), i as nat) == Some(grown.text_view()),
            ts0 == *old(traversal_state),
            st0 == *old(state),
            st0.confident,
            i <= quasis@.len(),
            traversal_state.wf(),
            traversal_state.same_module(&ts0),
            memo_extends_from(ts0, *traversal_state),
            state.functions == st0.functions,
            state.confident,
            state.deopt_path == st0.deopt_path && state.deopt_reason == st0.deopt_reason,
            grown.wf(),
            qs == strings_view(quasis@),
            es == sexprs(exprs@),
            qs.len() == quasis@.len(),
            es.len() == exprs@.len(),
            forall|j: int| 0 <= j < quasis@.len() ==> #[trigger] qs[j] == quasis@[j]@,
            forall|j: int| 0 <= j < exprs@.len() ==> #[trigger] es[j] == exprs@[j]@,
            tpl_fold(qs, es, i as nat) is Some ==> tpl_fold(qs, es, i as nat) == Some(
                grown.text_view(),
            ),
            ceiling == ts0.character_ceiling as nat,
            owed == (simple(path@) && const_fold(path@) is Some && height(path@) <= room_left(ts0)
                + 1 && remembers_no_refusal(ts0.seen@) && fits(path@, ceiling)),
            path@ == SExpr::Tpl(qs, es),
            owed ==> remembers_no_refusal(traversal_state.seen@),
            owed ==> tpl_fold(qs, es, qs.len()) is Some,
            owed ==> utf16_len(tpl_fold(qs, es, qs.len())->0) <= ceiling,
            owed ==> crate::semantics::simple_exprs(es),
            owed ==> crate::semantics::fits_exprs(es, ceiling),
            owed ==> crate::semantics::exprs_height(es) <= room_left(ts0),
        decreases quasis@.len() - i,
    {
        proof {
            if owed {
                crate::semantics::lemma_tpl_prefix(qs, es, (i + 1) as nat, qs.len());
                crate::semantics::lemma_tpl_step(qs, es, (i + 1) as nat);
                grown.lemma_counted();
                crate::text::lemma_utf16_len_concat(tpl_fold(qs, es, i as nat)->0, qs[i as int]);
                if i < es.len() {
                    crate::semantics::lemma_exprs_at(es, i as int);
                    crate::text::lemma_utf16_len_concat(
                        tpl_fold(qs, es, i as nat)->0 + qs[i as int],
                        string_of(const_fold(es[i as int])->0)->0,
                    );
                }
            }
        }
        let ghost text0 = grown.text_view();
        let ghost vals_before = svalues(answers_of(rs));
        proof {
            lemma_svalues(answers_of(rs));
        }
        match grown.push(quasis[i].as_str(), path, state, traversal_state) {
            Ok(()) => {},
            Err(_) => {
                return None;
            },
        }
        if i < exprs.len() {
            let ghost ts_before = *traversal_state;
            let got = evaluate_cached(&exprs[i], state, traversal_state, fns);
            proof {
                lemma_memo_extends_trans(ts0.seen@, ts_before.seen@, traversal_state.seen@);
            }
            let ghost st_after = *state;
            let ghost ts_after = *traversal_state;
            let value = match got {
                Some(v) => v,
                None => {
                    return None;
                },
            };
            if !state.confident {
                return None;
            }
            proof {
                grown.lemma_counted();
            }
            match grown.push_string_of(&value, &exprs[i], state, traversal_state) {
                Ok(()) => {},
                Err(StringAppend::NoStringForm) => {
                    return deopt(&exprs[i], state, NOT_A_STRING);
                },
                Err(StringAppend::TooLarge(_)) => {
                    return None;
                },
            }
            proof {
                let vals0 = svalues(answers_of(rs));
                let a0 = answers_of(rs);
                lemma_svalues(a0);
                assert(rs.len() == i);
                assert(slots[i as int] == SElem::Expr(es[i as int]));
                assert(es[i as int] == exprs@[i as int]@);
                sts = sts.push(st_after);
                tss = tss.push(ts_after);
                rs = rs.push(got);
                assert(answers_of(rs) =~= a0.push(value));
                assert(answers_of(rs).drop_last() =~= a0);
                assert(answers_of(rs).last() == value);
                assert(svalues(answers_of(rs)) == svalues(a0).push(value@));
                lemma_svalues(answers_of(rs));
                assert(svalues(answers_of(rs))[i as int] == value@);
                lemma_tpl_text_more(qs, vals0, value@, i as nat);
                assert(slot_step(slots[i as int], sts[i as int], sts[i + 1], tss[i as int], tss[i + 1], rs[i as int]));
                assert(slots_read(slots, sts, tss, rs, i + 1));
            }
        }
        proof {
            assert(tpl_fold(qs, es, (i + 1) as nat) is Some ==> tpl_fold(qs, es, i as nat) is Some);
            let vals = svalues(answers_of(rs));
            lemma_svalues(answers_of(rs));
            if i < es.len() {
                assert(tpl_text(qs, vals, i as nat) == tpl_text(qs, vals_before, i as nat));
                assert(string_of(vals[i as int]) is Some);
                assert(grown.text_view() == text0 + qs[i as int] + string_of(vals[i as int])->0);
            } else {
                assert(vals == vals_before);
                assert(grown.text_view() == text0 + qs[i as int]);
            }
            assert(tpl_text(qs, vals, (i + 1) as nat) == Some(grown.text_view()));
        }
        i = i + 1;
    }
    proof {
        let n = interpolated(qs, es);
        assert(slots_read(slots, sts, tss, rs, n));
        assert(sts[n] == *state);
        assert(tss[n] == *traversal_state);
        assert(tpl_text(qs, svalues(answers_of(rs)), qs.len()) == Some(grown.text_view()));
    }
    let text = grown.into_text();
    let r = Some(EvaluateResultValue::Expr(Expr::Lit(Lit::Str(text))));
    proof {
        assert(sopt(r) == Some(SValue::Expr(SExpr::Lit(SLit::Str(text@)))));
        let n = interpolated(qs, es);
        assert(slots_read(expr_slots(es), sts, tss, rs, n) && sts[0] == *old(state) && tss[0] == *old(traversal_state)
            && *state == sts[n] && *traversal_state == tss[n]);
        assert(tpl_text(qs, svalues(answers_of(rs)), qs.len()) matches Some(t) && sopt(r) == Some(SValue::Expr(SExpr::Lit(SLit::Str(t)))));
        assert(tpl_read(qs, es, *old(state), *state, *old(traversal_state), *traversal_state, r));
    }
    r
}



/// `a === b` for two evaluated values, where both are primitives.
pub fn strict_equals(a: &EvaluateResultValue, b: &EvaluateResultValue) -> (r: Option<bool>)
    ensures
        r == strictly_equal(a@, b@),
{
    proof {
        reveal_strlit("NaN");
    }
    let undefined_a = evaluate_result_is_nullish(a) && !is_null(a);
    let undefined_b = evaluate_result_is_nullish(b) && !is_null(b);
    match (a, b) {
        (EvaluateResultValue::Expr(Expr::Lit(x)), EvaluateResultValue::Expr(Expr::Lit(y))) => {
            match (x, y) {
                (Lit::Str(s), Lit::Str(t)) => Some(*s == *t),
                (Lit::Num(s), Lit::Num(t)) => Some(*s == *t && !crate::coerce::str_eq(s.as_str(), "NaN")),
                (Lit::Bool(p), Lit::Bool(q)) => Some(*p == *q),
                (Lit::Null, Lit::Null) => Some(true),
                (Lit::BigInt(_), _) | (Lit::Regex(_), _) | (_, Lit::BigInt(_)) | (_, Lit::Regex(_)) => None,
                _ => Some(false),
            }
        },
        (EvaluateResultValue::Expr(Expr::Lit(x)), EvaluateResultValue::Expr(Expr::Ident(_))) => {
            match x {
                Lit::BigInt(_) | Lit::Regex(_) => None,
                _ => if undefined_b {
                    Some(false)
                } else {
                    None
                },
            }
        },
        (EvaluateResultValue::Expr(Expr::Ident(_)), EvaluateResultValue::Expr(Expr::Lit(y))) => {
            match y {
                Lit::BigInt(_) | Lit::Regex(_) => None,
                _ => if undefined_a {
                    Some(false)
                } else {
                    None
                },
            }
        },
        (EvaluateResultValue::Expr(Expr::Ident(_)), EvaluateResultValue::Expr(Expr::Ident(_))) => {
            if undefined_a && undefined_b {
                Some(true)
            } else {
                None
            }
        },
        _ => None,
    }
}

fn is_null(v: &EvaluateResultValue) -> (r: bool)
    ensures
        r == (v@ == SValue::Expr(SExpr::Lit(SLit::Null))),
{
    match v {
        EvaluateResultValue::Expr(Expr::Lit(Lit::Null)) => true,
        _ => false,
    }
}

/// What `===`, `!==` or `+` answers of the values `lv` and `rv` its operands
/// evaluated to, from the state `st` the second evaluation left: a strict
/// comparison answers whether they are equal, or refuses values it cannot
/// compare; two numbers are not added; a concatenation that answers is
/// the two values' strings joined.
pub open spec fn pair_read(
    path: SExpr,
    op: BinaryOp,
    lv: SValue,
    rv: SValue,
    st: EvaluationState,
    st1: EvaluationState,
    r: Option<EvaluateResultValue>,
) -> bool {
    match op {
        BinaryOp::StrictEq => match strictly_equal(lv, rv) {
            Some(b) => sopt(r) == Some(SValue::Expr(SExpr::Lit(SLit::Bool(b)))) && st1 == st,
            None => r is None && deopted(st, st1, path, NOT_COMPARABLE@),
        },
        BinaryOp::StrictNotEq => match strictly_equal(lv, rv) {
            Some(b) => sopt(r) == Some(SValue::Expr(SExpr::Lit(SLit::Bool(!b)))) && st1 == st,
            None => r is None && deopted(st, st1, path, NOT_COMPARABLE@),
        },
        _ => {
            &&& number_spelling(lv) is Some && number_spelling(rv) is Some ==> r is None && deopted(
                st,
                st1,
                path,
                NO_ARITHMETIC@,
            )
            &&& r is Some ==> sopt(r) == concatenation(lv, rv)
        },
    }
}

/// What a binary operator answers from what its operands evaluated to: there
/// is an evaluation of `left` from `st0`/`ts0`, and where it answered
/// confidently, `&&`, `||` and `??` answer its value or evaluate `right`
/// from the state it left as its value says; the other operators evaluate
/// `right` from there and answer as `pair_read` says of both values.
pub open spec fn operands_read(
    path: SExpr,
    op: BinaryOp,
    left: SExpr,
    right: SExpr,
    st0: EvaluationState,
    st1: EvaluationState,
    ts0: StateManager,
    ts1: StateManager,
    r: Option<EvaluateResultValue>,
) -> bool {
    exists|st_l: EvaluationState, ts_l: StateManager, l: Option<EvaluateResultValue>|
        #[trigger] cached(left, st0, st_l, ts0, ts_l, l) && (st_l.confident && l is Some ==> {
            let lv = svalue(l->0);
            match op {
                BinaryOp::LogicalAnd => match to_boolean(lv) {
                    Some(true) => cached(right, st_l, st1, ts_l, ts1, r),
                    Some(false) => sopt(r) == Some(lv) && st1 == st_l && ts1 == ts_l,
                    None => r is None && deopted(st_l, st1, left, NO_TRUTHINESS@) && ts1 == ts_l,
                },
                BinaryOp::LogicalOr => match to_boolean(lv) {
                    Some(false) => cached(right, st_l, st1, ts_l, ts1, r),
                    Some(true) => sopt(r) == Some(lv) && st1 == st_l && ts1 == ts_l,
                    None => r is None && deopted(st_l, st1, left, NO_TRUTHINESS@) && ts1 == ts_l,
                },
                BinaryOp::Nullish => if nullish(lv) {
                    cached(right, st_l, st1, ts_l, ts1, r)
                } else {
                    sopt(r) == Some(lv) && st1 == st_l && ts1 == ts_l
                },
                _ => exists|st_r: EvaluationState, ts_r: StateManager, rr: Option<EvaluateResultValue>|
                    #[trigger] cached(right, st_l, st_r, ts_l, ts_r, rr) && (st_r.confident && rr is Some
                        ==> pair_read(path, op, lv, svalue(rr->0), st_r, st1, r)),
            }
        })
}

/// A binary operator over its evaluated operands: the logical operators pick
/// an operand by the left one's truthiness or nullishness, `===` and `!==`
/// compare primitives, and `+` joins two operands as strings where either is
/// not a number.
pub fn evaluate_binary(
    path: &Expr,
    op: BinaryOp,
    left: &Expr,
    right: &Expr,
    state: &mut EvaluationState,
    traversal_state: &mut StateManager,
    fns: &FunctionMap,
) -> (r: Option<EvaluateResultValue>)
    requires
        old(traversal_state).wf(),
        old(state).confident,
        path@ == SExpr::Bin(op, Box::new(left@), Box::new(right@)),
    ensures
        evaluated(path@, *old(state), *final(state), *old(traversal_state), *final(traversal_state), r),
        settles(path@, *old(state), *final(state), *old(traversal_state), *final(traversal_state), r, room_left(*old(traversal_state)) + 1),
        op != BinaryOp::Other ==> operands_read(
            path@,
            op,
            left@,
            right@,
            *old(state),
            *final(state),
            *old(traversal_state),
            *final(traversal_state),
            r,
        ),
    decreases 2 * (old(traversal_state).spec_evaluation_ceiling() - old(traversal_state).evaluation_depth) + 1, 2int,
{
    match op {
        BinaryOp::Other => {
            let reason = unsupported_operator("binary");
            return deopt(path, state, reason.as_str());
        },
        _ => {},
    }
    let ghost ts0 = *traversal_state;
    let got_l = evaluate_cached(left, state, traversal_state, fns);
    let ghost st_l = *state;
    proof {
        assert(cached(left@, *old(state), st_l, ts0, *traversal_state, got_l));
    }
    let l = match got_l {
        Some(v) => v,
        None => {
            return None;
        },
    };
    if !state.confident {
        return None;
    }
    let ghost ts1 = *traversal_state;
    match op {
        BinaryOp::LogicalAnd => match evaluate_result_to_js_boolean(&l) {
            Some(true) => {
                let r = evaluate_cached(right, state, traversal_state, fns);
                proof {
                    lemma_memo_extends_trans(ts0.seen@, ts1.seen@, traversal_state.seen@);
                }
                return r;
            },
            Some(false) => {
                return Some(l);
            },
            None => {
                return deopt(left, state, NO_TRUTHINESS);
            },
        },
        BinaryOp::LogicalOr => match evaluate_result_to_js_boolean(&l) {
            Some(false) => {
                let r = evaluate_cached(right, state, traversal_state, fns);
                proof {
                    lemma_memo_extends_trans(ts0.seen@, ts1.seen@, traversal_state.seen@);
                }
                return r;
            },
            Some(true) => {
                return Some(l);
            },
            None => {
                return deopt(left, state, NO_TRUTHINESS);
            },
        },
        BinaryOp::Nullish => {
            if evaluate_result_is_nullish(&l) {
                let r = evaluate_cached(right, state, traversal_state, fns);
                proof {
                    lemma_memo_extends_trans(ts0.seen@, ts1.seen@, traversal_state.seen@);
                }
                return r;
            }
            return Some(l);
        },
        _ => {},
    }
    let got_r = evaluate_cached(right, state, traversal_state, fns);
    proof {
        assert(cached(right@, st_l, *state, ts1, *traversal_state, got_r));
    }
    let r = match got_r {
        Some(v) => v,
        None => {
            proof {
                lemma_memo_extends_trans(ts0.seen@, ts1.seen@, traversal_state.seen@);
            }
            return None;
        },
    };
    proof {
        lemma_memo_extends_trans(ts0.seen@, ts1.seen@, traversal_state.seen@);
    }
    if !state.confident {
        return None;
    }
    match op {
        BinaryOp::StrictEq => match strict_equals(&l, &r) {
            Some(b) => Some(EvaluateResultValue::Expr(Expr::Lit(Lit::Bool(b)))),
            None => deopt(path, state, NOT_COMPARABLE),
        },
        BinaryOp::StrictNotEq => match strict_equals(&l, &r) {
            Some(b) => Some(EvaluateResultValue::Expr(Expr::Lit(Lit::Bool(!b)))),
            None => deopt(path, state, NOT_COMPARABLE),
        },
        _ => {
            if number_of(&l).is_some() && number_of(&r).is_some() {
                return deopt(path, state, NO_ARITHMETIC);
            }
            proof {
                if string_of(l@) is Some && string_of(r@) is Some {
                    crate::text::lemma_utf16_len_concat(string_of(l@)->0, string_of(r@)->0);
                }
            }
            let mut grown = GrownString::new("string concatenation");
            proof {
                grown.lemma_counted();
                assert(utf16_len(Seq::<char>::empty()) == 0);
            }
            match grown.push_string_of(&l, path, state, traversal_state) {
                Ok(()) => {},
                Err(StringAppend::NoStringForm) => {
                    return deopt(left, state, NOT_A_STRING);
                },
                Err(StringAppend::TooLarge(_)) => {
                    return None;
                },
            }
            proof {
                grown.lemma_counted();
            }
            match grown.push_string_of(&r, path, state, traversal_state) {
                Ok(()) => {},
                Err(StringAppend::NoStringForm) => {
                    return deopt(right, state, NOT_A_STRING);
                },
                Err(StringAppend::TooLarge(_)) => {
                    return None;
                },
            }
            Some(EvaluateResultValue::Expr(Expr::Lit(Lit::Str(grown.into_text()))))
        },
    }
}

/// What a found property reads as: its value, or `undefined` where nothing
/// carries the key.
fn found_value(found: Found, path: &Expr, state: &mut EvaluationState) -> (r: Option<
    EvaluateResultValue,
>)
    requires
        old(state).confident,
    ensures
        match found {
            Found::Value(e) => sopt(r) == Some(SValue::Expr(e@)) && *final(state) == *old(state),
            Found::Missing => sopt(r) == Some(undefined_value()) && *final(state) == *old(state),
            Found::Refused(reason) => r is None && deopted(*old(state), *final(state), path@, reason@),
        },
{
    match found {
        Found::Value(e) => Some(EvaluateResultValue::Expr(e)),
        Found::Missing => Some(js_undefined()),
        Found::Refused(reason) => deopt(path, state, reason),
    }
}

/// A list's length, as the number it is.
fn length_value(len: usize) -> (r: EvaluateResultValue)
    ensures
        r@ == SValue::Expr(SExpr::Lit(SLit::Num(spec_decimal(len as nat)))),
{
    EvaluateResultValue::Expr(Expr::Lit(Lit::Num(decimal(len))))
}

/// Reads `key` of an evaluated value: an array's elements and length, an
/// object's keys, a string's length, a function map's functions, and an
/// environment's entries (an entry holding a function reads as the whole
/// environment).
pub fn read_property(
    object: &EvaluateResultValue,
    key: &String,
    path: &Expr,
    state: &mut EvaluationState,
) -> (r: Option<EvaluateResultValue>)
    requires
        old(state).confident,
    ensures
        match reading(object@, key@) {
            Reading::Value(v) => sopt(r) == Some(v) && *final(state) == *old(state),
            Reading::Refused(reason) => r is None && deopted(
                *old(state),
                *final(state),
                path@,
                reason,
            ),
        },
{
    proof {
        reveal_strlit("length");
    }
    let is_length = crate::coerce::str_eq(key.as_str(), "length");
    match object {
        EvaluateResultValue::Expr(Expr::Array(elems)) => {
            proof {
                lemma_selems(elems@);
                assert(object@ == SValue::Expr(SExpr::Array(selems(elems@))));
            }
            if is_length {
                return Some(length_value(elems.len()));
            }
            match index_read(key.as_str(), elems.len()) {
                IndexRead::At(k) => found_value(slot_value(elems, k), path, state),
                IndexRead::Past => Some(js_undefined()),
                IndexRead::NotAnIndex => deopt(path, state, MEMBER_NOT_RESOLVED),
            }
        },
        EvaluateResultValue::Vec(items) => {
            proof {
                lemma_svalues(items@);
                assert(object@ == SValue::Vec(svalues(items@)));
            }
            if is_length {
                return Some(length_value(items.len()));
            }
            match index_read(key.as_str(), items.len()) {
                IndexRead::At(k) => match &items[k] {
                    EvaluateResultValue::Null => Some(js_undefined()),
                    item => Some(copy_value(item)),
                },
                IndexRead::Past => Some(js_undefined()),
                IndexRead::NotAnIndex => deopt(path, state, MEMBER_NOT_RESOLVED),
            }
        },
        EvaluateResultValue::Expr(Expr::Object(props)) => found_value(
            lookup_key(props, key),
            path,
            state,
        ),
        EvaluateResultValue::ObjectMap(props) => found_value(lookup_key(props, key), path, state),
        EvaluateResultValue::Expr(Expr::Lit(Lit::Str(text))) => {
            if is_length {
                let units = crate::text::utf16_length(text.as_str());
                if units <= usize::MAX as u128 {
                    return Some(length_value(units as usize));
                }
            }
            deopt(path, state, MEMBER_NOT_RESOLVED)
        },
        EvaluateResultValue::FunctionConfigMap(entries) => {
            let ghost es = sconfig_entries(entries@);
            let ghost p = |e: (Seq<char>, bool, Seq<Seq<char>>)| e.0 == key@;
            proof {
                lemma_sconfig_entries(entries@);
            }
            let mut i: usize = 0;
            while i < entries.len()
                invariant
                    i <= entries@.len(),
                    state.confident,
                    *state == *old(state),
                    es == sconfig_entries(entries@),
                    object@ == SValue::FunctionConfigMap(es),
                    es.len() == entries@.len(),
                    p == (|e: (Seq<char>, bool, Seq<Seq<char>>)| e.0 == key@),
                    forall|j: int|
                        0 <= j < entries@.len() ==> #[trigger] es[j] == (
                            entries@[j].key@,
                            entries@[j].config.is_marker,
                            strings_view(entries@[j].config.marker_keys@),
                        ),
                    forall|j: int| 0 <= j < i ==> !p(#[trigger] es[j]),
                decreases entries@.len() - i,
            {
                if crate::coerce::str_eq(entries[i].key.as_str(), key.as_str()) {
                    proof {
                        assert(p(es[i as int]));
                        lemma_first_index(es, p, i as int);
                        assert(object@ == SValue::FunctionConfigMap(es));
                    }
                    let found = EvaluateResultValue::FunctionConfig(entries[i].config.copy());
                    proof {
                        assert(found@ == SValue::FunctionConfig(es[i as int].1, es[i as int].2));
                    }
                    return Some(found);
                }
                i = i + 1;
            }
            proof {
                lemma_first_index(es, p, i as int);
            }
            deopt(path, state, MEMBER_NOT_RESOLVED)
        },
        EvaluateResultValue::EnvObject(entries) => {
            let ghost es = senv_entries(entries@);
            let ghost p = |e: (Seq<char>, Option<SExpr>)| e.0 == key@;
            proof {
                lemma_senv_entries(entries@);
            }
            let mut i: usize = 0;
            while i < entries.len()
                invariant
                    i <= entries@.len(),
                    state.confident,
                    *state == *old(state),
                    es == senv_entries(entries@),
                    object@ == SValue::EnvObject(es),
                    es.len() == entries@.len(),
                    p == (|e: (Seq<char>, Option<SExpr>)| e.0 == key@),
                    forall|j: int| 0 <= j < entries@.len() ==> #[trigger] es[j] == senv_entry(entries@[j]),
                    forall|j: int| 0 <= j < i ==> !p(#[trigger] es[j]),
                decreases entries@.len() - i,
            {
                if crate::coerce::str_eq(entries[i].key.as_str(), key.as_str()) {
                    proof {
                        assert(p(es[i as int]));
                        lemma_first_index(es, p, i as int);
                    }
                    return match &entries[i].value {
                        Some(x) => Some(EvaluateResultValue::Expr(copy_expr(x))),
                        None => Some(copy_value(object)),
                    };
                }
                i = i + 1;
            }
            proof {
                lemma_first_index(es, p, i as int);
            }
            deopt(path, state, ENV_PROPERTY_NOT_FOUND)
        },
        _ => deopt(path, state, MEMBER_NOT_RESOLVED),
    }
}

/// What reading the key `key` off the object value `o` answers, from the
/// state `st` the evaluation was in: the value read, with the state as it
/// was, or the refusal of `path` for the reason the reading gives.
pub open spec fn read_off(
    path: SExpr,
    o: SValue,
    key: Seq<char>,
    st: EvaluationState,
    st1: EvaluationState,
    r: Option<EvaluateResultValue>,
) -> bool {
    match reading(o, key) {
        Reading::Value(v) => sopt(r) == Some(v) && st1 == st,
        Reading::Refused(reason) => r is None && deopted(st, st1, path, reason),
    }
}

/// What the key a computed member names answers, where it evaluated
/// confidently to `kv` in the state `st`: the reading of the key's text off
/// the object value `o`, or the refusal of `path` where the value names no
/// key.
pub open spec fn read_off_computed(
    path: SExpr,
    o: SValue,
    kv: SValue,
    st: EvaluationState,
    st1: EvaluationState,
    r: Option<EvaluateResultValue>,
) -> bool {
    match kv {
        SValue::Expr(ke) => match property_key(ke) {
            Some(name) => read_off(path, o, name, st, st1, r),
            None => r is None && deopted(st, st1, path, MEMBER_NOT_RESOLVED@),
        },
        SValue::ThemeRef(_, _, _) => r is None && deopted(st, st1, path, THEME_IMPORT_KEY_AS_OBJECT_KEY@),
        _ => r is None && deopted(st, st1, path, MEMBER_NOT_RESOLVED@),
    }
}

/// What a member expression `path` of `obj` and `prop` answers from what its
/// object evaluated to: there is an evaluation of `obj` from `st0`/`ts0`, and
/// where it answered confidently, the key `prop` names is read off its value
/// (a computed key evaluated next, from the state the object left), with the
/// module as the last evaluation left it.
pub open spec fn member_answer(
    path: SExpr,
    obj: SExpr,
    prop: SMemberProp,
    st0: EvaluationState,
    st1: EvaluationState,
    ts0: StateManager,
    ts1: StateManager,
    r: Option<EvaluateResultValue>,
) -> bool {
    exists|st_o: EvaluationState, ts_o: StateManager, o: Option<EvaluateResultValue>|
        #[trigger] cached(obj, st0, st_o, ts0, ts_o, o) && (st_o.confident && o is Some ==> match prop {
            SMemberProp::Ident(name) => read_off(path, svalue(o->0), name, st_o, st1, r) && ts1 == ts_o,
            SMemberProp::Computed(k) => exists|st_k: EvaluationState, ts_k: StateManager, kv: Option<EvaluateResultValue>|
                #[trigger] cached(*k, st_o, st_k, ts_o, ts_k, kv) && (st_k.confident && kv is Some
                    ==> read_off_computed(path, svalue(o->0), svalue(kv->0), st_k, st1, r) && ts1 == ts_k),
            SMemberProp::PrivateName(_) => r is None && deopted(st_o, st1, path, UNEXPECTED_MEMBER_LOOKUP@)
                && ts1 == ts_o,
        })
}

/// A member expression: the object evaluated, the key it names read off it.
pub fn evaluate_member(
    path: &Expr,
    obj: &Expr,
    prop: &MemberProp,
    state: &mut EvaluationState,
    traversal_state: &mut StateManager,
    fns: &FunctionMap,
) -> (r: Option<EvaluateResultValue>)
    requires
        old(traversal_state).wf(),
        old(state).confident,
        path@ == SExpr::Member(Box::new(obj@), smember(*prop)),
    ensures
        evaluated(path@, *old(state), *final(state), *old(traversal_state), *final(traversal_state), r),
        settles(path@, *old(state), *final(state), *old(traversal_state), *final(traversal_state), r, room_left(*old(traversal_state)) + 1),
        member_answer(path@, obj@, smember(*prop), *old(state), *final(state), *old(traversal_state), *final(traversal_state), r),
    decreases 2 * (old(traversal_state).spec_evaluation_ceiling() - old(traversal_state).evaluation_depth) + 1, 2int,
{
    let ghost ts0 = *traversal_state;
    let got = evaluate_cached(obj, state, traversal_state, fns);
    let ghost st_o = *state;
    let ghost ts_o = *traversal_state;
    let ghost o = got;
    proof {
        assert(cached(obj@, *old(state), st_o, *old(traversal_state), ts_o, o));
    }
    let object = match got {
        Some(v) => v,
        None => {
            return None;
        },
    };
    if !state.confident {
        return None;
    }
    let ghost ts1 = *traversal_state;
    let key = match prop {
        MemberProp::Ident(name) => name.clone(),
        MemberProp::PrivateName(_) => {
            return deopt(path, state, UNEXPECTED_MEMBER_LOOKUP);
        },
        MemberProp::Computed(e) => {
            let value = evaluate_cached(e, state, traversal_state, fns);
            let ghost st_k = *state;
            let ghost ts_k = *traversal_state;
            let ghost kv = value;
            proof {
                assert(cached(e@, st_o, st_k, ts_o, ts_k, kv));
                assert(smember(*prop) == SMemberProp::Computed(Box::new(e@)));
            }
            proof {
                lemma_memo_extends_trans(ts0.seen@, ts1.seen@, traversal_state.seen@);
            }
            let value = match value {
                Some(v) => v,
                None => {
                    return None;
                },
            };
            if !state.confident {
                return None;
            }
            match value {
                EvaluateResultValue::Expr(k) => match property_key_of(&k) {
                    Some(t) => t,
                    None => {
                        return deopt(path, state, MEMBER_NOT_RESOLVED);
                    },
                },
                EvaluateResultValue::ThemeRef(_) => {
                    return deopt(path, state, THEME_IMPORT_KEY_AS_OBJECT_KEY);
                },
                _ => {
                    return deopt(path, state, MEMBER_NOT_RESOLVED);
                },
            }
        },
    };
    read_property(&object, &key, path, state)
}

/// How an evaluated property value is written into an object: as an
/// expression, as nothing (a theme reference, which the object does not
/// carry), or refused for a reason.
pub enum Written {
    Expr(Expr),
    Skipped,
    Refused(&'static str),
}

/// The form an evaluated value is written into an object in.
pub fn written_value(value: &EvaluateResultValue) -> (r: Written)
    ensures
        match written_form(value@) {
            WrittenForm::Expr(x) => r matches Written::Expr(e) && e@ == x,
            WrittenForm::Skipped => r is Skipped,
            WrittenForm::Refused(reason) => r matches Written::Refused(s) && s@ == reason,
        },
{
    match value {
        EvaluateResultValue::Expr(e) => Written::Expr(copy_expr(e)),
        EvaluateResultValue::Vec(items) => match evaluate_result_vec_to_array_expr(items) {
            Some(e) => Written::Expr(e),
            None => Written::Refused(ILLEGAL_PROP_ARRAY_VALUE),
        },
        EvaluateResultValue::ThemeRef(_) => Written::Skipped,
        _ => match function_fold_to_object(value) {
            Some(props) => Written::Expr(Expr::Object(props)),
            None => Written::Refused(VALUE_MUST_BE_STATIC),
        },
    }
}

/// The key a property names, evaluating a computed one.
fn evaluate_key(
    key: &PropName,
    state: &mut EvaluationState,
    traversal_state: &mut StateManager,
    fns: &FunctionMap,
) -> (r: Option<String>)
    requires
        old(traversal_state).wf(),
        old(state).confident,
    ensures
        final(traversal_state).same_module(&*old(traversal_state)),
        final(traversal_state).wf(),
        memo_extends_from(*old(traversal_state), *final(traversal_state)),
        final(state).functions == old(state).functions,
        r is Some <==> final(state).confident,
        !final(state).confident ==> final(state).deopt_path is Some && final(state).deopt_reason is Some,
        final(state).confident ==> final(state).deopt_path == old(state).deopt_path
            && final(state).deopt_reason == old(state).deopt_reason,
        r matches Some(t) ==> (const_key(spropname(*key)) matches Some(k) ==> k == t@),
        old(state).confident && remembers_no_refusal(old(traversal_state).seen@)
            && crate::semantics::simple_key(spropname(*key)) && crate::semantics::key_height(
            spropname(*key),
        ) <= room_left(*old(traversal_state)) && crate::semantics::fits_key(
            spropname(*key),
            old(traversal_state).character_ceiling as nat,
        ) && const_key(spropname(*key)) is Some ==> r is Some && remembers_no_refusal(
            final(traversal_state).seen@,
        ),
    decreases 2 * (old(traversal_state).spec_evaluation_ceiling() - old(traversal_state).evaluation_depth) + 1, 0int,
{
    match key {
        PropName::Computed(e) => {
            let value = match evaluate_cached(e, state, traversal_state, fns) {
                Some(v) => v,
                None => {
                    return None;
                },
            };
            if !state.confident {
                return None;
            }
            match &value {
                EvaluateResultValue::Expr(k) => match expr_string(k) {
                    Some(t) => Some(t),
                    None => {
                        deopt(e, state, NOT_A_STRING);
                        None
                    },
                },
                _ => {
                    deopt(e, state, NOT_A_STRING);
                    None
                },
            }
        },
        _ => key_name(key),
    }
}

/// One key-value property of an object literal set into `out`: its key and
/// its value evaluated, and the value written as the object holds it. It
/// answers whether the evaluation stayed confident.
fn set_key_value(
    key: &PropName,
    value_expr: &Expr,
    out: &mut Vec<Prop>,
    state: &mut EvaluationState,
    traversal_state: &mut StateManager,
    fns: &FunctionMap,
) -> (ok: bool)
    requires
        old(traversal_state).wf(),
        old(state).confident,
    ensures
        final(traversal_state).same_module(&*old(traversal_state)),
        final(traversal_state).wf(),
        memo_extends_from(*old(traversal_state), *final(traversal_state)),
        final(state).functions == old(state).functions,
        ok <==> final(state).confident,
        !ok ==> final(state).deopt_path is Some && final(state).deopt_reason is Some,
        ok ==> final(state).deopt_path == old(state).deopt_path && final(state).deopt_reason
            == old(state).deopt_reason,
        ok ==> (fold_prop(sprops(old(out)@), SProp::KeyValue(spropname(*key), value_expr@)) is Some
            ==> fold_prop(sprops(old(out)@), SProp::KeyValue(spropname(*key), value_expr@)) == Some(
            sprops(final(out)@),
        )),
        remembers_no_refusal(old(traversal_state).seen@) && crate::semantics::simple_key(
            spropname(*key),
        ) && simple(value_expr@) && crate::semantics::key_height(spropname(*key)) <= room_left(
            *old(traversal_state),
        ) && height(value_expr@) <= room_left(*old(traversal_state)) && crate::semantics::fits_key(
            spropname(*key),
            old(traversal_state).character_ceiling as nat,
        ) && fits(value_expr@, old(traversal_state).character_ceiling as nat) && fold_prop(
            sprops(old(out)@),
            SProp::KeyValue(spropname(*key), value_expr@),
        ) is Some ==> ok && remembers_no_refusal(final(traversal_state).seen@),
    decreases 2 * (old(traversal_state).spec_evaluation_ceiling() - old(traversal_state).evaluation_depth) + 1, 1int,
{
    let ghost ts0 = *traversal_state;
    let key_text = evaluate_key(key, state, traversal_state, fns);
    let ghost ts_mid = *traversal_state;
    let key_text = match key_text {
        Some(t) => t,
        None => {
            return false;
        },
    };
    let value = evaluate_cached(value_expr, state, traversal_state, fns);
    proof {
        lemma_memo_extends_trans(ts0.seen@, ts_mid.seen@, traversal_state.seen@);
    }
    let value = match value {
        Some(v) => v,
        None => {
            return false;
        },
    };
    if !state.confident {
        return false;
    }
    match written_value(&value) {
        Written::Expr(x) => set_prop(out, key_text, x),
        Written::Skipped => {},
        Written::Refused(reason) => {
            deopt(value_expr, state, reason);
            return false;
        },
    }
    true
}

/// An object literal: each property's key and value evaluated and set in
/// order, a spread's properties set in its place; a method is refused.
#[verifier::rlimit(70)]
pub fn evaluate_object(
    path: &Expr,
    props: &Vec<Prop>,
    state: &mut EvaluationState,
    traversal_state: &mut StateManager,
    fns: &FunctionMap,
) -> (r: Option<EvaluateResultValue>)
    requires
        old(traversal_state).wf(),
        old(state).confident,
        path@ == SExpr::Object(sprops(props@)),
    ensures
        evaluated(path@, *old(state), *final(state), *old(traversal_state), *final(traversal_state), r),
        r matches Some(v) ==> v@ is Expr && v@->Expr_0 is Object,
        settles(path@, *old(state), *final(state), *old(traversal_state), *final(traversal_state), r, room_left(*old(traversal_state)) + 1),
    decreases 2 * (old(traversal_state).spec_evaluation_ceiling() - old(traversal_state).evaluation_depth) + 1, 2int,
{
    let ghost ts0 = *traversal_state;
    let ghost st0 = *state;
    let ghost sp = sprops(props@);
    let ghost ceiling = ts0.character_ceiling as nat;
    let ghost owed = simple(path@) && const_fold(path@) is Some && height(path@) <= room_left(ts0)
        + 1 && remembers_no_refusal(ts0.seen@) && fits(path@, ceiling);
    proof {
        lemma_sprops(props@);
        assert(sp.take(0) =~= Seq::<SProp>::empty());
        assert(sprops(Seq::<Prop>::empty()) =~= Seq::<SProp>::empty());
    }
    let mut out: Vec<Prop> = Vec::new();
    let mut i: usize = 0;
    while i < props.len()
        invariant
            sp == sprops(props@),
            sp.len() == props@.len(),
            forall|j: int| 0 <= j < props@.len() ==> #[trigger] sp[j] == sprop(props@[j]),
            fold_props(sp.take(i as int)) is Some ==> fold_props(sp.take(i as int)) == Some(
                sprops(out@),
            ),
            ts0 == *old(traversal_state),
            st0 == *old(state),
            st0.confident,
            i <= props@.len(),
            traversal_state.wf(),
            traversal_state.same_module(&ts0),
            memo_extends_from(ts0, *traversal_state),
            state.functions == st0.functions,
            state.confident,
            state.deopt_path == st0.deopt_path && state.deopt_reason == st0.deopt_reason,
            ceiling == ts0.character_ceiling as nat,
            owed == (simple(path@) && const_fold(path@) is Some && height(path@) <= room_left(ts0)
                + 1 && remembers_no_refusal(ts0.seen@) && fits(path@, ceiling)),
            path@ == SExpr::Object(sp),
            owed ==> remembers_no_refusal(traversal_state.seen@),
            owed ==> fold_props(sp) is Some,
            owed ==> crate::semantics::simple_props(sp),
            owed ==> crate::semantics::fits_props(sp, ceiling),
            owed ==> crate::semantics::props_height(sp) <= room_left(ts0),
        decreases props@.len() - i,
    {
        let ghost ts_before = *traversal_state;
        let ghost acc0 = sprops(out@);
        proof {
            assert(sp.take(i + 1).drop_last() =~= sp.take(i as int));
            assert(sp.take(i + 1).last() == sp[i as int]);
            if owed {
                crate::semantics::lemma_props_at(sp, i as int);
            }
        }
        match &props[i] {
            Prop::Method(_) => {
                return deopt(path, state, OBJECT_METHOD);
            },
            Prop::Spread(e) => {
                let value = evaluate_cached(e, state, traversal_state, fns);
                proof {
                    lemma_memo_extends_trans(ts0.seen@, ts_before.seen@, traversal_state.seen@);
                }
                let value = match value {
                    Some(v) => v,
                    None => {
                        return None;
                    },
                };
                if !state.confident {
                    return None;
                }
                let ghost spread_value = value@;
                let spread = match value {
                    EvaluateResultValue::Expr(Expr::Object(ps)) => ps,
                    other => match function_fold_to_object(&other) {
                        Some(ps) => ps,
                        None => {
                            return deopt(e, state, SPREAD_MUST_BE_OBJECT);
                        },
                    },
                };
                let ghost sps = sprops(spread@);
                proof {
                    lemma_sprops(spread@);
                    assert(sps.take(0) =~= Seq::<SProp>::empty());
                    assert(fold_prop(acc0, sp[i as int]) is Some ==> fold_prop(acc0, sp[i as int]) == merge_spread(acc0, sps));
                    if owed {
                        assert(fold_props(sp.take(i as int)) == Some(acc0));
                        assert(merge_spread(acc0, sps) is Some);
                    }
                }
                let mut j: usize = 0;
                while j < spread.len()
                    invariant
                        sps == sprops(spread@),
                        sps.len() == spread@.len(),
                        forall|k: int| 0 <= k < spread@.len() ==> #[trigger] sps[k] == sprop(spread@[k]),
                        merge_spread(acc0, sps.take(j as int)) is Some ==> merge_spread(acc0, sps.take(j as int)) == Some(sprops(out@)),
                        fold_prop(acc0, sp[i as int]) is Some ==> fold_prop(acc0, sp[i as int]) == merge_spread(acc0, sps),
                        fold_props(sp.take(i + 1)) is Some ==> fold_props(sp.take(i as int)) == Some(acc0),
                        fold_props(sp.take(i + 1)) == (match fold_props(sp.take(i as int)) { Some(a) => fold_prop(a, sp[i as int]), None => None }),
                        j <= spread@.len(),
                        ts0 == *old(traversal_state),
                        st0 == *old(state),
                        st0.confident,
                        traversal_state.wf(),
                        traversal_state.same_module(&ts0),
                        memo_extends_from(ts0, *traversal_state),
                        state.functions == st0.functions,
                        state.confident,
                        state.deopt_path == st0.deopt_path && state.deopt_reason == st0.deopt_reason,
                        owed == (simple(path@) && const_fold(path@) is Some && height(path@)
                            <= room_left(ts0) + 1 && remembers_no_refusal(ts0.seen@) && fits(
                            path@,
                            ts0.character_ceiling as nat,
                        )),
                        owed ==> merge_spread(acc0, sps) is Some && remembers_no_refusal(
                            traversal_state.seen@,
                        ),
                    decreases spread@.len() - j,
                {
                    proof {
                        assert(sps.take(j + 1).drop_last() =~= sps.take(j as int));
                        assert(sps.take(j + 1).last() == sps[j as int]);
                        if owed {
                            crate::semantics::lemma_merge_at(acc0, sps, j as int);
                        }
                    }
                    match &spread[j] {
                        Prop::KeyValue(k, v) => match key_name(k) {
                            Some(t) => set_prop(&mut out, t, copy_expr(v)),
                            None => {
                                return deopt(e, state, SPREAD_NOT_SUPPORTED);
                            },
                        },
                        Prop::Shorthand(name) => set_prop(
                            &mut out,
                            name.sym.clone(),
                            Expr::Ident(name.copy()),
                        ),
                        _ => {
                            return deopt(e, state, SPREAD_NOT_SUPPORTED);
                        },
                    }
                    j = j + 1;
                }
                proof {
                    assert(sps.take(spread@.len() as int) =~= sps);
                }
            },
            Prop::KeyValue(key, value_expr) => {
                let ok = set_key_value(key, value_expr, &mut out, state, traversal_state, fns);
                proof {
                    lemma_memo_extends_trans(ts0.seen@, ts_before.seen@, traversal_state.seen@);
                    assert(sp[i as int] == SProp::KeyValue(spropname(*key), value_expr@));
                }
                if !ok {
                    return None;
                }
            },
            Prop::Shorthand(name) => {
                let reference = Expr::Ident(name.copy());
                let value = evaluate_cached(&reference, state, traversal_state, fns);
                proof {
                    lemma_memo_extends_trans(ts0.seen@, ts_before.seen@, traversal_state.seen@);
                }
                let value = match value {
                    Some(v) => v,
                    None => {
                        return None;
                    },
                };
                if !state.confident {
                    return None;
                }
                match written_value(&value) {
                    Written::Expr(x) => set_prop(&mut out, name.sym.clone(), x),
                    Written::Skipped => {},
                    Written::Refused(reason) => {
                        return deopt(path, state, reason);
                    },
                }
            },
        }
        i = i + 1;
    }
    proof {
        assert(sp.take(props@.len() as int) =~= sp);
    }
    Some(EvaluateResultValue::Expr(Expr::Object(out)))
}

/// Whether arguments `slots`, evaluated from the state `st0`/`ts0`, are owed
/// their values: the evaluation is confident, the memo remembers no refusal,
/// and every argument is a simple expression with a meaning, with room under
/// the depth ceiling and strings that fit the character ceiling.
pub open spec fn args_settle(slots: Seq<SElem>, st0: EvaluationState, ts0: StateManager) -> bool {
    &&& st0.confident
    &&& remembers_no_refusal(ts0.seen@)
    &&& crate::semantics::simple_elems(slots)
    &&& crate::semantics::elems_height(slots) <= room_left(ts0)
    &&& crate::semantics::fits_elems(slots, ts0.character_ceiling as nat)
    &&& fold_args(slots) is Some
}

/// The expressions among `slots`, in order: the arguments a call hands a
/// value for, holes left out.
pub open spec fn written_args(slots: Seq<SElem>) -> Seq<SExpr>
    decreases slots.len(),
{
    if slots.len() == 0 {
        Seq::empty()
    } else {
        let rest = written_args(slots.drop_last());
        match slots.last() {
            SElem::Expr(x) => rest.push(x),
            _ => rest,
        }
    }
}

/// Whether each value of `values` agrees with the meaning of the argument
/// it was evaluated from, one value per argument.
pub open spec fn one_value_per_arg(args: Seq<SExpr>, values: Seq<SValue>) -> bool {
    &&& values.len() == args.len()
    &&& forall|k: int| 0 <= k < args.len() ==> agrees(#[trigger] args[k], Some(values[k]))
}

/// Whether none of `slots` is a spread.
pub open spec fn spread_free(slots: Seq<SElem>) -> bool {
    forall|j: int| 0 <= j < slots.len() ==> !(#[trigger] slots[j] is Spread)
}

/// The values the first `k` slot readings `rs` hand a call: one for each
/// expression, in order, holes left out.
pub open spec fn kept(slots: Seq<SElem>, rs: Seq<Option<EvaluateResultValue>>, k: int) -> Seq<EvaluateResultValue>
    decreases k,
{
    if k <= 0 {
        Seq::empty()
    } else if slots[k - 1] is Expr {
        kept(slots, rs, k - 1).push(rs[k - 1]->0)
    } else {
        kept(slots, rs, k - 1)
    }
}

/// Another reading past the first `k` changes nothing of what they keep.
proof fn lemma_kept_more(slots: Seq<SElem>, rs: Seq<Option<EvaluateResultValue>>, o: Option<EvaluateResultValue>, k: int)
    requires
        0 <= k <= rs.len(),
    ensures
        kept(slots, rs.push(o), k) == kept(slots, rs, k),
    decreases k,
{
    if k > 0 {
        lemma_kept_more(slots, rs, o, k - 1);
    }
}

/// What a call's arguments answer where they answer: every slot was read one
/// after another from `st0`/`ts0`, each expression answering confidently,
/// and the values are those of the expressions, in order.
pub open spec fn args_read(
    slots: Seq<SElem>,
    st0: EvaluationState,
    st1: EvaluationState,
    ts0: StateManager,
    ts1: StateManager,
    vals: Seq<EvaluateResultValue>,
) -> bool {
    exists|sts: Seq<EvaluationState>, tss: Seq<StateManager>, rs: Seq<Option<EvaluateResultValue>>|
        #[trigger] slots_read(slots, sts, tss, rs, slots.len() as int) && sts[0] == st0 && tss[0] == ts0
            && st1 == sts[slots.len() as int] && ts1 == tss[slots.len() as int] && vals == kept(
            slots,
            rs,
            slots.len() as int,
        )
}

/// The values of a call's arguments, in order; a spread among them refuses
/// the call, and `None` is that refusal.
pub fn evaluate_func_call_args(
    path: &Expr,
    args: &Vec<Elem>,
    state: &mut EvaluationState,
    traversal_state: &mut StateManager,
    fns: &FunctionMap,
) -> (r: Option<Vec<EvaluateResultValue>>)
    requires
        old(traversal_state).wf(),
    ensures
        final(traversal_state).same_module(&*old(traversal_state)),
        final(traversal_state).wf(),
        memo_extends_from(*old(traversal_state), *final(traversal_state)),
        final(state).functions == old(state).functions,
        !old(state).confident ==> *final(state) == *old(state),
        old(state).confident && !final(state).confident ==> final(state).deopt_path is Some
            && final(state).deopt_reason is Some,
        r is None ==> !final(state).confident,
        old(state).confident && final(state).confident ==> final(state).deopt_path == old(
            state,
        ).deopt_path && final(state).deopt_reason == old(state).deopt_reason,
        r matches Some(vals) ==> (final(state).confident ==> (fold_args(selems(args@)) matches Some(
            cv,
        ) ==> svalues(vals@) == cv)),
        args_settle(selems(args@), *old(state), *old(traversal_state)) ==> r is Some
            && final(state).confident && remembers_no_refusal(final(traversal_state).seen@),
        r matches Some(vals) ==> one_value_per_arg(written_args(selems(args@)), svalues(vals@)),
        !spread_free(selems(args@)) ==> r is None,
        r matches Some(vals) ==> args_read(selems(args@), *old(state), *final(state), *old(traversal_state), *final(traversal_state), vals@),
        forall|j: int|
            0 <= j < args@.len() && #[trigger] selems(args@)[j] is Spread && spread_free(
                selems(args@).take(j),
            ) && args_settle(selems(args@).take(j), *old(state), *old(traversal_state))
                ==> refused_for(*final(state), SPREAD_ELEMENT@) && recorded_against(
                *final(state),
                path@,
            ),
    decreases 2 * (old(traversal_state).spec_evaluation_ceiling() - old(traversal_state).evaluation_depth) + 1, 0int,
{
    let ghost ts0 = *traversal_state;
    let ghost st0 = *state;
    let ghost slots = selems(args@);
    let ghost owed = args_settle(slots, st0, ts0);
    proof {
        lemma_selems(args@);
        assert(slots.take(0) =~= Seq::<SElem>::empty());
        if owed {
            assert(slots.take(slots.len() as int) =~= slots);
            assert(args_settle(slots.take(slots.len() as int), st0, ts0));
        }
    }
    let mut values: Vec<EvaluateResultValue> = Vec::new();
    let mut i: usize = 0;
    let ghost mut sts: Seq<EvaluationState> = seq![st0];
    let ghost mut tss: Seq<StateManager> = seq![ts0];
    let ghost mut rs: Seq<Option<EvaluateResultValue>> = Seq::empty();
    proof {
        assert(kept(slots, rs, 0) =~= values@);
    }
    while i < args.len()
        invariant
            ts0 == *old(traversal_state),
            st0 == *old(state),
            i <= args@.len(),
            state.confident ==> slots_read(slots, sts, tss, rs, i as int) && sts[0] == st0 && tss[0]
                == ts0 && sts[i as int] == *state && tss[i as int] == *traversal_state && values@
                == kept(slots, rs, i as int),
            traversal_state.wf(),
            traversal_state.same_module(&ts0),
            memo_extends_from(ts0, *traversal_state),
            state.functions == st0.functions,
            !st0.confident ==> *state == st0,
            st0.confident && !state.confident ==> state.deopt_path is Some && state.deopt_reason is Some,
            state.confident ==> st0.confident,
            state.confident ==> state.deopt_path == st0.deopt_path && state.deopt_reason == st0.deopt_reason,
            slots == selems(args@),
            slots.len() == args@.len(),
            forall|j: int| 0 <= j < args@.len() ==> #[trigger] slots[j] == selem(args@[j]),
            state.confident && fold_args(slots.take(i as int)) is Some ==> fold_args(
                slots.take(i as int),
            ) == Some(svalues(values@)),
            owed == args_settle(slots, st0, ts0),
            owed ==> state.confident && remembers_no_refusal(traversal_state.seen@),
            spread_free(slots.take(i as int)),
            state.confident ==> one_value_per_arg(written_args(slots.take(i as int)), svalues(values@)),
            (exists|k: int| i <= k <= slots.len() && #[trigger] args_settle(slots.take(k), st0, ts0))
                ==> state.confident && remembers_no_refusal(traversal_state.seen@),
        decreases args@.len() - i,
    {
        let ghost ts_before = *traversal_state;
        let ghost before = values@;
        proof {
            assert(slots.take(i + 1).drop_last() =~= slots.take(i as int));
            assert(slots.take(i + 1).last() == slots[i as int]);
            if owed {
                crate::semantics::lemma_args_at(slots, i as int);
                crate::semantics::lemma_elems_at(slots, i as int);
            }
            if exists|k: int| i + 1 <= k <= slots.len() && #[trigger] args_settle(slots.take(k), st0, ts0) {
                let k = choose|k: int| i + 1 <= k <= slots.len() && #[trigger] args_settle(slots.take(k), st0, ts0);
                let pre = slots.take(k);
                assert(pre[i as int] == slots[i as int]);
                crate::semantics::lemma_args_at(pre, i as int);
                crate::semantics::lemma_elems_at(pre, i as int);
                assert(i <= k <= slots.len() && args_settle(slots.take(k), st0, ts0));
            }
        }
        match &args[i] {
            Elem::Spread(_) => {
                deopt(path, state, SPREAD_ELEMENT);
                proof {
                    assert(slots[i as int] is Spread);
                    assert forall|j: int|
                        0 <= j < args@.len() && #[trigger] slots[j] is Spread && spread_free(
                            slots.take(j),
                        ) && args_settle(slots.take(j), st0, ts0) implies refused_for(
                        *state,
                        SPREAD_ELEMENT@,
                    ) && recorded_against(*state, path@) by {
                        if j < i {
                            assert(slots.take(i as int)[j] == slots[j]);
                        } else if j > i {
                            assert(slots.take(j)[i as int] == slots[i as int]);
                        } else {
                            assert(i <= j <= slots.len() && args_settle(slots.take(j), st0, ts0));
                        }
                    }
                }
                return None;
            },
            Elem::Expr(e) => {
                let ghost st_before = *state;
                let got = evaluate_cached(e, state, traversal_state, fns);
                proof {
                    lemma_memo_extends_trans(ts0.seen@, ts_before.seen@, traversal_state.seen@);
                    if state.confident {
                        assert(st_before.confident);
                        assert(slots[i as int] == SElem::Expr(e@));
                        let rs0 = rs;
                        sts = sts.push(*state);
                        tss = tss.push(*traversal_state);
                        rs = rs.push(got);
                        assert(slot_step(slots[i as int], sts[i as int], sts[i + 1], tss[i as int], tss[i + 1], rs[i as int]));
                        assert(slots_read(slots, sts, tss, rs, i + 1));
                        assert(kept(slots, rs, i as int) == kept(slots, rs0, i as int)) by {
                            lemma_kept_more(slots, rs0, got, i as int);
                        }
                    }
                }
                match got {
                    Some(v) => {
                        values.push(v);
                        proof {
                            assert(values@.drop_last() =~= before);
                            assert(svalues(values@) == svalues(before).push(v@));
                        }
                    },
                    None => {},
                }
                proof {
                    if state.confident {
                        let pre = slots.take(i as int);
                        assert(slots.take(i + 1).drop_last() =~= pre);
                        assert(slots.take(i + 1).last() == SElem::Expr(e@));
                        assert(written_args(slots.take(i + 1)) == written_args(pre).push(e@));
                        let wa = written_args(slots.take(i + 1));
                        let sv = svalues(values@);
                        assert forall|k: int| 0 <= k < wa.len() implies agrees(#[trigger] wa[k], Some(sv[k])) by {
                            if k < wa.len() - 1 {
                                assert(wa[k] == written_args(pre)[k]);
                                assert(sv[k] == svalues(before)[k]);
                            }
                        }
                    }
                }
            },
            Elem::Hole => {
                proof {
                    assert(slots.take(i + 1).drop_last() =~= slots.take(i as int));
                    assert(written_args(slots.take(i + 1)) == written_args(slots.take(i as int)));
                    if state.confident {
                        assert(slots[i as int] == SElem::Hole);
                        let rs0 = rs;
                        sts = sts.push(*state);
                        tss = tss.push(*traversal_state);
                        rs = rs.push(Some(EvaluateResultValue::Null));
                        assert(slot_step(slots[i as int], sts[i as int], sts[i + 1], tss[i as int], tss[i + 1], rs[i as int]));
                        assert(slots_read(slots, sts, tss, rs, i + 1));
                        lemma_kept_more(slots, rs0, Some(EvaluateResultValue::Null), i as int);
                    }
                }
            },
        }
        proof {
            assert forall|j: int| 0 <= j < i + 1 implies !(#[trigger] slots.take(i + 1)[j] is Spread) by {
                if j < i {
                    assert(slots.take(i as int)[j] == slots[j]);
                }
            }
        }
        i = i + 1;
    }
    proof {
        assert(slots.take(args@.len() as int) =~= slots);
    }
    if !state.confident {
        return None;
    }
    proof {
        assert(slots_read(slots, sts, tss, rs, slots.len() as int));
    }
    Some(values)
}

/// The receiver of `Object.keys`, `Object.values` or `Object.entries`, read
/// from the evaluated argument where it has an object form, and from the
/// array literal otherwise.
pub fn normalize_object_method_receiver(
    cached_arg: Option<EvaluateResultValue>,
    arg: &Expr,
    traversal_state: &mut StateManager,
    fns: &FunctionMap,
) -> (r: ObjectMethodReceiver)
    requires
        old(traversal_state).wf(),
    ensures
        final(traversal_state).same_module(&*old(traversal_state)),
        final(traversal_state).wf(),
        memo_extends_from(*old(traversal_state), *final(traversal_state)),
        sopt(cached_arg) matches Some(v) && nullish(v) ==> r is Nullish,
        !(sopt(cached_arg) matches Some(v) && nullish(v)) ==> match sopt(cached_arg) {
            Some(v) => match spec_function_fold_to_object(v) {
                Some(props) => spec_receiver(r) == Some(props),
                None => match method_args_object(sopt(cached_arg)) {
                    Some(props) => spec_receiver(r) == Some(props),
                    None => !(arg@ is Array) ==> r is NoOwnKeys,
                },
            },
            None => match method_args_object(sopt(cached_arg)) {
                Some(props) => spec_receiver(r) == Some(props),
                None => !(arg@ is Array) ==> r is NoOwnKeys,
            },
        },
        !(arg@ is Array) ==> *final(traversal_state) == *old(traversal_state),
    decreases 2 * (old(traversal_state).spec_evaluation_ceiling() - old(traversal_state).evaluation_depth) + 1, 1int,
{
    match &cached_arg {
        Some(v) => {
            if evaluate_result_is_nullish(v) {
                return ObjectMethodReceiver::Nullish;
            }
            match function_fold_to_object(v) {
                Some(object) => {
                    return ObjectMethodReceiver::Object(object);
                },
                None => {},
            }
        },
        None => {},
    }
    match normalize_js_object_method_args(cached_arg) {
        Some(object) => {
            return ObjectMethodReceiver::Object(object);
        },
        None => {},
    }
    match arg {
        Expr::Array(elems) => normalize_js_object_method_array_arg(elems, traversal_state, fns),
        _ => ObjectMethodReceiver::NoOwnKeys,
    }
}

/// The expression an array-literal slot holds, where it holds one.
pub open spec fn slot_expr(e: SElem) -> Option<SExpr> {
    match e {
        SElem::Expr(x) => Some(x),
        SElem::Spread(x) => Some(x),
        SElem::Hole => None,
    }
}

/// The expression a value is written as in an object keyed by position: an
/// expression as itself, an array as its array literal.
pub open spec fn positional_form(v: SValue) -> Option<SExpr> {
    match v {
        SValue::Expr(x) => Some(x),
        SValue::Vec(items) => match element_exprs(items) {
            Some(es) => Some(SExpr::Array(es)),
            None => None,
        },
        _ => None,
    }
}

/// Whether `p` is the entry for slot `j` of `slots`: keyed by `j` spelled in
/// decimal, for a slot that holds an expression, and valued with that
/// expression's written form wherever its meaning is self-contained.
pub open spec fn positional_entry(p: SProp, slots: Seq<SElem>, j: int) -> bool {
    0 <= j < slots.len() && slot_expr(slots[j]) is Some && match p {
        SProp::KeyValue(SPropName::Ident(name), e) => name == spec_decimal(j as nat) && (
        const_fold(slot_expr(slots[j])->0) matches Some(v) ==> positional_form(v) == Some(e)),
        _ => false,
    }
}

/// Whether `props` are the entries for the increasing slot positions
/// `positions` of `slots`, in order.
pub open spec fn entries_at(props: Seq<SProp>, slots: Seq<SElem>, positions: Seq<int>) -> bool {
    &&& positions.len() == props.len()
    &&& forall|k: int| 0 <= k < props.len() ==> #[trigger] positional_entry(props[k], slots, positions[k])
    &&& forall|k1: int, k2: int|
        0 <= k1 < k2 < positions.len() ==> #[trigger] positions[k1] < #[trigger] positions[k2]
}

/// How many slots of an array literal hold an expression.
pub open spec fn slots_held(slots: Seq<SElem>) -> nat
    decreases slots.len(),
{
    if slots.len() == 0 {
        0
    } else {
        slots_held(slots.drop_last()) + if slot_expr(slots.last()) is Some {
            1nat
        } else {
            0nat
        }
    }
}

/// Whether every slot holding an expression holds a simple one with a
/// meaning that has a written form, nesting no deeper than `room` and
/// building no string past `ceiling`.
pub open spec fn slots_settle(slots: Seq<SElem>, room: int, ceiling: nat) -> bool {
    forall|j: int|
        0 <= j < slots.len() ==> (#[trigger] slot_expr(slots[j]) matches Some(x) ==> simple(x)
            && const_fold(x) is Some && positional_form(const_fold(x)->0) is Some && height(x)
            <= room && fits(x, ceiling))
}

/// An array literal's elements, each evaluated on its own, as an object keyed
/// by position: an element that refuses or is absent has no key, and one
/// with no form to write leaves the receiver unreadable.
pub fn normalize_js_object_method_array_arg(
    elems: &Vec<Elem>,
    traversal_state: &mut StateManager,
    fns: &FunctionMap,
) -> (r: ObjectMethodReceiver)
    requires
        old(traversal_state).wf(),
    ensures
        final(traversal_state).same_module(&*old(traversal_state)),
        final(traversal_state).wf(),
        memo_extends_from(*old(traversal_state), *final(traversal_state)),
        r is Object || r is Unreadable,
        r matches ObjectMethodReceiver::Object(props) ==> exists|positions: Seq<int>|
            #[trigger] entries_at(sprops(props@), selems(elems@), positions),
        slots_settle(
            selems(elems@),
            room_left(*old(traversal_state)),
            old(traversal_state).character_ceiling as nat,
        ) && remembers_no_refusal(old(traversal_state).seen@) ==> (r matches ObjectMethodReceiver::Object(
            props,
        ) && props@.len() == slots_held(selems(elems@))),
    decreases 2 * (old(traversal_state).spec_evaluation_ceiling() - old(traversal_state).evaluation_depth) + 1, 0int,
{
    let ghost ts0 = *traversal_state;
    let ghost slots = selems(elems@);
    let ghost owed = slots_settle(slots, room_left(ts0), ts0.character_ceiling as nat)
        && remembers_no_refusal(ts0.seen@);
    let ghost mut positions: Seq<int> = Seq::empty();
    proof {
        lemma_selems(elems@);
        lemma_sprops(Seq::<Prop>::empty());
        assert(slots.take(0) =~= Seq::<SElem>::empty());
    }
    let mut props: Vec<Prop> = Vec::new();
    let mut i: usize = 0;
    while i < elems.len()
        invariant
            ts0 == *old(traversal_state),
            i <= elems@.len(),
            traversal_state.wf(),
            traversal_state.same_module(&ts0),
            memo_extends_from(ts0, *traversal_state),
            slots == selems(elems@),
            slots.len() == elems@.len(),
            forall|j: int| 0 <= j < elems@.len() ==> #[trigger] slots[j] == selem(elems@[j]),
            entries_at(sprops(props@), slots, positions),
            forall|k: int| 0 <= k < positions.len() ==> #[trigger] positions[k] < i,
            owed == (slots_settle(slots, room_left(ts0), ts0.character_ceiling as nat)
                && remembers_no_refusal(ts0.seen@)),
            owed ==> remembers_no_refusal(traversal_state.seen@),
            owed ==> props@.len() == slots_held(slots.take(i as int)),
        decreases elems@.len() - i,
    {
        proof {
            assert(slots.take(i + 1).drop_last() =~= slots.take(i as int));
            assert(slots.take(i + 1).last() == slots[i as int]);
            lemma_sprops(props@);
        }
        let element: &Expr = match &elems[i] {
            Elem::Hole => {
                i = i + 1;
                continue;
            },
            Elem::Expr(e) => e,
            Elem::Spread(e) => e,
        };
        proof {
            assert(slot_expr(slots[i as int]) == Some(element@));
        }
        let ghost ts_before = *traversal_state;
        let result = evaluate_with_functions(element, traversal_state, fns);
        proof {
            lemma_memo_extends_trans(ts0.seen@, ts_before.seen@, traversal_state.seen@);
        }
        if !result.confident {
            i = i + 1;
            continue;
        }
        let expr = match result.value {
            None => {
                i = i + 1;
                continue;
            },
            Some(EvaluateResultValue::Expr(e)) => e,
            Some(EvaluateResultValue::Vec(items)) => match evaluate_result_vec_to_array_expr(&items) {
                Some(e) => e,
                None => {
                    return ObjectMethodReceiver::Unreadable;
                },
            },
            Some(EvaluateResultValue::Null) => {
                i = i + 1;
                continue;
            },
            Some(_) => {
                return ObjectMethodReceiver::Unreadable;
            },
        };
        let ghost before = props@;
        let ghost expr_view = expr@;
        props.push(Prop::KeyValue(PropName::Ident(decimal(i)), expr));
        proof {
            lemma_sprops(before);
            lemma_sprops(props@);
            assert(props@.drop_last() == before);
            let entry = sprops(props@).last();
            assert(entry == SProp::KeyValue(SPropName::Ident(spec_decimal(i as nat)), expr_view));
            assert(positional_entry(entry, slots, i as int));
            let old_positions = positions;
            positions = positions.push(i as int);
            assert forall|k: int| 0 <= k < sprops(props@).len() implies #[trigger] positional_entry(
                sprops(props@)[k],
                slots,
                positions[k],
            ) by {
                if k < before.len() {
                    assert(sprops(props@)[k] == sprops(before)[k]);
                    assert(positions[k] == old_positions[k]);
                }
            }
            assert forall|k1: int, k2: int| 0 <= k1 < k2 < positions.len() implies #[trigger] positions[k1]
                < #[trigger] positions[k2] by {
                if k2 < old_positions.len() {
                    assert(positions[k1] == old_positions[k1]);
                    assert(positions[k2] == old_positions[k2]);
                } else {
                    assert(positions[k1] == old_positions[k1]);
                }
            }
        }
        i = i + 1;
    }
    proof {
        assert(slots.take(elems@.len() as int) =~= slots);
        assert(entries_at(sprops(props@), selems(elems@), positions));
    }
    let r = ObjectMethodReceiver::Object(props);
    proof {
        assert(entries_at(sprops(r->Object_0@), selems(elems@), positions));
    }
    r
}

/// Which own-keys question `obj.method` asks, where it is `Object.keys`,
/// `Object.values` or `Object.entries`.
fn own_keys_static(obj: &Expr, method: &String) -> (r: Option<OwnKeysQuestion>)
    ensures
        r is Some <==> is_own_keys_static(obj@, method@),
        r matches Some(q) ==> q == question_of(method@),
{
    proof {
        reveal_strlit("Object");
        reveal_strlit("keys");
        reveal_strlit("values");
        reveal_strlit("entries");
    }
    match obj {
        Expr::Ident(name) => if crate::coerce::str_eq(name.sym.as_str(), "Object") {
            OwnKeysQuestion::try_from(method.as_str())
        } else {
            None
        },
        _ => None,
    }
}

/// Whether an evaluated value is `undefined`, as the evaluator answers it.
fn is_undefined_value(v: &EvaluateResultValue) -> (r: bool)
    ensures
        r == (v@ == undefined_value()),
{
    proof {
        reveal_strlit("undefined");
    }
    match v {
        EvaluateResultValue::Expr(Expr::Ident(i)) => crate::coerce::is_undefined_ident(i) && i.ctxt
            == 0,
        _ => false,
    }
}

/// A method of an evaluated string or array applied to its evaluated
/// arguments: an array's `join`, and a string's `concat`; any other method
/// is refused.
pub fn evaluate_method_call(
    path: &Expr,
    obj: &Expr,
    method: &String,
    args: &Vec<Elem>,
    state: &mut EvaluationState,
    traversal_state: &mut StateManager,
    fns: &FunctionMap,
) -> (r: Option<EvaluateResultValue>)
    requires
        old(traversal_state).wf(),
        old(state).confident,
        path@ == SExpr::Call(
            Box::new(SExpr::Member(Box::new(obj@), SMemberProp::Ident(method@))),
            selems(args@),
        ),
        !is_own_keys_static(obj@, method@),
    ensures
        evaluated(path@, *old(state), *final(state), *old(traversal_state), *final(traversal_state), r),
        settles(path@, *old(state), *final(state), *old(traversal_state), *final(traversal_state), r, room_left(*old(traversal_state)) + 1),
    decreases 2 * (old(traversal_state).spec_evaluation_ceiling() - old(traversal_state).evaluation_depth) + 1, 1int,
{
    proof {
        reveal_strlit("join");
        reveal_strlit("concat");
        reveal_strlit(",");
    }
    let is_join = crate::coerce::str_eq(method.as_str(), "join");
    let is_concat = crate::coerce::str_eq(method.as_str(), "concat");
    if !is_join && !is_concat {
        let reason = unsupported_expression("CallExpression");
        return deopt(path, state, reason.as_str());
    }
    let ghost ts0 = *traversal_state;
    let ghost ceiling = ts0.character_ceiling as nat;
    let ghost owed = old(state).confident && simple(path@) && const_fold(path@) is Some && height(
        path@,
    ) <= room_left(ts0) + 1 && remembers_no_refusal(ts0.seen@) && fits(path@, ceiling);
    let receiver = match evaluate_cached(obj, state, traversal_state, fns) {
        Some(v) => v,
        None => {
            return None;
        },
    };
    if !state.confident {
        return None;
    }
    let ghost ts1 = *traversal_state;
    let values = evaluate_func_call_args(path, args, state, traversal_state, fns);
    proof {
        lemma_memo_extends_trans(ts0.seen@, ts1.seen@, traversal_state.seen@);
    }
    let values = match values {
        Some(v) => v,
        None => {
            return None;
        },
    };
    if !state.confident {
        return None;
    }
    proof {
        lemma_svalues(values@);
    }
    if is_join {
        let items = match &receiver {
            EvaluateResultValue::Vec(items) => items,
            _ => {
                let reason = unsupported_expression("CallExpression");
                return deopt(path, state, reason.as_str());
            },
        };
        let sep: String = if values.len() == 0 || is_undefined_value(&values[0]) {
            String::from_str(",")
        } else {
            let mut written = GrownString::new("array join");
            proof {
                written.lemma_counted();
            }
            match written.push_string_of(&values[0], path, state, traversal_state) {
                Ok(()) => written.into_text(),
                Err(StringAppend::NoStringForm) => {
                    return deopt(path, state, NOT_A_STRING);
                },
                Err(StringAppend::TooLarge(_)) => {
                    return None;
                },
            }
        };
        let mut grown = GrownString::new("array join");
        proof {
            grown.lemma_counted();
        }
        match grown.push_joined(items, sep.as_str(), path, state, traversal_state) {
            Ok(()) => Some(EvaluateResultValue::Expr(Expr::Lit(Lit::Str(grown.into_text())))),
            Err(StringAppend::NoStringForm) => deopt(path, state, NOT_A_STRING),
            Err(StringAppend::TooLarge(_)) => None,
        }
    } else {
        let base = match &receiver {
            EvaluateResultValue::Expr(Expr::Lit(Lit::Str(base))) => base,
            _ => {
                let reason = unsupported_expression("CallExpression");
                return deopt(path, state, reason.as_str());
            },
        };
        let ghost sv = svalues(values@);
        let mut grown = GrownString::new("string concatenation");
        proof {
            grown.lemma_counted();
            if owed {
                crate::text::lemma_utf16_len_concat(base@, concat_strings(sv)->0);
            }
        }
        match grown.push(base.as_str(), path, state, traversal_state) {
            Ok(()) => {},
            Err(_) => {
                return None;
            },
        }
        proof {
            assert(sv.take(0) =~= Seq::<SValue>::empty());
        }
        let mut i: usize = 0;
        while i < values.len()
            invariant
                i <= values@.len(),
                sv == svalues(values@),
                sv.len() == values@.len(),
                forall|j: int| 0 <= j < values@.len() ==> #[trigger] sv[j] == values@[j]@,
                grown.wf(),
                state.confident,
                traversal_state.wf(),
                traversal_state.same_module(&*old(traversal_state)),
                memo_extends_from(*old(traversal_state), *traversal_state),
                state.functions == old(state).functions,
                old(state).confident,
                state.deopt_path == old(state).deopt_path && state.deopt_reason == old(
                    state,
                ).deopt_reason,
                receiver@ == SValue::Expr(SExpr::Lit(SLit::Str(base@))),
                fold_args(selems(args@)) matches Some(cv) ==> sv == cv,
                const_fold(path@) is Some ==> const_fold(obj@) == Some(receiver@),
                concat_strings(sv.take(i as int)) is Some ==> grown.text_view() == base@
                    + concat_strings(sv.take(i as int))->0,
                ceiling == traversal_state.character_ceiling as nat,
                ts0 == *old(traversal_state),
                owed == (old(state).confident && simple(path@) && const_fold(path@) is Some && height(
                    path@,
                ) <= room_left(ts0) + 1 && remembers_no_refusal(ts0.seen@) && fits(path@, ceiling)),
                owed ==> remembers_no_refusal(traversal_state.seen@),
                owed ==> concat_strings(sv) is Some && utf16_len(base@ + concat_strings(sv)->0)
                    <= ceiling && concat_strings(sv.take(i as int)) is Some,
            decreases values@.len() - i,
        {
            proof {
                assert(sv.take(i + 1).drop_last() =~= sv.take(i as int));
                assert(sv.take(i + 1).last() == sv[i as int]);
                grown.lemma_counted();
                if owed {
                    crate::semantics::lemma_concat_prefix(sv, i as int);
                    let ct = concat_strings(sv.take(i as int))->0;
                    let piece = expr_to_string(sv[i as int]->Expr_0)->0;
                    let next = concat_strings(sv.take(i + 1))->0;
                    assert(base@ + next =~= (base@ + ct) + piece);
                    crate::text::lemma_utf16_len_concat(base@ + ct, piece);
                    crate::text::lemma_utf16_len_concat(base@, next);
                    crate::text::lemma_utf16_len_concat(base@, concat_strings(sv)->0);
                }
            }
            let piece = match &values[i] {
                EvaluateResultValue::Expr(e) => match expr_string(e) {
                    Some(t) => t,
                    None => {
                        return deopt(path, state, NOT_A_STRING);
                    },
                },
                _ => {
                    return deopt(path, state, NOT_A_STRING);
                },
            };
            match grown.push(piece.as_str(), path, state, traversal_state) {
                Ok(()) => {},
                Err(_) => {
                    return None;
                },
            }
            i = i + 1;
        }
        proof {
            assert(sv.take(values@.len() as int) =~= sv);
        }
        Some(EvaluateResultValue::Expr(Expr::Lit(Lit::Str(grown.into_text()))))
    }
}

/// A call: `Object.keys`, `Object.values` and `Object.entries` read their
/// receiver's own keys; any other method call is answered as a method of its
/// evaluated receiver; every other call is refused.
pub fn evaluate_call(
    path: &Expr,
    callee: &Expr,
    args: &Vec<Elem>,
    state: &mut EvaluationState,
    traversal_state: &mut StateManager,
    fns: &FunctionMap,
) -> (r: Option<EvaluateResultValue>)
    requires
        old(traversal_state).wf(),
        old(state).confident,
        path@ == SExpr::Call(Box::new(callee@), selems(args@)),
    ensures
        evaluated(path@, *old(state), *final(state), *old(traversal_state), *final(traversal_state), r),
        settles(path@, *old(state), *final(state), *old(traversal_state), *final(traversal_state), r, room_left(*old(traversal_state)) + 1),
    decreases 2 * (old(traversal_state).spec_evaluation_ceiling() - old(traversal_state).evaluation_depth) + 1, 2int,
{
    let ghost mut receiver_expr: SExpr = SExpr::Other(Seq::empty());
    let ghost mut method_name: Seq<char> = Seq::empty();
    let question = match callee {
        Expr::Member(obj, MemberProp::Ident(method)) => {
            proof {
                assert(crate::syntax::smember(MemberProp::Ident(*method)) == SMemberProp::Ident(method@));
                assert(callee@ == SExpr::Member(Box::new(obj@), SMemberProp::Ident(method@)));
                receiver_expr = obj@;
                method_name = method@;
            }
            match own_keys_static(obj, method) {
                Some(q) => q,
                None => {
                    return evaluate_method_call(
                        path,
                        obj,
                        method,
                        args,
                        state,
                        traversal_state,
                        fns,
                    );
                },
            }
        },
        _ => {
            proof {
                if let Expr::Member(o, p) = callee {
                    assert(!(*p is Ident));
                    assert(!(smember(*p) is Ident));
                    assert(callee@ == SExpr::Member(Box::new(o@), smember(*p)));
                } else {
                    assert(!(callee@ is Member));
                }
            }
            assert(!simple(path@));
            let reason = unsupported_expression("CallExpression");
            return deopt(path, state, reason.as_str());
        },
    };
    let ghost ts0 = *traversal_state;
    proof {
        lemma_selems(args@);
    }
    let values = match evaluate_func_call_args(path, args, state, traversal_state, fns) {
        Some(v) => v,
        None => {
            return None;
        },
    };
    if !state.confident {
        return None;
    }
    if args.len() == 0 {
        return deopt(path, state, NULLISH_TO_OBJECT);
    }
    let arg: &Expr = match &args[0] {
        Elem::Expr(e) => e,
        _ => {
            return deopt(path, state, SPREAD_ELEMENT);
        },
    };
    let first = if values.len() > 0 {
        Some(copy_value(&values[0]))
    } else {
        None
    };
    let ghost ts1 = *traversal_state;
    let receiver = normalize_object_method_receiver(first, arg, traversal_state, fns);
    proof {
        lemma_memo_extends_trans(ts0.seen@, ts1.seen@, traversal_state.seen@);
    }
    proof {
        lemma_selems(args@);
        lemma_svalues(values@);
        if const_fold(path@) is Some {
            assert(is_own_keys_static(receiver_expr, method_name));
            assert(selems(args@)[0] == SElem::Expr(arg@));
            assert(svalues(values@) == fold_args(selems(args@))->0);
            assert(values@.len() > 0);
            assert(first matches Some(f) && f@ == values@[0]@);
            assert(const_fold(path@) == own_keys_fold(values@[0]@, question));
        }
    }
    match receiver.own_keys(question) {
        Ok(list) => Some(EvaluateResultValue::Expr(list)),
        Err(reason) => deopt(path, state, reason),
    }
}

/// Whether an evaluated value ends an optional chain: `null`, or a name
/// spelled `undefined`.
fn stops_a_chain(v: &EvaluateResultValue) -> (r: bool)
    ensures
        r == short_circuits(v@),
{
    match v {
        EvaluateResultValue::Expr(Expr::Lit(Lit::Null)) => true,
        EvaluateResultValue::Expr(Expr::Ident(i)) => crate::coerce::is_undefined_ident(i),
        _ => false,
    }
}

/// What an optional member `obj?.prop` answers from what its object
/// evaluated to: there is an evaluation of `obj` from `st0`/`ts0`, and where
/// it answered confidently, a base of `null` or `undefined` ends the chain
/// and is refused, and any other base is read as the member `obj.prop`,
/// evaluated from the state the base left.
pub open spec fn chain_read(
    path: SExpr,
    obj: SExpr,
    prop: SMemberProp,
    st0: EvaluationState,
    st1: EvaluationState,
    ts0: StateManager,
    ts1: StateManager,
    r: Option<EvaluateResultValue>,
) -> bool {
    exists|st_b: EvaluationState, ts_b: StateManager, b: Option<EvaluateResultValue>|
        #[trigger] cached(obj, st0, st_b, ts0, ts_b, b) && (st_b.confident && b is Some ==> if short_circuits(
            svalue(b->0),
        ) {
            r is None && deopted(st_b, st1, path, "Unsupported expression: "@ + "OptionalMemberExpression"@)
                && ts1 == ts_b
        } else {
            cached(SExpr::Member(Box::new(obj), prop), st_b, st1, ts_b, ts1, r)
        })
}

/// An optional member `o?.p`: the base is evaluated first, and a base of
/// `null` or `undefined` ends the chain, which is refused; any other base is
/// read as the member `o.p`.
pub fn evaluate_optional_member(
    path: &Expr,
    obj: &Expr,
    prop: &MemberProp,
    state: &mut EvaluationState,
    traversal_state: &mut StateManager,
    fns: &FunctionMap,
) -> (r: Option<EvaluateResultValue>)
    requires
        old(traversal_state).wf(),
        old(state).confident,
        path@ == SExpr::OptMember(Box::new(obj@), smember(*prop)),
    ensures
        evaluated(path@, *old(state), *final(state), *old(traversal_state), *final(traversal_state), r),
        settles(path@, *old(state), *final(state), *old(traversal_state), *final(traversal_state), r, room_left(*old(traversal_state)) + 1),
        chain_read(path@, obj@, smember(*prop), *old(state), *final(state), *old(traversal_state), *final(traversal_state), r),
    decreases 2 * (old(traversal_state).spec_evaluation_ceiling() - old(traversal_state).evaluation_depth) + 1, 2int,
{
    let ghost ts0 = *traversal_state;
    let got = evaluate_cached(obj, state, traversal_state, fns);
    let ghost st_b = *state;
    proof {
        assert(cached(obj@, *old(state), st_b, ts0, *traversal_state, got));
    }
    let base = match got {
        Some(v) => v,
        None => {
            return None;
        },
    };
    if !state.confident {
        return None;
    }
    if stops_a_chain(&base) {
        let reason = unsupported_expression("OptionalMemberExpression");
        return deopt(path, state, reason.as_str());
    }
    let ghost ts1 = *traversal_state;
    let member = Expr::Member(Box::new(copy_expr(obj)), copy_member(prop));
    assert(member@ == SExpr::Member(Box::new(obj@), smember(*prop)));
    let r = evaluate_cached(&member, state, traversal_state, fns);
    proof {
        lemma_memo_extends_trans(ts0.seen@, ts1.seen@, traversal_state.seen@);
        if const_fold(path@) is Some {
            assert(const_fold(obj@) == Some(base@));
            assert(const_fold(path@) == const_fold(member@));
        }
    }
    r
}

/// An optional call `f?.(..)`: the callee is evaluated first, and a callee of
/// `null` or `undefined` ends the chain, which is refused; any other callee is
/// evaluated as the call `f(..)`.
pub fn evaluate_optional_call(
    path: &Expr,
    callee: &Expr,
    args: &Vec<Elem>,
    state: &mut EvaluationState,
    traversal_state: &mut StateManager,
    fns: &FunctionMap,
) -> (r: Option<EvaluateResultValue>)
    requires
        old(traversal_state).wf(),
        old(state).confident,
        path@ == SExpr::OptCall(Box::new(callee@), selems(args@)),
    ensures
        evaluated(path@, *old(state), *final(state), *old(traversal_state), *final(traversal_state), r),
        crate::semantics::agrees(SExpr::Call(Box::new(callee@), selems(args@)), sopt(r)),
        old(state).confident && simple(callee@) && (const_fold(callee@) matches Some(v)
            && short_circuits(v)) && height(callee@) <= room_left(*old(traversal_state))
            && remembers_no_refusal(old(traversal_state).seen@) && fits(
            callee@,
            old(traversal_state).character_ceiling as nat,
        ) ==> r is None && refused_for(
            *final(state),
            "Unsupported expression: "@ + "OptionalCallExpression"@,
        ),
    decreases 2 * (old(traversal_state).spec_evaluation_ceiling() - old(traversal_state).evaluation_depth) + 1, 2int,
{
    let ghost ts0 = *traversal_state;
    let base = match evaluate_cached(callee, state, traversal_state, fns) {
        Some(v) => v,
        None => {
            return None;
        },
    };
    if !state.confident {
        return None;
    }
    if stops_a_chain(&base) {
        let reason = unsupported_expression("OptionalCallExpression");
        return deopt(path, state, reason.as_str());
    }
    let ghost ts1 = *traversal_state;
    let call = Expr::Call(Box::new(copy_expr(callee)), copy_elems(args));
    assert(call@ == SExpr::Call(Box::new(callee@), selems(args@)));
    let r = evaluate_cached(&call, state, traversal_state, fns);
    proof {
        lemma_memo_extends_trans(ts0.seen@, ts1.seen@, traversal_state.seen@);
    }
    r
}

/// The memo of `ts1` answers everything that of `ts0` did.
pub open spec fn memo_extends_from(ts0: StateManager, ts1: StateManager) -> bool {
    crate::state::memo_extends(ts0.seen@, ts1.seen@)
}

} // verus!
