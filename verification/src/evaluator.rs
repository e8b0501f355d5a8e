//! One level of evaluation: what each kind of expression folds to, reading
//! its subtrees through the memo.
use vstd::prelude::*;

use crate::cache::{
    evaluate_cached, evaluated, not_refused_before, plain_literal, remembers_no_refusal, room_left,
    settles,
};
use crate::deopt::deopt;
use crate::messages::{unsupported_expression, NON_CONSTANT};
use crate::semantics::{const_fold, fits, height, peel, simple};
use crate::binding::{answered, resolution, resolve_reference, resolves, Answer};
use crate::cache::{cached, recorded_against, unseen_within};
use crate::coerce::expr_to_string;
use crate::nodes::{
    evaluate_array, evaluate_binary, evaluate_conditional, evaluate_quasis, evaluate_sequence,
    evaluate_call, evaluate_member, evaluate_object, evaluate_optional_call,
    evaluate_optional_member, evaluate_unary,
};
use crate::coerce::expr_string;
use crate::helpers::key_text;
use crate::messages::{ILLEGAL_PROP_VALUE, KEY_NOT_A_STRING};
use crate::semantics::{agrees, const_key};
use crate::state::{
    declarator_of, first_index, get_var_decl_from, lemma_first_index, memo_extends, EvaluationState, FunctionMap,
    NamedValue, StateManager, VarDeclarator,
};
use crate::syntax::{
    copy_expr, copy_lit, ident_span, spropname, Expr, Ident, Lit, PropName, SExpr, SLit, Span, UnaryOp,
};
use crate::value::{copy_value, sopt, EvaluateResultValue, SValue};

verus! {

/// Peeling parentheses changes no meaning.
pub proof fn lemma_peel_fold(e: SExpr)
    ensures
        const_fold(peel(e)) == const_fold(e),
    decreases e,
{
    if let SExpr::Paren(x) = e {
        lemma_peel_fold(*x);
    }
}

/// The expression inside any parentheses around `e`.
pub open spec fn unparen(e: Expr) -> Expr
    decreases e,
{
    match e {
        Expr::Paren(inner) => unparen(*inner),
        _ => e,
    }
}

/// The expression inside any parentheses around `path`.
pub fn normalize_expr(path: &Expr) -> (r: &Expr)
    ensures
        r@ == peel(path@),
        *r == unparen(*path),
        ident_span(*r) == ident_span(*path),
    decreases path,
{
    match path {
        Expr::Paren(inner) => normalize_expr(inner),
        _ => path,
    }
}

pub open spec fn member_of_a_name(e: SExpr) -> bool {
    e matches SExpr::Member(obj, _) && (*obj) is Ident
}

/// Whether an expression writes to a property of a named object: an
/// assignment to one, an update of one, or a `delete` of one.
pub open spec fn spec_is_mutation_expr(e: SExpr) -> bool {
    match e {
        SExpr::Assign(target, _) => member_of_a_name(*target),
        SExpr::Update(target) => member_of_a_name(*target),
        SExpr::Unary(op, target) => op == UnaryOp::Delete && member_of_a_name(*target),
        _ => false,
    }
}

fn is_member_of_a_name(e: &Expr) -> (r: bool)
    ensures
        r == member_of_a_name(e@),
{
    match e {
        Expr::Member(obj, _) => {
            let inner: &Expr = obj;
            assert(e@ matches SExpr::Member(o, _) && *o == inner@);
            match inner {
                Expr::Ident(_) => true,
                _ => false,
            }
        },
        _ => false,
    }
}

/// Whether `expr` mutates a property of a named object.
pub fn is_mutation_expr(expr: &Expr) -> (r: bool)
    ensures
        r == spec_is_mutation_expr(expr@),
{
    match expr {
        Expr::Assign(target, _) => is_member_of_a_name(target),
        Expr::Update(target) => is_member_of_a_name(target),
        Expr::Unary(op, target) => {
            match op {
                UnaryOp::Delete => is_member_of_a_name(target),
                _ => false,
            }
        },
        _ => false,
    }
}

/// Whether an entry of an injected function map is spelled `spelled`.
pub open spec fn spelled_as(spelled: Seq<char>) -> spec_fn(NamedValue) -> bool {
    |n: NamedValue| n.name@ == spelled
}

/// The value the injected function map `functions` answers for `spelled`: that
/// of its first entry spelled alike, if one is.
pub open spec fn named_answer(functions: FunctionMap, spelled: Seq<char>) -> Option<SValue> {
    let found = first_index(functions.identifiers@, spelled_as(spelled));
    if found is Some {
        Some(functions.identifiers@[found->0].value@)
    } else {
        None
    }
}

/// The value the injected function map answers for `ident`'s name: the first
/// entry spelled alike.
pub fn named_value<'a>(functions: &'a FunctionMap, ident: &Ident) -> (r: Option<
    &'a EvaluateResultValue,
>)
    ensures
        match r {
            Some(v) => named_answer(*functions, ident.sym@) == Some(v@),
            None => named_answer(*functions, ident.sym@) is None,
        },
{
    let mut i: usize = 0;
    while i < functions.identifiers.len()
        invariant
            i <= functions.identifiers@.len(),
            forall|j: int| 0 <= j < i ==> (#[trigger] functions.identifiers@[j]).name@ != ident.sym@,
        decreases functions.identifiers@.len() - i,
    {
        if functions.identifiers[i].name == ident.sym {
            proof {
                lemma_first_index(
                    functions.identifiers@,
                    spelled_as(ident.sym@),
                    i as int,
                );
            }
            return Some(&functions.identifiers[i].value);
        }
        i = i + 1;
    }
    proof {
        lemma_first_index(
            functions.identifiers@,
            spelled_as(ident.sym@),
            i as int,
        );
    }
    None
}

/// What a confident evaluation of a name owes, where `path` is one under any
/// parentheses: the value the injected function map answers for it, with the
/// evaluation and the module left as they were; and where the map answers
/// nothing, what resolving the name promises.
pub open spec fn named_or_resolved(
    path: Expr,
    st0: EvaluationState,
    st1: EvaluationState,
    ts0: StateManager,
    ts1: StateManager,
    r: Option<EvaluateResultValue>,
) -> bool {
    st0.confident && unparen(path) is Ident ==> {
        let ident = unparen(path)->Ident_0;
        match named_answer(st0.functions, ident.sym@) {
            Some(v) => sopt(r) == Some(v) && st1 == st0 && ts1 == ts0,
            None => resolves(ident, path@, st0, st1, ts0, ts1, r),
        }
    }
}

/// What a confident evaluation of a name answers, where `path` is one under
/// any parentheses: the value the injected function map answers for it,
/// leaving the evaluation as it was; where the map answers nothing, the
/// answer the resolution chain gives, with its refusal recorded against the
/// expression that step names.
pub open spec fn answers_name(
    path: Expr,
    st0: EvaluationState,
    st1: EvaluationState,
    ts0: StateManager,
    r: Option<EvaluateResultValue>,
) -> bool {
    st0.confident && unparen(path) is Ident ==> {
        let ident = unparen(path)->Ident_0;
        match named_answer(st0.functions, ident.sym@) {
            Some(v) => sopt(r) == Some(v) && st1 == st0,
            None => {
                let answer = resolution(ident, ts0, st0.functions.disable_imports);
                &&& answered(answer, st1, r)
                &&& answer is Refused ==> recorded_against(st1, path@)
                &&& answer is Unbound ==> recorded_against(st1, peel(path@))
                &&& (answer is Refused || answer is Unbound) ==> (st1.deopt_path matches Some(p)
                    && ident_span(p) == Some(ident.span))
            },
        }
    }
}

/// `path` evaluated one level: the arm for its kind of expression, with the
/// subtrees it reads evaluated through the memo.
pub fn _evaluate(
    path: &Expr,
    state: &mut EvaluationState,
    traversal_state: &mut StateManager,
    fns: &FunctionMap,
) -> (r: Option<EvaluateResultValue>)
    requires
        old(traversal_state).wf(),
    ensures
        evaluated(path@, *old(state), *final(state), *old(traversal_state), *final(traversal_state), r),
        old(state).confident && plain_literal(path@) ==> *final(state) == *old(state) && sopt(r) == Some(
            SValue::Expr(peel(path@)),
        ),
        settles(path@, *old(state), *final(state), *old(traversal_state), *final(traversal_state), r, room_left(*old(traversal_state)) + 1),
        named_or_resolved(*path, *old(state), *final(state), *old(traversal_state), *final(traversal_state), r),
        answers_name(*path, *old(state), *final(state), *old(traversal_state), r),
    decreases 2 * (old(traversal_state).spec_evaluation_ceiling() - old(traversal_state).evaluation_depth) + 1, 3int,
{
    if !state.confident {
        return None;
    }
    let normalized_path = normalize_expr(path);
    proof {
        lemma_peel_fold(path@);
        crate::semantics::lemma_height_and_peel(path@);
        assert(fits(peel(path@), traversal_state.character_ceiling as nat) == fits(
            path@,
            traversal_state.character_ceiling as nat,
        ));
    }
    if is_mutation_expr(normalized_path) {
        return deopt(path, state, NON_CONSTANT);
    }
    match normalized_path {
        Expr::Lit(lit) => match lit {
            Lit::BigInt(_) => {
                assert(!crate::semantics::simple(normalized_path@));
                let reason = unsupported_expression("BigIntLiteral");
                deopt(normalized_path, state, reason.as_str())
            },
            Lit::Regex(_) => {
                assert(!crate::semantics::simple(normalized_path@));
                let reason = unsupported_expression("RegExpLiteral");
                deopt(normalized_path, state, reason.as_str())
            },
            _ => Some(EvaluateResultValue::Expr(Expr::Lit(copy_lit(lit)))),
        },
        Expr::TsWrap(inner) => evaluate_cached(inner, state, traversal_state, fns),
        Expr::Ident(ident) => match named_value(&state.functions, ident) {
            Some(value) => Some(copy_value(value)),
            None => resolve_reference(ident, path, normalized_path, state, traversal_state, fns),
        },
        Expr::Sequence(exprs) => evaluate_sequence(normalized_path, exprs, state, traversal_state, fns),
        Expr::Cond(test, cons, alt) => evaluate_conditional(
            normalized_path,
            test,
            cons,
            alt,
            state,
            traversal_state,
            fns,
        ),
        Expr::Unary(op, arg) => evaluate_unary(normalized_path, *op, arg, state, traversal_state, fns),
        Expr::Array(elems) => evaluate_array(normalized_path, elems, state, traversal_state, fns),
        Expr::Tpl(quasis, exprs) => evaluate_quasis(
            normalized_path,
            quasis,
            exprs,
            state,
            traversal_state,
            fns,
        ),
        Expr::Bin(op, left, right) => evaluate_binary(
            normalized_path,
            *op,
            left,
            right,
            state,
            traversal_state,
            fns,
        ),
        Expr::Member(obj, prop) => evaluate_member(
            normalized_path,
            obj,
            prop,
            state,
            traversal_state,
            fns,
        ),
        Expr::Object(props) => evaluate_object(normalized_path, props, state, traversal_state, fns),
        Expr::Call(callee, args) => evaluate_call(
            normalized_path,
            callee,
            args,
            state,
            traversal_state,
            fns,
        ),
        Expr::Await(arg) => evaluate_cached(arg, state, traversal_state, fns),
        Expr::OptMember(obj, prop) => evaluate_optional_member(
            normalized_path,
            obj,
            prop,
            state,
            traversal_state,
            fns,
        ),
        Expr::OptCall(callee, args) => evaluate_optional_call(
            normalized_path,
            callee,
            args,
            state,
            traversal_state,
            fns,
        ),
        Expr::Assign(_, _) => {
            let reason = unsupported_expression("AssignmentExpression");
            deopt(normalized_path, state, reason.as_str())
        },
        Expr::Update(_) => {
            let reason = unsupported_expression("UpdateExpression");
            deopt(normalized_path, state, reason.as_str())
        },
        Expr::Other(kind) => {
            let reason = unsupported_expression(kind.as_str());
            deopt(normalized_path, state, reason.as_str())
        },
        _ => {
            let reason = unsupported_expression("Expression");
            deopt(normalized_path, state, reason.as_str())
        },
    }
}

/// The outcome of an evaluation: whether it was confident, the value it folded
/// to, and the first refusal it met.
pub struct EvaluateResult {
    pub confident: bool,
    pub value: Option<EvaluateResultValue>,
    pub deopt: Option<Expr>,
    pub reason: Option<String>,
}

/// What every top-level evaluation of `path` promises: the module and the
/// budgets are as they were and the memo only grew; it is confident exactly
/// when it has a value, and records why where it is not; its value is the
/// meaning of `path` wherever that meaning is self-contained; a plain
/// literal, under the depth ceiling and not remembered as refused, is
/// answered with itself; and a simple expression with a meaning, with room
/// under the ceiling for how deep it nests, a memo that remembers no refusal
/// and strings that fit the character ceiling, is answered with that
/// meaning.
pub open spec fn outcome(
    path: SExpr,
    ts0: StateManager,
    ts1: StateManager,
    r: EvaluateResult,
) -> bool {
    &&& ts1.same_module(&ts0)
    &&& ts1.wf()
    &&& memo_extends(ts0.seen@, ts1.seen@)
    &&& (r.confident <==> r.value is Some)
    &&& (!r.confident ==> r.deopt is Some && r.reason is Some)
    &&& agrees(path, sopt(r.value))
    &&& (plain_literal(path) && ts0.evaluation_depth < ts0.spec_evaluation_ceiling()
        && not_refused_before(ts0.seen@, path) ==> r.confident && sopt(r.value) == Some(
        SValue::Expr(peel(path)),
    ))
    &&& (simple(path) && const_fold(path) is Some && height(path) <= room_left(ts0)
        && remembers_no_refusal(ts0.seen@) && fits(path, ts0.character_ceiling as nat)
        ==> r.confident && sopt(r.value) == const_fold(path) && remembers_no_refusal(ts1.seen@))
}

/// What a top-level evaluation of a name answers, where `path` is one under
/// any parentheses that the depth ceiling lets through and the memo does not
/// remember: the value the injected functions `fns` answer for it; where they
/// answer nothing, the answer the resolution chain gives, refused against the
/// expression that step names.
pub open spec fn name_outcome(
    path: Expr,
    fns: FunctionMap,
    ts0: StateManager,
    r: EvaluateResult,
) -> bool {
    unparen(path) is Ident && unseen_within(path@, ts0) ==> {
        let ident = unparen(path)->Ident_0;
        match named_answer(fns, ident.sym@) {
            Some(v) => r.confident && sopt(r.value) == Some(v),
            None => match resolution(ident, ts0, fns.disable_imports) {
                Answer::Theme(f, e, c) => r.confident && sopt(r.value) == Some(
                    SValue::ThemeRef(f, e, c),
                ),
                Answer::Global(v) => r.confident && sopt(r.value) == Some(SValue::Expr(v)),
                Answer::Refused(reason) => refusal_reported(r, path@, ident.span, reason),
                Answer::Unbound(reason) => refusal_reported(r, peel(path@), ident.span, reason),
                Answer::Initializer(init) => agrees(init, sopt(r.value)),
            },
        }
    }
}

/// Whether `r` reports a refusal of `at`, written where `span` says, for
/// `reason`.
pub open spec fn refusal_reported(r: EvaluateResult, at: SExpr, span: Span, reason: Seq<char>) -> bool {
    &&& !r.confident
    &&& r.value is None
    &&& r.deopt matches Some(d) && d@ == at && ident_span(d) == Some(span)
    &&& r.reason matches Some(m) && m@ == reason
}

/// A map whose entries carry the same names and values, in the same order,
/// answers every name alike.
proof fn lemma_named_answer_copy(a: FunctionMap, b: FunctionMap, spelled: Seq<char>)
    requires
        a.identifiers@.len() == b.identifiers@.len(),
        forall|i: int|
            0 <= i < a.identifiers@.len() ==> (#[trigger] a.identifiers@[i]).name@
                == b.identifiers@[i].name@ && a.identifiers@[i].value@ == b.identifiers@[i].value@,
    ensures
        named_answer(a, spelled) == named_answer(b, spelled),
{
    lemma_first_alike(a, b, spelled, 0);
}

/// Scanning two such maps from `k` on finds the first entry spelled as
/// `spelled` at the same place in both.
proof fn lemma_first_alike(a: FunctionMap, b: FunctionMap, spelled: Seq<char>, k: int)
    requires
        a.identifiers@.len() == b.identifiers@.len(),
        forall|i: int|
            0 <= i < a.identifiers@.len() ==> (#[trigger] a.identifiers@[i]).name@
                == b.identifiers@[i].name@ && a.identifiers@[i].value@ == b.identifiers@[i].value@,
        0 <= k <= a.identifiers@.len(),
        forall|j: int| 0 <= j < k ==> (#[trigger] a.identifiers@[j]).name@ != spelled,
    ensures
        named_answer(a, spelled) == named_answer(b, spelled),
    decreases a.identifiers@.len() - k,
{
    let sa = a.identifiers@;
    let sb = b.identifiers@;
    assert forall|j: int| 0 <= j < k implies (#[trigger] sb[j]).name@ != spelled by {
        assert(sa[j].name@ == sb[j].name@);
    }
    if k == sa.len() {
        lemma_first_index(sa, spelled_as(spelled), k);
        lemma_first_index(sb, spelled_as(spelled), k);
    } else if sa[k].name@ == spelled {
        assert(sb[k].name@ == spelled);
        lemma_first_index(sa, spelled_as(spelled), k);
        lemma_first_index(sb, spelled_as(spelled), k);
    } else {
        lemma_first_alike(a, b, spelled, k + 1);
    }
}

/// What a top-level evaluation reports of one evaluation of `path` through
/// the memo: it started confident, with no refusal recorded and with a copy
/// of the injected functions `fns`, in `ts0`, and left `ts1`; the report is
/// its confidence, its value where it stayed confident, and its record.
pub open spec fn reported(path: SExpr, fns: FunctionMap, ts0: StateManager, ts1: StateManager, r: EvaluateResult) -> bool {
    exists|st0: EvaluationState, st1: EvaluationState, v: Option<EvaluateResultValue>|
        #[trigger] cached(path, st0, st1, ts0, ts1, v) && {
            &&& st0.confident
            &&& st0.deopt_path is None
            &&& st0.deopt_reason is None
            &&& st0.functions.disable_imports == fns.disable_imports
            &&& r.confident == st1.confident
            &&& r.value == (if st1.confident { v } else { None })
            &&& r.deopt == st1.deopt_path
            &&& r.reason == st1.deopt_reason
        }
}

/// A copy of an injected function map.
pub fn copy_functions(fns: &FunctionMap) -> (r: FunctionMap)
    ensures
        r.disable_imports == fns.disable_imports,
        r.identifiers@.len() == fns.identifiers@.len(),
        forall|i: int|
            0 <= i < fns.identifiers@.len() ==> (#[trigger] r.identifiers@[i]).name@
                == fns.identifiers@[i].name@ && r.identifiers@[i].value@ == fns.identifiers@[i].value@,
{
    let mut identifiers: Vec<NamedValue> = Vec::new();
    let mut i: usize = 0;
    while i < fns.identifiers.len()
        invariant
            i <= fns.identifiers@.len(),
            identifiers@.len() == i,
            forall|j: int|
                0 <= j < i ==> (#[trigger] identifiers@[j]).name@ == fns.identifiers@[j].name@
                    && identifiers@[j].value@ == fns.identifiers@[j].value@,
        decreases fns.identifiers@.len() - i,
    {
        identifiers.push(
            NamedValue {
                name: fns.identifiers[i].name.clone(),
                value: copy_value(&fns.identifiers[i].value),
            },
        );
        i = i + 1;
    }
    FunctionMap { identifiers, disable_imports: fns.disable_imports }
}

/// Evaluates `path` in the module `traversal_state`, with the injected
/// functions `fns`.
pub fn evaluate(path: &Expr, traversal_state: &mut StateManager, fns: &FunctionMap) -> (r: Box<
    EvaluateResult,
>)
    requires
        old(traversal_state).wf(),
    ensures
        outcome(path@, *old(traversal_state), *final(traversal_state), *r),
        name_outcome(*path, *fns, *old(traversal_state), *r),
        reported(path@, *fns, *old(traversal_state), *final(traversal_state), *r),
{
    evaluate_with_functions(path, traversal_state, fns)
}

/// Evaluates `path` on a fresh evaluation state carrying `fns`, and reports
/// the value only where the evaluation stayed confident.
pub fn evaluate_with_functions(
    path: &Expr,
    traversal_state: &mut StateManager,
    fns: &FunctionMap,
) -> (r: Box<EvaluateResult>)
    requires
        old(traversal_state).wf(),
    ensures
        outcome(path@, *old(traversal_state), *final(traversal_state), *r),
        name_outcome(*path, *fns, *old(traversal_state), *r),
        reported(path@, *fns, *old(traversal_state), *final(traversal_state), *r),
    decreases 2 * (old(traversal_state).spec_evaluation_ceiling() - old(traversal_state).evaluation_depth), 6int,
{
    let mut state = EvaluationState {
        confident: true,
        deopt_path: None,
        deopt_reason: None,
        added_imports: Vec::new(),
        functions: copy_functions(fns),
    };
    proof {
        if unparen(*path) is Ident {
            lemma_named_answer_copy(state.functions, *fns, unparen(*path)->Ident_0.sym@);
        }
    }
    let ghost st0 = state;
    let mut value = evaluate_cached(path, &mut state, traversal_state, fns);
    proof {
        assert(cached(path@, st0, state, *old(traversal_state), *traversal_state, value));
    }
    if !state.confident {
        value = None;
    }
    Box::new(
        EvaluateResult {
            confident: state.confident,
            value,
            deopt: state.deopt_path,
            reason: state.deopt_reason,
        },
    )
}

impl EvaluateResult {
    /// A refusal of `deopt` for `reason`.
    pub fn refused(deopt: Option<Expr>, reason: Option<String>) -> (r: EvaluateResult)
        ensures
            !r.confident,
            r.value is None,
            r.deopt == deopt,
            r.reason == reason,
    {
        EvaluateResult { confident: false, value: None, deopt, reason }
    }
}

/// What a computed key answers from the report of the top-level evaluation
/// of its expression: a refusal is passed on as it was reported; a value is
/// read as the string it spells, or refused, against the value, where it
/// spells none.
pub open spec fn computed_key_read(
    computed: SExpr,
    fns: FunctionMap,
    ts0: StateManager,
    ts1: StateManager,
    r: EvaluateResult,
) -> bool {
    exists|e: EvaluateResult| #[trigger] reported(computed, fns, ts0, ts1, e) && if !e.confident {
        !r.confident && r.deopt == e.deopt && r.reason == e.reason
    } else {
        match e.value {
            Some(EvaluateResultValue::Expr(x)) => match expr_to_string(x@) {
                Some(t) => r.confident && sopt(r.value) == Some(SValue::Expr(SExpr::Lit(SLit::Str(t)))),
                None => !r.confident && r.deopt == Some(x) && (r.reason matches Some(m) && m@ == KEY_NOT_A_STRING@),
            },
            _ => !r.confident && (r.deopt matches Some(d) && d@ == computed) && (r.reason matches Some(m)
                && m@ == ILLEGAL_PROP_VALUE@),
        }
    }
}

/// The key an object property names, as the string expression it is read
/// under: a written key as it is spelled, a computed one evaluated and read
/// as a string.
pub fn evaluate_obj_key(key: &PropName, traversal_state: &mut StateManager, functions: &FunctionMap) -> (r:
    EvaluateResult)
    requires
        old(traversal_state).wf(),
    ensures
        final(traversal_state).same_module(&*old(traversal_state)),
        final(traversal_state).wf(),
        memo_extends(old(traversal_state).seen@, final(traversal_state).seen@),
        r.confident <==> r.value is Some,
        r.confident ==> (r.value matches Some(v) && v@ is Expr && v@->Expr_0 matches SExpr::Lit(
            SLit::Str(_),
        )),
        match key {
            PropName::Computed(computed) => (r.confident ==> (const_key(spropname(*key)) matches Some(
                k,
            ) ==> sopt(r.value) == Some(SValue::Expr(SExpr::Lit(SLit::Str(k)))))) && (simple(
                computed@,
            ) && const_key(spropname(*key)) is Some && height(computed@) <= room_left(
                *old(traversal_state),
            ) && remembers_no_refusal(old(traversal_state).seen@) && fits(
                computed@,
                old(traversal_state).character_ceiling as nat,
            ) ==> r.confident),
            _ => r.confident && sopt(r.value) == Some(
                SValue::Expr(SExpr::Lit(SLit::Str(key_text(spropname(*key))->0))),
            ),
        },
        key matches PropName::Computed(computed) ==> computed_key_read(computed@, *functions, *old(traversal_state), *final(traversal_state), r),
{
    let text = match key {
        PropName::Ident(name) => name.clone(),
        PropName::Str(name) => name.clone(),
        PropName::Num(spelling) => spelling.clone(),
        PropName::Computed(computed) => {
            let result = evaluate(computed, traversal_state, functions);
            proof {
                assert(reported(computed@, *functions, *old(traversal_state), *traversal_state, *result));
            }
            if !result.confident {
                return EvaluateResult::refused(result.deopt, result.reason);
            }
            match result.value {
                Some(EvaluateResultValue::Expr(e)) => match expr_string(&e) {
                    Some(t) => t,
                    None => {
                        return EvaluateResult::refused(
                            Some(e),
                            Some(String::from_str(KEY_NOT_A_STRING)),
                        );
                    },
                },
                _ => {
                    return EvaluateResult::refused(
                        Some(copy_expr(computed)),
                        Some(String::from_str(ILLEGAL_PROP_VALUE)),
                    );
                },
            }
        },
    };
    EvaluateResult {
        confident: true,
        value: Some(EvaluateResultValue::Expr(Expr::Lit(Lit::Str(text)))),
        deopt: None,
        reason: None,
    }
}

/// The declarator a callee names, where it is a name.
pub fn get_binding<'a>(callee: &Expr, state: &'a StateManager) -> (r: Option<&'a VarDeclarator>)
    ensures
        match callee@ {
            SExpr::Ident(s, c) => match r {
                Some(d) => declarator_of(state.declarations@, (s, c)) == Some(*d),
                None => declarator_of(state.declarations@, (s, c)) is None,
            },
            _ => r is None,
        },
{
    match callee {
        Expr::Ident(ident) => get_var_decl_from(state, ident),
        _ => None,
    }
}

/// The name a callee is written as; a callee is a name here.
pub fn get_callee_name(callee: &Expr) -> (r: &str)
    requires
        callee@ is Ident,
    ensures
        callee@ matches SExpr::Ident(s, _) && r@ == s,
{
    match callee {
        Expr::Ident(ident) => ident.sym.as_str(),
        _ => "",
    }
}

} // verus!
