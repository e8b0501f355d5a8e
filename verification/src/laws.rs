//! What holds of the evaluator across its functions, stated over the spec
//! functions their contracts use.
use vstd::prelude::*;

use crate::binding::{resolution, spec_reads_before, Answer};
use crate::coerce::{expr_to_string, joins_as_empty, join_sep, type_of};
use crate::helpers::key_text;
use crate::messages::{
    IMPORT_FILE_EVAL_ERROR, IMPORT_PATH_RESOLUTION_ERROR, NON_CONSTANT, UNINITIALIZED_CONST,
    USED_BEFORE_DECLARATION,
};
use crate::coerce::{nullish, string_of, to_boolean, to_object, ObjectCoercion};
use crate::cache::{cached, recorded_against, unseen_within};
use crate::deopt::{deopted, refused_for};
use crate::messages::PATH_WITHOUT_NODE;
use crate::state::EvaluationState;
use crate::value::{sopt, EvaluateResultValue};
use crate::fold::{spec_global_as_a_value, spec_written_global, valid_callee, Depth};
use crate::helpers::{own_key_step, own_keys_list, OwnKeysQuestion};
use crate::semantics::{
    length_of, reading, Reading, concat_strings, concatenation, const_fold, method_fold, negated, number_spelling, peel,
    primitive_of, strictly_equal, undefined_value,
};
use crate::state::{
    binding_listed, declarator_of, first_index, import_of, is_first, resolution_of, ImportBinding,
    ImportKind, StateManager, VarDeclarator,
};
use crate::syntax::{BinaryOp, Ident, SElem, SExpr, SLit, SProp, SPropName, UnaryOp};
use crate::text::{capped, spec_units_within, utf16_len};
use crate::value::SValue;

verus! {

/// The first refusal wins: once an evaluation has refused, a later refusal
/// changes nothing about it.
pub proof fn law_first_refusal_wins(
    before: crate::state::EvaluationState,
    after: crate::state::EvaluationState,
    path: SExpr,
    reason: Seq<char>,
)
    requires
        deopted(before, after, path, reason),
        !before.confident,
    ensures
        after == before,
{
}

/// A refusal of a confident evaluation ends its confidence and records what
/// was refused and why.
pub proof fn law_a_refusal_is_recorded(
    before: crate::state::EvaluationState,
    after: crate::state::EvaluationState,
    path: SExpr,
    reason: Seq<char>,
)
    requires
        deopted(before, after, path, reason),
        before.confident,
    ensures
        !after.confident,
        refused_for(after, reason),
        after.deopt_path matches Some(p) && p@ == path,
{
}

/// Parentheses change no meaning: an expression and the same expression
/// with its parentheses peeled fold alike.
pub proof fn law_parentheses_change_nothing(e: SExpr)
    ensures
        const_fold(peel(e)) == const_fold(e),
{
    crate::evaluator::lemma_peel_fold(e);
}

/// `null` and `undefined` are falsy wherever their truthiness can be read.
pub proof fn law_nullish_is_falsy(v: SValue)
    requires
        nullish(v),
        to_boolean(v) is Some,
    ensures
        to_boolean(v) == Some(false),
{
}

/// The coercions agree that a folded function map is an object: `ToObject`
/// reads it as one, and `ToString` writes the object default.
pub proof fn law_a_function_map_is_an_object(v: SValue)
    requires
        v is FunctionConfigMap,
    ensures
        to_object(v) == Some(ObjectCoercion::Object),
        string_of(v) == Some("[object Object]"@),
{
}

/// A synthesized reference, which carries no authored position, is never
/// read as coming before its declarator.
pub proof fn law_a_dummy_span_is_never_early(reference: Ident, declarator: VarDeclarator)
    requires
        reference.span.spec_is_dummy() || declarator.span.spec_is_dummy(),
    ensures
        !spec_reads_before(reference, declarator),
{
}

/// The callee rule is the wider of the two shadowing rules: a global the
/// callee rule leaves unshadowed has no declarator either, so the receiver
/// rule leaves it unshadowed too (in a module whose declarators are all
/// bindings).
pub proof fn law_an_unshadowed_callee_is_an_unshadowed_receiver(e: SExpr, state: StateManager)
    requires
        state.wf(),
        spec_written_global(e) matches Some(id) && !binding_listed(state.declared_bindings@, id),
    ensures
        declarator_of(state.declarations@, spec_written_global(e)->0) is None,
{
    let id = spec_written_global(e)->0;
    let p = |d: VarDeclarator| d.name@ == id;
    if first_index(state.declarations@, p) is Some {
        let i = choose|i: int| is_first(state.declarations@, p, i);
        assert(is_first(state.declarations@, p, i));
        assert(binding_listed(state.declared_bindings@, state.declarations@[i].name@));
    }
}

/// A global the fold may call is claimed in a value position exactly where
/// the callee rule leaves it unshadowed.
pub proof fn law_a_callee_is_a_value_where_unshadowed(e: SExpr, state: StateManager)
    requires
        spec_written_global(e) is Some,
    ensures
        spec_global_as_a_value(e, state) == !binding_listed(
            state.declared_bindings@,
            spec_written_global(e)->0,
        ),
{
}

/// The three own-keys questions walk the same properties: they refuse the
/// same receivers for the same reasons, and answer lists of the same length.
pub proof fn law_the_own_keys_questions_agree(
    props: Seq<SProp>,
    q: OwnKeysQuestion,
    other: OwnKeysQuestion,
)
    ensures
        own_keys_list(props, q) is Ok <==> own_keys_list(props, other) is Ok,
        own_keys_list(props, q) matches Err(r) ==> own_keys_list(props, other) == Err::<
            Seq<crate::syntax::SElem>,
            Seq<char>,
        >(r),
        own_keys_list(props, q) matches Ok(a) ==> own_keys_list(props, other)->Ok_0.len()
            == a.len(),
    decreases props.len(),
{
    if props.len() > 0 {
        law_the_own_keys_questions_agree(props.drop_last(), q, other);
        assert(own_key_step(props.last(), q) is Ok <==> own_key_step(props.last(), other) is Ok);
    }
}

/// Growing a string piece by piece refuses at the same point as growing it
/// at once: two appends fit under a ceiling exactly when their text together
/// does.
pub proof fn law_growth_is_measured_in_total(
    held: Seq<char>,
    first: Seq<char>,
    second: Seq<char>,
    ceiling: usize,
)
    requires
        utf16_len(held) <= usize::MAX,
    ensures
        ({
            let units = capped(utf16_len(held) as int) as usize;
            let both = spec_units_within(units, first + second, ceiling);
            match spec_units_within(units, first, ceiling) {
                Some(after_first) => spec_units_within(after_first, second, ceiling) == both,
                None => both is None,
            }
        }),
{
    crate::text::lemma_utf16_len_concat(first, second);
}

/// A fold given the whole of a ceiling `c` descends exactly `c` times, one
/// level less each time and under the same ceiling, and the descent after
/// those finds no level left: that one is refused as nesting more than `c`
/// levels deep.
pub proof fn law_a_ceiling_allows_that_many_descents(c: usize, k: nat)
    requires
        k <= c,
    ensures
        Depth::full_spec(c).descents(k) == Some(Depth { left: (c - k) as usize, ceiling: c }),
        Depth::full_spec(c).descents(c as nat) == Some(Depth { left: 0, ceiling: c }),
        Depth::full_spec(c).descents((c + 1) as nat) is None,
    decreases k,
{
    if k > 0 {
        law_a_ceiling_allows_that_many_descents(c, (k - 1) as nat);
    }
    lemma_full_descents(c, c as nat);
    assert(Depth::full_spec(c).descents((c + 1) as nat) == match Depth::full_spec(c).descents(c as nat) {
        Some(d) => d.spec_descend(),
        None => None,
    });
}

/// `k` descents from the whole of `c` leave `c - k` levels.
proof fn lemma_full_descents(c: usize, k: nat)
    requires
        k <= c,
    ensures
        Depth::full_spec(c).descents(k) == Some(Depth { left: (c - k) as usize, ceiling: c }),
    decreases k,
{
    if k > 0 {
        lemma_full_descents(c, (k - 1) as nat);
    }
}

/// A subtree folded once is answered from the memo the next time: where an
/// evaluation that started confident folded `path` the memo did not
/// remember, within the depth ceiling, and stayed confident, evaluating
/// `path` again in the module it left answers the same value, leaves the
/// evaluation as it was, and leaves the memo as it was.
pub proof fn law_a_fold_is_answered_from_the_memo(
    path: SExpr,
    st0: EvaluationState,
    st1: EvaluationState,
    st2: EvaluationState,
    ts0: StateManager,
    ts1: StateManager,
    ts2: StateManager,
    r1: Option<EvaluateResultValue>,
    r2: Option<EvaluateResultValue>,
)
    requires
        unseen_within(path, ts0),
        cached(path, st0, st1, ts0, ts1, r1),
        st1.confident,
        cached(path, st1, st2, ts1, ts2, r2),
    ensures
        sopt(r2) == sopt(r1),
        st2 == st1,
        ts2.seen@ == ts1.seen@,
{
}

/// A refusal the evaluation owns is remembered: where an evaluation that
/// started confident was refused on `path` the memo did not remember, within
/// the depth ceiling, and the module it left owns its refusals, a confident
/// evaluation of `path` in that module is refused again, for a subtree
/// already refused, against `path`, and leaves the memo as it was.
pub proof fn law_an_owned_refusal_is_remembered(
    path: SExpr,
    st0: EvaluationState,
    st1: EvaluationState,
    s: EvaluationState,
    s2: EvaluationState,
    ts0: StateManager,
    ts1: StateManager,
    ts2: StateManager,
    r1: Option<EvaluateResultValue>,
    r2: Option<EvaluateResultValue>,
)
    requires
        unseen_within(path, ts0),
        cached(path, st0, st1, ts0, ts1, r1),
        st0.confident,
        !st1.confident,
        ts1.spec_owns_its_refusals(),
        cached(path, s, s2, ts1, ts2, r2),
        s.confident,
    ensures
        r2 is None,
        refused_for(s2, PATH_WITHOUT_NODE@),
        recorded_against(s2, path),
        ts2.seen@ == ts1.seen@,
{
}

/// A named import read as a theme reference names the export its specifier
/// imports, whatever the local alias it is read under: `import { colors as c }`
/// reads `colors` from the file its source resolves to; a specifier with no
/// alias reads the export spelled as the local name.
pub proof fn law_a_named_import_reads_the_imported_export(
    ident: Ident,
    ts: StateManager,
    b: ImportBinding,
    p: Seq<char>,
)
    requires
        import_of(ts.imports@, ident@) == Some(b),
        b.kind is Named,
        resolution_of(ts.resolutions@, b.source@) == Some(Some(p)),
    ensures
        b.kind matches ImportKind::Named(Some(imported)) ==> resolution(ident, ts, false)
            == Answer::Theme(p, imported@, ts.class_name_prefix@),
        b.kind matches ImportKind::Named(None) ==> resolution(ident, ts, false) == Answer::Theme(
            p,
            b.local.sym@,
            ts.class_name_prefix@,
        ),
{
}

/// Each item `Object.entries` answers for an object's properties is a pair:
/// the item `Object.keys` answers for that property, a string literal of its
/// key, then the item `Object.values` answers, its value.
pub proof fn law_an_entry_is_a_key_then_its_value(props: Seq<SProp>)
    requires
        own_keys_list(props, OwnKeysQuestion::Entries) is Ok,
    ensures
        own_keys_list(props, OwnKeysQuestion::Keys) is Ok,
        own_keys_list(props, OwnKeysQuestion::Values) is Ok,
        ({
            let entries = own_keys_list(props, OwnKeysQuestion::Entries)->Ok_0;
            let keys = own_keys_list(props, OwnKeysQuestion::Keys)->Ok_0;
            let values = own_keys_list(props, OwnKeysQuestion::Values)->Ok_0;
            &&& entries.len() == keys.len() && keys.len() == values.len()
            &&& forall|i: int|
                0 <= i < entries.len() ==> #[trigger] entries[i] == SElem::Expr(
                    SExpr::Array(seq![keys[i], values[i]]),
                ) && (keys[i] matches SElem::Expr(SExpr::Lit(SLit::Str(_))))
        }),
    decreases props.len(),
{
    law_the_own_keys_questions_agree(props, OwnKeysQuestion::Entries, OwnKeysQuestion::Keys);
    law_the_own_keys_questions_agree(props, OwnKeysQuestion::Entries, OwnKeysQuestion::Values);
    if props.len() > 0 {
        law_an_entry_is_a_key_then_its_value(props.drop_last());
        let entries = own_keys_list(props, OwnKeysQuestion::Entries)->Ok_0;
        let keys = own_keys_list(props, OwnKeysQuestion::Keys)->Ok_0;
        let values = own_keys_list(props, OwnKeysQuestion::Values)->Ok_0;
        let e0 = own_keys_list(props.drop_last(), OwnKeysQuestion::Entries)->Ok_0;
        let k0 = own_keys_list(props.drop_last(), OwnKeysQuestion::Keys)->Ok_0;
        let v0 = own_keys_list(props.drop_last(), OwnKeysQuestion::Values)->Ok_0;
        assert forall|i: int| 0 <= i < entries.len() implies #[trigger] entries[i] == SElem::Expr(
            SExpr::Array(seq![keys[i], values[i]]),
        ) && (keys[i] matches SElem::Expr(SExpr::Lit(SLit::Str(_)))) by {
            if i < entries.len() - 1 {
                assert(entries[i] == e0[i]);
                assert(keys[i] == k0[i]);
                assert(values[i] == v0[i]);
            }
        }
    }
}

/// `===` answers true only of two values that are the same primitive, and
/// answers true of any primitive and itself but the number `NaN`; it
/// answers alike whichever side each value stands on.
pub proof fn law_strict_equality_is_sameness(a: SValue, b: SValue)
    ensures
        strictly_equal(a, b) == Some(true) ==> primitive_of(a) is Some && primitive_of(a)
            == primitive_of(b),
        primitive_of(a) is Some && primitive_of(a) == primitive_of(b) && primitive_of(a)
            != Some(SLit::Num("NaN"@)) ==> strictly_equal(a, b) == Some(true),
        strictly_equal(a, b) == strictly_equal(b, a),
{
}

/// A boolean literal's truthiness is the boolean it holds, so `!!x` reads
/// as the truthiness of `x`, and a conditional on a literal takes the branch
/// that literal names: `false ? c : a` is `a`.
pub proof fn law_a_boolean_is_its_own_truthiness(b: bool, x: SExpr, c: SExpr, a: SExpr)
    ensures
        to_boolean(SValue::Expr(SExpr::Lit(SLit::Bool(b)))) == Some(b),
        const_fold(x) is Some && to_boolean(const_fold(x)->0) is Some ==> const_fold(
            SExpr::Unary(UnaryOp::Bang, Box::new(SExpr::Unary(UnaryOp::Bang, Box::new(x)))),
        ) == Some(SValue::Expr(SExpr::Lit(SLit::Bool(to_boolean(const_fold(x)->0)->0)))),
        const_fold(
            SExpr::Cond(Box::new(SExpr::Lit(SLit::Bool(b))), Box::new(c), Box::new(a)),
        ) == if b {
            const_fold(c)
        } else {
            const_fold(a)
        },
{
    assert(const_fold(SExpr::Lit(SLit::Bool(b))) == Some(SValue::Expr(SExpr::Lit(SLit::Bool(b)))));
    if const_fold(x) is Some && to_boolean(const_fold(x)->0) is Some {
        let t = to_boolean(const_fold(x)->0)->0;
        let once = SExpr::Unary(UnaryOp::Bang, Box::new(x));
        assert(const_fold(once) == Some(SValue::Expr(SExpr::Lit(SLit::Bool(!t)))));
        assert(to_boolean(SValue::Expr(SExpr::Lit(SLit::Bool(!t)))) == Some(!t));
        assert(const_fold(SExpr::Unary(UnaryOp::Bang, Box::new(once))) == Some(
            SValue::Expr(SExpr::Lit(SLit::Bool(!!t))),
        ));
    }
}

/// `ToString` of a boolean is the word it is written as, not its number: a
/// template or a `+` with a boolean writes `true` or `false`.
pub proof fn law_a_boolean_writes_its_word(b: bool, q0: Seq<char>, q1: Seq<char>)
    ensures
        string_of(SValue::Expr(SExpr::Lit(SLit::Bool(b)))) == Some(
            if b {
                "true"@
            } else {
                "false"@
            },
        ),
        string_of(SValue::Expr(SExpr::Lit(SLit::Bool(b)))) != number_spelling(
            SValue::Expr(SExpr::Lit(SLit::Bool(b))),
        ),
        const_fold(SExpr::Tpl(seq![q0, q1], seq![SExpr::Lit(SLit::Bool(b))])) == Some(
            SValue::Expr(
                SExpr::Lit(
                    SLit::Str(
                        q0 + (if b {
                            "true"@
                        } else {
                            "false"@
                        }) + q1,
                    ),
                ),
            ),
        ),
{
    reveal_strlit("true");
    reveal_strlit("false");
    reveal_strlit("1");
    reveal_strlit("0");
    let qs = seq![q0, q1];
    let es = seq![SExpr::Lit(SLit::Bool(b))];
    assert(crate::semantics::tpl_fold(qs, es, 0) == Some(Seq::<char>::empty()));
    assert(const_fold(es[0]) == Some(SValue::Expr(es[0])));
    assert(Seq::<char>::empty() + qs[0] =~= q0);
    assert(crate::semantics::tpl_fold(qs, es, 1) == Some(q0 + string_of(SValue::Expr(es[0]))->0));
    assert(crate::semantics::tpl_fold(qs, es, 2) == Some(
        q0 + string_of(SValue::Expr(es[0]))->0 + q1,
    ));
}

/// `ToBoolean` of the primitives: a string is truthy exactly when it is not
/// empty, a number exactly when it is neither zero nor `NaN`, `null` and
/// `undefined` are falsy, and an array or object literal is truthy.
pub proof fn law_truthiness_of_primitives(text: Seq<char>, number: Seq<char>, es: Seq<SElem>, ps: Seq<SProp>)
    ensures
        to_boolean(SValue::Expr(SExpr::Lit(SLit::Str(text)))) == Some(text.len() > 0),
        to_boolean(SValue::Expr(SExpr::Lit(SLit::Num(number)))) == Some(
            number != "0"@ && number != "NaN"@,
        ),
        to_boolean(SValue::Expr(SExpr::Lit(SLit::Null))) == Some(false),
        to_boolean(undefined_value()) == Some(false),
        to_boolean(SValue::Expr(SExpr::Array(es))) == Some(true),
        to_boolean(SValue::Expr(SExpr::Object(ps))) == Some(true),
{
}

/// `ToString` of the primitives: a string is itself, a number its spelling,
/// `null` and `undefined` their names, an object `[object Object]`; an array
/// of two strings is the two joined with a comma.
pub proof fn law_strings_of_primitives(text: Seq<char>, number: Seq<char>, a: Seq<char>, b: Seq<char>, ps: Seq<SProp>)
    ensures
        string_of(SValue::Expr(SExpr::Lit(SLit::Str(text)))) == Some(text),
        string_of(SValue::Expr(SExpr::Lit(SLit::Num(number)))) == Some(number),
        string_of(SValue::Expr(SExpr::Lit(SLit::Null))) == Some("null"@),
        string_of(undefined_value()) == Some("undefined"@),
        string_of(SValue::Expr(SExpr::Object(ps))) == Some("[object Object]"@),
        string_of(
            SValue::Vec(
                seq![
                    SValue::Expr(SExpr::Lit(SLit::Str(a))),
                    SValue::Expr(SExpr::Lit(SLit::Str(b))),
                ],
            ),
        ) == Some(a + ","@ + b),
{
    reveal_strlit("null");
    reveal_strlit("undefined");
    lemma_two_strings_join(a, b, ","@);
}

/// Two strings join as the first, the separator, and the second.
proof fn lemma_two_strings_join(a: Seq<char>, b: Seq<char>, sep: Seq<char>)
    ensures
        join_sep(
            seq![SValue::Expr(SExpr::Lit(SLit::Str(a))), SValue::Expr(SExpr::Lit(SLit::Str(b)))],
            sep,
        ) == Some(a + sep + b),
{
    let x = SValue::Expr(SExpr::Lit(SLit::Str(a)));
    let y = SValue::Expr(SExpr::Lit(SLit::Str(b)));
    let items = seq![x, y];
    let one = seq![x];
    assert(items.drop_last() =~= one);
    assert(one.drop_last() =~= Seq::<SValue>::empty());
    assert(!joins_as_empty(x));
    assert(!joins_as_empty(y));
    assert(join_sep(Seq::<SValue>::empty(), sep) == Some(Seq::<char>::empty()));
    assert(one.last() == x);
    assert(string_of(x) == Some(a));
    assert(string_of(y) == Some(b));
    assert(one.len() == 1);
    assert(join_sep(one, sep) == Some(Seq::<char>::empty() + Seq::<char>::empty() + a));
    assert(Seq::<char>::empty() + Seq::<char>::empty() + a =~= a);
    assert(items.last() == y);
}

/// What `typeof` answers for each kind of value.
pub proof fn law_typeof_of_each_kind(text: Seq<char>, number: Seq<char>, b: bool, es: Seq<SElem>)
    ensures
        type_of(SValue::Expr(SExpr::Lit(SLit::Str(text)))) == Some("string"@),
        type_of(SValue::Expr(SExpr::Lit(SLit::Num(number)))) == Some("number"@),
        type_of(SValue::Expr(SExpr::Lit(SLit::Bool(b)))) == Some("boolean"@),
        type_of(SValue::Expr(SExpr::Lit(SLit::Null))) == Some("object"@),
        type_of(undefined_value()) == Some("undefined"@),
        type_of(SValue::Expr(SExpr::Array(es))) == Some("object"@),
{
}

/// The number a primitive reads as, with no text read: a boolean is one or
/// zero, `null` zero, `undefined` not a number; and negating a number twice
/// gives it back, a minus sign put before a number written without one.
pub proof fn law_numbers_of_primitives(b: bool, t: Seq<char>)
    ensures
        number_spelling(SValue::Expr(SExpr::Lit(SLit::Bool(b)))) == Some(
            if b {
                "1"@
            } else {
                "0"@
            },
        ),
        number_spelling(SValue::Expr(SExpr::Lit(SLit::Null))) == Some("0"@),
        number_spelling(undefined_value()) == Some("NaN"@),
        number_spelling(SValue::Expr(SExpr::Lit(SLit::Num(t)))) == Some(t),
        t.len() > 0 && t[0] != '-' && t != "0"@ && t != "NaN"@ ==> negated(t) == seq!['-'] + t
            && negated(negated(t)) == t,
{
    if t.len() > 0 && t[0] != '-' && t != "0"@ && t != "NaN"@ {
        let m = seq!['-'] + t;
        assert(m[0] == '-');
        reveal_strlit("0");
        reveal_strlit("NaN");
        assert(m != "0"@ && m != "NaN"@) by {
            assert(m.len() != "0"@.len() || m[0] != "0"@[0]);
            assert(m.len() != "NaN"@.len() || m[0] != "NaN"@[0]);
        }
        assert(m.subrange(1, m.len() as int) =~= t);
    }
}

/// `+` joins the strings of its two sides, unless both are numbers, which it
/// does not add; two string literals join as one.
pub proof fn law_plus_joins_strings(l: SValue, r: SValue, a: Seq<char>, b: Seq<char>)
    ensures
        number_spelling(l) is Some && number_spelling(r) is Some ==> concatenation(l, r) is None,
        !(number_spelling(l) is Some && number_spelling(r) is Some) && string_of(l) is Some
            && string_of(r) is Some ==> concatenation(l, r) == Some(
            SValue::Expr(SExpr::Lit(SLit::Str(string_of(l)->0 + string_of(r)->0))),
        ),
        const_fold(
            SExpr::Bin(
                BinaryOp::Add,
                Box::new(SExpr::Lit(SLit::Str(a))),
                Box::new(SExpr::Lit(SLit::Str(b))),
            ),
        ) == Some(SValue::Expr(SExpr::Lit(SLit::Str(a + b)))),
{
    assert(const_fold(SExpr::Lit(SLit::Str(a))) == Some(SValue::Expr(SExpr::Lit(SLit::Str(a)))));
    assert(const_fold(SExpr::Lit(SLit::Str(b))) == Some(SValue::Expr(SExpr::Lit(SLit::Str(b)))));
}

/// `&&`, `||` and `??` on values: `&&` answers its left side where that is
/// falsy and its right side otherwise, `||` the other way round, and `??`
/// its right side exactly where the left is `null` or `undefined`; `!==`
/// answers the opposite of `===`.
pub proof fn law_logical_operators_choose_a_side(a: SExpr, b: SExpr)
    ensures
        const_fold(a) is Some && to_boolean(const_fold(a)->0) == Some(false) ==> const_fold(
            SExpr::Bin(BinaryOp::LogicalAnd, Box::new(a), Box::new(b)),
        ) == const_fold(a),
        const_fold(a) is Some && to_boolean(const_fold(a)->0) == Some(true) ==> const_fold(
            SExpr::Bin(BinaryOp::LogicalAnd, Box::new(a), Box::new(b)),
        ) == const_fold(b),
        const_fold(a) is Some && to_boolean(const_fold(a)->0) == Some(true) ==> const_fold(
            SExpr::Bin(BinaryOp::LogicalOr, Box::new(a), Box::new(b)),
        ) == const_fold(a),
        const_fold(a) is Some && to_boolean(const_fold(a)->0) == Some(false) ==> const_fold(
            SExpr::Bin(BinaryOp::LogicalOr, Box::new(a), Box::new(b)),
        ) == const_fold(b),
        const_fold(a) is Some ==> const_fold(SExpr::Bin(BinaryOp::Nullish, Box::new(a), Box::new(b)))
            == if nullish(const_fold(a)->0) {
            const_fold(b)
        } else {
            const_fold(a)
        },
        const_fold(SExpr::Bin(BinaryOp::StrictEq, Box::new(a), Box::new(b))) matches Some(SValue::Expr(SExpr::Lit(SLit::Bool(x))))
            ==> const_fold(SExpr::Bin(BinaryOp::StrictNotEq, Box::new(a), Box::new(b))) == Some(
            SValue::Expr(SExpr::Lit(SLit::Bool(!x))),
        ),
{
}

/// An array's `join` writes its elements with a comma between each two where
/// no separator is given, and with the given one otherwise; a string's
/// `concat` writes the string then each argument's string, in order.
pub proof fn law_join_and_concat_write_in_order(a: Seq<char>, b: Seq<char>, sep: Seq<char>, base: Seq<char>)
    ensures
        ({
            let items = seq![SValue::Expr(SExpr::Lit(SLit::Str(a))), SValue::Expr(SExpr::Lit(SLit::Str(b)))];
            &&& method_fold(SValue::Vec(items), "join"@, Seq::empty()) == Some(
                SValue::Expr(SExpr::Lit(SLit::Str(a + ","@ + b))),
            )
            &&& method_fold(
                SValue::Vec(items),
                "join"@,
                seq![SValue::Expr(SExpr::Lit(SLit::Str(sep)))],
            ) == Some(SValue::Expr(SExpr::Lit(SLit::Str(a + sep + b))))
            &&& method_fold(SValue::Expr(SExpr::Lit(SLit::Str(base))), "concat"@, items) == Some(
                SValue::Expr(SExpr::Lit(SLit::Str(base + a + b))),
            )
        }),
{
    reveal_strlit("join");
    reveal_strlit("concat");
    reveal_strlit(",");
    let items = seq![SValue::Expr(SExpr::Lit(SLit::Str(a))), SValue::Expr(SExpr::Lit(SLit::Str(b)))];
    assert(!joins_as_empty(items[0])) by {
        reveal_strlit("undefined");
    }
    assert(!joins_as_empty(items[1]));
    lemma_two_strings_join(a, b, ","@);
    lemma_two_strings_join(a, b, sep);
    assert(items.drop_last().drop_last() =~= Seq::<SValue>::empty());
    assert(seq![SValue::Expr(SExpr::Lit(SLit::Str(sep)))][0] != undefined_value());
    assert(concat_strings(items.drop_last().drop_last()) == Some(Seq::<char>::empty()));
    assert(concat_strings(items.drop_last()) == Some(Seq::<char>::empty() + a));
    assert(Seq::<char>::empty() + a =~= a);
    assert(concat_strings(items) == Some(a + b));
    assert(base + (a + b) =~= base + a + b);
    assert(string_of(SValue::Expr(SExpr::Lit(SLit::Str(sep)))) == Some(sep));
    assert(crate::semantics::join_separator(seq![SValue::Expr(SExpr::Lit(SLit::Str(sep)))]) == Some(sep));
    assert(crate::semantics::join_separator(Seq::<SValue>::empty()) == Some(","@));
    assert("concat"@ != "join"@) by {
        assert("concat"@.len() != "join"@.len());
    }
}

/// `Object.keys` answers each property's key as a string literal and
/// `Object.values` its value, one item per property, in order.
pub proof fn law_own_keys_read_each_property(props: Seq<SProp>)
    requires
        own_keys_list(props, OwnKeysQuestion::Keys) is Ok,
    ensures
        own_keys_list(props, OwnKeysQuestion::Keys)->Ok_0.len() == props.len(),
        own_keys_list(props, OwnKeysQuestion::Values) is Ok,
        forall|i: int|
            0 <= i < props.len() ==> #[trigger] props[i] is KeyValue && key_text(props[i]->KeyValue_0)
                is Some && own_keys_list(props, OwnKeysQuestion::Keys)->Ok_0[i] == SElem::Expr(
                SExpr::Lit(SLit::Str(key_text(props[i]->KeyValue_0)->0)),
            ) && own_keys_list(props, OwnKeysQuestion::Values)->Ok_0[i] == SElem::Expr(
                props[i]->KeyValue_1,
            ),
    decreases props.len(),
{
    law_the_own_keys_questions_agree(props, OwnKeysQuestion::Keys, OwnKeysQuestion::Values);
    if props.len() > 0 {
        law_own_keys_read_each_property(props.drop_last());
        let keys = own_keys_list(props, OwnKeysQuestion::Keys)->Ok_0;
        let values = own_keys_list(props, OwnKeysQuestion::Values)->Ok_0;
        let k0 = own_keys_list(props.drop_last(), OwnKeysQuestion::Keys)->Ok_0;
        let v0 = own_keys_list(props.drop_last(), OwnKeysQuestion::Values)->Ok_0;
        assert forall|i: int| 0 <= i < props.len() implies #[trigger] props[i] is KeyValue && key_text(
            props[i]->KeyValue_0,
        ) is Some && keys[i] == SElem::Expr(SExpr::Lit(SLit::Str(key_text(props[i]->KeyValue_0)->0)))
            && values[i] == SElem::Expr(props[i]->KeyValue_1) by {
            if i < props.len() - 1 {
                assert(props[i] == props.drop_last()[i]);
                assert(keys[i] == k0[i]);
                assert(values[i] == v0[i]);
            }
        }
    }
}

/// The steps of the resolution chain that refuse: a default import cannot
/// be read as a theme; a named import whose file does not resolve is
/// refused for that; a binding reassigned or mutated is not a constant; a
/// reference above its declarator is early.
pub proof fn law_the_chain_refuses_what_it_cannot_hold(ident: Ident, ts: StateManager, b: ImportBinding)
    ensures
        import_of(ts.imports@, ident@) == Some(b) && b.kind is Default ==> resolution(ident, ts, false)
            == Answer::Refused(IMPORT_FILE_EVAL_ERROR@),
        import_of(ts.imports@, ident@) == Some(b) && b.kind is Named && !(resolution_of(
            ts.resolutions@,
            b.source@,
        ) matches Some(Some(_))) ==> resolution(ident, ts, false) == Answer::Refused(
            IMPORT_PATH_RESOLUTION_ERROR@,
        ),
        import_of(ts.imports@, ident@) is None && declarator_of(ts.declarations@, ident@) is Some && (
        binding_listed(ts.reassigned@, ident@) || binding_listed(ts.mutated@, ident@))
            ==> resolution(ident, ts, false) == Answer::Refused(NON_CONSTANT@),
        import_of(ts.imports@, ident@) is None && !binding_listed(ts.reassigned@, ident@)
            && !binding_listed(ts.mutated@, ident@) && declarator_of(ts.declarations@, ident@)
            is Some && spec_reads_before(ident, declarator_of(ts.declarations@, ident@)->0)
            ==> resolution(ident, ts, false) == Answer::Refused(USED_BEFORE_DECLARATION@),
{
}

/// Reading a literal: an array's `length` is how many slots it has, its
/// index `0` is its first slot, and an object with one property reads that
/// property's value under its key and `undefined` under any other.
pub proof fn law_reading_a_literal(slots: Seq<SElem>, e: SExpr, k: Seq<char>, v: SExpr, other: Seq<char>)
    ensures
        reading(SValue::Expr(SExpr::Array(slots)), "length"@) == Reading::Value(length_of(slots.len())),
        reading(SValue::Expr(SExpr::Array(seq![SElem::Expr(e)])), "0"@) == Reading::Value(
            SValue::Expr(e),
        ),
        reading(
            SValue::Expr(SExpr::Object(seq![SProp::KeyValue(SPropName::Ident(k), v)])),
            k,
        ) == Reading::Value(SValue::Expr(v)),
        other != k ==> reading(
            SValue::Expr(SExpr::Object(seq![SProp::KeyValue(SPropName::Ident(k), v)])),
            other,
        ) == Reading::Value(undefined_value()),
{
    reveal_strlit("0");
    reveal_strlit("length");
    let zero = "0"@;
    assert(zero.len() == 1 && zero[0] == '0');
    assert(zero.drop_last() =~= Seq::<char>::empty());
    assert(zero.last() == '0');
    assert(crate::property::digits_value(Seq::<char>::empty()) == 0);
    assert(crate::property::digits_value(zero) == 0);
    assert(crate::property::array_index(zero) == Some(0nat));
    assert(zero != "length"@);
    let props = seq![SProp::KeyValue(SPropName::Ident(k), v)];
    assert(props.subrange(1, props.len() as int) =~= Seq::<SProp>::empty());
    assert(crate::property::lookup_prop(Seq::<SProp>::empty(), other) == crate::property::Lookup::Missing);
    if other != k {
        assert(crate::property::prop_reading(props[0], other) is None);
        assert(crate::property::lookup_prop(props, other) == crate::property::Lookup::Missing);
    }
}

/// The globals a name can spell: where nothing imports, writes or declares
/// it and no binding took it over, `undefined` answers itself and
/// `Infinity` and `NaN` answer the numbers; a binding that took one of these
/// names over holds no value and is refused as uninitialized.
pub proof fn law_globals_answer_their_values(ident: Ident, ts: StateManager)
    requires
        import_of(ts.imports@, ident@) is None,
        !binding_listed(ts.reassigned@, ident@),
        !binding_listed(ts.mutated@, ident@),
        declarator_of(ts.declarations@, ident@) is None,
    ensures
        !binding_listed(ts.declared_bindings@, ident@) ==> {
            &&& ident.sym@ == "undefined"@ ==> resolution(ident, ts, false) == Answer::Global(
                SExpr::Ident("undefined"@, 0),
            )
            &&& ident.sym@ == "Infinity"@ ==> resolution(ident, ts, false) == Answer::Global(
                SExpr::Lit(SLit::Num("Infinity"@)),
            )
            &&& ident.sym@ == "NaN"@ ==> resolution(ident, ts, false) == Answer::Global(
                SExpr::Lit(SLit::Num("NaN"@)),
            )
        },
        binding_listed(ts.declared_bindings@, ident@) && (ident.sym@ == "undefined"@ || ident.sym@
            == "Infinity"@ || ident.sym@ == "NaN"@) ==> resolution(ident, ts, false)
            == Answer::Refused(UNINITIALIZED_CONST@),
{
    reveal_strlit("undefined");
    reveal_strlit("Infinity");
    reveal_strlit("NaN");
    assert("Infinity"@ != "undefined"@) by {
        assert("Infinity"@.len() != "undefined"@.len());
    }
    assert("NaN"@ != "undefined"@) by {
        assert("NaN"@.len() != "undefined"@.len());
    }
    assert("NaN"@ != "Infinity"@) by {
        assert("NaN"@.len() != "Infinity"@.len());
    }
}

/// `===` on `null` and `undefined`: each is strictly equal to itself, and
/// they are not strictly equal to each other.
pub proof fn law_null_and_undefined_are_distinct()
    ensures
        strictly_equal(SValue::Expr(SExpr::Lit(SLit::Null)), SValue::Expr(SExpr::Lit(SLit::Null)))
            == Some(true),
        strictly_equal(undefined_value(), undefined_value()) == Some(true),
        strictly_equal(SValue::Expr(SExpr::Lit(SLit::Null)), undefined_value()) == Some(false),
{
}

/// An array literal's hole is an absent value, `void` anything is
/// `undefined`, and `typeof` answers the type of its operand's value.
pub proof fn law_holes_void_and_typeof(x: SExpr)
    ensures
        const_fold(SExpr::Array(seq![SElem::Hole])) == Some(SValue::Vec(seq![SValue::Null])),
        const_fold(SExpr::Unary(UnaryOp::Void, Box::new(x))) == Some(undefined_value()),
        const_fold(x) is Some && type_of(const_fold(x)->0) is Some ==> const_fold(
            SExpr::Unary(UnaryOp::TypeOf, Box::new(x)),
        ) == Some(SValue::Expr(SExpr::Lit(SLit::Str(type_of(const_fold(x)->0)->0)))),
{
    let slots = seq![SElem::Hole];
    assert(slots.drop_last() =~= Seq::<SElem>::empty());
    assert(crate::semantics::fold_elems(Seq::<SElem>::empty()) == Some(Seq::<SValue>::empty()));
    assert(slots.last() == SElem::Hole);
    assert(crate::semantics::fold_elems(slots) == Some(Seq::<SValue>::empty().push(SValue::Null)));
    assert(Seq::<SValue>::empty().push(SValue::Null) =~= seq![SValue::Null]);
}

/// Each static names its own question, and `join` writes `null` and
/// `undefined` elements as nothing between their separators.
pub proof fn law_statics_and_empty_elements(a: Seq<char>, sep: Seq<char>)
    ensures
        crate::semantics::question_of("keys"@) == OwnKeysQuestion::Keys,
        crate::semantics::question_of("values"@) == OwnKeysQuestion::Values,
        crate::semantics::question_of("entries"@) == OwnKeysQuestion::Entries,
        join_sep(
            seq![SValue::Expr(SExpr::Lit(SLit::Null)), SValue::Expr(SExpr::Lit(SLit::Str(a)))],
            sep,
        ) == Some(sep + a),
        join_sep(seq![undefined_value(), SValue::Expr(SExpr::Lit(SLit::Str(a)))], sep) == Some(
            sep + a,
        ),
{
    reveal_strlit("keys");
    reveal_strlit("values");
    reveal_strlit("entries");
    assert("values"@ != "keys"@) by {
        assert("values"@.len() != "keys"@.len());
    }
    assert("entries"@ != "keys"@) by {
        assert("entries"@.len() != "keys"@.len());
    }
    assert("entries"@ != "values"@) by {
        assert("entries"@[0] != "values"@[0]);
    }
    let y = SValue::Expr(SExpr::Lit(SLit::Str(a)));
    let n = SValue::Expr(SExpr::Lit(SLit::Null));
    let u = undefined_value();
    assert(seq![n, y].drop_last() =~= seq![n]);
    assert(seq![u, y].drop_last() =~= seq![u]);
    assert(seq![n].drop_last() =~= Seq::<SValue>::empty());
    assert(seq![u].drop_last() =~= Seq::<SValue>::empty());
    assert(join_sep(Seq::<SValue>::empty(), sep) == Some(Seq::<char>::empty()));
    assert(joins_as_empty(n));
    assert(joins_as_empty(u));
    assert(!joins_as_empty(y));
    assert(string_of(y) == Some(a));
    assert(join_sep(seq![n], sep) == Some(Seq::<char>::empty() + Seq::<char>::empty()));
    assert(join_sep(seq![u], sep) == Some(Seq::<char>::empty() + Seq::<char>::empty()));
    assert(Seq::<char>::empty() + Seq::<char>::empty() + sep + a =~= sep + a);
}

} // verus!
