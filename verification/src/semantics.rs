//! What an expression means when it reads nothing but itself.
//!
//! `const_fold` is the value of the expressions whose meaning does not depend
//! on the module, the injected functions or any budget: literals, the
//! wrappers around them, arrays of them, and the operators that only choose
//! between or test such values. The evaluator is held to it: whatever it
//! answers confidently for such an expression is this value.
use vstd::prelude::*;

use crate::coerce::{
    expr_to_string, is_undefined_name, join_sep, nullish, string_of, to_boolean, type_of,
};
use crate::helpers::{
    element_exprs, key_text, method_args_object, own_keys_list, spec_function_fold_to_object,
    OwnKeysQuestion,
};
use crate::property::spec_set_prop;
use crate::messages::{
    spec_decimal, ENV_PROPERTY_NOT_FOUND, ILLEGAL_PROP_ARRAY_VALUE, MEMBER_NOT_RESOLVED, SPREAD_ELEMENT,
    VALUE_MUST_BE_STATIC,
};
use crate::property::{lookup_prop, property_key, spec_index_read, IndexRead, Lookup};
use crate::state::first_index;
use crate::syntax::{BinaryOp, SElem, SExpr, SLit, SMemberProp, SProp, SPropName, UnaryOp};
use crate::text::{lemma_utf16_len_concat, utf16_len};
use crate::value::SValue;

verus! {

/// `undefined`, as the evaluator answers it: the identifier, in the empty
/// syntax context.
pub open spec fn undefined_value() -> SValue {
    SValue::Expr(SExpr::Ident("undefined"@, 0))
}

/// The expression with its parentheses peeled.
pub open spec fn peel(e: SExpr) -> SExpr
    decreases e,
{
    match e {
        SExpr::Paren(x) => peel(*x),
        _ => e,
    }
}

/// The value of a self-contained expression, or `None` where its value reads
/// anything else (or where it has none the evaluator folds). An optional call
/// folds to nothing: a callee that has a value is none a call folds.
pub open spec fn const_fold(e: SExpr) -> Option<SValue>
    decreases e, 0nat,
{
    match e {
        SExpr::Lit(l) => match l {
            SLit::Str(_) => Some(SValue::Expr(e)),
            SLit::Num(_) => Some(SValue::Expr(e)),
            SLit::Bool(_) => Some(SValue::Expr(e)),
            SLit::Null => Some(SValue::Expr(e)),
            _ => None,
        },
        SExpr::Paren(x) => const_fold(*x),
        SExpr::TsWrap(x) => const_fold(*x),
        SExpr::Array(elems) => match fold_elems(elems) {
            Some(vs) => Some(SValue::Vec(vs)),
            None => None,
        },
        SExpr::Sequence(v) => if v.len() > 0 {
            const_fold(v.last())
        } else {
            None
        },
        SExpr::Cond(t, c, a) => match const_fold(*t) {
            Some(tv) => match to_boolean(tv) {
                Some(true) => const_fold(*c),
                Some(false) => const_fold(*a),
                None => None,
            },
            None => None,
        },
        SExpr::Unary(op, x) => match op {
            UnaryOp::Void => Some(undefined_value()),
            UnaryOp::Bang => match const_fold(*x) {
                Some(v) => match to_boolean(v) {
                    Some(b) => Some(SValue::Expr(SExpr::Lit(SLit::Bool(!b)))),
                    None => None,
                },
                None => None,
            },
            UnaryOp::TypeOf => match const_fold(*x) {
                Some(v) => match type_of(v) {
                    Some(t) => Some(SValue::Expr(SExpr::Lit(SLit::Str(t)))),
                    None => None,
                },
                None => None,
            },
            UnaryOp::Plus => match const_fold(*x) {
                Some(v) => match number_spelling(v) {
                    Some(t) => Some(SValue::Expr(SExpr::Lit(SLit::Num(t)))),
                    None => None,
                },
                None => None,
            },
            UnaryOp::Minus => match const_fold(*x) {
                Some(v) => match number_spelling(v) {
                    Some(t) => Some(SValue::Expr(SExpr::Lit(SLit::Num(negated(t))))),
                    None => None,
                },
                None => None,
            },
            _ => None,
        },
        SExpr::Member(obj, prop) => match const_fold(*obj) {
            Some(o) => {
                let key: Option<Seq<char>> = match prop {
                    SMemberProp::Ident(name) => Some(name),
                    SMemberProp::Computed(k) => match const_fold(*k) {
                        Some(SValue::Expr(ke)) => property_key(ke),
                        _ => None,
                    },
                    SMemberProp::PrivateName(_) => None,
                };
                match key {
                    Some(name) => match reading(o, name) {
                        Reading::Value(v) => Some(v),
                        Reading::Refused(_) => None,
                    },
                    None => None,
                }
            },
            None => None,
        },
        SExpr::OptMember(obj, prop) => match const_fold(*obj) {
            Some(o) => if short_circuits(o) {
                None
            } else {
                let key: Option<Seq<char>> = match prop {
                    SMemberProp::Ident(name) => Some(name),
                    SMemberProp::Computed(k) => match const_fold(*k) {
                        Some(SValue::Expr(ke)) => property_key(ke),
                        _ => None,
                    },
                    SMemberProp::PrivateName(_) => None,
                };
                match key {
                    Some(name) => match reading(o, name) {
                        Reading::Value(v) => Some(v),
                        Reading::Refused(_) => None,
                    },
                    None => None,
                }
            },
            None => None,
        },
        SExpr::Await(x) => const_fold(*x),
        SExpr::Object(props) => match fold_props(props) {
            Some(ps) => Some(SValue::Expr(SExpr::Object(ps))),
            None => None,
        },
        SExpr::Call(callee, args) => match *callee {
            SExpr::Member(obj, SMemberProp::Ident(method)) => if is_own_keys_static(*obj, method) {
                if args.len() > 0 && (args[0] matches SElem::Expr(a) && !(a is Array)) {
                    match fold_args(args) {
                        Some(values) => own_keys_fold(values[0], question_of(method)),
                        None => None,
                    }
                } else {
                    None
                }
            } else {
                match (const_fold(*obj), fold_args(args)) {
                    (Some(receiver), Some(values)) => method_fold(receiver, method, values),
                    _ => None,
                }
            },
            _ => None,
        },
        SExpr::Tpl(quasis, exprs) => match tpl_fold(quasis, exprs, quasis.len()) {
            Some(t) => Some(SValue::Expr(SExpr::Lit(SLit::Str(t)))),
            None => None,
        },
        SExpr::Bin(op, a, b) => match op {
            BinaryOp::LogicalAnd => match const_fold(*a) {
                Some(l) => match to_boolean(l) {
                    Some(true) => const_fold(*b),
                    Some(false) => Some(l),
                    None => None,
                },
                None => None,
            },
            BinaryOp::LogicalOr => match const_fold(*a) {
                Some(l) => match to_boolean(l) {
                    Some(true) => Some(l),
                    Some(false) => const_fold(*b),
                    None => None,
                },
                None => None,
            },
            BinaryOp::Nullish => match const_fold(*a) {
                Some(l) => if nullish(l) {
                    const_fold(*b)
                } else {
                    Some(l)
                },
                None => None,
            },
            BinaryOp::StrictEq => match (const_fold(*a), const_fold(*b)) {
                (Some(l), Some(r)) => match strictly_equal(l, r) {
                    Some(x) => Some(SValue::Expr(SExpr::Lit(SLit::Bool(x)))),
                    None => None,
                },
                _ => None,
            },
            BinaryOp::StrictNotEq => match (const_fold(*a), const_fold(*b)) {
                (Some(l), Some(r)) => match strictly_equal(l, r) {
                    Some(x) => Some(SValue::Expr(SExpr::Lit(SLit::Bool(!x)))),
                    None => None,
                },
                _ => None,
            },
            BinaryOp::Add => match (const_fold(*a), const_fold(*b)) {
                (Some(l), Some(r)) => concatenation(l, r),
                _ => None,
            },
            _ => None,
        },
        _ => None,
    }
}

/// The expressions whose evaluation reads nothing outside them and spends no
/// budget but depth: string, number, boolean and `null` literals, and, over
/// such expressions, arrays without spreads, sequences (whose last
/// expression is the one read), conditionals, the unary operators but `~` and
/// `delete`, the binary operators the evaluator reads, templates, object
/// literals of keys and values, `await`, members, optional or not, read by
/// name or by a computed key, an array's `join` and a string's `concat`, and
/// `Object.keys`, `Object.values` and `Object.entries` of anything but an
/// array literal.
pub open spec fn simple(e: SExpr) -> bool
    decreases e, 0nat,
{
    match e {
        SExpr::Lit(l) => l is Str || l is Num || l is Bool || l is Null,
        SExpr::Paren(x) => simple(*x),
        SExpr::TsWrap(x) => simple(*x),
        SExpr::Array(elems) => simple_elems(elems),
        SExpr::Sequence(v) => v.len() > 0 && simple(v.last()),
        SExpr::Cond(t, c, a) => simple(*t) && simple(*c) && simple(*a),
        SExpr::Unary(op, x) => op != UnaryOp::Tilde && op != UnaryOp::Delete && simple(*x),
        SExpr::Bin(op, a, b) => op != BinaryOp::Other && simple(*a) && simple(*b),
        SExpr::Tpl(_, es) => simple_exprs(es),
        SExpr::Object(ps) => simple_props(ps),
        SExpr::Member(o, p) => simple(*o) && match p {
            SMemberProp::Ident(_) => true,
            SMemberProp::Computed(k) => simple(*k),
            SMemberProp::PrivateName(_) => false,
        },
        SExpr::OptMember(o, p) => simple(*o) && match p {
            SMemberProp::Ident(_) => true,
            SMemberProp::Computed(k) => simple(*k),
            SMemberProp::PrivateName(_) => false,
        },
        SExpr::Await(x) => simple(*x),
        SExpr::Call(callee, args) => match *callee {
            SExpr::Member(o, SMemberProp::Ident(m)) => simple_elems(args) && (((m == "join"@ || m
                == "concat"@) && simple(*o)) || (is_own_keys_static(*o, m) && args.len() > 0 && (
            args[0] matches SElem::Expr(a) && !(a is Array)))),
            _ => false,
        },
        _ => false,
    }
}

/// Whether every property of an object literal is a key and a simple value,
/// the key written or computed from a simple expression, or a spread of a
/// simple expression.
pub open spec fn simple_props(s: Seq<SProp>) -> bool
    decreases s, 0nat,
{
    if s.len() == 0 {
        true
    } else {
        simple_props(s.drop_last()) && match s.last() {
            SProp::KeyValue(key, v) => simple_key(key) && simple(v),
            SProp::Spread(x) => simple(x),
            _ => false,
        }
    }
}

pub open spec fn simple_key(key: SPropName) -> bool
    decreases key, 0nat,
{
    match key {
        SPropName::Computed(k) => simple(*k),
        _ => true,
    }
}

/// Whether every expression of a template literal is simple.
pub open spec fn simple_exprs(s: Seq<SExpr>) -> bool
    decreases s, 0nat,
{
    if s.len() == 0 {
        true
    } else {
        simple_exprs(s.drop_last()) && simple(s.last())
    }
}

/// Whether every string an evaluation of `e` builds, by a template or by
/// `+`, fits `ceiling` code units.
pub open spec fn fits(e: SExpr, ceiling: nat) -> bool
    decreases e, 0nat,
{
    match e {
        SExpr::Paren(x) => fits(*x, ceiling),
        SExpr::TsWrap(x) => fits(*x, ceiling),
        SExpr::Array(elems) => fits_elems(elems, ceiling),
        SExpr::Sequence(v) => v.len() > 0 ==> fits(v.last(), ceiling),
        SExpr::Cond(t, c, a) => fits(*t, ceiling) && fits(*c, ceiling) && fits(*a, ceiling),
        SExpr::Unary(_, x) => fits(*x, ceiling),
        SExpr::Bin(op, a, b) => (op == BinaryOp::Add ==> built_fits(e, ceiling)) && fits(*a, ceiling)
            && fits(*b, ceiling),
        SExpr::Tpl(_, es) => built_fits(e, ceiling) && fits_exprs(es, ceiling),
        SExpr::Object(ps) => fits_props(ps, ceiling),
        SExpr::Member(o, p) => fits(*o, ceiling) && match p {
            SMemberProp::Computed(k) => fits(*k, ceiling),
            _ => true,
        },
        SExpr::OptMember(o, p) => fits(*o, ceiling) && match p {
            SMemberProp::Computed(k) => fits(*k, ceiling),
            _ => true,
        },
        SExpr::Await(x) => fits(*x, ceiling),
        SExpr::Call(callee, args) => built_fits(e, ceiling) && fits_elems(args, ceiling) && match *callee {
            SExpr::Member(o, SMemberProp::Ident(m)) => fits(*o, ceiling) && (m == "join"@
                ==> separator_fits(args, ceiling)),
            SExpr::Member(o, _) => fits(*o, ceiling),
            _ => true,
        },
        _ => true,
    }
}

/// Whether the separator a `join` with these arguments writes, where it has
/// one, fits `ceiling`.
pub open spec fn separator_fits(args: Seq<SElem>, ceiling: nat) -> bool {
    fold_args(args) matches Some(vs) ==> (join_separator(vs) matches Some(sep) ==> utf16_len(sep)
        <= ceiling)
}

/// Whether the string `e` folds to, where it folds to one, fits `ceiling`.
pub open spec fn built_fits(e: SExpr, ceiling: nat) -> bool {
    const_fold(e) matches Some(SValue::Expr(SExpr::Lit(SLit::Str(t)))) ==> utf16_len(t) <= ceiling
}

pub open spec fn fits_elems(s: Seq<SElem>, ceiling: nat) -> bool
    decreases s, 0nat,
{
    if s.len() == 0 {
        true
    } else {
        fits_elems(s.drop_last(), ceiling) && match s.last() {
            SElem::Expr(x) => fits(x, ceiling),
            _ => true,
        }
    }
}

pub open spec fn fits_props(s: Seq<SProp>, ceiling: nat) -> bool
    decreases s, 0nat,
{
    if s.len() == 0 {
        true
    } else {
        fits_props(s.drop_last(), ceiling) && match s.last() {
            SProp::KeyValue(key, v) => fits_key(key, ceiling) && fits(v, ceiling),
            SProp::Spread(x) => fits(x, ceiling),
            _ => true,
        }
    }
}

pub open spec fn fits_key(key: SPropName, ceiling: nat) -> bool
    decreases key, 0nat,
{
    match key {
        SPropName::Computed(k) => fits(*k, ceiling),
        _ => true,
    }
}

pub open spec fn fits_exprs(s: Seq<SExpr>, ceiling: nat) -> bool
    decreases s, 0nat,
{
    if s.len() == 0 {
        true
    } else {
        fits_exprs(s.drop_last(), ceiling) && fits(s.last(), ceiling)
    }
}

/// Whether every slot of an array literal is a hole or a simple expression.
pub open spec fn simple_elems(s: Seq<SElem>) -> bool
    decreases s, 0nat,
{
    if s.len() == 0 {
        true
    } else {
        simple_elems(s.drop_last()) && match s.last() {
            SElem::Hole => true,
            SElem::Expr(x) => simple(x),
            SElem::Spread(_) => false,
        }
    }
}

/// How many levels of evaluation an expression takes: one for each
/// expression the evaluator descends into, parentheses read through in the
/// level they stand in; an optional member takes one more, for the member it
/// is read as.
pub open spec fn height(e: SExpr) -> nat
    decreases e, 0nat,
{
    match e {
        SExpr::Paren(x) => height(*x),
        SExpr::TsWrap(x) => 1 + height(*x),
        SExpr::Array(elems) => 1 + elems_height(elems),
        SExpr::Sequence(v) => if v.len() > 0 {
            1 + height(v.last())
        } else {
            1
        },
        SExpr::Cond(t, c, a) => 1 + max_of(height(*t), max_of(height(*c), height(*a))),
        SExpr::Unary(_, x) => 1 + height(*x),
        SExpr::Bin(_, a, b) => 1 + max_of(height(*a), height(*b)),
        SExpr::Tpl(_, es) => 1 + exprs_height(es),
        SExpr::Object(ps) => 1 + props_height(ps),
        SExpr::Member(o, p) => 1 + max_of(
            height(*o),
            match p {
                SMemberProp::Computed(k) => height(*k),
                _ => 0,
            },
        ),
        SExpr::OptMember(o, p) => 2 + max_of(
            height(*o),
            match p {
                SMemberProp::Computed(k) => height(*k),
                _ => 0,
            },
        ),
        SExpr::Await(x) => 1 + height(*x),
        SExpr::Call(callee, args) => 1 + max_of(
            match *callee {
                SExpr::Member(o, _) => height(*o),
                _ => height(*callee),
            },
            elems_height(args),
        ),
        _ => 1,
    }
}

/// The most levels any slot of an array literal takes.
pub open spec fn elems_height(s: Seq<SElem>) -> nat
    decreases s, 0nat,
{
    if s.len() == 0 {
        0
    } else {
        max_of(
            elems_height(s.drop_last()),
            match s.last() {
                SElem::Hole => 0,
                SElem::Expr(x) => height(x),
                SElem::Spread(x) => height(x),
            },
        )
    }
}

/// The most levels any key or value of an object literal takes.
pub open spec fn props_height(s: Seq<SProp>) -> nat
    decreases s, 0nat,
{
    if s.len() == 0 {
        0
    } else {
        max_of(
            props_height(s.drop_last()),
            match s.last() {
                SProp::KeyValue(key, v) => max_of(key_height(key), height(v)),
                SProp::Spread(x) => height(x),
                _ => 0,
            },
        )
    }
}

pub open spec fn key_height(key: SPropName) -> nat
    decreases key, 0nat,
{
    match key {
        SPropName::Computed(k) => height(*k),
        _ => 0,
    }
}

/// The most levels any expression of a template literal takes.
pub open spec fn exprs_height(s: Seq<SExpr>) -> nat
    decreases s, 0nat,
{
    if s.len() == 0 {
        0
    } else {
        max_of(exprs_height(s.drop_last()), height(s.last()))
    }
}

pub open spec fn max_of(a: nat, b: nat) -> nat {
    if a >= b {
        a
    } else {
        b
    }
}

/// An expression takes at least the level it stands in, and parentheses
/// change neither whether it is simple nor how deep it goes; peeled, it is
/// no parenthesis.
pub proof fn lemma_height_and_peel(e: SExpr)
    ensures
        height(e) >= 1,
        height(peel(e)) == height(e),
        simple(peel(e)) == simple(e),
        forall|c: nat| #[trigger] fits(peel(e), c) == fits(e, c),
        !(peel(e) is Paren),
    decreases e,
{
    if let SExpr::Paren(x) = e {
        lemma_height_and_peel(*x);
        assert forall|c: nat| #[trigger] fits(peel(e), c) == fits(e, c) by {
            assert(fits(peel(*x), c) == fits(*x, c));
        }
    }
}

/// What the whole of an array literal's slots says of one of them: where the
/// slots fold, every prefix folds and the slot is no spread and folds itself;
/// where they are simple, so is the slot; and the slot takes no more levels
/// than the most any slot takes.
pub proof fn lemma_elems_at(s: Seq<SElem>, j: int)
    requires
        0 <= j < s.len(),
    ensures
        fold_elems(s) is Some ==> fold_elems(s.take(j)) is Some && !(s[j] is Spread) && (
        s[j] matches SElem::Expr(x) ==> const_fold(x) is Some),
        simple_elems(s) ==> (s[j] matches SElem::Expr(x) ==> simple(x)),
        s[j] matches SElem::Expr(x) ==> height(x) <= elems_height(s),
        forall|c: nat| #[trigger] fits_elems(s, c) ==> (s[j] matches SElem::Expr(x) ==> fits(x, c)),
    decreases s.len(),
{
    if j == s.len() - 1 {
        assert(s.take(j) =~= s.drop_last());
    } else {
        lemma_elems_at(s.drop_last(), j);
        assert(s.drop_last()[j] == s[j]);
        assert(s.drop_last().take(j) =~= s.take(j));
        assert forall|c: nat| #[trigger] fits_elems(s, c) implies (s[j] matches SElem::Expr(x)
            ==> fits(x, c)) by {
            assert(fits_elems(s.drop_last(), c));
        }
    }
}

/// What the whole of an object literal's properties says of one of them:
/// where they are simple it is a key and a simple value; it takes no more
/// levels than the most any takes; and where they fold, every prefix folds
/// and the property sets into it.
pub proof fn lemma_props_at(s: Seq<SProp>, j: int)
    requires
        0 <= j < s.len(),
    ensures
        simple_props(s) ==> (s[j] matches SProp::KeyValue(key, v) && simple_key(key) && simple(v))
            || (s[j] matches SProp::Spread(x) && simple(x)),
        s[j] matches SProp::KeyValue(key, v) ==> key_height(key) <= props_height(s) && height(v)
            <= props_height(s),
        s[j] matches SProp::Spread(x) ==> height(x) <= props_height(s),
        forall|c: nat| #[trigger] fits_props(s, c) ==> (s[j] matches SProp::KeyValue(key, v)
            ==> fits_key(key, c) && fits(v, c)) && (s[j] matches SProp::Spread(x) ==> fits(x, c)),
        fold_props(s) is Some ==> fold_props(s.take(j)) is Some && fold_prop(
            fold_props(s.take(j))->0,
            s[j],
        ) is Some,
    decreases s.len(),
{
    if j == s.len() - 1 {
        assert(s.take(j) =~= s.drop_last());
    } else {
        lemma_props_at(s.drop_last(), j);
        assert(s.drop_last()[j] == s[j]);
        assert(s.drop_last().take(j) =~= s.take(j));
        assert forall|c: nat| #[trigger] fits_props(s, c) implies (s[j] matches SProp::KeyValue(
            key,
            v,
        ) ==> fits_key(key, c) && fits(v, c)) && (s[j] matches SProp::Spread(x) ==> fits(x, c)) by {
            assert(fits_props(s.drop_last(), c));
        }
    }
}

/// Where a call's arguments fold, every prefix of them folds and each is an
/// expression that folds.
pub proof fn lemma_args_at(s: Seq<SElem>, j: int)
    requires
        0 <= j < s.len(),
        fold_args(s) is Some,
    ensures
        fold_args(s.take(j)) is Some,
        s[j] matches SElem::Expr(x) && const_fold(x) is Some,
    decreases s.len(),
{
    if j == s.len() - 1 {
        assert(s.take(j) =~= s.drop_last());
    } else {
        lemma_args_at(s.drop_last(), j);
        assert(s.drop_last()[j] == s[j]);
        assert(s.drop_last().take(j) =~= s.take(j));
    }
}

/// Strings concatenated one at a time: where the whole has a string, so does
/// every prefix, each one piece longer and none longer than the whole.
pub proof fn lemma_concat_prefix(values: Seq<SValue>, i: int)
    requires
        0 <= i < values.len(),
        concat_strings(values) is Some,
    ensures
        concat_strings(values.take(i)) is Some,
        values[i] matches SValue::Expr(x) && expr_to_string(x) is Some,
        concat_strings(values.take(i + 1)) == Some(
            concat_strings(values.take(i))->0 + expr_to_string(values[i]->Expr_0)->0,
        ),
        utf16_len(concat_strings(values.take(i + 1))->0) <= utf16_len(concat_strings(values)->0),
    decreases values.len(),
{
    assert(values.take(i + 1).drop_last() =~= values.take(i));
    if i == values.len() - 1 {
        assert(values.take(i + 1) =~= values);
        assert(values.take(i) =~= values.drop_last());
    } else {
        lemma_concat_prefix(values.drop_last(), i);
        assert(values.drop_last()[i] == values[i]);
        assert(values.drop_last().take(i) =~= values.take(i));
        assert(values.drop_last().take(i + 1) =~= values.take(i + 1));
        let last = expr_to_string(values.last()->Expr_0)->0;
        lemma_utf16_len_concat(concat_strings(values.drop_last())->0, last);
    }
}

/// What the whole of a template's expressions says of one of them.
pub proof fn lemma_exprs_at(s: Seq<SExpr>, j: int)
    requires
        0 <= j < s.len(),
    ensures
        simple_exprs(s) ==> simple(s[j]),
        height(s[j]) <= exprs_height(s),
        forall|c: nat| #[trigger] fits_exprs(s, c) ==> fits(s[j], c),
    decreases s.len(),
{
    if j < s.len() - 1 {
        lemma_exprs_at(s.drop_last(), j);
        assert(s.drop_last()[j] == s[j]);
        assert forall|c: nat| #[trigger] fits_exprs(s, c) implies fits(s[j], c) by {
            assert(fits_exprs(s.drop_last(), c));
        }
    }
}

/// Whether an optional chain stops at a base of this value: `null`, or a
/// name spelled `undefined`.
pub open spec fn short_circuits(v: SValue) -> bool {
    v matches SValue::Expr(e) && (e == SExpr::Lit(SLit::Null) || is_undefined_name(e))
}

/// The values of an array literal's slots: a hole is an absent value, and a
/// spread has none this folds.
pub open spec fn fold_elems(s: Seq<SElem>) -> Option<Seq<SValue>>
    decreases s, 0nat,
{
    if s.len() == 0 {
        Some(Seq::empty())
    } else {
        match fold_elems(s.drop_last()) {
            Some(prefix) => match s.last() {
                SElem::Hole => Some(prefix.push(SValue::Null)),
                SElem::Expr(x) => match const_fold(x) {
                    Some(v) => Some(prefix.push(v)),
                    None => None,
                },
                SElem::Spread(_) => None,
            },
            None => None,
        }
    }
}

/// Whether a number's spelling is one negation leaves as it is.
pub open spec fn negation_fixed(t: Seq<char>) -> bool {
    t == "0"@ || t == "NaN"@
}

/// The spelling of `-x` for the number spelled `t`: `-0` and `-NaN` print as
/// `0` and `NaN`, a negative number loses its sign, and anything else gains
/// one.
pub open spec fn negated(t: Seq<char>) -> Seq<char> {
    if negation_fixed(t) {
        t
    } else if t.len() > 0 && t[0] == '-' {
        t.subrange(1, t.len() as int)
    } else {
        seq!['-'] + t
    }
}

/// The spelling of the number a primitive converts to, where that conversion
/// reads no text: a number is itself, a boolean is one or zero, `null` is zero
/// and `undefined` is not a number.
pub open spec fn number_spelling(v: SValue) -> Option<Seq<char>> {
    match v {
        SValue::Expr(SExpr::Lit(SLit::Num(t))) => Some(t),
        SValue::Expr(SExpr::Lit(SLit::Bool(b))) => Some(
            if b {
                "1"@
            } else {
                "0"@
            },
        ),
        SValue::Expr(SExpr::Lit(SLit::Null)) => Some("0"@),
        SValue::Expr(SExpr::Ident(s, _)) => if s == "undefined"@ {
            Some("NaN"@)
        } else {
            None
        },
        _ => None,
    }
}

/// Whether `a === b` for two primitives, or `None` where either is not a
/// primitive the evaluator can compare.
pub open spec fn strictly_equal(a: SValue, b: SValue) -> Option<bool> {
    match (primitive_of(a), primitive_of(b)) {
        (Some(x), Some(y)) => Some(
            match (x, y) {
                (SLit::Num(t), SLit::Num(u)) => t == u && t != "NaN"@,
                _ => x == y,
            },
        ),
        _ => None,
    }
}

/// The primitive a value is, with `undefined` read as a literal of its own
/// spelling.
pub open spec fn primitive_of(v: SValue) -> Option<SLit> {
    match v {
        SValue::Expr(SExpr::Lit(l)) => match l {
            SLit::Str(_) => Some(l),
            SLit::Num(_) => Some(l),
            SLit::Bool(_) => Some(l),
            SLit::Null => Some(l),
            _ => None,
        },
        SValue::Expr(SExpr::Ident(s, _)) => if s == "undefined"@ {
            Some(SLit::Regex("undefined"@))
        } else {
            None
        },
        _ => None,
    }
}

/// How an evaluated value is written into an object literal.
pub enum WrittenForm {
    Expr(SExpr),
    Skipped,
    Refused(Seq<char>),
}

/// The form an evaluated value takes as a property value: an expression as
/// itself, an array as its array literal, a folded function map as its object;
/// a theme reference is not carried.
pub open spec fn written_form(v: SValue) -> WrittenForm {
    match v {
        SValue::Expr(x) => WrittenForm::Expr(x),
        SValue::Vec(items) => match element_exprs(items) {
            Some(es) => WrittenForm::Expr(SExpr::Array(es)),
            None => WrittenForm::Refused(ILLEGAL_PROP_ARRAY_VALUE@),
        },
        SValue::ThemeRef(_, _, _) => WrittenForm::Skipped,
        _ => match spec_function_fold_to_object(v) {
            Some(ps) => WrittenForm::Expr(SExpr::Object(ps)),
            None => WrittenForm::Refused(VALUE_MUST_BE_STATIC@),
        },
    }
}

/// The key a property names, where it names one without reading anything
/// else: a written name, or a computed key that folds to a value with a
/// string.
pub open spec fn const_key(key: SPropName) -> Option<Seq<char>>
    decreases key, 0nat,
{
    match key {
        SPropName::Computed(k) => match const_fold(*k) {
            Some(SValue::Expr(ke)) => expr_to_string(ke),
            _ => None,
        },
        _ => key_text(key),
    }
}

/// An object literal's properties, set in order.
pub open spec fn fold_props(props: Seq<SProp>) -> Option<Seq<SProp>>
    decreases props, 0nat,
{
    if props.len() == 0 {
        Some(Seq::empty())
    } else {
        match fold_props(props.drop_last()) {
            Some(acc) => fold_prop(acc, props.last()),
            None => None,
        }
    }
}

/// One more property set into `acc`.
pub open spec fn fold_prop(acc: Seq<SProp>, p: SProp) -> Option<Seq<SProp>>
    decreases p, 0nat,
{
    match p {
        SProp::KeyValue(key, value) => match const_key(key) {
            Some(k) => match const_fold(value) {
                Some(v) => match written_form(v) {
                    WrittenForm::Expr(x) => Some(spec_set_prop(acc, k, x)),
                    WrittenForm::Skipped => Some(acc),
                    WrittenForm::Refused(_) => None,
                },
                None => None,
            },
            None => None,
        },
        SProp::Spread(e) => match const_fold(e) {
            Some(SValue::Expr(SExpr::Object(ps))) => merge_spread(acc, ps),
            Some(v) => match spec_function_fold_to_object(v) {
                Some(ps) => merge_spread(acc, ps),
                None => None,
            },
            None => None,
        },
        _ => None,
    }
}

/// A spread object's properties set into `acc`, in order.
pub open spec fn merge_spread(acc: Seq<SProp>, ps: Seq<SProp>) -> Option<Seq<SProp>>
    decreases ps.len(),
{
    if ps.len() == 0 {
        Some(acc)
    } else {
        match merge_spread(acc, ps.drop_last()) {
            Some(a) => match ps.last() {
                SProp::KeyValue(k, v) => match key_text(k) {
                    Some(t) => Some(spec_set_prop(a, t, v)),
                    None => None,
                },
                SProp::Shorthand(n, c) => Some(spec_set_prop(a, n, SExpr::Ident(n, c))),
                _ => None,
            },
            None => None,
        }
    }
}

/// A spread whose properties merge merges at every prefix of them, each
/// property a key with a name or a shorthand.
pub proof fn lemma_merge_at(acc: Seq<SProp>, ps: Seq<SProp>, j: int)
    requires
        0 <= j < ps.len(),
        merge_spread(acc, ps) is Some,
    ensures
        merge_spread(acc, ps.take(j)) is Some,
        (ps[j] matches SProp::KeyValue(k, _) && key_text(k) is Some) || ps[j] is Shorthand,
    decreases ps.len(),
{
    if j == ps.len() - 1 {
        assert(ps.take(j) =~= ps.drop_last());
    } else {
        lemma_merge_at(acc, ps.drop_last(), j);
        assert(ps.drop_last()[j] == ps[j]);
        assert(ps.drop_last().take(j) =~= ps.take(j));
    }
}

/// The values of a call's arguments, where each is a self-contained
/// expression.
pub open spec fn fold_args(args: Seq<SElem>) -> Option<Seq<SValue>>
    decreases args, 0nat,
{
    if args.len() == 0 {
        Some(Seq::empty())
    } else {
        match fold_args(args.drop_last()) {
            Some(prefix) => match args.last() {
                SElem::Expr(x) => match const_fold(x) {
                    Some(v) => Some(prefix.push(v)),
                    None => None,
                },
                _ => None,
            },
            None => None,
        }
    }
}

/// The own-keys question a method name asks.
pub open spec fn question_of(method: Seq<char>) -> OwnKeysQuestion {
    if method == "keys"@ {
        OwnKeysQuestion::Keys
    } else if method == "values"@ {
        OwnKeysQuestion::Values
    } else {
        OwnKeysQuestion::Entries
    }
}

/// What `Object.keys`, `Object.values` or `Object.entries` answers for a
/// value: refused for `null` and `undefined`; the list read off the value's
/// object form where it has one; and no keys where it has none.
pub open spec fn own_keys_fold(v: SValue, q: OwnKeysQuestion) -> Option<SValue> {
    if nullish(v) {
        None
    } else {
        let props: Option<Seq<SProp>> = match spec_function_fold_to_object(v) {
            Some(ps) => Some(ps),
            None => method_args_object(Some(v)),
        };
        match props {
            Some(ps) => match own_keys_list(ps, q) {
                Ok(list) => Some(SValue::Expr(SExpr::Array(list))),
                Err(_) => None,
            },
            None => Some(SValue::Expr(SExpr::Array(Seq::empty()))),
        }
    }
}

/// Whether a call is `Object.keys`, `Object.values` or `Object.entries`.
pub open spec fn is_own_keys_static(obj: SExpr, method: Seq<char>) -> bool {
    obj matches SExpr::Ident(name, _) && name == "Object"@ && (method == "keys"@ || method
        == "values"@ || method == "entries"@)
}

/// The strings of some values, one after another, where each is an
/// expression with a string.
pub open spec fn concat_strings(values: Seq<SValue>) -> Option<Seq<char>>
    decreases values.len(),
{
    if values.len() == 0 {
        Some(Seq::empty())
    } else {
        match (concat_strings(values.drop_last()), values.last()) {
            (Some(prefix), SValue::Expr(x)) => match expr_to_string(x) {
                Some(t) => Some(prefix + t),
                None => None,
            },
            _ => None,
        }
    }
}

/// The separator `join` writes for its arguments: a comma where none is given
/// or the one given is `undefined`, and the given one's string otherwise.
pub open spec fn join_separator(args: Seq<SValue>) -> Option<Seq<char>> {
    if args.len() == 0 || args[0] == undefined_value() {
        Some(","@)
    } else {
        string_of(args[0])
    }
}

/// A method of a string or an array applied to its arguments: an array's
/// `join`, and a string's `concat`.
pub open spec fn method_fold(receiver: SValue, method: Seq<char>, args: Seq<SValue>) -> Option<
    SValue,
> {
    if method == "join"@ {
        match receiver {
            SValue::Vec(items) => match join_separator(args) {
                Some(sep) => match join_sep(items, sep) {
                    Some(text) => Some(SValue::Expr(SExpr::Lit(SLit::Str(text)))),
                    None => None,
                },
                None => None,
            },
            _ => None,
        }
    } else if method == "concat"@ {
        match receiver {
            SValue::Expr(SExpr::Lit(SLit::Str(base))) => match concat_strings(args) {
                Some(rest) => Some(SValue::Expr(SExpr::Lit(SLit::Str(base + rest)))),
                None => None,
            },
            _ => None,
        }
    } else {
        None
    }
}

/// `l + r` where the sum is a string: `None` where both are numbers, which
/// is arithmetic, or where either has no string.
pub open spec fn concatenation(l: SValue, r: SValue) -> Option<SValue> {
    if number_spelling(l) is Some && number_spelling(r) is Some {
        None
    } else {
        match (string_of(l), string_of(r)) {
            (Some(x), Some(y)) => Some(SValue::Expr(SExpr::Lit(SLit::Str(x + y)))),
            _ => None,
        }
    }
}

/// The text of the first `k` quasis of a template with the string of each
/// value between them, or `None` where a value has none.
pub open spec fn tpl_fold(quasis: Seq<Seq<char>>, exprs: Seq<SExpr>, k: nat) -> Option<Seq<char>>
    decreases exprs, k,
{
    if k == 0 || k > quasis.len() {
        if k == 0 {
            Some(Seq::empty())
        } else {
            None
        }
    } else {
        match tpl_fold(quasis, exprs, (k - 1) as nat) {
            Some(prefix) => {
                let text = prefix + quasis[k - 1];
                if k - 1 < exprs.len() {
                    match const_fold(exprs[k - 1]) {
                        Some(v) => match string_of(v) {
                            Some(x) => Some(text + x),
                            None => None,
                        },
                        None => None,
                    }
                } else {
                    Some(text)
                }
            },
            None => None,
        }
    }
}

/// One quasi further into a template that folds: the prefix before the quasi
/// folds too, and the expression after the quasi, where there is one, has a
/// string; the fold is the prefix, the quasi, and that string.
pub proof fn lemma_tpl_step(quasis: Seq<Seq<char>>, exprs: Seq<SExpr>, k: nat)
    requires
        0 < k,
        tpl_fold(quasis, exprs, k) is Some,
    ensures
        k <= quasis.len(),
        tpl_fold(quasis, exprs, (k - 1) as nat) is Some,
        k - 1 < exprs.len() ==> const_fold(exprs[k - 1]) is Some && string_of(
            const_fold(exprs[k - 1])->0,
        ) is Some && tpl_fold(quasis, exprs, k)->0 == tpl_fold(quasis, exprs, (k - 1) as nat)->0
            + quasis[k - 1] + string_of(const_fold(exprs[k - 1])->0)->0,
        k - 1 >= exprs.len() ==> tpl_fold(quasis, exprs, k)->0 == tpl_fold(
            quasis,
            exprs,
            (k - 1) as nat,
        )->0 + quasis[k - 1],
        utf16_len(tpl_fold(quasis, exprs, (k - 1) as nat)->0 + quasis[k - 1]) <= utf16_len(
            tpl_fold(quasis, exprs, k)->0,
        ),
{
    let text = tpl_fold(quasis, exprs, (k - 1) as nat)->0 + quasis[k - 1];
    if k - 1 < exprs.len() {
        lemma_utf16_len_concat(text, string_of(const_fold(exprs[k - 1])->0)->0);
    }
}

/// A template that folds folds at every shorter prefix, each no longer than
/// the whole.
pub proof fn lemma_tpl_prefix(quasis: Seq<Seq<char>>, exprs: Seq<SExpr>, i: nat, k: nat)
    requires
        i <= k,
        tpl_fold(quasis, exprs, k) is Some,
    ensures
        tpl_fold(quasis, exprs, i) is Some,
        utf16_len(tpl_fold(quasis, exprs, i)->0) <= utf16_len(tpl_fold(quasis, exprs, k)->0),
    decreases k - i,
{
    if i < k {
        lemma_tpl_step(quasis, exprs, k);
        lemma_utf16_len_concat(
            tpl_fold(quasis, exprs, (k - 1) as nat)->0,
            quasis[k - 1],
        );
        lemma_tpl_prefix(quasis, exprs, i, (k - 1) as nat);
    }
}

/// What reading a property gives: a value, or a refusal for a reason.
pub enum Reading {
    Value(SValue),
    Refused(Seq<char>),
}

/// The number a list's length is.
pub open spec fn length_of(n: nat) -> SValue {
    SValue::Expr(SExpr::Lit(SLit::Num(spec_decimal(n))))
}

/// What reading `key` of the evaluated value `v` gives.
pub open spec fn reading(v: SValue, key: Seq<char>) -> Reading {
    match v {
        SValue::Expr(SExpr::Array(slots)) => if key == "length"@ {
            Reading::Value(length_of(slots.len()))
        } else {
            match spec_index_read(key, slots.len() as usize) {
                IndexRead::At(k) => match slots[k as int] {
                    SElem::Hole => Reading::Value(undefined_value()),
                    SElem::Expr(e) => Reading::Value(SValue::Expr(e)),
                    SElem::Spread(_) => Reading::Refused(SPREAD_ELEMENT@),
                },
                IndexRead::Past => Reading::Value(undefined_value()),
                IndexRead::NotAnIndex => Reading::Refused(MEMBER_NOT_RESOLVED@),
            }
        },
        SValue::Vec(items) => if key == "length"@ {
            Reading::Value(length_of(items.len()))
        } else {
            match spec_index_read(key, items.len() as usize) {
                IndexRead::At(k) => if items[k as int] == SValue::Null {
                    Reading::Value(undefined_value())
                } else {
                    Reading::Value(items[k as int])
                },
                IndexRead::Past => Reading::Value(undefined_value()),
                IndexRead::NotAnIndex => Reading::Refused(MEMBER_NOT_RESOLVED@),
            }
        },
        SValue::Expr(SExpr::Object(props)) => object_reading(props, key),
        SValue::ObjectMap(props) => object_reading(props, key),
        SValue::Expr(SExpr::Lit(SLit::Str(t))) => if key == "length"@ && utf16_len(t)
            <= usize::MAX {
            Reading::Value(length_of(utf16_len(t)))
        } else {
            Reading::Refused(MEMBER_NOT_RESOLVED@)
        },
        SValue::FunctionConfigMap(entries) => match first_index(
            entries,
            |e: (Seq<char>, bool, Seq<Seq<char>>)| e.0 == key,
        ) {
            Some(i) => Reading::Value(SValue::FunctionConfig(entries[i].1, entries[i].2)),
            None => Reading::Refused(MEMBER_NOT_RESOLVED@),
        },
        SValue::EnvObject(entries) => match first_index(
            entries,
            |e: (Seq<char>, Option<SExpr>)| e.0 == key,
        ) {
            Some(i) => match entries[i].1 {
                Some(x) => Reading::Value(SValue::Expr(x)),
                None => Reading::Value(v),
            },
            None => Reading::Refused(ENV_PROPERTY_NOT_FOUND@),
        },
        _ => Reading::Refused(MEMBER_NOT_RESOLVED@),
    }
}

/// What reading `key` of an object literal gives.
pub open spec fn object_reading(props: Seq<SProp>, key: Seq<char>) -> Reading {
    match lookup_prop(props, key) {
        Lookup::Found(e) => Reading::Value(SValue::Expr(e)),
        Lookup::Missing => Reading::Value(undefined_value()),
        Lookup::Refused(reason) => Reading::Refused(reason),
    }
}

/// The answer an evaluation gave agrees with the meaning of what it read,
/// wherever that meaning is self-contained.
pub open spec fn agrees(e: SExpr, answer: Option<SValue>) -> bool {
    answer is Some && const_fold(e) is Some ==> answer == const_fold(e)
}

} // verus!
