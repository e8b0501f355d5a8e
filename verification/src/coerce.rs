//! The language's coercions, read off an evaluated value: `ToBoolean`, the
//! nullish test, `typeof`, and `ToString`.
use vstd::prelude::*;

use crate::syntax::{Expr, Ident, Lit, SExpr, SLit};
use crate::value::{EvaluateResultValue, SValue};

verus! {

/// Whether two strings are spelled alike.
pub fn str_eq(a: &str, b: &str) -> (r: bool)
    ensures
        r == (a@ == b@),
{
    let x = String::from_str(a);
    let y = String::from_str(b);
    x == y
}

pub open spec fn is_undefined_name(e: SExpr) -> bool {
    e matches SExpr::Ident(s, _) && s == "undefined"@
}

/// Whether `ident` is spelled `undefined`.
pub fn is_undefined_ident(ident: &Ident) -> (r: bool)
    ensures
        r == (ident.sym@ == "undefined"@),
{
    str_eq(ident.sym.as_str(), "undefined")
}

/// Whether a number's spelling is one of the two falsy numbers.
pub open spec fn falsy_number(t: Seq<char>) -> bool {
    t == "0"@ || t == "NaN"@
}

/// `ToBoolean` of an expression the evaluator answered with, or `None` where
/// it has no truthiness the evaluator can read.
pub open spec fn expr_to_boolean(e: SExpr) -> Option<bool> {
    match e {
        SExpr::Lit(SLit::Str(s)) => Some(s.len() > 0),
        SExpr::Lit(SLit::Num(t)) => Some(!falsy_number(t)),
        SExpr::Lit(SLit::Bool(b)) => Some(b),
        SExpr::Lit(SLit::Null) => Some(false),
        SExpr::Lit(SLit::Regex(_)) => Some(true),
        SExpr::Ident(s, _) => if s == "undefined"@ {
            Some(false)
        } else {
            None
        },
        SExpr::Array(_) => Some(true),
        SExpr::Object(_) => Some(true),
        _ => None,
    }
}

/// `ToBoolean` of an evaluated value. Every value of the evaluator's own
/// stands for an object or a function, and is truthy; a bare absent value has
/// no reading.
pub open spec fn to_boolean(v: SValue) -> Option<bool> {
    match v {
        SValue::Expr(e) => expr_to_boolean(e),
        SValue::Null => None,
        _ => Some(true),
    }
}

/// Whether an evaluated value is `null` or `undefined`.
pub open spec fn nullish(v: SValue) -> bool {
    match v {
        SValue::Expr(e) => e == SExpr::Lit(SLit::Null) || is_undefined_name(e),
        SValue::Null => true,
        _ => false,
    }
}

/// What `typeof` answers for an evaluated value.
pub open spec fn type_of(v: SValue) -> Option<Seq<char>> {
    match v {
        SValue::Expr(e) => match e {
            SExpr::Lit(SLit::Str(_)) => Some("string"@),
            SExpr::Lit(SLit::Num(_)) => Some("number"@),
            SExpr::Lit(SLit::Bool(_)) => Some("boolean"@),
            SExpr::Lit(SLit::Null) => Some("object"@),
            SExpr::Lit(SLit::Regex(_)) => Some("object"@),
            SExpr::Array(_) => Some("object"@),
            SExpr::Object(_) => Some("object"@),
            SExpr::Ident(s, _) => if s == "undefined"@ {
                Some("undefined"@)
            } else {
                None
            },
            _ => None,
        },
        SValue::Null => None,
        SValue::Callback(_) => Some("function"@),
        SValue::FunctionConfig(_, _) => Some("function"@),
        _ => Some("object"@),
    }
}

/// `ToString` of an expression the evaluator answered with.
pub open spec fn expr_to_string(e: SExpr) -> Option<Seq<char>> {
    match e {
        SExpr::Lit(SLit::Str(s)) => Some(s),
        SExpr::Lit(SLit::Num(t)) => Some(t),
        SExpr::Lit(SLit::Bool(b)) => Some(
            if b {
                "true"@
            } else {
                "false"@
            },
        ),
        SExpr::Lit(SLit::Null) => Some("null"@),
        SExpr::Object(_) => Some("[object Object]"@),
        SExpr::Ident(s, _) => if s == "undefined"@ {
            Some("undefined"@)
        } else {
            None
        },
        _ => None,
    }
}

/// Whether an element joins as nothing: a hole, `null` or `undefined`.
pub open spec fn joins_as_empty(v: SValue) -> bool {
    nullish(v)
}

/// `ToString` of an evaluated value; an array joins its elements with commas.
/// A function has no string form, and a theme reference's is the hash of a
/// group this library does not compute, so neither has one here.
pub open spec fn string_of(v: SValue) -> Option<Seq<char>>
    decreases v, 0nat,
{
    match v {
        SValue::Expr(e) => expr_to_string(e),
        SValue::Vec(items) => join_values(items),
        SValue::Null => None,
        SValue::ObjectMap(_) => Some("[object Object]"@),
        SValue::EnvObject(_) => Some("[object Object]"@),
        SValue::FunctionConfigMap(_) => Some("[object Object]"@),
        _ => None,
    }
}

/// The elements of an array joined with commas, as `ToString` writes an
/// array.
pub open spec fn join_values(items: Seq<SValue>) -> Option<Seq<char>>
    decreases items, 1nat,
{
    join_sep(items, ","@)
}

/// The elements of an array joined with `sep` between each two, as
/// `Array.prototype.join` writes them: `null` and `undefined` join as
/// nothing, and an element with no string leaves the join without one.
pub open spec fn join_sep(items: Seq<SValue>, sep: Seq<char>) -> Option<Seq<char>>
    decreases items, 0nat,
{
    if items.len() == 0 {
        Some(Seq::empty())
    } else {
        let last = items.last();
        match join_sep(items.drop_last(), sep) {
            None => None,
            Some(prefix) => {
                let between = if items.len() > 1 {
                    sep
                } else {
                    Seq::empty()
                };
                if joins_as_empty(last) {
                    Some(prefix + between)
                } else {
                    match string_of(last) {
                        Some(piece) => Some(prefix + between + piece),
                        None => None,
                    }
                }
            },
        }
    }
}

/// `ToString` of an expression the evaluator answered with, or `None` where it
/// has none the evaluator writes.
pub fn expr_string(e: &Expr) -> (r: Option<String>)
    ensures
        match r {
            Some(t) => expr_to_string(e@) == Some(t@),
            None => expr_to_string(e@) is None,
        },
{
    proof {
        reveal_strlit("true");
        reveal_strlit("false");
        reveal_strlit("null");
        reveal_strlit("[object Object]");
        reveal_strlit("undefined");
    }
    match e {
        Expr::Lit(Lit::Str(s)) => Some(s.clone()),
        Expr::Lit(Lit::Num(t)) => Some(t.clone()),
        Expr::Lit(Lit::Bool(b)) => Some(
            if *b {
                String::from_str("true")
            } else {
                String::from_str("false")
            },
        ),
        Expr::Lit(Lit::Null) => Some(String::from_str("null")),
        Expr::Object(_) => Some(String::from_str("[object Object]")),
        Expr::Ident(i) => if is_undefined_ident(i) {
            Some(String::from_str("undefined"))
        } else {
            None
        },
        _ => None,
    }
}

/// `ToBoolean` of an evaluated value, or `None` where the caller refuses.
pub fn evaluate_result_to_js_boolean(value: &EvaluateResultValue) -> (r: Option<bool>)
    ensures
        r == to_boolean(value@),
{
    match value {
        EvaluateResultValue::Expr(e) => expr_boolean(e),
        EvaluateResultValue::Null => None,
        _ => Some(true),
    }
}

fn num_is_falsy(t: &String) -> (r: bool)
    ensures
        r == falsy_number(t@),
{
    str_eq(t.as_str(), "0") || str_eq(t.as_str(), "NaN")
}

fn expr_boolean(e: &Expr) -> (r: Option<bool>)
    ensures
        r == expr_to_boolean(e@),
{
    match e {
        Expr::Lit(Lit::Str(s)) => Some(s.as_str().unicode_len() > 0),
        Expr::Lit(Lit::Num(t)) => Some(!num_is_falsy(t)),
        Expr::Lit(Lit::Bool(b)) => Some(*b),
        Expr::Lit(Lit::Null) => Some(false),
        Expr::Lit(Lit::Regex(_)) => Some(true),
        Expr::Lit(Lit::BigInt(_)) => None,
        Expr::Ident(i) => if is_undefined_ident(i) {
            Some(false)
        } else {
            None
        },
        Expr::Array(_) => Some(true),
        Expr::Object(_) => Some(true),
        _ => None,
    }
}

/// Whether an evaluated value is nullish.
pub fn evaluate_result_is_nullish(value: &EvaluateResultValue) -> (r: bool)
    ensures
        r == nullish(value@),
{
    match value {
        EvaluateResultValue::Expr(e) => match e {
            Expr::Lit(Lit::Null) => true,
            Expr::Ident(i) => is_undefined_ident(i),
            _ => false,
        },
        EvaluateResultValue::Null => true,
        _ => false,
    }
}

/// What `ToObject` makes of an evaluated value.
pub enum ObjectCoercion {
    Object,
    Function,
    Primitive,
}

pub open spec fn to_object(v: SValue) -> Option<ObjectCoercion> {
    match v {
        SValue::Expr(e) => match e {
            SExpr::Lit(SLit::Str(_)) => Some(ObjectCoercion::Primitive),
            SExpr::Lit(SLit::Num(_)) => Some(ObjectCoercion::Primitive),
            SExpr::Lit(SLit::Bool(_)) => Some(ObjectCoercion::Primitive),
            SExpr::Array(_) => Some(ObjectCoercion::Object),
            SExpr::Object(_) => Some(ObjectCoercion::Object),
            SExpr::Lit(SLit::Regex(_)) => Some(ObjectCoercion::Object),
            _ => None,
        },
        SValue::Null => None,
        SValue::Callback(_) => Some(ObjectCoercion::Function),
        SValue::FunctionConfig(_, _) => Some(ObjectCoercion::Function),
        _ => Some(ObjectCoercion::Object),
    }
}

/// `ToObject` of an evaluated value: whether it reads as an object, a
/// function, or a primitive with a wrapper; `None` where it cannot be read
/// (`null`, `undefined`, and a bare absent value).
pub fn evaluate_result_to_js_object(value: &EvaluateResultValue) -> (r: Option<ObjectCoercion>)
    ensures
        r == to_object(value@),
{
    match value {
        EvaluateResultValue::Expr(e) => match e {
            Expr::Lit(Lit::Str(_)) => Some(ObjectCoercion::Primitive),
            Expr::Lit(Lit::Num(_)) => Some(ObjectCoercion::Primitive),
            Expr::Lit(Lit::Bool(_)) => Some(ObjectCoercion::Primitive),
            Expr::Array(_) => Some(ObjectCoercion::Object),
            Expr::Object(_) => Some(ObjectCoercion::Object),
            Expr::Lit(Lit::Regex(_)) => Some(ObjectCoercion::Object),
            _ => None,
        },
        EvaluateResultValue::Null => None,
        EvaluateResultValue::Callback(_) => Some(ObjectCoercion::Function),
        EvaluateResultValue::FunctionConfig(_) => Some(ObjectCoercion::Function),
        _ => Some(ObjectCoercion::Object),
    }
}

/// What `typeof` answers for an evaluated value, or `None` where it has no
/// answer the evaluator can give.
pub fn type_of_value(value: &EvaluateResultValue) -> (r: Option<String>)
    ensures
        r is Some <==> type_of(value@) is Some,
        r matches Some(t) ==> type_of(value@) == Some(t@),
{
    proof {
        reveal_strlit("string");
        reveal_strlit("number");
        reveal_strlit("boolean");
        reveal_strlit("object");
        reveal_strlit("undefined");
        reveal_strlit("function");
    }
    match value {
        EvaluateResultValue::Expr(e) => match e {
            Expr::Lit(Lit::Str(_)) => Some(String::from_str("string")),
            Expr::Lit(Lit::Num(_)) => Some(String::from_str("number")),
            Expr::Lit(Lit::Bool(_)) => Some(String::from_str("boolean")),
            Expr::Lit(Lit::Null) => Some(String::from_str("object")),
            Expr::Lit(Lit::Regex(_)) => Some(String::from_str("object")),
            Expr::Array(_) => Some(String::from_str("object")),
            Expr::Object(_) => Some(String::from_str("object")),
            Expr::Ident(i) => if is_undefined_ident(i) {
                Some(String::from_str("undefined"))
            } else {
                None
            },
            _ => None,
        },
        EvaluateResultValue::Null => None,
        EvaluateResultValue::Callback(_) => Some(String::from_str("function")),
        EvaluateResultValue::FunctionConfig(_) => Some(String::from_str("function")),
        _ => Some(String::from_str("object")),
    }
}

} // verus!
