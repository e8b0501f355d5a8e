//! Reading a property of an evaluated value: the key a member expression
//! names, an array's elements and length, and an object literal's keys.
use vstd::prelude::*;

use crate::coerce::str_eq;
use crate::helpers::key_text;
use crate::messages::{
    spec_decimal, MEMBER_NOT_RESOLVED, OBJECT_METHOD, SPREAD_ELEMENT, SPREAD_NOT_SUPPORTED,
};
use crate::state::{first_index, lemma_first_index};
use crate::syntax::{
    copy_expr, lemma_selems, lemma_sprops, selem, selems, sprop, sprops, Elem, Expr, Lit, Prop,
    PropName, SElem, SExpr, SLit, SProp, SPropName, Span,
};

verus! {

/// The key an evaluated property names: a name, or a literal's string.
pub open spec fn property_key(e: SExpr) -> Option<Seq<char>> {
    match e {
        SExpr::Ident(s, _) => Some(s),
        SExpr::Lit(SLit::Str(s)) => Some(s),
        SExpr::Lit(SLit::Num(t)) => Some(t),
        SExpr::Lit(SLit::Bool(b)) => Some(
            if b {
                "true"@
            } else {
                "false"@
            },
        ),
        SExpr::Lit(SLit::Null) => Some("null"@),
        _ => None,
    }
}

/// The key an evaluated property names.
pub fn property_key_of(e: &Expr) -> (r: Option<String>)
    ensures
        match r {
            Some(k) => property_key(e@) == Some(k@),
            None => property_key(e@) is None,
        },
{
    proof {
        reveal_strlit("true");
        reveal_strlit("false");
        reveal_strlit("null");
    }
    match e {
        Expr::Ident(i) => Some(i.sym.clone()),
        Expr::Lit(Lit::Str(s)) => Some(s.clone()),
        Expr::Lit(Lit::Num(t)) => Some(t.clone()),
        Expr::Lit(Lit::Bool(b)) => Some(
            if *b {
                String::from_str("true")
            } else {
                String::from_str("false")
            },
        ),
        Expr::Lit(Lit::Null) => Some(String::from_str("null")),
        _ => None,
    }
}

// ---------------------------------------------------------------------------
// Array indices.
// ---------------------------------------------------------------------------

pub open spec fn is_digit(c: char) -> bool {
    '0' <= c && c <= '9'
}

pub open spec fn digit_value(c: char) -> nat {
    (c as u32 - '0' as u32) as nat
}

/// The number a run of digits spells.
pub open spec fn digits_value(t: Seq<char>) -> nat
    decreases t.len(),
{
    if t.len() == 0 {
        0
    } else {
        digits_value(t.drop_last()) * 10 + digit_value(t.last())
    }
}

/// The array index a key spells: a run of digits with no leading zero.
pub open spec fn array_index(t: Seq<char>) -> Option<nat> {
    if t.len() > 0 && (forall|j: int| 0 <= j < t.len() ==> is_digit(#[trigger] t[j])) && (t.len()
        == 1 || t[0] != '0') {
        Some(digits_value(t))
    } else {
        None
    }
}

/// Where an index key points in a list of `len` items.
pub enum IndexRead {
    /// At this position.
    At(usize),
    /// Past the end.
    Past,
    /// The key is not an index.
    NotAnIndex,
}

pub open spec fn spec_index_read(t: Seq<char>, len: usize) -> IndexRead {
    match array_index(t) {
        Some(n) => if n < len {
            IndexRead::At(n as usize)
        } else {
            IndexRead::Past
        },
        None => IndexRead::NotAnIndex,
    }
}

/// Where the index `key` spells points in a list of `len` items.
pub fn index_read(key: &str, len: usize) -> (r: IndexRead)
    ensures
        r == spec_index_read(key@, len),
{
    let n = key.unicode_len();
    if n == 0 {
        return IndexRead::NotAnIndex;
    }
    if n > 1 && key.get_char(0) == '0' {
        return IndexRead::NotAnIndex;
    }
    let bound: u128 = len as u128 + 1;
    let mut acc: u128 = 0;
    let mut i: usize = 0;
    proof {
        assert(key@.take(0) =~= Seq::<char>::empty());
    }
    while i < n
        invariant
            n == key@.len(),
            i <= n,
            bound == len + 1,
            forall|j: int| 0 <= j < i ==> is_digit(#[trigger] key@[j]),
            acc == (if digits_value(key@.take(i as int)) < bound {
                digits_value(key@.take(i as int))
            } else {
                bound as nat
            }),
        decreases n - i,
    {
        let c = key.get_char(i);
        if !('0' <= c && c <= '9') {
            return IndexRead::NotAnIndex;
        }
        proof {
            assert(key@.take(i + 1).drop_last() =~= key@.take(i as int));
            assert(key@.take(i + 1).last() == c);
        }
        let d: u128 = (c as u32 - '0' as u32) as u128;
        let next = acc * 10 + d;
        acc = if next < bound {
            next
        } else {
            bound
        };
        i = i + 1;
    }
    proof {
        assert(key@.take(n as int) =~= key@);
    }
    if acc < len as u128 {
        IndexRead::At(acc as usize)
    } else {
        IndexRead::Past
    }
}

// ---------------------------------------------------------------------------
// Object keys.
// ---------------------------------------------------------------------------

/// What reading a key of an object literal finds.
pub enum Lookup {
    /// The value written for the key.
    Found(SExpr),
    /// No property carries the key.
    Missing,
    /// A property before the key's cannot be read, for this reason.
    Refused(Seq<char>),
}

/// What the property `p` says about `key`: its value, nothing, or a
/// refusal.
pub open spec fn prop_reading(p: SProp, key: Seq<char>) -> Option<Lookup> {
    match p {
        SProp::Spread(_) => Some(Lookup::Refused(SPREAD_NOT_SUPPORTED@)),
        SProp::KeyValue(k, v) => match key_text(k) {
            Some(t) => if t == key {
                Some(Lookup::Found(v))
            } else {
                None
            },
            None => Some(Lookup::Refused(MEMBER_NOT_RESOLVED@)),
        },
        SProp::Shorthand(name, ctxt) => if name == key {
            Some(Lookup::Found(SExpr::Ident(name, ctxt)))
        } else {
            None
        },
        SProp::Method(_) => Some(Lookup::Refused(OBJECT_METHOD@)),
    }
}

/// What reading `key` of an object literal with properties `props` finds:
/// the first property that says anything about it decides.
pub open spec fn lookup_prop(props: Seq<SProp>, key: Seq<char>) -> Lookup
    decreases props.len(),
{
    if props.len() == 0 {
        Lookup::Missing
    } else {
        match prop_reading(props[0], key) {
            Some(l) => l,
            None => lookup_prop(props.subrange(1, props.len() as int), key),
        }
    }
}

proof fn lemma_lookup_from(props: Seq<SProp>, key: Seq<char>, i: int)
    requires
        0 <= i <= props.len(),
        forall|j: int| 0 <= j < i ==> prop_reading(#[trigger] props[j], key) is None,
    ensures
        lookup_prop(props, key) == lookup_prop(props.subrange(i, props.len() as int), key),
    decreases i,
{
    if i > 0 {
        let rest = props.subrange(1, props.len() as int);
        assert forall|j: int| 0 <= j < i - 1 implies prop_reading(#[trigger] rest[j], key) is None by {
            assert(rest[j] == props[j + 1]);
        }
        assert(prop_reading(props[0], key) is None);
        lemma_lookup_from(rest, key, i - 1);
        assert(rest.subrange(i - 1, rest.len() as int) =~= props.subrange(i, props.len() as int));
    } else {
        assert(props.subrange(0, props.len() as int) =~= props);
    }
}

/// What a property found for a key reads as.
pub enum Found {
    Value(Expr),
    Missing,
    Refused(&'static str),
}

/// Reads `key` of an object literal with properties `props`.
pub fn lookup_key(props: &Vec<Prop>, key: &String) -> (r: Found)
    ensures
        match lookup_prop(sprops(props@), key@) {
            Lookup::Found(v) => r matches Found::Value(e) && e@ == v,
            Lookup::Missing => r is Missing,
            Lookup::Refused(reason) => r matches Found::Refused(s) && s@ == reason,
        },
{
    let ghost sp = sprops(props@);
    proof {
        lemma_sprops(props@);
    }
    let mut i: usize = 0;
    while i < props.len()
        invariant
            sp == sprops(props@),
            sp.len() == props@.len(),
            forall|j: int| 0 <= j < props@.len() ==> #[trigger] sp[j] == sprop(props@[j]),
            i <= props@.len(),
            forall|j: int| 0 <= j < i ==> prop_reading(#[trigger] sp[j], key@) is None,
        decreases props@.len() - i,
    {
        proof {
            lemma_lookup_from(sp, key@, i as int);
            assert(sp.subrange(i as int, sp.len() as int)[0] == sp[i as int]);
        }
        match &props[i] {
            Prop::Spread(_) => {
                return Found::Refused(SPREAD_NOT_SUPPORTED);
            },
            Prop::KeyValue(k, v) => match crate::helpers::key_name(k) {
                Some(t) => {
                    if str_eq(t.as_str(), key.as_str()) {
                        return Found::Value(copy_expr(v));
                    }
                },
                None => {
                    return Found::Refused(MEMBER_NOT_RESOLVED);
                },
            },
            Prop::Shorthand(name) => {
                if str_eq(name.sym.as_str(), key.as_str()) {
                    return Found::Value(Expr::Ident(name.copy()));
                }
            },
            Prop::Method(_) => {
                return Found::Refused(OBJECT_METHOD);
            },
        }
        i = i + 1;
    }
    proof {
        lemma_lookup_from(sp, key@, i as int);
    }
    Found::Missing
}

/// The properties `props` with `key` set to `value`: a property already
/// carrying the key has its value replaced where it stands, and a new key goes
/// last.
pub open spec fn spec_set_prop(props: Seq<SProp>, key: Seq<char>, value: SExpr) -> Seq<SProp> {
    let written = SProp::KeyValue(SPropName::Ident(key), value);
    match first_index(props, |p: SProp| carries_key(p, key)) {
        Some(i) => props.update(i, written),
        None => props.push(written),
    }
}

/// Whether a property is a key and a value for `key`.
pub open spec fn carries_key(p: SProp, key: Seq<char>) -> bool {
    p matches SProp::KeyValue(k, _) && key_text(k) == Some(key)
}

/// Sets `key` to `value` in `props`, as an object literal written in order
/// would: a repeated key keeps its place and takes the later value.
pub fn set_prop(props: &mut Vec<Prop>, key: String, value: Expr)
    ensures
        sprops(final(props)@) == spec_set_prop(sprops(old(props)@), key@, value@),
{
    let ghost sp = sprops(props@);
    let ghost p = |q: SProp| carries_key(q, key@);
    proof {
        lemma_sprops(props@);
    }
    let mut i: usize = 0;
    while i < props.len()
        invariant
            sp == sprops(props@),
            *props == *old(props),
            sp.len() == props@.len(),
            forall|j: int| 0 <= j < props@.len() ==> #[trigger] sp[j] == sprop(props@[j]),
            p == (|q: SProp| carries_key(q, key@)),
            i <= props@.len(),
            forall|j: int| 0 <= j < i ==> !p(#[trigger] sp[j]),
        decreases props@.len() - i,
    {
        let hit = match &props[i] {
            Prop::KeyValue(k, _) => match crate::helpers::key_name(k) {
                Some(t) => str_eq(t.as_str(), key.as_str()),
                None => false,
            },
            _ => false,
        };
        if hit {
            proof {
                assert(p(sp[i as int]));
                lemma_first_index(sp, p, i as int);
            }
            let written = Prop::KeyValue(PropName::Ident(key), value);
            props.set(i, written);
            proof {
                lemma_sprops(props@);
                assert(sprops(props@) =~= sp.update(i as int, sprop(written)));
            }
            return;
        }
        i = i + 1;
    }
    proof {
        lemma_first_index(sp, p, i as int);
    }
    let ghost before = props@;
    let written = Prop::KeyValue(PropName::Ident(key), value);
    props.push(written);
    proof {
        assert(props@.drop_last() =~= before);
        assert(sprops(props@) == sprops(before).push(sprop(written)));
    }
}

// ---------------------------------------------------------------------------
// Array elements.
// ---------------------------------------------------------------------------

/// What the slot at `k` of an array literal reads as.
pub fn slot_value(elems: &Vec<Elem>, k: usize) -> (r: Found)
    requires
        k < elems@.len(),
    ensures
        match selems(elems@)[k as int] {
            SElem::Hole => r is Missing,
            SElem::Expr(e) => r matches Found::Value(x) && x@ == e,
            SElem::Spread(_) => r matches Found::Refused(s) && s@ == SPREAD_ELEMENT@,
        },
{
    proof {
        lemma_selems(elems@);
    }
    match &elems[k] {
        Elem::Hole => Found::Missing,
        Elem::Expr(e) => Found::Value(copy_expr(e)),
        Elem::Spread(_) => Found::Refused(SPREAD_ELEMENT),
    }
}

} // verus!
