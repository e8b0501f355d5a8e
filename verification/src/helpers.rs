//! Reading evaluated values back as expressions: the array form of an
//! evaluated array, the object form of a folded function map, and the
//! receiver of `Object.keys`, `Object.values` and `Object.entries`.
use vstd::prelude::*;

use crate::messages::{decimal, spec_decimal, OBJECT_METHOD, SPREAD_NOT_SUPPORTED};
use crate::syntax::{
    copy_expr, copy_props, lemma_selems, lemma_sprops, selem, selems, sprop, sprops, strings_view,
    Elem, Expr, Lit, Prop, PropName, SElem, SExpr, SLit, SProp, SPropName,
};
use crate::value::{
    lemma_sconfig_entries, lemma_svalues, sconfig_entries, svalue, svalues, EvaluateResultValue,
    FunctionConfig, FunctionConfigEntry, SValue,
};

verus! {

// ---------------------------------------------------------------------------
// The array form of an evaluated array.
// ---------------------------------------------------------------------------

/// The kinds of expression that can stand as an element written back.
pub open spec fn is_element_kind(e: SExpr) -> bool {
    e is Array || e is Object || e is Lit || e is Ident
}

/// The expression an evaluated value is written back as inside an array.
pub open spec fn element_expr(v: SValue) -> Option<SExpr>
    decreases v,
{
    match v {
        SValue::Vec(items) => match element_exprs(items) {
            Some(es) => Some(SExpr::Array(es)),
            None => None,
        },
        SValue::Expr(e) => if is_element_kind(e) {
            Some(e)
        } else {
            None
        },
        _ => None,
    }
}

/// The slots an evaluated array is written back as, or `None` where one of
/// its elements has no form to write.
pub open spec fn element_exprs(items: Seq<SValue>) -> Option<Seq<SElem>>
    decreases items,
{
    if items.len() == 0 {
        Some(Seq::empty())
    } else {
        match element_exprs(items.drop_last()) {
            Some(p) => match element_expr(items.last()) {
                Some(e) => Some(p.push(SElem::Expr(e))),
                None => None,
            },
            None => None,
        }
    }
}

fn is_element_kind_expr(e: &Expr) -> (r: bool)
    ensures
        r == is_element_kind(e@),
{
    match e {
        Expr::Array(_) | Expr::Object(_) | Expr::Lit(_) | Expr::Ident(_) => true,
        _ => false,
    }
}

/// An element with no form to write leaves the whole array without one.
proof fn lemma_element_exprs_stops(items: Seq<SValue>, i: int)
    requires
        0 <= i < items.len(),
        element_exprs(items.take(i + 1)) is None,
    ensures
        element_exprs(items) is None,
    decreases items.len(),
{
    if items.len() == i + 1 {
        assert(items.take(i + 1) =~= items);
    } else {
        let rest = items.drop_last();
        assert(rest.take(i + 1) =~= items.take(i + 1));
        lemma_element_exprs_stops(rest, i);
    }
}

/// An evaluated array written back as an array literal, or `None` where an
/// element has no form to write: a callback, a theme reference, an absent
/// value, or an expression of another kind.
pub fn evaluate_result_vec_to_array_expr(items: &Vec<EvaluateResultValue>) -> (r: Option<Expr>)
    ensures
        match r {
            Some(e) => element_exprs(svalues(items@)) matches Some(es) && e@ == SExpr::Array(es),
            None => element_exprs(svalues(items@)) is None,
        },
    decreases items,
{
    let ghost sv = svalues(items@);
    proof {
        lemma_svalues(items@);
        assert(sv.take(0) =~= Seq::<SValue>::empty());
    }
    let mut elems: Vec<Elem> = Vec::new();
    let mut i: usize = 0;
    while i < items.len()
        invariant
            sv == svalues(items@),
            sv.len() == items@.len(),
            forall|j: int| 0 <= j < items@.len() ==> #[trigger] sv[j] == items@[j]@,
            i <= items@.len(),
            element_exprs(sv.take(i as int)) == Some(selems(elems@)),
        decreases items@.len() - i,
    {
        proof {
            assert(sv.take(i + 1).drop_last() =~= sv.take(i as int));
            assert(sv.take(i + 1).last() == sv[i as int]);
            assert(decreases_to!(*items => items@));
            assert(decreases_to!(items@ => items@[i as int]));
        }
        let entry = &items[i];
        let expr = match entry {
            EvaluateResultValue::Vec(nested) => {
                proof {
                    assert(decreases_to!(items@[i as int] => items@[i as int]->Vec_0));
                }
                match evaluate_result_vec_to_array_expr(nested) {
                    Some(e) => e,
                    None => {
                        proof {
                            assert(sv[i as int] == SValue::Vec(svalues(nested@)));
                            assert(element_expr(sv[i as int]) is None);
                            lemma_element_exprs_stops(sv, i as int);
                        }
                        return None;
                    },
                }
            },
            EvaluateResultValue::Expr(e) => copy_expr(e),
            _ => {
                proof {
                    assert(!(sv[i as int] is Vec) && !(sv[i as int] is Expr));
                    assert(element_expr(sv[i as int]) is None);
                    lemma_element_exprs_stops(sv, i as int);
                }
                return None;
            },
        };
        if !is_element_kind_expr(&expr) {
            proof {
                lemma_element_exprs_stops(sv, i as int);
            }
            return None;
        }
        let ghost before = elems@;
        elems.push(Elem::Expr(expr));
        proof {
            assert(elems@.drop_last() =~= before);
            assert(selems(elems@) == selems(before).push(selem(Elem::Expr(expr))));
        }
        i = i + 1;
    }
    proof {
        assert(sv.take(items@.len() as int) =~= sv);
    }
    Some(Expr::Array(elems))
}

// ---------------------------------------------------------------------------
// The object form of a folded function map.
// ---------------------------------------------------------------------------

/// The function each key of a function fold's object form carries.
pub open spec fn function_placeholder() -> SExpr {
    SExpr::Other("ArrowFunctionExpression"@)
}

/// An object of the given keys, each carrying a function.
pub open spec fn spec_object_of_functions(keys: Seq<Seq<char>>) -> Seq<SProp>
    decreases keys.len(),
{
    if keys.len() == 0 {
        Seq::empty()
    } else {
        spec_object_of_functions(keys.drop_last()).push(
            SProp::KeyValue(SPropName::Ident(keys.last()), function_placeholder()),
        )
    }
}

/// The object one entry of a folded function map stands for: a marker's
/// markers, or the wrapper `{ fn }`.
pub open spec fn spec_fold_entry_to_object(is_marker: bool, markers: Seq<Seq<char>>) -> Seq<SProp> {
    if is_marker {
        spec_object_of_functions(markers)
    } else {
        spec_object_of_functions(seq!["fn"@])
    }
}

/// The object a folded function map stands for.
pub open spec fn spec_fold_map_to_object(entries: Seq<(Seq<char>, bool, Seq<Seq<char>>)>) -> Seq<
    SProp,
>
    decreases entries.len(),
{
    if entries.len() == 0 {
        Seq::empty()
    } else {
        spec_fold_map_to_object(entries.drop_last()).push(
            SProp::KeyValue(
                SPropName::Ident(entries.last().0),
                SExpr::Object(spec_fold_entry_to_object(entries.last().1, entries.last().2)),
            ),
        )
    }
}

/// The object form of a folded function map, or `None` for any other value.
pub open spec fn spec_function_fold_to_object(v: SValue) -> Option<Seq<SProp>> {
    match v {
        SValue::FunctionConfigMap(entries) => Some(spec_fold_map_to_object(entries)),
        SValue::FunctionConfig(is_marker, markers) => Some(
            spec_fold_entry_to_object(is_marker, markers),
        ),
        _ => None,
    }
}

fn function_value() -> (r: Expr)
    ensures
        r@ == function_placeholder(),
{
    Expr::Other(String::from_str("ArrowFunctionExpression"))
}

/// An object of the given keys, each carrying a function, in the order given.
pub fn object_of_functions(keys: &Vec<String>) -> (r: Vec<Prop>)
    ensures
        sprops(r@) == spec_object_of_functions(strings_view(keys@)),
{
    let ghost ks = strings_view(keys@);
    proof {
        crate::syntax::lemma_strings_view(keys@);
        assert(ks.take(0) =~= Seq::<Seq<char>>::empty());
    }
    let mut props: Vec<Prop> = Vec::new();
    let mut i: usize = 0;
    while i < keys.len()
        invariant
            ks == strings_view(keys@),
            ks.len() == keys@.len(),
            forall|j: int| 0 <= j < keys@.len() ==> #[trigger] ks[j] == keys@[j]@,
            i <= keys@.len(),
            sprops(props@) == spec_object_of_functions(ks.take(i as int)),
        decreases keys@.len() - i,
    {
        proof {
            assert(ks.take(i + 1).drop_last() =~= ks.take(i as int));
        }
        let ghost before = props@;
        let p = Prop::KeyValue(PropName::Ident(keys[i].clone()), function_value());
        props.push(p);
        proof {
            assert(props@.drop_last() =~= before);
            assert(sprops(props@) == sprops(before).push(sprop(p)));
        }
        i = i + 1;
    }
    proof {
        assert(ks.take(keys@.len() as int) =~= ks);
    }
    props
}

/// The object one entry of a folded function map stands for.
pub fn fold_entry_to_object(config: &FunctionConfig) -> (r: Vec<Prop>)
    ensures
        sprops(r@) == spec_fold_entry_to_object(
            config.is_marker,
            strings_view(config.marker_keys@),
        ),
{
    if config.is_marker {
        object_of_functions(&config.marker_keys)
    } else {
        let keys = vec![String::from_str("fn")];
        proof {
            reveal_strlit("fn");
            crate::syntax::lemma_strings_view(keys@);
            assert(strings_view(keys@) =~= seq!["fn"@]);
        }
        object_of_functions(&keys)
    }
}

/// The object form of a folded function map, for the positions that need
/// one; `None` for every other value.
pub fn function_fold_to_object(value: &EvaluateResultValue) -> (r: Option<Vec<Prop>>)
    ensures
        match r {
            Some(props) => spec_function_fold_to_object(value@) == Some(sprops(props@)),
            None => spec_function_fold_to_object(value@) is None,
        },
{
    match value {
        EvaluateResultValue::FunctionConfigMap(entries) => {
            let ghost es = sconfig_entries(entries@);
            proof {
                lemma_sconfig_entries(entries@);
                assert(es.take(0) =~= Seq::<(Seq<char>, bool, Seq<Seq<char>>)>::empty());
            }
            let mut props: Vec<Prop> = Vec::new();
            let mut i: usize = 0;
            while i < entries.len()
                invariant
                    es == sconfig_entries(entries@),
                    es.len() == entries@.len(),
                    forall|j: int|
                        0 <= j < entries@.len() ==> #[trigger] es[j] == (
                            entries@[j].key@,
                            entries@[j].config.is_marker,
                            strings_view(entries@[j].config.marker_keys@),
                        ),
                    i <= entries@.len(),
                    sprops(props@) == spec_fold_map_to_object(es.take(i as int)),
                decreases entries@.len() - i,
            {
                proof {
                    assert(es.take(i + 1).drop_last() =~= es.take(i as int));
                }
                let entry: &FunctionConfigEntry = &entries[i];
                let inner = fold_entry_to_object(&entry.config);
                let ghost before = props@;
                let p = Prop::KeyValue(PropName::Ident(entry.key.clone()), Expr::Object(inner));
                props.push(p);
                proof {
                    assert(props@.drop_last() =~= before);
                    assert(sprops(props@) == sprops(before).push(sprop(p)));
                }
                i = i + 1;
            }
            proof {
                assert(es.take(entries@.len() as int) =~= es);
            }
            Some(props)
        },
        EvaluateResultValue::FunctionConfig(config) => Some(fold_entry_to_object(config)),
        _ => None,
    }
}

// ---------------------------------------------------------------------------
// The own-keys question.
// ---------------------------------------------------------------------------

/// Which of the three spellings of the own-keys question is being asked.
#[derive(Clone, Copy, PartialEq, Eq, Structural)]
pub enum OwnKeysQuestion {
    Keys,
    Values,
    Entries,
}

/// What a receiver reads as: an object with these properties, a primitive
/// with no own keys, one with an element that cannot be written back, or
/// `null`/`undefined`.
pub enum ObjectMethodReceiver {
    Object(Vec<Prop>),
    NoOwnKeys,
    Unreadable,
    Nullish,
}

impl OwnKeysQuestion {
    /// The question `name` spells, if it spells one.
    pub fn try_from(name: &str) -> (r: Option<OwnKeysQuestion>)
        ensures
            r == (if name@ == "keys"@ {
                Some(OwnKeysQuestion::Keys)
            } else if name@ == "values"@ {
                Some(OwnKeysQuestion::Values)
            } else if name@ == "entries"@ {
                Some(OwnKeysQuestion::Entries)
            } else {
                None
            }),
    {
        if crate::coerce::str_eq(name, "keys") {
            Some(OwnKeysQuestion::Keys)
        } else if crate::coerce::str_eq(name, "values") {
            Some(OwnKeysQuestion::Values)
        } else if crate::coerce::str_eq(name, "entries") {
            Some(OwnKeysQuestion::Entries)
        } else {
            None
        }
    }

    /// What this question answers for one property: the name, what the name
    /// holds, or the pair.
    pub open spec fn spec_read(self, key: Seq<char>, value: SExpr) -> SExpr {
        match self {
            OwnKeysQuestion::Keys => SExpr::Lit(SLit::Str(key)),
            OwnKeysQuestion::Values => value,
            OwnKeysQuestion::Entries => SExpr::Array(
                seq![SElem::Expr(SExpr::Lit(SLit::Str(key))), SElem::Expr(value)],
            ),
        }
    }

    /// What this question answers for one property.
    pub fn read(self, key: &String, value: &Expr) -> (r: Expr)
        ensures
            r@ == self.spec_read(key@, value@),
    {
        match self {
            OwnKeysQuestion::Keys => Expr::Lit(Lit::Str(key.clone())),
            OwnKeysQuestion::Values => copy_expr(value),
            OwnKeysQuestion::Entries => {
                let pair = vec![
                    Elem::Expr(Expr::Lit(Lit::Str(key.clone()))),
                    Elem::Expr(copy_expr(value)),
                ];
                proof {
                    lemma_selems(pair@);
                    assert(selems(pair@) =~= seq![
                        SElem::Expr(SExpr::Lit(SLit::Str(key@))),
                        SElem::Expr(value@),
                    ]);
                }
                Expr::Array(pair)
            },
        }
    }
}

/// The name a written key spells.
pub open spec fn key_text(key: SPropName) -> Option<Seq<char>> {
    match key {
        SPropName::Ident(s) => Some(s),
        SPropName::Str(s) => Some(s),
        SPropName::Num(t) => Some(t),
        SPropName::Computed(_) => None,
    }
}

/// The list the question answers for an object's properties, or the sentence
/// to refuse with: a spread cannot be read, and a property that is not a
/// key and a value is a method.
pub open spec fn own_keys_list(props: Seq<SProp>, q: OwnKeysQuestion) -> Result<
    Seq<SElem>,
    Seq<char>,
>
    decreases props.len(),
{
    if props.len() == 0 {
        Ok(Seq::empty())
    } else {
        match own_keys_list(props.drop_last(), q) {
            Err(reason) => Err(reason),
            Ok(list) => match own_key_step(props.last(), q) {
                Ok(item) => Ok(list.push(item)),
                Err(reason) => Err(reason),
            },
        }
    }
}

/// What the question answers for one property, or the sentence to refuse
/// with.
pub open spec fn own_key_step(p: SProp, q: OwnKeysQuestion) -> Result<SElem, Seq<char>> {
    match p {
        SProp::Spread(_) => Err(SPREAD_NOT_SUPPORTED@),
        SProp::KeyValue(key, value) => match key_text(key) {
            Some(k) => Ok(SElem::Expr(q.spec_read(k, value))),
            None => Err(OBJECT_METHOD@),
        },
        _ => Err(OBJECT_METHOD@),
    }
}

/// What the question answers for one property.
fn own_key_item(p: &Prop, question: OwnKeysQuestion) -> (r: Result<Elem, &'static str>)
    ensures
        match own_key_step(sprop(*p), question) {
            Ok(item) => r matches Ok(x) && selem(x) == item,
            Err(reason) => r matches Err(s) && s@ == reason,
        },
{
    match p {
        Prop::Spread(_) => Err(SPREAD_NOT_SUPPORTED),
        Prop::KeyValue(key, value) => match key_name(key) {
            Some(k) => Ok(Elem::Expr(question.read(&k, value))),
            None => Err(OBJECT_METHOD),
        },
        _ => Err(OBJECT_METHOD),
    }
}

/// The view of a receiver.
pub open spec fn spec_receiver(r: ObjectMethodReceiver) -> Option<Seq<SProp>> {
    match r {
        ObjectMethodReceiver::Object(props) => Some(sprops(props@)),
        _ => None,
    }
}

/// What the own-keys question answers for a receiver: the list, or the
/// sentence to refuse with.
pub open spec fn own_keys_answer(r: ObjectMethodReceiver, q: OwnKeysQuestion) -> Result<
    SExpr,
    Seq<char>,
> {
    match r {
        ObjectMethodReceiver::Object(props) => match own_keys_list(sprops(props@), q) {
            Ok(list) => Ok(SExpr::Array(list)),
            Err(reason) => Err(reason),
        },
        ObjectMethodReceiver::NoOwnKeys => Ok(SExpr::Array(Seq::empty())),
        ObjectMethodReceiver::Unreadable => Err(crate::messages::ILLEGAL_PROP_ARRAY_VALUE@),
        ObjectMethodReceiver::Nullish => Err(crate::messages::NULLISH_TO_OBJECT@),
    }
}

/// The name a written key spells, or `None` for a computed key.
pub fn key_name(key: &PropName) -> (r: Option<String>)
    ensures
        match r {
            Some(t) => key_text(crate::syntax::spropname(*key)) == Some(t@),
            None => key_text(crate::syntax::spropname(*key)) is None,
        },
{
    match key {
        PropName::Ident(s) => Some(s.clone()),
        PropName::Str(s) => Some(s.clone()),
        PropName::Num(t) => Some(t.clone()),
        PropName::Computed(_) => None,
    }
}

impl ObjectMethodReceiver {
    /// The object this receiver reads as, `None` where it has no own keys, or
    /// the sentence to refuse with.
    pub fn into_own_keys(self) -> (r: Result<Option<Vec<Prop>>, &'static str>)
        ensures
            match self {
                ObjectMethodReceiver::Object(props) => r matches Ok(Some(p)) && p == props,
                ObjectMethodReceiver::NoOwnKeys => r matches Ok(None),
                ObjectMethodReceiver::Unreadable => r matches Err(s) && s@
                    == crate::messages::ILLEGAL_PROP_ARRAY_VALUE@,
                ObjectMethodReceiver::Nullish => r matches Err(s) && s@
                    == crate::messages::NULLISH_TO_OBJECT@,
            },
    {
        match self {
            ObjectMethodReceiver::Object(object) => Ok(Some(object)),
            ObjectMethodReceiver::NoOwnKeys => Ok(None),
            ObjectMethodReceiver::Unreadable => Err(crate::messages::ILLEGAL_PROP_ARRAY_VALUE),
            ObjectMethodReceiver::Nullish => Err(crate::messages::NULLISH_TO_OBJECT),
        }
    }

    /// The list `Object.keys`, `Object.values` or `Object.entries` answers
    /// for this receiver, or the sentence to refuse with.
    pub fn own_keys(self, question: OwnKeysQuestion) -> (r: Result<Expr, &'static str>)
        ensures
            match own_keys_answer(self, question) {
                Ok(e) => r matches Ok(x) && x@ == e,
                Err(reason) => r matches Err(s) && s@ == reason,
            },
    {
        let ghost me = self;
        let object = match self.into_own_keys() {
            Err(reason) => {
                return Err(reason);
            },
            Ok(None) => {
                let empty: Vec<Elem> = Vec::new();
                proof {
                    assert(selems(empty@) =~= Seq::<SElem>::empty());
                }
                return Ok(Expr::Array(empty));
            },
            Ok(Some(object)) => object,
        };
        let ghost sp = sprops(object@);
        proof {
            lemma_sprops(object@);
            assert(sp.take(0) =~= Seq::<SProp>::empty());
        }
        let mut list: Vec<Elem> = Vec::new();
        let mut i: usize = 0;
        while i < object.len()
            invariant
                sp == sprops(object@),
                me is Object,
                me == self,
                spec_receiver(me) == Some(sp),
                sp.len() == object@.len(),
                forall|j: int| 0 <= j < object@.len() ==> #[trigger] sp[j] == sprop(object@[j]),
                i <= object@.len(),
                own_keys_list(sp.take(i as int), question) == Ok::<Seq<SElem>, Seq<char>>(
                    selems(list@),
                ),
            decreases object@.len() - i,
        {
            proof {
                lemma_own_keys_next(sp, question, i as int);
            }
            match own_key_item(&object[i], question) {
                Ok(item) => {
                    let ghost before = list@;
                    list.push(item);
                    proof {
                        assert(list@.drop_last() =~= before);
                        assert(selems(list@) == selems(before).push(selem(item)));
                    }
                },
                Err(reason) => {
                    proof {
                        lemma_own_keys_stops(sp, question, i as int);
                    }
                    return Err(reason);
                },
            }
            i = i + 1;
        }
        proof {
            assert(sp.take(object@.len() as int) =~= sp);
        }
        Ok(Expr::Array(list))
    }
}

/// One more property adds its answer to the list, or refuses it.
proof fn lemma_own_keys_next(props: Seq<SProp>, q: OwnKeysQuestion, i: int)
    requires
        0 <= i < props.len(),
        own_keys_list(props.take(i), q) is Ok,
    ensures
        own_keys_list(props.take(i + 1), q) == (match own_key_step(props[i], q) {
            Ok(item) => Ok(own_keys_list(props.take(i), q)->Ok_0.push(item)),
            Err(reason) => Err(reason),
        }),
{
    assert(props.take(i + 1).drop_last() =~= props.take(i));
    assert(props.take(i + 1).last() == props[i]);
}

/// A refusal at one property is the refusal of the whole list.
proof fn lemma_own_keys_stops(props: Seq<SProp>, q: OwnKeysQuestion, i: int)
    requires
        0 <= i < props.len(),
        own_keys_list(props.take(i + 1), q) is Err,
    ensures
        own_keys_list(props, q) == own_keys_list(props.take(i + 1), q),
    decreases props.len(),
{
    if props.len() == i + 1 {
        assert(props.take(i + 1) =~= props);
    } else {
        let rest = props.drop_last();
        assert(rest.take(i + 1) =~= props.take(i + 1));
        lemma_own_keys_stops(rest, q, i);
    }
}

// ---------------------------------------------------------------------------
// Reading an evaluated argument as the receiver of an own-keys question.
// ---------------------------------------------------------------------------

/// A one-character string per character of `s`, keyed by position.
pub open spec fn char_props(s: Seq<char>) -> Seq<SProp>
    decreases s.len(),
{
    if s.len() == 0 {
        Seq::empty()
    } else {
        char_props(s.drop_last()).push(
            SProp::KeyValue(
                SPropName::Ident(spec_decimal((s.len() - 1) as nat)),
                SExpr::Lit(SLit::Str(seq![s.last()])),
            ),
        )
    }
}

/// The items of a nested array that have an expression, or `None` where one
/// has neither an expression nor is absent.
pub open spec fn flat_exprs(items: Seq<SValue>) -> Option<Seq<SElem>>
    decreases items.len(),
{
    if items.len() == 0 {
        Some(Seq::empty())
    } else {
        match flat_exprs(items.drop_last()) {
            None => None,
            Some(p) => match items.last() {
                SValue::Null => Some(p),
                SValue::Expr(e) => Some(p.push(SElem::Expr(e))),
                _ => None,
            },
        }
    }
}

/// The slots an array of arrays is read as, absent values skipped.
pub open spec fn nested_elems(vec: Seq<SValue>) -> Option<Seq<SElem>>
    decreases vec.len(),
{
    if vec.len() == 0 {
        Some(Seq::empty())
    } else {
        match nested_elems(vec.drop_last()) {
            None => None,
            Some(p) => match vec.last() {
                SValue::Null => Some(p),
                SValue::Vec(items) => match flat_exprs(items) {
                    Some(es) => Some(p.push(SElem::Expr(SExpr::Array(es)))),
                    None => None,
                },
                SValue::Expr(e) => Some(p.push(SElem::Expr(e))),
                _ => None,
            },
        }
    }
}

/// Whether an evaluated array holds an absent value.
pub open spec fn holds_absent(items: Seq<SValue>) -> bool {
    exists|j: int| 0 <= j < items.len() && items[j] == SValue::Null
}

/// The properties an evaluated array is read as, keyed by position; an
/// absent element, and a nested array holding one, have no key.
pub open spec fn vec_props(arr: Seq<SValue>) -> Option<Seq<SProp>>
    decreases arr.len(),
{
    if arr.len() == 0 {
        Some(Seq::empty())
    } else {
        match vec_props(arr.drop_last()) {
            None => None,
            Some(p) => {
                let key = SPropName::Ident(spec_decimal((arr.len() - 1) as nat));
                match arr.last() {
                    SValue::Expr(e) => Some(p.push(SProp::KeyValue(key, e))),
                    SValue::Null => Some(p),
                    SValue::Vec(v) => if holds_absent(v) {
                        Some(p)
                    } else {
                        match nested_elems(v) {
                            Some(es) => Some(p.push(SProp::KeyValue(key, SExpr::Array(es)))),
                            None => None,
                        }
                    },
                    _ => None,
                }
            },
        }
    }
}

/// The object an evaluated argument is read as by the own-keys question: an
/// object literal, a string's characters, or an array's elements by
/// position.
pub open spec fn method_args_object(v: Option<SValue>) -> Option<Seq<SProp>> {
    match v {
        Some(SValue::Expr(SExpr::Object(props))) => Some(props),
        Some(SValue::Expr(SExpr::Lit(SLit::Str(s)))) => Some(char_props(s)),
        Some(SValue::Vec(arr)) => vec_props(arr),
        _ => None,
    }
}

/// A string's characters as an object keyed by position.
fn string_as_object(text: &String) -> (r: Vec<Prop>)
    ensures
        sprops(r@) == char_props(text@),
{
    let n = text.as_str().unicode_len();
    let mut props: Vec<Prop> = Vec::new();
    let mut i: usize = 0;
    proof {
        assert(text@.take(0) =~= Seq::<char>::empty());
    }
    while i < n
        invariant
            n == text@.len(),
            i <= n,
            sprops(props@) == char_props(text@.take(i as int)),
        decreases n - i,
    {
        let c = text.as_str().substring_char(i, i + 1);
        proof {
            assert(text@.take(i + 1).drop_last() =~= text@.take(i as int));
            assert(c@ =~= seq![text@[i as int]]);
        }
        let ghost before = props@;
        let p = Prop::KeyValue(PropName::Ident(decimal(i)), Expr::Lit(Lit::Str(String::from_str(c))));
        props.push(p);
        proof {
            assert(props@.drop_last() =~= before);
            assert(sprops(props@) == sprops(before).push(sprop(p)));
        }
        i = i + 1;
    }
    proof {
        assert(text@.take(n as int) =~= text@);
    }
    props
}

/// Whether an evaluated array holds an absent value.
fn has_absent(items: &Vec<EvaluateResultValue>) -> (r: bool)
    ensures
        r == holds_absent(svalues(items@)),
{
    proof {
        lemma_svalues(items@);
    }
    let mut i: usize = 0;
    while i < items.len()
        invariant
            i <= items@.len(),
            svalues(items@).len() == items@.len(),
            forall|j: int| 0 <= j < items@.len() ==> #[trigger] svalues(items@)[j] == items@[j]@,
            forall|j: int| 0 <= j < i ==> svalues(items@)[j] != SValue::Null,
        decreases items@.len() - i,
    {
        match &items[i] {
            EvaluateResultValue::Null => {
                assert(svalues(items@)[i as int] == SValue::Null);
                return true;
            },
            _ => {},
        }
        i = i + 1;
    }
    false
}

/// The items of a nested array that have an expression.
fn flat_exprs_of(items: &Vec<EvaluateResultValue>) -> (r: Option<Vec<Elem>>)
    ensures
        match r {
            Some(es) => flat_exprs(svalues(items@)) == Some(selems(es@)),
            None => flat_exprs(svalues(items@)) is None,
        },
{
    let ghost sv = svalues(items@);
    proof {
        lemma_svalues(items@);
        assert(sv.take(0) =~= Seq::<SValue>::empty());
    }
    let mut out: Vec<Elem> = Vec::new();
    let mut i: usize = 0;
    while i < items.len()
        invariant
            sv == svalues(items@),
            sv.len() == items@.len(),
            forall|j: int| 0 <= j < items@.len() ==> #[trigger] sv[j] == items@[j]@,
            i <= items@.len(),
            flat_exprs(sv.take(i as int)) == Some(selems(out@)),
        decreases items@.len() - i,
    {
        proof {
            assert(sv.take(i + 1).drop_last() =~= sv.take(i as int));
            assert(sv.take(i + 1).last() == sv[i as int]);
        }
        match &items[i] {
            EvaluateResultValue::Null => {},
            EvaluateResultValue::Expr(e) => {
                let ghost before = out@;
                let item = Elem::Expr(copy_expr(e));
                out.push(item);
                proof {
                    assert(out@.drop_last() =~= before);
                    assert(selems(out@) == selems(before).push(selem(item)));
                }
            },
            _ => {
                proof {
                    lemma_flat_exprs_stops(sv, i as int);
                }
                return None;
            },
        }
        i = i + 1;
    }
    proof {
        assert(sv.take(items@.len() as int) =~= sv);
    }
    Some(out)
}

proof fn lemma_flat_exprs_stops(items: Seq<SValue>, i: int)
    requires
        0 <= i < items.len(),
        flat_exprs(items.take(i + 1)) is None,
    ensures
        flat_exprs(items) is None,
    decreases items.len(),
{
    if items.len() == i + 1 {
        assert(items.take(i + 1) =~= items);
    } else {
        let rest = items.drop_last();
        assert(rest.take(i + 1) =~= items.take(i + 1));
        lemma_flat_exprs_stops(rest, i);
    }
}

proof fn lemma_nested_elems_stops(items: Seq<SValue>, i: int)
    requires
        0 <= i < items.len(),
        nested_elems(items.take(i + 1)) is None,
    ensures
        nested_elems(items) is None,
    decreases items.len(),
{
    if items.len() == i + 1 {
        assert(items.take(i + 1) =~= items);
    } else {
        let rest = items.drop_last();
        assert(rest.take(i + 1) =~= items.take(i + 1));
        lemma_nested_elems_stops(rest, i);
    }
}

proof fn lemma_vec_props_stops(items: Seq<SValue>, i: int)
    requires
        0 <= i < items.len(),
        vec_props(items.take(i + 1)) is None,
    ensures
        vec_props(items) is None,
    decreases items.len(),
{
    if items.len() == i + 1 {
        assert(items.take(i + 1) =~= items);
    } else {
        let rest = items.drop_last();
        assert(rest.take(i + 1) =~= items.take(i + 1));
        lemma_vec_props_stops(rest, i);
    }
}

/// An array of arrays written back as an array literal, absent values
/// skipped; `None` where an item has no expression form.
pub fn normalize_js_object_method_nested_vector_arg(vec: &Vec<EvaluateResultValue>) -> (r: Option<
    Expr,
>)
    ensures
        match r {
            Some(e) => nested_elems(svalues(vec@)) matches Some(es) && e@ == SExpr::Array(es),
            None => nested_elems(svalues(vec@)) is None,
        },
{
    let ghost sv = svalues(vec@);
    proof {
        lemma_svalues(vec@);
        assert(sv.take(0) =~= Seq::<SValue>::empty());
    }
    let mut elems: Vec<Elem> = Vec::new();
    let mut i: usize = 0;
    while i < vec.len()
        invariant
            sv == svalues(vec@),
            sv.len() == vec@.len(),
            forall|j: int| 0 <= j < vec@.len() ==> #[trigger] sv[j] == vec@[j]@,
            i <= vec@.len(),
            nested_elems(sv.take(i as int)) == Some(selems(elems@)),
        decreases vec@.len() - i,
    {
        proof {
            assert(sv.take(i + 1).drop_last() =~= sv.take(i as int));
            assert(sv.take(i + 1).last() == sv[i as int]);
        }
        match &vec[i] {
            EvaluateResultValue::Null => {},
            EvaluateResultValue::Vec(nested) => match flat_exprs_of(nested) {
                Some(es) => {
                    let ghost before = elems@;
                    let item = Elem::Expr(Expr::Array(es));
                    elems.push(item);
                    proof {
                        assert(elems@.drop_last() =~= before);
                        assert(selems(elems@) == selems(before).push(selem(item)));
                    }
                },
                None => {
                    proof {
                        lemma_nested_elems_stops(sv, i as int);
                    }
                    return None;
                },
            },
            EvaluateResultValue::Expr(e) => {
                let ghost before = elems@;
                let item = Elem::Expr(copy_expr(e));
                elems.push(item);
                proof {
                    assert(elems@.drop_last() =~= before);
                    assert(selems(elems@) == selems(before).push(selem(item)));
                }
            },
            _ => {
                proof {
                    lemma_nested_elems_stops(sv, i as int);
                }
                return None;
            },
        }
        i = i + 1;
    }
    proof {
        assert(sv.take(vec@.len() as int) =~= sv);
    }
    Some(Expr::Array(elems))
}

/// An evaluated array as an object keyed by position.
fn vec_as_object(arr: &Vec<EvaluateResultValue>) -> (r: Option<Vec<Prop>>)
    ensures
        match r {
            Some(props) => vec_props(svalues(arr@)) == Some(sprops(props@)),
            None => vec_props(svalues(arr@)) is None,
        },
{
    let ghost sv = svalues(arr@);
    proof {
        lemma_svalues(arr@);
        assert(sv.take(0) =~= Seq::<SValue>::empty());
    }
    let mut props: Vec<Prop> = Vec::new();
    let mut i: usize = 0;
    while i < arr.len()
        invariant
            sv == svalues(arr@),
            sv.len() == arr@.len(),
            forall|j: int| 0 <= j < arr@.len() ==> #[trigger] sv[j] == arr@[j]@,
            i <= arr@.len(),
            vec_props(sv.take(i as int)) == Some(sprops(props@)),
        decreases arr@.len() - i,
    {
        proof {
            assert(sv.take(i + 1).drop_last() =~= sv.take(i as int));
            assert(sv.take(i + 1).last() == sv[i as int]);
            assert(sv.take(i + 1).len() - 1 == i);
        }
        let expr = match &arr[i] {
            EvaluateResultValue::Expr(e) => copy_expr(e),
            EvaluateResultValue::Null => {
                i = i + 1;
                continue;
            },
            EvaluateResultValue::Vec(nested) => {
                if has_absent(nested) {
                    i = i + 1;
                    continue;
                }
                match normalize_js_object_method_nested_vector_arg(nested) {
                    Some(e) => e,
                    None => {
                        proof {
                            lemma_vec_props_stops(sv, i as int);
                        }
                        return None;
                    },
                }
            },
            _ => {
                proof {
                    lemma_vec_props_stops(sv, i as int);
                }
                return None;
            },
        };
        let ghost before = props@;
        let p = Prop::KeyValue(PropName::Ident(decimal(i)), expr);
        props.push(p);
        proof {
            assert(props@.drop_last() =~= before);
            assert(sprops(props@) == sprops(before).push(sprop(p)));
        }
        i = i + 1;
    }
    proof {
        assert(sv.take(arr@.len() as int) =~= sv);
    }
    Some(props)
}

/// The object an evaluated argument is read as by the own-keys question, or
/// `None` where it reads as none.
pub fn normalize_js_object_method_args(cached_arg: Option<EvaluateResultValue>) -> (r: Option<
    Vec<Prop>,
>)
    ensures
        match r {
            Some(props) => method_args_object(crate::value::sopt(cached_arg)) == Some(
                sprops(props@),
            ),
            None => method_args_object(crate::value::sopt(cached_arg)) is None,
        },
{
    match cached_arg {
        Some(EvaluateResultValue::Expr(Expr::Object(props))) => Some(props),
        Some(EvaluateResultValue::Expr(Expr::Lit(Lit::Str(text)))) => Some(string_as_object(&text)),
        Some(EvaluateResultValue::Vec(arr)) => vec_as_object(&arr),
        _ => None,
    }
}

} // verus!
