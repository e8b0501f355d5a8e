//! What an evaluation answers with.
use vstd::prelude::*;

use crate::syntax::{
    copy_expr, copy_props, copy_strings, sexpr, sprops, strings_view, Expr, Prop, SExpr, SProp,
};

verus! {

/// A `defineVars` group read through an import: the file it was declared in,
/// the export that names it, and the prefix its class names are hashed with.
pub struct ThemeRef {
    pub file_name: String,
    pub export_name: String,
    pub class_name_prefix: String,
}

/// One function of the injected function map. A marker function carries the
/// names of the markers it answers for; every other one carries none.
pub struct FunctionConfig {
    pub is_marker: bool,
    pub marker_keys: Vec<String>,
}

/// One entry of a folded function map.
pub struct FunctionConfigEntry {
    pub key: String,
    pub config: FunctionConfig,
}

/// One entry of an environment object: its key, and the expression it holds,
/// or none where it holds a function.
pub struct EnvEntry {
    pub key: String,
    pub value: Option<Expr>,
}

/// The value of an expression, as the evaluator holds it: an expression it
/// can write back into the source, or one of the evaluator's own values.
pub enum EvaluateResultValue {
    Expr(Expr),
    Vec(Vec<EvaluateResultValue>),
    /// An element that evaluated confidently to nothing: a hole.
    Null,
    ObjectMap(Vec<Prop>),
    EnvObject(Vec<EnvEntry>),
    ThemeRef(ThemeRef),
    Callback(String),
    FunctionConfig(FunctionConfig),
    FunctionConfigMap(Vec<FunctionConfigEntry>),
}

pub enum SValue {
    Expr(SExpr),
    Vec(Seq<SValue>),
    Null,
    ObjectMap(Seq<SProp>),
    EnvObject(Seq<(Seq<char>, Option<SExpr>)>),
    ThemeRef(Seq<char>, Seq<char>, Seq<char>),
    Callback(Seq<char>),
    FunctionConfig(bool, Seq<Seq<char>>),
    FunctionConfigMap(Seq<(Seq<char>, bool, Seq<Seq<char>>)>),
}

pub open spec fn sconfig_entries(s: Seq<FunctionConfigEntry>) -> Seq<(Seq<char>, bool, Seq<Seq<char>>)>
    decreases s.len(),
{
    if s.len() == 0 {
        Seq::empty()
    } else {
        sconfig_entries(s.drop_last()).push(
            (s.last().key@, s.last().config.is_marker, strings_view(s.last().config.marker_keys@)),
        )
    }
}

pub open spec fn senv_entry(e: EnvEntry) -> (Seq<char>, Option<SExpr>) {
    (
        e.key@,
        match e.value {
            Some(x) => Some(sexpr(x)),
            None => None,
        },
    )
}

pub open spec fn senv_entries(s: Seq<EnvEntry>) -> Seq<(Seq<char>, Option<SExpr>)>
    decreases s.len(),
{
    if s.len() == 0 {
        Seq::empty()
    } else {
        senv_entries(s.drop_last()).push(senv_entry(s.last()))
    }
}

pub proof fn lemma_senv_entries(s: Seq<EnvEntry>)
    ensures
        senv_entries(s).len() == s.len(),
        forall|j: int| 0 <= j < s.len() ==> #[trigger] senv_entries(s)[j] == senv_entry(s[j]),
    decreases s.len(),
{
    if s.len() > 0 {
        lemma_senv_entries(s.drop_last());
    }
}

/// A copy of an environment object's entries.
pub fn copy_env_entries(v: &Vec<EnvEntry>) -> (r: Vec<EnvEntry>)
    ensures
        senv_entries(r@) == senv_entries(v@),
{
    let mut out: Vec<EnvEntry> = Vec::new();
    let mut i: usize = 0;
    while i < v.len()
        invariant
            i <= v@.len(),
            out@.len() == i,
            forall|j: int| 0 <= j < i ==> senv_entry(#[trigger] out@[j]) == senv_entry(v@[j]),
        decreases v@.len() - i,
    {
        let value = match &v[i].value {
            Some(x) => Some(copy_expr(x)),
            None => None,
        };
        out.push(EnvEntry { key: v[i].key.clone(), value });
        i = i + 1;
    }
    proof {
        lemma_senv_entries(out@);
        lemma_senv_entries(v@);
        assert(senv_entries(out@) =~= senv_entries(v@));
    }
    out
}

pub open spec fn svalue(v: EvaluateResultValue) -> SValue
    decreases v,
{
    match v {
        EvaluateResultValue::Expr(e) => SValue::Expr(sexpr(e)),
        EvaluateResultValue::Vec(items) => SValue::Vec(svalues(items@)),
        EvaluateResultValue::Null => SValue::Null,
        EvaluateResultValue::ObjectMap(props) => SValue::ObjectMap(sprops(props@)),
        EvaluateResultValue::EnvObject(entries) => SValue::EnvObject(senv_entries(entries@)),
        EvaluateResultValue::ThemeRef(t) => SValue::ThemeRef(
            t.file_name@,
            t.export_name@,
            t.class_name_prefix@,
        ),
        EvaluateResultValue::Callback(n) => SValue::Callback(n@),
        EvaluateResultValue::FunctionConfig(c) => SValue::FunctionConfig(
            c.is_marker,
            strings_view(c.marker_keys@),
        ),
        EvaluateResultValue::FunctionConfigMap(m) => SValue::FunctionConfigMap(
            sconfig_entries(m@),
        ),
    }
}

pub open spec fn svalues(s: Seq<EvaluateResultValue>) -> Seq<SValue>
    decreases s,
{
    if s.len() == 0 {
        Seq::empty()
    } else {
        svalues(s.drop_last()).push(svalue(s.last()))
    }
}

pub proof fn lemma_svalues(s: Seq<EvaluateResultValue>)
    ensures
        svalues(s).len() == s.len(),
        forall|j: int| 0 <= j < s.len() ==> #[trigger] svalues(s)[j] == svalue(s[j]),
    decreases s.len(),
{
    if s.len() > 0 {
        lemma_svalues(s.drop_last());
    }
}

pub proof fn lemma_sconfig_entries(s: Seq<FunctionConfigEntry>)
    ensures
        sconfig_entries(s).len() == s.len(),
        forall|j: int|
            0 <= j < s.len() ==> #[trigger] sconfig_entries(s)[j] == (
                s[j].key@,
                s[j].config.is_marker,
                strings_view(s[j].config.marker_keys@),
            ),
    decreases s.len(),
{
    if s.len() > 0 {
        lemma_sconfig_entries(s.drop_last());
    }
}

impl View for EvaluateResultValue {
    type V = SValue;

    open spec fn view(&self) -> SValue {
        svalue(*self)
    }
}

/// The view of an optional value.
pub open spec fn sopt(v: Option<EvaluateResultValue>) -> Option<SValue> {
    match v {
        Some(x) => Some(svalue(x)),
        None => None,
    }
}

impl ThemeRef {
    pub fn copy(&self) -> (r: ThemeRef)
        ensures
            r.file_name@ == self.file_name@,
            r.export_name@ == self.export_name@,
            r.class_name_prefix@ == self.class_name_prefix@,
    {
        ThemeRef {
            file_name: self.file_name.clone(),
            export_name: self.export_name.clone(),
            class_name_prefix: self.class_name_prefix.clone(),
        }
    }
}

impl FunctionConfig {
    pub fn copy(&self) -> (r: FunctionConfig)
        ensures
            r.is_marker == self.is_marker,
            strings_view(r.marker_keys@) == strings_view(self.marker_keys@),
            r.marker_keys@.len() == self.marker_keys@.len(),
    {
        FunctionConfig { is_marker: self.is_marker, marker_keys: copy_strings(&self.marker_keys) }
    }
}

pub fn copy_config_entries(v: &Vec<FunctionConfigEntry>) -> (r: Vec<FunctionConfigEntry>)
    ensures
        sconfig_entries(r@) == sconfig_entries(v@),
        r@.len() == v@.len(),
{
    let mut out: Vec<FunctionConfigEntry> = Vec::new();
    let mut i: usize = 0;
    while i < v.len()
        invariant
            i <= v@.len(),
            out@.len() == i,
            forall|j: int|
                0 <= j < i ==> (#[trigger] out@[j]).key@ == v@[j].key@ && out@[j].config.is_marker
                    == v@[j].config.is_marker && strings_view(out@[j].config.marker_keys@)
                    == strings_view(v@[j].config.marker_keys@),
        decreases v@.len() - i,
    {
        out.push(FunctionConfigEntry { key: v[i].key.clone(), config: v[i].config.copy() });
        i = i + 1;
    }
    proof {
        lemma_sconfig_entries(out@);
        lemma_sconfig_entries(v@);
        assert(sconfig_entries(out@) =~= sconfig_entries(v@));
    }
    out
}

/// A copy of `v`, equal to it in everything the view holds.
pub fn copy_value(v: &EvaluateResultValue) -> (r: EvaluateResultValue)
    ensures
        r@ == v@,
    decreases v,
{
    match v {
        EvaluateResultValue::Expr(e) => EvaluateResultValue::Expr(copy_expr(e)),
        EvaluateResultValue::Vec(items) => {
            proof { assert(decreases_to!(*v => (*v)->Vec_0)); }
            EvaluateResultValue::Vec(copy_values(items))
        },
        EvaluateResultValue::Null => EvaluateResultValue::Null,
        EvaluateResultValue::ObjectMap(props) => EvaluateResultValue::ObjectMap(copy_props(props)),
        EvaluateResultValue::EnvObject(entries) => EvaluateResultValue::EnvObject(
            copy_env_entries(entries),
        ),
        EvaluateResultValue::ThemeRef(t) => EvaluateResultValue::ThemeRef(t.copy()),
        EvaluateResultValue::Callback(n) => EvaluateResultValue::Callback(n.clone()),
        EvaluateResultValue::FunctionConfig(c) => EvaluateResultValue::FunctionConfig(c.copy()),
        EvaluateResultValue::FunctionConfigMap(m) => EvaluateResultValue::FunctionConfigMap(
            copy_config_entries(m),
        ),
    }
}

pub fn copy_values(v: &Vec<EvaluateResultValue>) -> (r: Vec<EvaluateResultValue>)
    ensures
        svalues(r@) == svalues(v@),
        r@.len() == v@.len(),
    decreases v,
{
    let mut out: Vec<EvaluateResultValue> = Vec::new();
    let mut i: usize = 0;
    while i < v.len()
        invariant
            i <= v@.len(),
            out@.len() == i,
            forall|j: int| 0 <= j < i ==> svalue(#[trigger] out@[j]) == svalue(v@[j]),
        decreases v@.len() - i,
    {
        proof {
            assert(decreases_to!(*v => v@));
            assert(decreases_to!(v@ => v@[i as int]));
        }
        out.push(copy_value(&v[i]));
        i = i + 1;
    }
    proof {
        lemma_svalues(out@);
        lemma_svalues(v@);
        assert(svalues(out@) =~= svalues(v@));
    }
    out
}

pub fn copy_opt_value(v: &Option<EvaluateResultValue>) -> (r: Option<EvaluateResultValue>)
    ensures
        sopt(r) == sopt(*v),
{
    match v {
        Some(x) => Some(copy_value(x)),
        None => None,
    }
}

} // verus!
