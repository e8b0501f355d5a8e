//! The expressions the evaluator reads, as plain values.
//!
//! A parser hands these over; nothing here parses. Spans are kept only for
//! the one question that reads them (whether a reference comes before its
//! declarator ends), so the view of an expression drops them: two subtrees
//! written at different places are the same subtree to every other question.
use vstd::prelude::*;

verus! {

/// Where a node was written, as byte offsets. A synthesized node carries the
/// dummy span `0..0`.
#[derive(Clone, Copy)]
pub struct Span {
    pub lo: u32,
    pub hi: u32,
}

impl Span {
    pub open spec fn spec_is_dummy(&self) -> bool {
        self.lo == 0 && self.hi == 0
    }

    /// Whether this span was synthesized rather than written.
    pub fn is_dummy(&self) -> (r: bool)
        ensures
            r == self.spec_is_dummy(),
    {
        self.lo == 0 && self.hi == 0
    }
}

/// A name as written, with the syntax context that tells two bindings of
/// the same spelling apart.
pub struct Ident {
    pub sym: String,
    pub ctxt: u32,
    pub span: Span,
}

/// A literal. A number carries its `ToString` spelling (`"1.5"`, `"NaN"`),
/// which is what every question the evaluator asks of it reads.
pub enum Lit {
    Str(String),
    Num(String),
    Bool(bool),
    Null,
    BigInt(String),
    Regex(String),
}

/// One slot of an array literal or of an argument list.
pub enum Elem {
    Hole,
    Expr(Expr),
    Spread(Expr),
}

/// The key of an object property.
pub enum PropName {
    Ident(String),
    Str(String),
    Num(String),
    Computed(Box<Expr>),
}

/// One member of an object literal.
pub enum Prop {
    KeyValue(PropName, Expr),
    Shorthand(Ident),
    Spread(Expr),
    Method(PropName),
}

/// The property a member expression reads.
pub enum MemberProp {
    Ident(String),
    Computed(Box<Expr>),
    PrivateName(String),
}

#[derive(Clone, Copy, PartialEq, Eq, Structural)]
pub enum UnaryOp {
    Minus,
    Plus,
    Bang,
    Tilde,
    TypeOf,
    Void,
    Delete,
}

#[derive(Clone, Copy, PartialEq, Eq, Structural)]
pub enum BinaryOp {
    Add,
    StrictEq,
    StrictNotEq,
    LogicalAnd,
    LogicalOr,
    Nullish,
    Other,
}

/// The expression forms the evaluator distinguishes. `TsWrap` is any of the
/// TypeScript wrappers (`as`, `satisfies`, `!`, `<T>`), which change nothing
/// about the value; `Assign` and `Update` are the writes; `OptMember` and
/// `OptCall` are the optional-chain forms `o?.p` and `f?.(..)`; `Other` is
/// every form the evaluator has no arm for, named by its node kind.
pub enum Expr {
    Ident(Ident),
    Lit(Lit),
    Paren(Box<Expr>),
    TsWrap(Box<Expr>),
    Array(Vec<Elem>),
    Object(Vec<Prop>),
    Member(Box<Expr>, MemberProp),
    Call(Box<Expr>, Vec<Elem>),
    Unary(UnaryOp, Box<Expr>),
    Bin(BinaryOp, Box<Expr>, Box<Expr>),
    Cond(Box<Expr>, Box<Expr>, Box<Expr>),
    Sequence(Vec<Expr>),
    Tpl(Vec<String>, Vec<Expr>),
    Assign(Box<Expr>, Box<Expr>),
    Update(Box<Expr>),
    Await(Box<Expr>),
    OptMember(Box<Expr>, MemberProp),
    OptCall(Box<Expr>, Vec<Elem>),
    Other(String),
}

// ---------------------------------------------------------------------------
// The view: the same tree with the spans dropped and the strings as sequences.
// ---------------------------------------------------------------------------

pub enum SLit {
    Str(Seq<char>),
    Num(Seq<char>),
    Bool(bool),
    Null,
    BigInt(Seq<char>),
    Regex(Seq<char>),
}

pub enum SElem {
    Hole,
    Expr(SExpr),
    Spread(SExpr),
}

pub enum SPropName {
    Ident(Seq<char>),
    Str(Seq<char>),
    Num(Seq<char>),
    Computed(Box<SExpr>),
}

pub enum SProp {
    KeyValue(SPropName, SExpr),
    Shorthand(Seq<char>, u32),
    Spread(SExpr),
    Method(SPropName),
}

pub enum SMemberProp {
    Ident(Seq<char>),
    Computed(Box<SExpr>),
    PrivateName(Seq<char>),
}

pub enum SExpr {
    Ident(Seq<char>, u32),
    Lit(SLit),
    Paren(Box<SExpr>),
    TsWrap(Box<SExpr>),
    Array(Seq<SElem>),
    Object(Seq<SProp>),
    Member(Box<SExpr>, SMemberProp),
    Call(Box<SExpr>, Seq<SElem>),
    Unary(UnaryOp, Box<SExpr>),
    Bin(BinaryOp, Box<SExpr>, Box<SExpr>),
    Cond(Box<SExpr>, Box<SExpr>, Box<SExpr>),
    Sequence(Seq<SExpr>),
    Tpl(Seq<Seq<char>>, Seq<SExpr>),
    Assign(Box<SExpr>, Box<SExpr>),
    Update(Box<SExpr>),
    Await(Box<SExpr>),
    OptMember(Box<SExpr>, SMemberProp),
    OptCall(Box<SExpr>, Seq<SElem>),
    Other(Seq<char>),
}

pub open spec fn slit(l: Lit) -> SLit {
    match l {
        Lit::Str(s) => SLit::Str(s@),
        Lit::Num(s) => SLit::Num(s@),
        Lit::Bool(b) => SLit::Bool(b),
        Lit::Null => SLit::Null,
        Lit::BigInt(s) => SLit::BigInt(s@),
        Lit::Regex(s) => SLit::Regex(s@),
    }
}

pub open spec fn sexpr(e: Expr) -> SExpr
    decreases e,
{
    match e {
        Expr::Ident(i) => SExpr::Ident(i.sym@, i.ctxt),
        Expr::Lit(l) => SExpr::Lit(slit(l)),
        Expr::Paren(x) => SExpr::Paren(Box::new(sexpr(*x))),
        Expr::TsWrap(x) => SExpr::TsWrap(Box::new(sexpr(*x))),
        Expr::Array(v) => SExpr::Array(selems(v@)),
        Expr::Object(v) => SExpr::Object(sprops(v@)),
        Expr::Member(o, p) => SExpr::Member(Box::new(sexpr(*o)), smember(p)),
        Expr::Call(c, v) => SExpr::Call(Box::new(sexpr(*c)), selems(v@)),
        Expr::Unary(op, x) => SExpr::Unary(op, Box::new(sexpr(*x))),
        Expr::Bin(op, a, b) => SExpr::Bin(op, Box::new(sexpr(*a)), Box::new(sexpr(*b))),
        Expr::Cond(t, c, a) => SExpr::Cond(
            Box::new(sexpr(*t)),
            Box::new(sexpr(*c)),
            Box::new(sexpr(*a)),
        ),
        Expr::Sequence(v) => SExpr::Sequence(sexprs(v@)),
        Expr::Tpl(q, v) => SExpr::Tpl(strings_view(q@), sexprs(v@)),
        Expr::Assign(a, b) => SExpr::Assign(Box::new(sexpr(*a)), Box::new(sexpr(*b))),
        Expr::Update(a) => SExpr::Update(Box::new(sexpr(*a))),
        Expr::Await(a) => SExpr::Await(Box::new(sexpr(*a))),
        Expr::OptMember(o, p) => SExpr::OptMember(Box::new(sexpr(*o)), smember(p)),
        Expr::OptCall(c, v) => SExpr::OptCall(Box::new(sexpr(*c)), selems(v@)),
        Expr::Other(k) => SExpr::Other(k@),
    }
}

pub open spec fn selem(e: Elem) -> SElem
    decreases e,
{
    match e {
        Elem::Hole => SElem::Hole,
        Elem::Expr(x) => SElem::Expr(sexpr(x)),
        Elem::Spread(x) => SElem::Spread(sexpr(x)),
    }
}

pub open spec fn selems(s: Seq<Elem>) -> Seq<SElem>
    decreases s,
{
    if s.len() == 0 {
        Seq::empty()
    } else {
        selems(s.drop_last()).push(selem(s.last()))
    }
}

pub open spec fn sexprs(s: Seq<Expr>) -> Seq<SExpr>
    decreases s,
{
    if s.len() == 0 {
        Seq::empty()
    } else {
        sexprs(s.drop_last()).push(sexpr(s.last()))
    }
}

pub open spec fn spropname(p: PropName) -> SPropName
    decreases p,
{
    match p {
        PropName::Ident(s) => SPropName::Ident(s@),
        PropName::Str(s) => SPropName::Str(s@),
        PropName::Num(s) => SPropName::Num(s@),
        PropName::Computed(x) => SPropName::Computed(Box::new(sexpr(*x))),
    }
}

pub open spec fn sprop(p: Prop) -> SProp
    decreases p,
{
    match p {
        Prop::KeyValue(k, v) => SProp::KeyValue(spropname(k), sexpr(v)),
        Prop::Shorthand(i) => SProp::Shorthand(i.sym@, i.ctxt),
        Prop::Spread(x) => SProp::Spread(sexpr(x)),
        Prop::Method(k) => SProp::Method(spropname(k)),
    }
}

pub open spec fn sprops(s: Seq<Prop>) -> Seq<SProp>
    decreases s,
{
    if s.len() == 0 {
        Seq::empty()
    } else {
        sprops(s.drop_last()).push(sprop(s.last()))
    }
}

pub open spec fn smember(p: MemberProp) -> SMemberProp
    decreases p,
{
    match p {
        MemberProp::Ident(s) => SMemberProp::Ident(s@),
        MemberProp::Computed(x) => SMemberProp::Computed(Box::new(sexpr(*x))),
        MemberProp::PrivateName(s) => SMemberProp::PrivateName(s@),
    }
}

pub open spec fn strings_view(s: Seq<String>) -> Seq<Seq<char>>
    decreases s.len(),
{
    if s.len() == 0 {
        Seq::empty()
    } else {
        strings_view(s.drop_last()).push(s.last()@)
    }
}

pub proof fn lemma_selems(s: Seq<Elem>)
    ensures
        selems(s).len() == s.len(),
        forall|j: int| 0 <= j < s.len() ==> #[trigger] selems(s)[j] == selem(s[j]),
    decreases s.len(),
{
    if s.len() > 0 {
        lemma_selems(s.drop_last());
    }
}

pub proof fn lemma_sexprs(s: Seq<Expr>)
    ensures
        sexprs(s).len() == s.len(),
        forall|j: int| 0 <= j < s.len() ==> #[trigger] sexprs(s)[j] == sexpr(s[j]),
    decreases s.len(),
{
    if s.len() > 0 {
        lemma_sexprs(s.drop_last());
    }
}

pub proof fn lemma_sprops(s: Seq<Prop>)
    ensures
        sprops(s).len() == s.len(),
        forall|j: int| 0 <= j < s.len() ==> #[trigger] sprops(s)[j] == sprop(s[j]),
    decreases s.len(),
{
    if s.len() > 0 {
        lemma_sprops(s.drop_last());
    }
}

pub proof fn lemma_strings_view(s: Seq<String>)
    ensures
        strings_view(s).len() == s.len(),
        forall|j: int| 0 <= j < s.len() ==> #[trigger] strings_view(s)[j] == s[j]@,
    decreases s.len(),
{
    if s.len() > 0 {
        lemma_strings_view(s.drop_last());
    }
}

impl View for Expr {
    type V = SExpr;

    open spec fn view(&self) -> SExpr {
        sexpr(*self)
    }
}

impl View for Ident {
    type V = (Seq<char>, u32);

    open spec fn view(&self) -> (Seq<char>, u32) {
        (self.sym@, self.ctxt)
    }
}


// ---------------------------------------------------------------------------
// Copies that keep the view, and the comparison that ignores spans.
// ---------------------------------------------------------------------------

impl Ident {
    /// The same name, at the same place.
    pub fn copy(&self) -> (r: Ident)
        ensures
            r@ == self@,
            r.span == self.span,
    {
        Ident { sym: self.sym.clone(), ctxt: self.ctxt, span: self.span }
    }
}

pub fn copy_lit(l: &Lit) -> (r: Lit)
    ensures
        slit(r) == slit(*l),
{
    match l {
        Lit::Str(s) => Lit::Str(s.clone()),
        Lit::Num(s) => Lit::Num(s.clone()),
        Lit::Bool(b) => Lit::Bool(*b),
        Lit::Null => Lit::Null,
        Lit::BigInt(s) => Lit::BigInt(s.clone()),
        Lit::Regex(s) => Lit::Regex(s.clone()),
    }
}

/// A copy of `e`, equal to it in everything the view holds.
/// Where the identifier `e` is, under any parentheses, was written; `None`
/// where `e` is no identifier.
pub open spec fn ident_span(e: Expr) -> Option<Span>
    decreases e,
{
    match e {
        Expr::Ident(i) => Some(i.span),
        Expr::Paren(x) => ident_span(*x),
        _ => None,
    }
}

pub fn copy_expr(e: &Expr) -> (r: Expr)
    ensures
        r@ == e@,
        ident_span(r) == ident_span(*e),
    decreases e,
{
    match e {
        Expr::Ident(i) => Expr::Ident(i.copy()),
        Expr::Lit(l) => Expr::Lit(copy_lit(l)),
        Expr::Paren(x) => Expr::Paren(Box::new(copy_expr(x))),
        Expr::TsWrap(x) => Expr::TsWrap(Box::new(copy_expr(x))),
        Expr::Array(v) => {
            proof { assert(decreases_to!(*e => (*e)->Array_0)); }
            Expr::Array(copy_elems(v))
        },
        Expr::Object(v) => {
            proof { assert(decreases_to!(*e => (*e)->Object_0)); }
            Expr::Object(copy_props(v))
        },
        Expr::Member(o, p) => Expr::Member(Box::new(copy_expr(o)), copy_member(p)),
        Expr::Call(c, v) => {
            proof { assert(decreases_to!(*e => (*e)->Call_1)); }
            Expr::Call(Box::new(copy_expr(c)), copy_elems(v))
        },
        Expr::Unary(op, x) => Expr::Unary(*op, Box::new(copy_expr(x))),
        Expr::Bin(op, a, b) => Expr::Bin(*op, Box::new(copy_expr(a)), Box::new(copy_expr(b))),
        Expr::Cond(t, c, a) => Expr::Cond(
            Box::new(copy_expr(t)),
            Box::new(copy_expr(c)),
            Box::new(copy_expr(a)),
        ),
        Expr::Sequence(v) => {
            proof { assert(decreases_to!(*e => (*e)->Sequence_0)); }
            Expr::Sequence(copy_exprs(v))
        },
        Expr::Tpl(q, v) => {
            proof { assert(decreases_to!(*e => (*e)->Tpl_1)); }
            Expr::Tpl(copy_strings(q), copy_exprs(v))
        },
        Expr::Assign(a, b) => Expr::Assign(Box::new(copy_expr(a)), Box::new(copy_expr(b))),
        Expr::Update(a) => Expr::Update(Box::new(copy_expr(a))),
        Expr::Await(a) => Expr::Await(Box::new(copy_expr(a))),
        Expr::OptMember(o, p) => Expr::OptMember(Box::new(copy_expr(o)), copy_member(p)),
        Expr::OptCall(c, v) => {
            proof { assert(decreases_to!(*e => (*e)->OptCall_1)); }
            Expr::OptCall(Box::new(copy_expr(c)), copy_elems(v))
        },
        Expr::Other(k) => Expr::Other(k.clone()),
    }
}

pub fn copy_elem(e: &Elem) -> (r: Elem)
    ensures
        selem(r) == selem(*e),
    decreases e,
{
    match e {
        Elem::Hole => Elem::Hole,
        Elem::Expr(x) => Elem::Expr(copy_expr(x)),
        Elem::Spread(x) => Elem::Spread(copy_expr(x)),
    }
}

pub fn copy_elems(v: &Vec<Elem>) -> (r: Vec<Elem>)
    ensures
        selems(r@) == selems(v@),
        r@.len() == v@.len(),
    decreases v,
{
    let mut out: Vec<Elem> = Vec::new();
    let mut i: usize = 0;
    while i < v.len()
        invariant
            i <= v@.len(),
            out@.len() == i,
            forall|j: int| 0 <= j < i ==> selem(#[trigger] out@[j]) == selem(v@[j]),
        decreases v@.len() - i,
    {
        proof {
            assert(decreases_to!(*v => v@));
            assert(decreases_to!(v@ => v@[i as int]));
        }
        out.push(copy_elem(&v[i]));
        i = i + 1;
    }
    proof {
        lemma_selems(out@);
        lemma_selems(v@);
        assert(selems(out@) =~= selems(v@));
    }
    out
}

pub fn copy_exprs(v: &Vec<Expr>) -> (r: Vec<Expr>)
    ensures
        sexprs(r@) == sexprs(v@),
        r@.len() == v@.len(),
    decreases v,
{
    let mut out: Vec<Expr> = Vec::new();
    let mut i: usize = 0;
    while i < v.len()
        invariant
            i <= v@.len(),
            out@.len() == i,
            forall|j: int| 0 <= j < i ==> sexpr(#[trigger] out@[j]) == sexpr(v@[j]),
        decreases v@.len() - i,
    {
        proof {
            assert(decreases_to!(*v => v@));
            assert(decreases_to!(v@ => v@[i as int]));
        }
        out.push(copy_expr(&v[i]));
        i = i + 1;
    }
    proof {
        lemma_sexprs(out@);
        lemma_sexprs(v@);
        assert(sexprs(out@) =~= sexprs(v@));
    }
    out
}

pub fn copy_strings(v: &Vec<String>) -> (r: Vec<String>)
    ensures
        strings_view(r@) == strings_view(v@),
        r@.len() == v@.len(),
{
    let mut out: Vec<String> = Vec::new();
    let mut i: usize = 0;
    while i < v.len()
        invariant
            i <= v@.len(),
            out@.len() == i,
            forall|j: int| 0 <= j < i ==> (#[trigger] out@[j])@ == v@[j]@,
        decreases v@.len() - i,
    {
        out.push(v[i].clone());
        i = i + 1;
    }
    proof {
        lemma_strings_view(out@);
        lemma_strings_view(v@);
        assert(strings_view(out@) =~= strings_view(v@));
    }
    out
}

pub fn copy_propname(p: &PropName) -> (r: PropName)
    ensures
        spropname(r) == spropname(*p),
    decreases p,
{
    match p {
        PropName::Ident(s) => PropName::Ident(s.clone()),
        PropName::Str(s) => PropName::Str(s.clone()),
        PropName::Num(s) => PropName::Num(s.clone()),
        PropName::Computed(x) => PropName::Computed(Box::new(copy_expr(x))),
    }
}

pub fn copy_prop(p: &Prop) -> (r: Prop)
    ensures
        sprop(r) == sprop(*p),
    decreases p,
{
    match p {
        Prop::KeyValue(k, v) => Prop::KeyValue(copy_propname(k), copy_expr(v)),
        Prop::Shorthand(i) => Prop::Shorthand(i.copy()),
        Prop::Spread(x) => Prop::Spread(copy_expr(x)),
        Prop::Method(k) => Prop::Method(copy_propname(k)),
    }
}

pub fn copy_props(v: &Vec<Prop>) -> (r: Vec<Prop>)
    ensures
        sprops(r@) == sprops(v@),
        r@.len() == v@.len(),
    decreases v,
{
    let mut out: Vec<Prop> = Vec::new();
    let mut i: usize = 0;
    while i < v.len()
        invariant
            i <= v@.len(),
            out@.len() == i,
            forall|j: int| 0 <= j < i ==> sprop(#[trigger] out@[j]) == sprop(v@[j]),
        decreases v@.len() - i,
    {
        proof {
            assert(decreases_to!(*v => v@));
            assert(decreases_to!(v@ => v@[i as int]));
        }
        out.push(copy_prop(&v[i]));
        i = i + 1;
    }
    proof {
        lemma_sprops(out@);
        lemma_sprops(v@);
        assert(sprops(out@) =~= sprops(v@));
    }
    out
}

pub fn copy_member(p: &MemberProp) -> (r: MemberProp)
    ensures
        smember(r) == smember(*p),
    decreases p,
{
    match p {
        MemberProp::Ident(s) => MemberProp::Ident(s.clone()),
        MemberProp::Computed(x) => MemberProp::Computed(Box::new(copy_expr(x))),
        MemberProp::PrivateName(s) => MemberProp::PrivateName(s.clone()),
    }
}


/// Whether two literals are the same literal.
pub fn same_lit(a: &Lit, b: &Lit) -> (r: bool)
    ensures
        r == (slit(*a) == slit(*b)),
{
    match (a, b) {
        (Lit::Str(x), Lit::Str(y)) => *x == *y,
        (Lit::Num(x), Lit::Num(y)) => *x == *y,
        (Lit::Bool(x), Lit::Bool(y)) => *x == *y,
        (Lit::Null, Lit::Null) => true,
        (Lit::BigInt(x), Lit::BigInt(y)) => *x == *y,
        (Lit::Regex(x), Lit::Regex(y)) => *x == *y,
        _ => false,
    }
}

/// Whether `a` and `b` are the same expression wherever they were written:
/// the same tree, spans aside.
pub fn same_expr(a: &Expr, b: &Expr) -> (r: bool)
    ensures
        r == (a@ == b@),
    decreases a,
{
    match (a, b) {
        (Expr::Ident(x), Expr::Ident(y)) => x.sym == y.sym && x.ctxt == y.ctxt,
        (Expr::Lit(x), Expr::Lit(y)) => same_lit(x, y),
        (Expr::Paren(x), Expr::Paren(y)) => same_expr(x, y),
        (Expr::TsWrap(x), Expr::TsWrap(y)) => same_expr(x, y),
        (Expr::Array(x), Expr::Array(y)) => {
            proof { assert(decreases_to!(*a => (*a)->Array_0)); }
            same_elems(x, y)
        },
        (Expr::Object(x), Expr::Object(y)) => {
            proof { assert(decreases_to!(*a => (*a)->Object_0)); }
            same_props(x, y)
        },
        (Expr::Member(o, p), Expr::Member(o2, p2)) => same_expr(o, o2) && same_member(p, p2),
        (Expr::Call(c, v), Expr::Call(c2, v2)) => {
            proof { assert(decreases_to!(*a => (*a)->Call_1)); }
            same_expr(c, c2) && same_elems(v, v2)
        },
        (Expr::Unary(op, x), Expr::Unary(op2, y)) => *op == *op2 && same_expr(x, y),
        (Expr::Bin(op, x, y), Expr::Bin(op2, x2, y2)) => *op == *op2 && same_expr(x, x2)
            && same_expr(y, y2),
        (Expr::Cond(t, c, e), Expr::Cond(t2, c2, e2)) => same_expr(t, t2) && same_expr(c, c2)
            && same_expr(e, e2),
        (Expr::Sequence(x), Expr::Sequence(y)) => {
            proof { assert(decreases_to!(*a => (*a)->Sequence_0)); }
            same_exprs(x, y)
        },
        (Expr::Tpl(q, x), Expr::Tpl(q2, y)) => {
            proof { assert(decreases_to!(*a => (*a)->Tpl_1)); }
            same_strings(q, q2) && same_exprs(x, y)
        },
        (Expr::Assign(x, y), Expr::Assign(x2, y2)) => same_expr(x, x2) && same_expr(y, y2),
        (Expr::Update(x), Expr::Update(y)) => same_expr(x, y),
        (Expr::Await(x), Expr::Await(y)) => same_expr(x, y),
        (Expr::OptMember(o, p), Expr::OptMember(o2, p2)) => same_expr(o, o2) && same_member(p, p2),
        (Expr::OptCall(c, v), Expr::OptCall(c2, v2)) => {
            proof { assert(decreases_to!(*a => (*a)->OptCall_1)); }
            same_expr(c, c2) && same_elems(v, v2)
        },
        (Expr::Other(k), Expr::Other(k2)) => *k == *k2,
        _ => false,
    }
}

pub fn same_elem(a: &Elem, b: &Elem) -> (r: bool)
    ensures
        r == (selem(*a) == selem(*b)),
    decreases a,
{
    match (a, b) {
        (Elem::Hole, Elem::Hole) => true,
        (Elem::Expr(x), Elem::Expr(y)) => same_expr(x, y),
        (Elem::Spread(x), Elem::Spread(y)) => same_expr(x, y),
        _ => false,
    }
}

pub fn same_elems(a: &Vec<Elem>, b: &Vec<Elem>) -> (r: bool)
    ensures
        r == (selems(a@) == selems(b@)),
    decreases a,
{
    proof {
        lemma_selems(a@);
        lemma_selems(b@);
    }
    if a.len() != b.len() {
        return false;
    }
    let mut i: usize = 0;
    while i < a.len()
        invariant
            i <= a@.len(),
            a@.len() == b@.len(),
            selems(a@).len() == a@.len(),
            selems(b@).len() == b@.len(),
            forall|j: int| 0 <= j < a@.len() ==> #[trigger] selems(a@)[j] == selem(a@[j]),
            forall|j: int| 0 <= j < b@.len() ==> #[trigger] selems(b@)[j] == selem(b@[j]),
            forall|j: int| 0 <= j < i ==> selems(a@)[j] == selems(b@)[j],
        decreases a@.len() - i,
    {
        proof {
            assert(decreases_to!(*a => a@));
            assert(decreases_to!(a@ => a@[i as int]));
        }
        if !same_elem(&a[i], &b[i]) {
            assert(selems(a@)[i as int] != selems(b@)[i as int]);
            return false;
        }
        i = i + 1;
    }
    assert(selems(a@) =~= selems(b@));
    true
}

pub fn same_exprs(a: &Vec<Expr>, b: &Vec<Expr>) -> (r: bool)
    ensures
        r == (sexprs(a@) == sexprs(b@)),
    decreases a,
{
    proof {
        lemma_sexprs(a@);
        lemma_sexprs(b@);
    }
    if a.len() != b.len() {
        return false;
    }
    let mut i: usize = 0;
    while i < a.len()
        invariant
            i <= a@.len(),
            a@.len() == b@.len(),
            sexprs(a@).len() == a@.len(),
            sexprs(b@).len() == b@.len(),
            forall|j: int| 0 <= j < a@.len() ==> #[trigger] sexprs(a@)[j] == sexpr(a@[j]),
            forall|j: int| 0 <= j < b@.len() ==> #[trigger] sexprs(b@)[j] == sexpr(b@[j]),
            forall|j: int| 0 <= j < i ==> sexprs(a@)[j] == sexprs(b@)[j],
        decreases a@.len() - i,
    {
        proof {
            assert(decreases_to!(*a => a@));
            assert(decreases_to!(a@ => a@[i as int]));
        }
        if !same_expr(&a[i], &b[i]) {
            assert(sexprs(a@)[i as int] != sexprs(b@)[i as int]);
            return false;
        }
        i = i + 1;
    }
    assert(sexprs(a@) =~= sexprs(b@));
    true
}

pub fn same_strings(a: &Vec<String>, b: &Vec<String>) -> (r: bool)
    ensures
        r == (strings_view(a@) == strings_view(b@)),
{
    proof {
        lemma_strings_view(a@);
        lemma_strings_view(b@);
    }
    if a.len() != b.len() {
        return false;
    }
    let mut i: usize = 0;
    while i < a.len()
        invariant
            i <= a@.len(),
            a@.len() == b@.len(),
            strings_view(a@).len() == a@.len(),
            strings_view(b@).len() == b@.len(),
            forall|j: int| 0 <= j < a@.len() ==> #[trigger] strings_view(a@)[j] == a@[j]@,
            forall|j: int| 0 <= j < b@.len() ==> #[trigger] strings_view(b@)[j] == b@[j]@,
            forall|j: int| 0 <= j < i ==> strings_view(a@)[j] == strings_view(b@)[j],
        decreases a@.len() - i,
    {
        if a[i] != b[i] {
            assert(strings_view(a@)[i as int] != strings_view(b@)[i as int]);
            return false;
        }
        i = i + 1;
    }
    assert(strings_view(a@) =~= strings_view(b@));
    true
}

pub fn same_propname(a: &PropName, b: &PropName) -> (r: bool)
    ensures
        r == (spropname(*a) == spropname(*b)),
    decreases a,
{
    match (a, b) {
        (PropName::Ident(x), PropName::Ident(y)) => *x == *y,
        (PropName::Str(x), PropName::Str(y)) => *x == *y,
        (PropName::Num(x), PropName::Num(y)) => *x == *y,
        (PropName::Computed(x), PropName::Computed(y)) => same_expr(x, y),
        _ => false,
    }
}

pub fn same_prop(a: &Prop, b: &Prop) -> (r: bool)
    ensures
        r == (sprop(*a) == sprop(*b)),
    decreases a,
{
    match (a, b) {
        (Prop::KeyValue(k, v), Prop::KeyValue(k2, v2)) => same_propname(k, k2) && same_expr(v, v2),
        (Prop::Shorthand(x), Prop::Shorthand(y)) => x.sym == y.sym && x.ctxt == y.ctxt,
        (Prop::Spread(x), Prop::Spread(y)) => same_expr(x, y),
        (Prop::Method(k), Prop::Method(k2)) => same_propname(k, k2),
        _ => false,
    }
}

pub fn same_props(a: &Vec<Prop>, b: &Vec<Prop>) -> (r: bool)
    ensures
        r == (sprops(a@) == sprops(b@)),
    decreases a,
{
    proof {
        lemma_sprops(a@);
        lemma_sprops(b@);
    }
    if a.len() != b.len() {
        return false;
    }
    let mut i: usize = 0;
    while i < a.len()
        invariant
            i <= a@.len(),
            a@.len() == b@.len(),
            sprops(a@).len() == a@.len(),
            sprops(b@).len() == b@.len(),
            forall|j: int| 0 <= j < a@.len() ==> #[trigger] sprops(a@)[j] == sprop(a@[j]),
            forall|j: int| 0 <= j < b@.len() ==> #[trigger] sprops(b@)[j] == sprop(b@[j]),
            forall|j: int| 0 <= j < i ==> sprops(a@)[j] == sprops(b@)[j],
        decreases a@.len() - i,
    {
        proof {
            assert(decreases_to!(*a => a@));
            assert(decreases_to!(a@ => a@[i as int]));
        }
        if !same_prop(&a[i], &b[i]) {
            assert(sprops(a@)[i as int] != sprops(b@)[i as int]);
            return false;
        }
        i = i + 1;
    }
    assert(sprops(a@) =~= sprops(b@));
    true
}

pub fn same_member(a: &MemberProp, b: &MemberProp) -> (r: bool)
    ensures
        r == (smember(*a) == smember(*b)),
    decreases a,
{
    match (a, b) {
        (MemberProp::Ident(x), MemberProp::Ident(y)) => *x == *y,
        (MemberProp::Computed(x), MemberProp::Computed(y)) => same_expr(x, y),
        (MemberProp::PrivateName(x), MemberProp::PrivateName(y)) => *x == *y,
        _ => false,
    }
}

} // verus!
