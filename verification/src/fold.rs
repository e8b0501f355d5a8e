//! Helpers for folding a call by running it in a JavaScript engine, a fold
//! done outside this library: the library does not run such a fold itself
//! and none of its evaluation calls these. They are what a caller that runs
//! one counts and asks: how much a fold may build (`Totals`), how deep it may
//! read (`Depth`), how often a callback repeats (`Repeats`), how a subtree is
//! read without committing to its refusal (`speculate`), which names are the
//! globals a fold may call and whether the module shadows them
//! (`unshadowed_applied_global`, `unshadowed_receiver_global`), which
//! properties escape to the function itself (`escaping_property_named`), how
//! wide values render (`rendered_characters`, `widest_of`), and which calls
//! build one entry per unit of a declared length (`EntryAmplifier`).
use vstd::prelude::*;

use crate::cache::{cached, evaluate_cached, evaluated};
use crate::coerce::str_eq;
use crate::messages::{expression_too_deep, joined_text, spec_decimal};
use crate::state::{
    binding_listed, declarator_of, get_var_decl_from, EvaluationState, FunctionMap,
    StateManager,
};
use crate::syntax::{Elem, Expr, Ident, Lit, MemberProp, SElem, SExpr, SLit, SMemberProp};
use crate::text::utf16_len;
use crate::value::{lemma_svalues, sopt, svalues, EvaluateResultValue, SValue};

verus! {

// ---------------------------------------------------------------------------
// What a fold may build.
// ---------------------------------------------------------------------------

/// The most characters and the most entries one fold may build.
#[derive(Clone, Copy)]
pub struct Ceilings {
    pub characters: u64,
    pub entries: u64,
}

/// What a fold done outside the library has built so far, counted against
/// its ceilings.
pub struct Totals {
    pub units: u64,
    pub entries: u64,
    pub ceilings: Ceilings,
}

/// `a + b`, held at the largest `u64` rather than wrapped.
pub open spec fn saturating_sum(a: u64, b: u64) -> u64 {
    if a + b > u64::MAX {
        u64::MAX
    } else {
        (a + b) as u64
    }
}

impl Totals {
    /// Nothing built yet.
    pub fn new(ceilings: Ceilings) -> (r: Totals)
        ensures
            r.units == 0,
            r.entries == 0,
            r.ceilings == ceilings,
    {
        Totals { units: 0, entries: 0, ceilings }
    }

    /// Counts `units` more characters, and refuses with the ceiling where the
    /// total passes it.
    pub fn count_characters(&mut self, units: u64) -> (r: Result<(), u64>)
        ensures
            final(self).units == saturating_sum(old(self).units, units),
            final(self).entries == old(self).entries,
            final(self).ceilings == old(self).ceilings,
            r == (if final(self).units > old(self).ceilings.characters {
                Err(old(self).ceilings.characters)
            } else {
                Ok(())
            }),
    {
        self.units = self.units.saturating_add(units);
        if self.units > self.ceilings.characters {
            Err(self.ceilings.characters)
        } else {
            Ok(())
        }
    }

    /// Counts `entries` more entries, and refuses with the ceiling where the
    /// total passes it.
    pub fn count_entries(&mut self, entries: u64) -> (r: Result<(), u64>)
        ensures
            final(self).entries == saturating_sum(old(self).entries, entries),
            final(self).units == old(self).units,
            final(self).ceilings == old(self).ceilings,
            r == (if final(self).entries > old(self).ceilings.entries {
                Err(old(self).ceilings.entries)
            } else {
                Ok(())
            }),
    {
        self.entries = self.entries.saturating_add(entries);
        if self.entries > self.ceilings.entries {
            Err(self.ceilings.entries)
        } else {
            Ok(())
        }
    }
}

// ---------------------------------------------------------------------------
// Why a fold declined.
// ---------------------------------------------------------------------------

/// Why a call was not folded: it is not a call a fold reads, or a rule
/// refused it for a reason.
pub enum Decline {
    NotACandidate,
    Rule(String),
}

impl Decline {
    /// A rule's refusal, for `reason`.
    pub fn rule(reason: String) -> (r: Decline)
        ensures
            r matches Decline::Rule(s) && s@ == reason@,
    {
        Decline::Rule(reason)
    }
}

/// How deep a fold done outside the library may still read, and the ceiling
/// it started from.
#[derive(Clone, Copy)]
pub struct Depth {
    pub left: usize,
    pub ceiling: usize,
}

impl Depth {
    /// The whole of `ceiling` left.
    pub fn full(ceiling: usize) -> (r: Depth)
        ensures
            r.left == ceiling,
            r.ceiling == ceiling,
    {
        Depth { left: ceiling, ceiling }
    }

    /// The whole ceiling again, for a walk that starts over.
    pub fn restart(self) -> (r: Depth)
        ensures
            r == Depth::full_spec(self.ceiling),
    {
        Depth::full(self.ceiling)
    }

    pub open spec fn full_spec(ceiling: usize) -> Depth {
        Depth { left: ceiling, ceiling }
    }

    /// One level down, or nothing where none is left.
    pub open spec fn spec_descend(self) -> Option<Depth> {
        if self.left == 0 {
            None
        } else {
            Some(Depth { left: (self.left - 1) as usize, ceiling: self.ceiling })
        }
    }

    /// The depth left after `n` descents in a row, or nothing where one of
    /// them found no level left.
    pub open spec fn descents(self, n: nat) -> Option<Depth>
        decreases n,
    {
        if n == 0 {
            Some(self)
        } else {
            match self.descents((n - 1) as nat) {
                Some(d) => d.spec_descend(),
                None => None,
            }
        }
    }

    /// One level down, or refused where none is left.
    pub fn descend(self) -> (r: Result<Depth, Decline>)
        ensures
            r is Ok <==> self.spec_descend() is Some,
            r matches Ok(d) ==> self.spec_descend() == Some(d),
            self.left == 0 ==> (r matches Err(Decline::Rule(s)) && s@
                == "The expression nests more than "@ + spec_decimal(self.ceiling as nat)
                + " levels deep."@),
            self.left > 0 ==> (r matches Ok(d) && d.left == self.left - 1 && d.ceiling
                == self.ceiling),
    {
        if self.left == 0 {
            Err(Decline::rule(expression_too_deep(self.ceiling)))
        } else {
            Ok(Depth { left: self.left - 1, ceiling: self.ceiling })
        }
    }
}

// ---------------------------------------------------------------------------
// How often a callback repeats.
// ---------------------------------------------------------------------------

/// How many times the code a fold done outside the library reads runs: a
/// measured count, or a count that could not be measured.
#[derive(Clone, Copy)]
pub enum Repeats {
    Times(u64),
    Unmeasured,
}

/// `a * b`, held at the largest `u64` rather than wrapped.
pub open spec fn saturating_product(a: u64, b: u64) -> u64 {
    if a * b > u64::MAX {
        u64::MAX
    } else {
        (a * b) as u64
    }
}

/// The sentence a count that cannot be measured is refused with.
pub fn amplification_inside_a_callback(built: &str, call: &str) -> (r: String)
    ensures
        r@ == "The "@ + built@ + " built by "@ + call@ + " inside a callback cannot be measured."@,
{
    let mut s = joined_text("The ", built);
    s.append(" built by ");
    s.append(call);
    s.append(" inside a callback cannot be measured.");
    s
}

impl Repeats {
    /// The count, or a refusal naming what is built and the call building it.
    pub fn counted(self, built: &str, call: &str) -> (r: Result<u64, Decline>)
        ensures
            match self {
                Repeats::Times(t) => r == Ok::<u64, Decline>(t),
                Repeats::Unmeasured => r matches Err(Decline::Rule(s)) && s@ == "The "@ + built@
                    + " built by "@ + call@ + " inside a callback cannot be measured."@,
            },
    {
        match self {
            Repeats::Times(times) => Ok(times),
            Repeats::Unmeasured => Err(Decline::rule(amplification_inside_a_callback(built, call))),
        }
    }

    /// The count once more per element of a list of `elements`.
    pub fn per_element(self, elements: u64) -> (r: Repeats)
        ensures
            match self {
                Repeats::Times(t) => r == Repeats::Times(saturating_product(t, elements)),
                Repeats::Unmeasured => r == Repeats::Unmeasured,
            },
    {
        match self {
            Repeats::Times(times) => {
                proof {
                    assert(times * elements <= u64::MAX * u64::MAX) by (nonlinear_arith)
                        requires
                            times <= u64::MAX,
                            elements <= u64::MAX,
                    ;
                }
                let product: u128 = times as u128 * elements as u128;
                if product > u64::MAX as u128 {
                    Repeats::Times(u64::MAX)
                } else {
                    Repeats::Times(product as u64)
                }
            },
            Repeats::Unmeasured => Repeats::Unmeasured,
        }
    }
}

/// What is known of the values a parameter can hold: how many characters
/// they render to, and how large a number they are.
#[derive(Clone, Copy)]
pub struct Bounds {
    pub characters: Option<u64>,
    pub magnitude: Option<u64>,
}

/// The bounds a callback's parameters carry: the positions where the element
/// parameter's names stand, its bounds, and the index parameter's position
/// and bounds.
#[derive(Clone, Copy)]
pub struct Elements {
    pub element_names: (usize, usize),
    pub element: Bounds,
    pub index: Option<(usize, Bounds)>,
}

impl Elements {
    pub open spec fn spec_holding(&self, at: usize) -> Option<Bounds> {
        match self.index {
            Some((position, index)) => if position == at {
                Some(index)
            } else if self.element_names.0 <= at < self.element_names.1 {
                Some(self.element)
            } else {
                None
            },
            None => if self.element_names.0 <= at < self.element_names.1 {
                Some(self.element)
            } else {
                None
            },
        }
    }

    /// The bounds of the parameter named at position `at`: the index
    /// parameter's where it stands there, the element's where `at` falls
    /// among the element's names, and none otherwise.
    pub fn holding(&self, at: usize) -> (r: Option<Bounds>)
        ensures
            r == self.spec_holding(at),
    {
        let (from, to) = self.element_names;
        match self.index {
            Some((position, index)) => {
                if position == at {
                    return Some(index);
                }
            },
            None => {},
        }
        if from <= at && at < to {
            Some(self.element)
        } else {
            None
        }
    }
}

// ---------------------------------------------------------------------------
// Reading a subtree without committing to its refusal.
// ---------------------------------------------------------------------------

/// The evaluation state a speculative read starts in: `st` with no refusal
/// recorded.
pub open spec fn cleared(st: EvaluationState) -> EvaluationState {
    EvaluationState { deopt_path: None, deopt_reason: None, ..st }
}

/// The module a speculative read runs in: `ts`, told it is speculating.
pub open spec fn speculating_in(ts: StateManager) -> StateManager {
    StateManager { speculating: true, ..ts }
}

/// What a speculative read of `path` from `st0`/`ts0` to `st1`/`ts1` with the
/// answer `r` is: one evaluation through the memo, from `st0` with its record
/// cleared, in `ts0` told it is speculating, to some `st`/`ts` and answer `v`;
/// it answers `v` where that evaluation and `st0` were confident and nothing
/// otherwise, and leaves `st0`'s confidence and record and `ts0`'s
/// speculating flag as they were.
pub open spec fn read_while_speculating(
    path: SExpr,
    st0: EvaluationState,
    st1: EvaluationState,
    ts0: StateManager,
    ts1: StateManager,
    r: Option<EvaluateResultValue>,
) -> bool {
    exists|st: EvaluationState, ts: StateManager, v: Option<EvaluateResultValue>|
        #[trigger] cached(path, cleared(st0), st, speculating_in(ts0), ts, v) && {
            &&& sopt(r) == if st.confident && st0.confident {
                sopt(v)
            } else {
                None
            }
            &&& st1 == EvaluationState {
                confident: st0.confident,
                deopt_path: st0.deopt_path,
                deopt_reason: st0.deopt_reason,
                ..st
            }
            &&& ts1 == StateManager { speculating: ts0.speculating, ..ts }
        }
}

/// For a fold done outside the library, evaluates `path` while speculating:
/// the evaluation's confidence and its
/// recorded refusal are put back afterwards, and the module is told it is
/// speculating for as long as the read lasts, so a refusal met there is not
/// remembered. `None` where the read refused; a simple expression with a
/// meaning, read with room and a memo that remembers no refusal, reads as that
/// meaning.
pub fn speculate(
    path: &Expr,
    state: &mut EvaluationState,
    traversal_state: &mut StateManager,
    fns: &FunctionMap,
) -> (r: Option<EvaluateResultValue>)
    requires
        old(traversal_state).wf(),
    ensures
        final(state).confident == old(state).confident,
        final(state).deopt_path == old(state).deopt_path,
        final(state).deopt_reason == old(state).deopt_reason,
        final(state).functions == old(state).functions,
        final(traversal_state).same_module(&*old(traversal_state)),
        final(traversal_state).wf(),
        crate::state::memo_extends(old(traversal_state).seen@, final(traversal_state).seen@),
        !old(state).confident ==> r is None,
        crate::semantics::agrees(path@, sopt(r)),
        old(state).confident && crate::semantics::simple(path@) && crate::semantics::const_fold(
            path@,
        ) is Some && crate::semantics::height(path@) <= crate::cache::room_left(
            *old(traversal_state),
        ) && crate::cache::remembers_no_refusal(old(traversal_state).seen@)
            && crate::semantics::fits(path@, old(traversal_state).character_ceiling as nat) ==> sopt(r)
            == crate::semantics::const_fold(path@),
        read_while_speculating(path@, *old(state), *final(state), *old(traversal_state), *final(traversal_state), r),
{
    let confident = state.confident;
    let mut deopt_path: Option<Expr> = None;
    std::mem::swap(&mut deopt_path, &mut state.deopt_path);
    let mut deopt_reason: Option<String> = None;
    std::mem::swap(&mut deopt_reason, &mut state.deopt_reason);
    let speculating = traversal_state.speculating;
    traversal_state.speculating = true;
    let ghost st_start = *state;
    let ghost ts_start = *traversal_state;
    let read = evaluate_cached(path, state, traversal_state, fns);
    let ghost st_read = *state;
    let ghost ts_read = *traversal_state;
    let ghost v_read = read;
    let value = if state.confident && confident {
        read
    } else {
        None
    };
    traversal_state.speculating = speculating;
    state.confident = confident;
    state.deopt_path = deopt_path;
    state.deopt_reason = deopt_reason;
    proof {
        assert(st_start == cleared(*old(state)));
        assert(ts_start == speculating_in(*old(traversal_state)));
        assert(cached(path@, cleared(*old(state)), st_read, speculating_in(*old(traversal_state)), ts_read, v_read));
    }
    value
}

// ---------------------------------------------------------------------------
// The globals a fold may name.
// ---------------------------------------------------------------------------

/// Properties that read the function itself rather than a value: reading one
/// hands the engine's own machinery to the source.
pub const ESCAPING_PROPERTIES: [&'static str; 4] = ["constructor", "call", "apply", "bind"];

/// Whether `name` is one of `list`.
pub fn lists(list: &[&str], name: &str) -> (r: bool)
    ensures
        r == exists|i: int| 0 <= i < list@.len() && (#[trigger] list@[i])@ == name@,
{
    let mut i: usize = 0;
    while i < list.len()
        invariant
            i <= list@.len(),
            forall|j: int| 0 <= j < i ==> (#[trigger] list@[j])@ != name@,
        decreases list@.len() - i,
    {
        if str_eq(list[i], name) {
            return true;
        }
        i = i + 1;
    }
    false
}

/// Whether `name` is a property that escapes to the function.
pub open spec fn escapes(name: Seq<char>) -> bool {
    name == "constructor"@ || name == "call"@ || name == "apply"@ || name == "bind"@
}

/// For a fold done outside the library, the escaping property a member
/// expression reads by a static name, if it
/// reads one: named directly or by a string key. A computed key with no
/// static name, and a private name, answer nothing.
pub fn escaping_property_named(prop: &MemberProp) -> (r: Option<&str>)
    ensures
        match r {
            Some(name) => escapes(name@) && match crate::syntax::smember(*prop) {
                SMemberProp::Ident(n) => n == name@,
                SMemberProp::Computed(key) => *key == SExpr::Lit(SLit::Str(name@)),
                _ => false,
            },
            None => match crate::syntax::smember(*prop) {
                SMemberProp::Ident(n) => !escapes(n),
                SMemberProp::Computed(key) => !(*key matches SExpr::Lit(SLit::Str(n)) && escapes(n)),
                _ => true,
            },
        },
{
    proof {
        reveal_strlit("constructor");
        reveal_strlit("call");
        reveal_strlit("apply");
        reveal_strlit("bind");
    }
    let name: &str = match prop {
        MemberProp::Ident(name) => name.as_str(),
        MemberProp::Computed(key) => match &**key {
            Expr::Lit(Lit::Str(text)) => text.as_str(),
            _ => {
                return None;
            },
        },
        MemberProp::PrivateName(_) => {
            return None;
        },
    };
    let list = ESCAPING_PROPERTIES;
    proof {
        assert(list@[0]@ == "constructor"@);
        assert(list@[1]@ == "call"@);
        assert(list@[2]@ == "apply"@);
        assert(list@[3]@ == "bind"@);
    }
    if lists(&list, name) {
        Some(name)
    } else {
        None
    }
}

/// The expression inside any parentheses, however many layers deep.
pub fn without_parens(expr: &Expr) -> (r: &Expr)
    ensures
        r@ == crate::semantics::peel(expr@),
{
    let mut e = expr;
    loop
        invariant
            crate::semantics::peel(e@) == crate::semantics::peel(expr@),
        decreases e,
    {
        match e {
            Expr::Paren(inner) => {
                e = inner;
            },
            _ => {
                return e;
            },
        }
    }
}

/// The globals a fold may call or read a static of.
pub open spec fn valid_callee(name: Seq<char>) -> bool {
    name == "String"@ || name == "Number"@ || name == "Object"@ || name == "Array"@ || name
        == "Math"@
}

/// The globals a fold reads only as values.
pub open spec fn value_only_global(name: Seq<char>) -> bool {
    name == "Boolean"@
}

/// Whether `name` is one of the globals a fold may call.
pub fn is_valid_callee(name: &str) -> (r: bool)
    ensures
        r == valid_callee(name@),
{
    proof {
        reveal_strlit("String");
        reveal_strlit("Number");
        reveal_strlit("Object");
        reveal_strlit("Array");
        reveal_strlit("Math");
    }
    str_eq(name, "String") || str_eq(name, "Number") || str_eq(name, "Object") || str_eq(
        name,
        "Array",
    ) || str_eq(name, "Math")
}

/// The name a global is written as, through parentheses, where `expr` names
/// one of the globals a fold may call.
pub open spec fn spec_written_global(expr: SExpr) -> Option<(Seq<char>, u32)> {
    match crate::semantics::peel(expr) {
        SExpr::Ident(s, c) => if valid_callee(s) {
            Some((s, c))
        } else {
            None
        },
        _ => None,
    }
}

/// The identifier a global is written as, through parentheses, before any
/// question of shadowing.
pub fn written_global(expr: &Expr) -> (r: Option<&Ident>)
    ensures
        match r {
            Some(i) => spec_written_global(expr@) == Some(i@),
            None => spec_written_global(expr@) is None,
        },
{
    let e = without_parens(expr);
    match e {
        Expr::Ident(ident) => if is_valid_callee(ident.sym.as_str()) {
            Some(ident)
        } else {
            None
        },
        _ => None,
    }
}

/// For a fold done outside the library, the name an applied global names, or
/// `None` where the module binds it in any way.
pub fn unshadowed_applied_global<'a>(expr: &'a Expr, state: &StateManager) -> (r: Option<&'a String>)
    ensures
        match spec_written_global(expr@) {
            Some(id) => if binding_listed(state.declared_bindings@, id) {
                r is None
            } else {
                r matches Some(n) && n@ == id.0
            },
            None => r is None,
        },
{
    let ident = match written_global(expr) {
        Some(i) => i,
        None => {
            return None;
        },
    };
    if state.declares_binding(ident) {
        None
    } else {
        Some(&ident.sym)
    }
}

/// For a fold done outside the library, the name a static's receiver names as
/// a global, or `None` where the module declares a value under it: only a
/// declarator shadows a receiver.
pub fn unshadowed_receiver_global<'a>(expr: &'a Expr, state: &StateManager) -> (r: Option<&'a String>)
    ensures
        match spec_written_global(expr@) {
            Some(id) => if declarator_of(state.declarations@, id) is Some {
                r is None
            } else {
                r matches Some(n) && n@ == id.0
            },
            None => r is None,
        },
{
    let ident = match written_global(expr) {
        Some(i) => i,
        None => {
            return None;
        },
    };
    match get_var_decl_from(state, ident) {
        None => Some(&ident.sym),
        Some(_) => None,
    }
}

/// Whether `expr` names, through parentheses, a global a fold reads as a
/// value, and the module binds no such name.
pub open spec fn spec_global_as_a_value(expr: SExpr, state: StateManager) -> bool {
    match crate::semantics::peel(expr) {
        SExpr::Ident(s, c) => (valid_callee(s) || value_only_global(s)) && !binding_listed(
            state.declared_bindings@,
            (s, c),
        ),
        _ => false,
    }
}

/// Whether `expr` is a global the fold may read as a value: one of the
/// globals it calls, or one it reads only as a value, that the module does
/// not bind.
pub fn a_global_written_as_a_value(expr: &Expr, state: &StateManager) -> (r: bool)
    ensures
        r == spec_global_as_a_value(expr@, *state),
{
    proof {
        reveal_strlit("Boolean");
    }
    match without_parens(expr) {
        Expr::Ident(ident) => (is_valid_callee(ident.sym.as_str()) || str_eq(
            ident.sym.as_str(),
            "Boolean",
        )) && !state.declares_binding(ident),
        _ => false,
    }
}

// ---------------------------------------------------------------------------
// How large a result can be.
// ---------------------------------------------------------------------------

/// The largest of some readings, or `None` where one could not be read.
pub open spec fn spec_greatest_of(readings: Seq<Option<u64>>) -> Option<u64>
    decreases readings.len(),
{
    if readings.len() == 0 {
        Some(0)
    } else {
        match (spec_greatest_of(readings.drop_last()), readings.last()) {
            (Some(g), Some(x)) => Some(
                if g >= x {
                    g
                } else {
                    x
                },
            ),
            _ => None,
        }
    }
}

/// The largest of a receiver's elements read one way, or `None` where one of
/// them could not be read at all.
pub fn greatest_of(readings: &Vec<Option<u64>>) -> (r: Option<u64>)
    ensures
        r == spec_greatest_of(readings@),
{
    let mut greatest: u64 = 0;
    let mut i: usize = 0;
    proof {
        assert(readings@.take(0) =~= Seq::<Option<u64>>::empty());
    }
    while i < readings.len()
        invariant
            i <= readings@.len(),
            spec_greatest_of(readings@.take(i as int)) == Some(greatest),
        decreases readings@.len() - i,
    {
        proof {
            assert(readings@.take(i + 1).drop_last() =~= readings@.take(i as int));
        }
        match readings[i] {
            Some(x) => {
                if x > greatest {
                    greatest = x;
                }
            },
            None => {
                proof {
                    lemma_greatest_stops(readings@, i as int);
                }
                return None;
            },
        }
        i = i + 1;
    }
    proof {
        assert(readings@.take(readings@.len() as int) =~= readings@);
    }
    Some(greatest)
}

/// For a fold done outside the library, the widest of the widths a receiver's
/// elements render to, or `None` where
/// one of them could not be read: the largest of them, as `greatest_of` reads
/// any readings.
pub fn widest_of(widths: &Vec<Option<u64>>) -> (r: Option<u64>)
    ensures
        r == spec_greatest_of(widths@),
{
    greatest_of(widths)
}

proof fn lemma_greatest_stops(readings: Seq<Option<u64>>, i: int)
    requires
        0 <= i < readings.len(),
        spec_greatest_of(readings.take(i + 1)) is None,
    ensures
        spec_greatest_of(readings) is None,
    decreases readings.len(),
{
    if readings.len() == i + 1 {
        assert(readings.take(i + 1) =~= readings);
    } else {
        let rest = readings.drop_last();
        assert(rest.take(i + 1) =~= readings.take(i + 1));
        lemma_greatest_stops(rest, i);
    }
}

/// What some widths come to once joined with a comma between each two, or
/// `None` where one could not be read.
pub open spec fn spec_joined(count: usize, widths: Seq<Option<u64>>) -> Option<u64>
    decreases widths.len(),
{
    if widths.len() == 0 {
        Some(
            if count == 0 {
                0u64
            } else {
                (count - 1) as u64
            },
        )
    } else {
        match (spec_joined(count, widths.drop_last()), widths.last()) {
            (Some(total), Some(w)) => Some(saturating_sum(total, w)),
            _ => None,
        }
    }
}

/// What a list of rendered widths comes to once joined with commas.
pub fn joined(count: usize, widths: &Vec<Option<u64>>) -> (r: Option<u64>)
    ensures
        r == spec_joined(count, widths@),
{
    let separators: u64 = if count == 0 {
        0
    } else {
        (count - 1) as u64
    };
    let mut total = separators;
    let mut i: usize = 0;
    proof {
        assert(widths@.take(0) =~= Seq::<Option<u64>>::empty());
    }
    while i < widths.len()
        invariant
            i <= widths@.len(),
            separators == (if count == 0 {
                0u64
            } else {
                (count - 1) as u64
            }),
            spec_joined(count, widths@.take(i as int)) == Some(total),
        decreases widths@.len() - i,
    {
        proof {
            assert(widths@.take(i + 1).drop_last() =~= widths@.take(i as int));
        }
        match widths[i] {
            Some(w) => {
                total = total.saturating_add(w);
            },
            None => {
                proof {
                    lemma_joined_stops(count, widths@, i as int);
                }
                return None;
            },
        }
        i = i + 1;
    }
    proof {
        assert(widths@.take(widths@.len() as int) =~= widths@);
    }
    Some(total)
}

proof fn lemma_joined_stops(count: usize, widths: Seq<Option<u64>>, i: int)
    requires
        0 <= i < widths.len(),
        spec_joined(count, widths.take(i + 1)) is None,
    ensures
        spec_joined(count, widths) is None,
    decreases widths.len(),
{
    if widths.len() == i + 1 {
        assert(widths.take(i + 1) =~= widths);
    } else {
        let rest = widths.drop_last();
        assert(rest.take(i + 1) =~= widths.take(i + 1));
        lemma_joined_stops(count, rest, i);
    }
}

/// How many characters `undefined` renders to.
pub const UNDEFINED_WIDTH: u64 = 9;

/// A count held at the largest `u64`.
pub open spec fn capped_u64(n: nat) -> u64 {
    if n > u64::MAX {
        u64::MAX
    } else {
        n as u64
    }
}

/// How many characters an evaluated value renders to under `ToString`, with
/// `left` levels still to read, or `None` where it cannot be read.
pub open spec fn spec_rendered_value(v: SValue, left: nat) -> Option<u64>
    decreases v,
{
    match v {
        SValue::Expr(e) => spec_rendered_expr(e, left),
        SValue::Vec(items) => if left == 0 {
            None
        } else {
            spec_joined(items.len() as usize, rendered_values(items, (left - 1) as nat))
        },
        _ => None,
    }
}

/// The widths of a list of evaluated values.
pub open spec fn rendered_values(items: Seq<SValue>, left: nat) -> Seq<Option<u64>>
    decreases items,
{
    if items.len() == 0 {
        Seq::empty()
    } else {
        rendered_values(items.drop_last(), left).push(spec_rendered_value(items.last(), left))
    }
}

/// How many characters an expression the evaluator answered with renders
/// to, with `left` levels still to read.
pub open spec fn spec_rendered_expr(e: SExpr, left: nat) -> Option<u64>
    decreases e,
{
    if left == 0 {
        None
    } else {
        match e {
            SExpr::Lit(SLit::Str(t)) => Some(capped_u64(utf16_len(t))),
            SExpr::Lit(SLit::Num(t)) => Some(capped_u64(t.len())),
            SExpr::Lit(SLit::Bool(b)) => Some(
                if b {
                    4u64
                } else {
                    5u64
                },
            ),
            SExpr::Lit(SLit::Null) => Some(4u64),
            SExpr::Ident(s, _) => if s == "undefined"@ {
                Some(UNDEFINED_WIDTH)
            } else {
                None
            },
            SExpr::Array(slots) => spec_joined(
                slots.len() as usize,
                rendered_slots(slots, (left - 1) as nat),
            ),
            _ => None,
        }
    }
}

/// The widths of an array literal's slots: a hole renders as `undefined`
/// would, and a spread cannot be read.
pub open spec fn rendered_slots(slots: Seq<SElem>, left: nat) -> Seq<Option<u64>>
    decreases slots,
{
    if slots.len() == 0 {
        Seq::empty()
    } else {
        rendered_slots(slots.drop_last(), left).push(
            match slots.last() {
                SElem::Expr(x) => spec_rendered_expr(x, left),
                SElem::Hole => Some(UNDEFINED_WIDTH),
                SElem::Spread(_) => None,
            },
        )
    }
}

fn capped_width(n: u128) -> (r: u64)
    ensures
        r == capped_u64(n as nat),
{
    if n > u64::MAX as u128 {
        u64::MAX
    } else {
        n as u64
    }
}

/// How many characters an expression renders to, one level down from
/// `depth`.
pub fn rendered_expr(expr: &Expr, depth: Depth) -> (r: Option<u64>)
    ensures
        r == spec_rendered_expr(expr@, depth.left as nat),
    decreases expr,
{
    proof {
        reveal_strlit("undefined");
    }
    let inner = match depth.descend() {
        Ok(d) => d,
        Err(_) => {
            return None;
        },
    };
    match expr {
        Expr::Lit(Lit::Str(text)) => Some(capped_width(crate::text::utf16_length(text.as_str()))),
        Expr::Lit(Lit::Num(t)) => Some(capped_width(t.as_str().unicode_len() as u128)),
        Expr::Lit(Lit::Bool(b)) => Some(
            if *b {
                4
            } else {
                5
            },
        ),
        Expr::Lit(Lit::Null) => Some(4),
        Expr::Ident(i) => if crate::coerce::is_undefined_ident(i) {
            Some(UNDEFINED_WIDTH)
        } else {
            None
        },
        Expr::Array(elems) => {
            let ghost slots = crate::syntax::selems(elems@);
            proof {
                crate::syntax::lemma_selems(elems@);
                assert(decreases_to!(*expr => (*expr)->Array_0));
            }
            let mut widths: Vec<Option<u64>> = Vec::new();
            let mut i: usize = 0;
            while i < elems.len()
                invariant
                    i <= elems@.len(),
                    slots == crate::syntax::selems(elems@),
                    slots.len() == elems@.len(),
                    forall|j: int|
                        0 <= j < elems@.len() ==> #[trigger] slots[j] == crate::syntax::selem(
                            elems@[j],
                        ),
                    widths@ == rendered_slots(slots.take(i as int), inner.left as nat),
                    inner.left == depth.left - 1,
                    *expr == Expr::Array(*elems),
                decreases elems@.len() - i,
            {
                proof {
                    assert(slots.take(i + 1).drop_last() =~= slots.take(i as int));
                    assert(decreases_to!(*expr => (*expr)->Array_0));
                    assert(decreases_to!(*elems => elems@));
                    assert(decreases_to!(elems@ => elems@[i as int]));
                }
                let w = match &elems[i] {
                    Elem::Expr(x) => rendered_expr(x, inner),
                    Elem::Hole => Some(UNDEFINED_WIDTH),
                    Elem::Spread(_) => None,
                };
                widths.push(w);
                i = i + 1;
            }
            proof {
                assert(slots.take(elems@.len() as int) =~= slots);
            }
            joined(elems.len(), &widths)
        },
        _ => None,
    }
}

/// For a fold done outside the library, how many characters an evaluated
/// value renders to under `ToString`, or
/// `None` where the value cannot be read: an object renders to the same text
/// whatever it holds, so it says nothing about the value.
pub fn rendered_characters(value: &EvaluateResultValue, depth: Depth) -> (r: Option<u64>)
    ensures
        r == spec_rendered_value(value@, depth.left as nat),
    decreases value,
{
    match value {
        EvaluateResultValue::Expr(e) => rendered_expr(e, depth),
        EvaluateResultValue::Vec(items) => {
            let inner = match depth.descend() {
                Ok(d) => d,
                Err(_) => {
                    return None;
                },
            };
            let ghost sv = svalues(items@);
            proof {
                lemma_svalues(items@);
            }
            let mut widths: Vec<Option<u64>> = Vec::new();
            let mut i: usize = 0;
            while i < items.len()
                invariant
                    i <= items@.len(),
                    sv == svalues(items@),
                    sv.len() == items@.len(),
                    forall|j: int| 0 <= j < items@.len() ==> #[trigger] sv[j] == items@[j]@,
                    widths@ == rendered_values(sv.take(i as int), inner.left as nat),
                    inner.left == depth.left - 1,
                    *value == EvaluateResultValue::Vec(*items),
                decreases items@.len() - i,
            {
                proof {
                    assert(sv.take(i + 1).drop_last() =~= sv.take(i as int));
                    assert(decreases_to!(*value => (*value)->Vec_0));
                    assert(decreases_to!(*items => items@));
                    assert(decreases_to!(items@ => items@[i as int]));
                }
                widths.push(rendered_characters(&items[i], inner));
                i = i + 1;
            }
            proof {
                assert(sv.take(items@.len() as int) =~= sv);
            }
            joined(items.len(), &widths)
        },
        _ => None,
    }
}

/// For a fold done outside the library, the two calls whose result holds one
/// element per unit of a length an argument declares.
#[derive(Clone, Copy, PartialEq, Eq, Structural)]
pub enum EntryAmplifier {
    /// `Array(n)`.
    Constructor,
    /// `Array.from(x)`.
    From,
}

impl EntryAmplifier {
    /// The amplifier a call on the global `global` names, where `method` is
    /// the static read off it (`None` where the global is applied).
    pub fn named(global: &str, method: Option<&str>) -> (r: Option<EntryAmplifier>)
        ensures
            r == (if global@ == "Array"@ {
                match method {
                    None => Some(EntryAmplifier::Constructor),
                    Some(m) => if m@ == "from"@ {
                        Some(EntryAmplifier::From)
                    } else {
                        None
                    },
                }
            } else {
                None
            }),
    {
        if !str_eq(global, "Array") {
            return None;
        }
        match method {
            None => Some(EntryAmplifier::Constructor),
            Some(m) => if str_eq(m, "from") {
                Some(EntryAmplifier::From)
            } else {
                None
            },
        }
    }

    /// How the call is spelled, which is what a refusal names.
    pub fn name(self) -> (r: &'static str)
        ensures
            r@ == (match self {
                EntryAmplifier::Constructor => "Array"@,
                EntryAmplifier::From => "Array.from"@,
            }),
    {
        match self {
            EntryAmplifier::Constructor => "Array",
            EntryAmplifier::From => "Array.from",
        }
    }
}

} // verus!
