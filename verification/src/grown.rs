//! Strings the evaluator grows itself, measured against the character ceiling
//! as they grow.
//!
//! `+` and an interpolation are the two places the evaluator builds a string
//! of its own, and a chain that doubles its own result is bounded by nothing
//! else. The bound sits on the growth: every piece is measured before it is
//! appended, so a string is refused before the append that would pass the
//! ceiling allocates.
use vstd::prelude::*;

use crate::coerce::{evaluate_result_is_nullish, expr_string, join_sep, nullish, string_of};
use crate::deopt::{deopt, deopted};
use crate::messages::{grown_string_too_large, spec_decimal};
use crate::state::{EvaluationState, StateManager};
use crate::syntax::Expr;
use crate::text::{capped, lemma_utf16_len_concat, spec_units_within, units_within, utf16_len};
use crate::value::{lemma_svalues, svalues, EvaluateResultValue, SValue};

verus! {

/// An empty string with room reserved for `bytes`.
///
/// Trusted: `String::with_capacity` makes an empty string, and panics where
/// the room asked for passes `isize::MAX` bytes, which `requires` leaves out;
/// the room it reserves is not part of this contract.
#[verifier::external_body]
fn string_with_capacity(bytes: usize) -> (r: String)
    requires
        bytes <= isize::MAX,
    ensures
        r@ == Seq::<char>::empty(),
{
    String::with_capacity(bytes)
}

/// The sentence a string grown past `ceiling` by a `kind` is refused with.
pub open spec fn too_large(kind: Seq<char>, ceiling: usize) -> Seq<char> {
    "The "@ + kind + " builds a string longer than "@ + spec_decimal(ceiling as nat)
        + " characters."@
}

/// Why appending a value's `ToString` stopped.
pub enum StringAppend {
    /// The value has no compile-time string form.
    NoStringForm,
    /// The string passed the character ceiling; already refused, with this
    /// sentence.
    TooLarge(String),
}

/// A string being grown, with its length in UTF-16 code units and the kind of
/// expression growing it.
pub struct GrownString {
    text: String,
    units: usize,
    kind: &'static str,
}

/// Capping a count and then adding to it caps the sum.
proof fn lemma_capped_add(a: int, b: int)
    requires
        a >= 0,
        b >= 0,
    ensures
        capped(capped(a) + b) == capped(a + b),
{
}

impl GrownString {
    /// The text grown so far.
    pub closed spec fn text_view(&self) -> Seq<char> {
        self.text@
    }

    /// Its length in code units, as counted so far.
    pub closed spec fn units_view(&self) -> usize {
        self.units
    }

    /// The kind of expression growing it.
    pub closed spec fn kind_view(&self) -> Seq<char> {
        self.kind@
    }

    /// The count is the text's length in code units.
    pub closed spec fn wf(&self) -> bool {
        self.units == capped(utf16_len(self.text@) as int)
    }

    /// A well-formed string counts the code units its text holds, up to the
    /// largest count there is.
    pub proof fn lemma_counted(&self)
        requires
            self.wf(),
        ensures
            self.units_view() == capped(utf16_len(self.text_view()) as int),
    {
    }

    /// An empty string grown by a `kind`.
    pub fn new(kind: &'static str) -> (r: GrownString)
        ensures
            r.wf(),
            r.text_view() == Seq::<char>::empty(),
            r.kind_view() == kind@,
    {
        Self::with_capacity(0, kind)
    }

    /// An empty string grown by a `kind`, with room for `bytes`.
    pub fn with_capacity(bytes: usize, kind: &'static str) -> (r: GrownString)
        requires
            bytes <= isize::MAX,
        ensures
            r.wf(),
            r.text_view() == Seq::<char>::empty(),
            r.kind_view() == kind@,
    {
        GrownString { text: string_with_capacity(bytes), units: 0, kind }
    }

    /// Appends `addition`, or refuses `path` for passing the ceiling and hands
    /// the sentence back.
    pub fn push(
        &mut self,
        addition: &str,
        path: &Expr,
        state: &mut EvaluationState,
        traversal_state: &StateManager,
    ) -> (r: Result<(), String>)
        requires
            old(self).wf(),
        ensures
            final(self).wf(),
            final(self).kind_view() == old(self).kind_view(),
            match spec_units_within(
                old(self).units_view(),
                addition@,
                traversal_state.character_ceiling,
            ) {
                Some(grown) => {
                    &&& r is Ok
                    &&& final(self).text_view() == old(self).text_view() + addition@
                    &&& final(self).units_view() == grown
                    &&& *final(state) == *old(state)
                },
                None => {
                    &&& r matches Err(reason) && reason@ == too_large(
                        old(self).kind_view(),
                        traversal_state.character_ceiling,
                    ) && deopted(*old(state), *final(state), path@, reason@)
                    &&& final(self).text_view() == old(self).text_view()
                    &&& final(self).units_view() == old(self).units_view()
                },
            },
    {
        let ceiling = traversal_state.character_ceiling;
        match units_within(self.units, addition, ceiling) {
            Some(grown) => {
                let ghost before = self.text@;
                self.text.append(addition);
                proof {
                    lemma_utf16_len_concat(before, addition@);
                    lemma_capped_add(utf16_len(before) as int, utf16_len(addition@) as int);
                }
                self.units = grown;
                Ok(())
            },
            None => {
                let reason = grown_string_too_large(self.kind, ceiling);
                deopt(path, state, reason.as_str());
                Err(reason)
            },
        }
    }

    /// Appends `value`'s `ToString`, measuring every piece as it is written:
    /// an array's elements and the commas between them are measured one by
    /// one, so a join is refused at the piece that passes the ceiling. A
    /// function has no string, and is refused.
    pub fn push_string_of(
        &mut self,
        value: &EvaluateResultValue,
        path: &Expr,
        state: &mut EvaluationState,
        traversal_state: &StateManager,
    ) -> (r: Result<(), StringAppend>)
        requires
            old(self).wf(),
        ensures
            final(self).wf(),
            final(self).kind_view() == old(self).kind_view(),
            r is Ok ==> (string_of(value@) matches Some(s) && final(self).text_view() == old(self).text_view() + s && *final(state) == *old(state)),
            string_of(value@) matches Some(s) && spec_units_within(
                old(self).units_view(),
                s,
                traversal_state.character_ceiling,
            ) is Some ==> r is Ok,
            r matches Err(StringAppend::NoStringForm) ==> string_of(value@) is None && *final(state) == *old(state),
            r matches Err(StringAppend::TooLarge(reason)) ==> reason@ == too_large(
                old(self).kind_view(),
                traversal_state.character_ceiling,
            ) && deopted(*old(state), *final(state), path@, reason@),
        decreases value,
    {
        match value {
            EvaluateResultValue::Expr(e) => match expr_string(e) {
                Some(text) => match self.push(text.as_str(), path, state, traversal_state) {
                    Ok(()) => Ok(()),
                    Err(reason) => Err(StringAppend::TooLarge(reason)),
                },
                None => Err(StringAppend::NoStringForm),
            },
            EvaluateResultValue::Vec(items) => self.push_joined(items, ",", path, state, traversal_state),
            EvaluateResultValue::ObjectMap(_) | EvaluateResultValue::EnvObject(_)
            | EvaluateResultValue::FunctionConfigMap(_) => {
                proof {
                    reveal_strlit("[object Object]");
                }
                match self.push("[object Object]", path, state, traversal_state) {
                    Ok(()) => Ok(()),
                    Err(reason) => Err(StringAppend::TooLarge(reason)),
                }
            },
            _ => Err(StringAppend::NoStringForm),
        }
    }

    /// Appends the elements of an array joined with `sep`, element by
    /// element.
    pub fn push_joined(
        &mut self,
        items: &Vec<EvaluateResultValue>,
        sep: &str,
        path: &Expr,
        state: &mut EvaluationState,
        traversal_state: &StateManager,
    ) -> (r: Result<(), StringAppend>)
        requires
            old(self).wf(),
        ensures
            final(self).wf(),
            final(self).kind_view() == old(self).kind_view(),
            r is Ok ==> (join_sep(svalues(items@), sep@) matches Some(s) && final(self).text_view()
                == old(self).text_view() + s && *final(state) == *old(state)),
            join_sep(svalues(items@), sep@) matches Some(s) && spec_units_within(
                old(self).units_view(),
                s,
                traversal_state.character_ceiling,
            ) is Some ==> r is Ok,
            r matches Err(StringAppend::NoStringForm) ==> join_sep(svalues(items@), sep@) is None
                && *final(state) == *old(state),
            r matches Err(StringAppend::TooLarge(reason)) ==> reason@ == too_large(
                old(self).kind_view(),
                traversal_state.character_ceiling,
            ) && deopted(*old(state), *final(state), path@, reason@),
        decreases items,
    {
        let ghost sv = svalues(items@);
        let ghost start = self.text@;
        let ghost st0 = *state;
        let ghost ceiling = traversal_state.character_ceiling;
        let ghost whole_fits = join_sep(sv, sep@) matches Some(s) && spec_units_within(
            self.units,
            s,
            ceiling,
        ) is Some;
        proof {
            lemma_svalues(items@);
            assert(sv.take(0) =~= Seq::<SValue>::empty());
            if join_sep(sv, sep@) is Some {
                lemma_join_prefix(sv, sep@, 0);
            }
        }
        let mut i: usize = 0;
        while i < items.len()
            invariant
                sv == svalues(items@),
                sv.len() == items@.len(),
                forall|j: int| 0 <= j < items@.len() ==> #[trigger] sv[j] == items@[j]@,
                i <= items@.len(),
                self.wf(),
                self.kind@ == old(self).kind@,
                start == old(self).text@,
                st0 == *old(state),
                *state == st0,
                ceiling == traversal_state.character_ceiling,
                join_sep(sv.take(i as int), sep@) is Some,
                self.text@ == start + join_sep(sv.take(i as int), sep@)->0,
                whole_fits == (join_sep(sv, sep@) matches Some(s) && spec_units_within(
                    old(self).units,
                    s,
                    ceiling,
                ) is Some),
                old(self).wf(),
            decreases items@.len() - i,
        {
            let ghost prefix = join_sep(sv.take(i as int), sep@)->0;
            let ghost between = if i > 0 {
                sep@
            } else {
                Seq::<char>::empty()
            };
            proof {
                assert(sv.take(i + 1).drop_last() =~= sv.take(i as int));
                assert(sv.take(i + 1).last() == sv[i as int]);
                lemma_utf16_len_concat(start, prefix);
                if whole_fits {
                    lemma_join_step_len(sv, sep@, i as int);
                    lemma_capped_add(utf16_len(start) as int, utf16_len(join_sep(sv, sep@)->0) as int);
                }
            }
            if i > 0 {
                match self.push(sep, path, state, traversal_state) {
                    Ok(()) => {},
                    Err(reason) => {
                        proof {
                            lemma_capped_add(
                                (utf16_len(start) + utf16_len(prefix)) as int,
                                utf16_len(sep@) as int,
                            );
                        }
                        return Err(StringAppend::TooLarge(reason));
                    },
                }
            }
            let ghost mid = self.text@;
            proof {
                assert(mid =~= start + (prefix + between));
                lemma_utf16_len_concat(prefix, between);
                lemma_utf16_len_concat(start, prefix + between);
            }
            let item = &items[i];
            if !evaluate_result_is_nullish(item) {
                match self.push_string_of(item, path, state, traversal_state) {
                    Ok(()) => {
                        proof {
                            assert(self.text@ =~= start + (prefix + between + string_of(sv[i as int])->0));
                        }
                    },
                    Err(e) => {
                        proof {
                            if join_sep(sv, sep@) is Some {
                                lemma_join_prefix(sv, sep@, i + 1);
                            }
                            if whole_fits {
                                lemma_utf16_len_concat(prefix + between, string_of(sv[i as int])->0);
                                lemma_capped_add(
                                    utf16_len(mid) as int,
                                    utf16_len(string_of(sv[i as int])->0) as int,
                                );
                            }
                        }
                        return Err(e);
                    },
                }
            }
            i = i + 1;
        }
        proof {
            assert(sv.take(items@.len() as int) =~= sv);
        }
        Ok(())
    }

    /// The string that was grown.
    pub fn into_text(self) -> (r: String)
        ensures
            r@ == self.text_view(),
    {
        self.text
    }
}

/// A join that has a string has one for every prefix of its elements, each no
/// longer than the whole.
proof fn lemma_join_prefix(items: Seq<SValue>, sep: Seq<char>, i: int)
    requires
        join_sep(items, sep) is Some,
        0 <= i <= items.len(),
    ensures
        join_sep(items.take(i), sep) is Some,
        utf16_len(join_sep(items.take(i), sep)->0) <= utf16_len(join_sep(items, sep)->0),
    decreases items.len(),
{
    if i == items.len() {
        assert(items.take(i) =~= items);
    } else {
        let rest = items.drop_last();
        assert(rest.take(i) =~= items.take(i));
        lemma_join_prefix(rest, sep, i);
        let between = if items.len() > 1 {
            sep
        } else {
            Seq::<char>::empty()
        };
        let p = join_sep(rest, sep)->0;
        if nullish(items.last()) {
            lemma_utf16_len_concat(p, between);
        } else {
            lemma_utf16_len_concat(p, between);
            lemma_utf16_len_concat(p + between, string_of(items.last())->0);
        }
    }
}

/// One more element adds its separator and its string to the join.
proof fn lemma_join_step_len(items: Seq<SValue>, sep: Seq<char>, i: int)
    requires
        join_sep(items, sep) is Some,
        0 <= i < items.len(),
    ensures
        join_sep(items.take(i + 1), sep) is Some,
        join_sep(items.take(i), sep) is Some,
        !nullish(items[i]) ==> string_of(items[i]) is Some,
        utf16_len(join_sep(items.take(i), sep)->0) + (if i > 0 {
            utf16_len(sep) as int
        } else {
            0int
        }) + (if nullish(items[i]) {
            0int
        } else {
            utf16_len(string_of(items[i])->0) as int
        }) == utf16_len(join_sep(items.take(i + 1), sep)->0),
        utf16_len(join_sep(items.take(i + 1), sep)->0) <= utf16_len(join_sep(items, sep)->0),
{
    lemma_join_prefix(items, sep, i + 1);
    let s = items.take(i + 1);
    assert(s.drop_last() =~= items.take(i));
    assert(s.last() == items[i]);
    let p = join_sep(items.take(i), sep)->0;
    let between = if i > 0 {
        sep
    } else {
        Seq::<char>::empty()
    };
    assert(utf16_len(Seq::<char>::empty()) == 0);
    lemma_utf16_len_concat(p, between);
    if !nullish(items[i]) {
        lemma_utf16_len_concat(p + between, string_of(items[i])->0);
    }
}

} // verus!
