//! Stack for walks that recurse once per level of the tree they read.
//!
//! A walk over an authored expression recurses as deep as the expression
//! nests. Each level runs on a stack that is grown by a fixed segment when
//! less than a level's headroom is left, so the depth ceiling rather than the
//! thread's stack is what bounds how deep a walk may go.
use vstd::prelude::*;

use crate::state::DEEPEST_CARRIED;

verus! {

/// Room one level of a walk may take before the next level needs more stack.
pub const HEADROOM_PER_LEVEL: usize = 1048576;

/// How much stack is added when a level finds less than its headroom left.
pub const SEGMENT: usize = 16777216;

/// The stack one level of a walk is budgeted, for a claim made up front.
pub const BYTES_PER_LEVEL: usize = 65536;

/// Runs `work` on a stack with at least a level's headroom left, growing the
/// stack by a segment first where less is left.
///
/// Trusted: `stacker::maybe_grow` runs the callback once, either on the
/// current stack or on a freshly allocated one, and returns what it returned.
/// That is all this contract claims; that allocating a segment can fail on a
/// machine out of memory is left unsaid.
#[verifier::external_body]
pub(crate) fn grown_per_level<R, F: FnOnce() -> R>(work: F) -> (r: R)
    requires
        work.requires(()),
    ensures
        work.ensures((), r),
{
    stacker::maybe_grow(HEADROOM_PER_LEVEL, SEGMENT, work)
}

/// Whether a walk `levels` deep fits the largest stack a claim is made for.
pub fn carriable(levels: usize) -> (r: bool)
    ensures
        r == (levels <= DEEPEST_CARRIED),
{
    levels <= DEEPEST_CARRIED
}

/// The stack claimed for a walk `levels` deep.
pub fn claim_for(levels: usize) -> (r: usize)
    requires
        levels <= DEEPEST_CARRIED,
    ensures
        r == levels * BYTES_PER_LEVEL,
        r <= DEEPEST_CARRIED * BYTES_PER_LEVEL,
{
    assert(levels * BYTES_PER_LEVEL <= DEEPEST_CARRIED * BYTES_PER_LEVEL) by (nonlinear_arith)
        requires
            levels <= DEEPEST_CARRIED,
    ;
    levels * BYTES_PER_LEVEL
}

} // verus!
