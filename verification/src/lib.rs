//! Turns a constrained markup document — a page of numbered sections
//! holding text, nested lists and line breaks — into indentation-aware,
//! hard-wrapped console text. A verified state machine builds the typed
//! document tree from a stream of parse events, and a verified recursive
//! renderer turns the tree into the final string; both carry contracts
//! stating exactly what they produce.

use vstd::prelude::*;

pub mod builder;
pub mod content;
pub mod events;
pub mod laws;
pub mod page;
pub mod section;
pub mod textops;

verus! {

/// Maximum width, in characters, of an output line before hard wrapping.
pub const MAX_TEXT_LEN: usize = 50;

/// Number of spaces contributed by one level of indentation.
pub const INDENTATION_SIZE: usize = 2;

/// Width available for text at the given indentation level; never below one,
/// so that wrapping always makes progress.
pub open spec fn spec_effective_width(indentation: nat) -> nat {
    if indentation * (INDENTATION_SIZE as nat) < MAX_TEXT_LEN as nat {
        ((MAX_TEXT_LEN as int) - indentation * (INDENTATION_SIZE as int)) as nat
    } else {
        1
    }
}

/// The indentation level one deeper, capped at the machine's limit so that
/// rendering is total; no realizable tree nests that far.
pub open spec fn spec_next_level(i: nat) -> nat {
    if i < usize::MAX as nat {
        (i + 1) as nat
    } else {
        i
    }
}

/// Computes the next indentation level.
pub fn next_level(i: usize) -> (r: usize)
    ensures
        r == spec_next_level(i as nat),
{
    if i < usize::MAX {
        i + 1
    } else {
        i
    }
}

/// Computes the line width left over after indentation.
pub fn effective_width(indentation: usize) -> (w: usize)
    ensures
        w == spec_effective_width(indentation as nat),
        1 <= w <= MAX_TEXT_LEN,
{
    if indentation < MAX_TEXT_LEN / INDENTATION_SIZE {
        MAX_TEXT_LEN - indentation * INDENTATION_SIZE
    } else {
        1
    }
}

} // verus!
