//! ABC music notation to SVG rendering: the decisions behind the layout.
//!
//! The crate turns a parsed ABC tune into what a score needs: where each
//! pitch sits on the staff, which glyph a note head, stem or flag takes, and
//! how much horizontal weight each symbol carries. Note lengths arrive as the
//! IEEE-754 single-precision encodings the ABC parser produces; every decision
//! taken on them is stated over the exact value that the encoding denotes.

use vstd::prelude::*;

pub mod float_bits;
pub mod pitch;
pub mod symbol;
pub mod glyph;
pub mod lexis;
pub mod tuplet;
pub mod reach;
pub mod tune;

verus! {

/// The placeholder greeting of the crate.
pub fn placeholder() -> (r: &'static str)
    ensures
        r@ == "abcrend - coming soon!"@,
{
    "abcrend - coming soon!"
}

} // verus!
