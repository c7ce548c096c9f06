//! The debate engine.
//!
//! A debate is two opencode sessions arguing a proposition under a format that
//! decides how turns are structured and when to stop. The goal is truth-seeking
//! rather than persuasion: both sides are told that conceding a point they
//! cannot support is a success, and formats are chosen to make convergence, or
//! the precise point of irreducible disagreement, visible.

pub mod collect;
pub mod conduct;
pub mod credence;
pub mod engine;
pub mod format;
pub mod laws;
pub mod parse;
pub mod readings;
pub mod runs;
pub mod state;
pub mod tally;

use vstd::prelude::*;

use crate::debate::credence::CredenceFormat;
use crate::debate::format::{DebateFormat, FormatId};

verus! {

/// The implementation behind a format, where there is one.
pub fn format_for(id: FormatId) -> (r: Option<Box<dyn DebateFormat>>)
    ensures
        r is Some <==> id == FormatId::Credence,
        r matches Some(f) ==> f.format_id() == id && format::same_format(&*f, &CredenceFormat),
{
    match id {
        FormatId::Credence => Some(Box::new(CredenceFormat)),
        _ => None,
    }
}

} // verus!
