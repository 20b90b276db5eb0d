use vstd::prelude::*;

verus! {

/// Every word handled by the engine has exactly this many letters.
pub const WORD_LENGTH: usize = 5;

/// Number of distinct feedback patterns over a word: three colors per
/// position, `3^WORD_LENGTH` in all.
pub const NUM_PATTERNS: usize = 243;

} // verus!
