use vstd::prelude::*;

use roaring::RoaringBitmap;

use crate::bitmap::bitmap_set;
use crate::constants::{NUM_PATTERNS, WORD_LENGTH};
use crate::utils::feedback;

verus! {

/// The color a single guessed letter receives: an exact positional match,
/// a miss, or a letter that occurs elsewhere in the target.
#[derive(Clone, Copy, PartialEq, Eq, Structural, Debug, Hash)]
pub enum Color {
    GREEN,
    GREY,
    YELLOW,
}

/// The colored result of making a guess, one color per letter position.
pub type MatchResult = Vec<Color>;

/// Base-3 digit of one color, for turning a pattern into a bucket index.
pub open spec fn color_code(c: Color) -> int {
    match c {
        Color::GREEN => 0,
        Color::GREY => 1,
        Color::YELLOW => 2,
    }
}

/// Code of the first `i` colors of a pattern, read as base-3 digits.
pub open spec fn encode_prefix(m: Seq<Color>, i: int) -> int
    decreases i,
{
    if i <= 0 {
        0
    } else {
        3 * encode_prefix(m, i - 1) + color_code(m[i - 1])
    }
}

/// The bucket index of a full feedback pattern: patterns of the fixed word
/// length map one-to-one onto `0 .. NUM_PATTERNS`.
pub open spec fn encode(m: Seq<Color>) -> int {
    encode_prefix(m, m.len() as int)
}

/// Three to the power `i`.
pub open spec fn pow3(i: int) -> int
    decreases i,
{
    if i <= 0 {
        1
    } else {
        3 * pow3(i - 1)
    }
}

pub proof fn lemma_pow3_mono(i: int, j: int)
    requires
        0 <= i <= j,
    ensures
        pow3(i) <= pow3(j),
        1 <= pow3(i),
    decreases j,
{
    if i < j {
        lemma_pow3_mono(i, j - 1);
    } else if 0 < i {
        lemma_pow3_mono(i - 1, i - 1);
    }
}

/// The outcome index: for every valid guess word and every feedback
/// pattern, the set of target-list indices that would produce that pattern
/// when the guess is played against them. Row `g` belongs to
/// `words_valid[g]`, and within a row the bucket at position `p` holds the
/// targets whose feedback pattern has code `p`.
#[derive(Debug)]
pub struct MatchMapping {
    pub words_valid: Vec<String>,
    pub words_target: Vec<String>,
    pub buckets: Vec<Vec<RoaringBitmap>>,
}

impl MatchMapping {
    /// The target indices that guess `g` sends to pattern code `p`.
    pub open spec fn bucket(self, g: int, p: int) -> Set<int> {
        bitmap_set(self.buckets@[g]@[p])
    }

    /// The index is built exactly from its two word lists: for every guess
    /// row, the buckets partition the target indices by feedback code.
    pub open spec fn wf(self) -> bool {
        &&& self.words_target@.len() <= u32::MAX
        &&& forall|w: int|
            0 <= w < self.words_valid@.len() ==> (#[trigger] self.words_valid@[w])@.len()
                == WORD_LENGTH
        &&& forall|w: int|
            0 <= w < self.words_target@.len() ==> (#[trigger] self.words_target@[w])@.len()
                == WORD_LENGTH
        &&& self.buckets@.len() == self.words_valid@.len()
        &&& forall|g: int|
            0 <= g < self.buckets@.len() ==> (#[trigger] self.buckets@[g])@.len() == NUM_PATTERNS
        &&& forall|g: int, p: int, t: int|
            0 <= g < self.buckets@.len() && 0 <= p < NUM_PATTERNS ==> (#[trigger] self.bucket(
                g,
                p,
            ).contains(t) <==> (0 <= t < self.words_target@.len() && encode(
                feedback(self.words_valid@[g]@, self.words_target@[t]@),
            ) == p))
    }
}

/// Pattern codes are one-to-one: two patterns of equal length with the
/// same code are the same pattern.
pub proof fn lemma_encode_injective(m1: Seq<Color>, m2: Seq<Color>, i: int)
    requires
        0 <= i,
        encode_prefix(m1, i) == encode_prefix(m2, i),
    ensures
        forall|j: int| 0 <= j < i ==> m1[j] == m2[j],
    decreases i,
{
    if i > 0 {
        lemma_encode_bound(m1, i - 1);
        lemma_encode_bound(m2, i - 1);
        assert(color_code(m1[i - 1]) == color_code(m2[i - 1]) && encode_prefix(m1, i - 1)
            == encode_prefix(m2, i - 1)) by (nonlinear_arith)
            requires
                3 * encode_prefix(m1, i - 1) + color_code(m1[i - 1]) == 3 * encode_prefix(m2, i - 1)
                    + color_code(m2[i - 1]),
                0 <= color_code(m1[i - 1]) < 3,
                0 <= color_code(m2[i - 1]) < 3,
        ;
        lemma_encode_injective(m1, m2, i - 1);
        assert(m1[i - 1] == m2[i - 1]);
    }
}

/// Outcome-index round trip: under any guess row of a well-formed index,
/// a target index appears in the bucket of exactly one pattern code — the
/// code of the feedback pattern its word produces against that guess.
pub proof fn lemma_outcome_index_partition(mm: MatchMapping, g: int, t: int)
    requires
        mm.wf(),
        0 <= g < mm.words_valid@.len(),
        0 <= t < mm.words_target@.len(),
    ensures
        mm.bucket(g, encode(feedback(mm.words_valid@[g]@, mm.words_target@[t]@))).contains(t),
        forall|p: int|
            0 <= p < NUM_PATTERNS && p != encode(
                feedback(mm.words_valid@[g]@, mm.words_target@[t]@),
            ) ==> !(#[trigger] mm.bucket(g, p)).contains(t),
{
    let m = feedback(mm.words_valid@[g]@, mm.words_target@[t]@);
    lemma_encode_bound(m, m.len() as int);
    lemma_pow3_small();
    assert(m.len() == WORD_LENGTH);
    assert(0 <= encode(m) < NUM_PATTERNS);
}

pub proof fn lemma_pow3_small()
    ensures
        pow3(0) == 1,
        pow3(1) == 3,
        pow3(2) == 9,
        pow3(3) == 27,
        pow3(4) == 81,
        pow3(5) == 243,
{
    assert(pow3(0) == 1);
    assert(pow3(1) == 3);
    assert(pow3(2) == 9);
    assert(pow3(3) == 27);
    assert(pow3(4) == 81);
    assert(pow3(5) == 243);
}

/// A pattern's code stays below three to the power of its length.
pub proof fn lemma_encode_bound(m: Seq<Color>, i: int)
    requires
        0 <= i,
    ensures
        0 <= encode_prefix(m, i) < pow3(i),
    decreases i,
{
    if i > 0 {
        lemma_encode_bound(m, i - 1);
    }
}

/// Compute the bucket index of a feedback pattern.
pub fn encode_match(m: &MatchResult) -> (code: usize)
    requires
        m@.len() == WORD_LENGTH,
    ensures
        code == encode(m@),
        code < NUM_PATTERNS,
{
    let mut code: usize = 0;
    let mut j: usize = 0;
    while j < WORD_LENGTH
        invariant
            m@.len() == WORD_LENGTH,
            j <= WORD_LENGTH,
            code == encode_prefix(m@, j as int),
            code < pow3(j as int),
        decreases WORD_LENGTH - j,
    {
        proof {
            lemma_pow3_small();
            lemma_pow3_mono(j as int, WORD_LENGTH as int);
        }
        let digit: usize = match m[j] {
            Color::GREEN => 0,
            Color::GREY => 1,
            Color::YELLOW => 2,
        };
        code = 3 * code + digit;
        j = j + 1;
    }
    proof {
        lemma_pow3_small();
    }
    code
}

} // verus!
