use vstd::prelude::*;

use crate::bitmap::{bm_insert, bm_new, bitmap_set};
use crate::constants::{NUM_PATTERNS, WORD_LENGTH};
use crate::rng::{mt_draw, rng_new, rng_next};
use crate::types::{encode, encode_match, MatchMapping};
use crate::utils::{
    clone_words, compute_match, contains_word, contains_word_spec, feedback, find_word,
    first_index_of,
};
use roaring::RoaringBitmap;

verus! {

/// Puzzle ids above this threshold select targets from a pool that leaves
/// out two legacy spellings; earlier ids keep the full target list. The
/// cut-off reproduces the published daily-puzzle behavior.
pub const LEGACY_ID_THRESHOLD: usize = 187;

/// Immutable configuration of one game variant: how many boards are played
/// at once, how many guesses are allowed, the alphabet, and the word lists.
/// Target words are referenced elsewhere by their index into `words_target`.
#[derive(Clone, Debug)]
pub struct GameRules {
    pub num_boards: usize,
    pub num_guesses: usize,
    pub alphabet: Vec<String>,
    pub words_target: Vec<String>,
    pub words_valid: Vec<String>,
}

/// How many draws from the generator each board slot is budgeted during
/// target selection. Rejection sampling retries on duplicate words; the
/// budget bounds the retries so that selection always terminates, and is
/// generous enough that a real word list never comes close to exhausting it.
pub const DRAWS_PER_BOARD: usize = 1024;

/// Number of draws taken from the generator when selecting targets for
/// `n` boards, saturated at the machine limit.
pub open spec fn draw_budget(n: int) -> int {
    if n > usize::MAX as int / DRAWS_PER_BOARD as int {
        usize::MAX as int
    } else {
        n * DRAWS_PER_BOARD as int
    }
}

/// The first `n` draws of the generator seeded with `seed`.
pub open spec fn mt_stream(seed: u32, n: int) -> Seq<u32> {
    Seq::new(n as nat, |k: int| mt_draw(seed, k))
}

/// The words that the draws select from the pool: each draw picks a word by
/// index modulo the pool size, duplicates of words already chosen are
/// skipped, and selection stops once `want` words are gathered (or the
/// draws run out).
pub open spec fn select_from(
    pool: Seq<String>,
    draws: Seq<u32>,
    chosen: Seq<String>,
    want: nat,
) -> Seq<String>
    decreases draws.len(),
{
    if pool.len() == 0 || chosen.len() >= want || draws.len() == 0 {
        chosen
    } else {
        let w = pool[draws[0] as int % pool.len() as int];
        if contains_word_spec(chosen, w@) {
            select_from(pool, draws.drop_first(), chosen, want)
        } else {
            select_from(pool, draws.drop_first(), chosen.push(w), want)
        }
    }
}

/// Words selected by `select_from` stay distinct, stay within the pool, and
/// never exceed the wanted count, whenever the already-chosen words do.
pub proof fn lemma_select_from_props(
    pool: Seq<String>,
    draws: Seq<u32>,
    chosen: Seq<String>,
    want: nat,
)
    requires
        chosen.len() <= want,
        forall|i: int, j: int| 0 <= i < j < chosen.len() ==> chosen[i]@ != chosen[j]@,
        forall|i: int|
            0 <= i < chosen.len() ==> contains_word_spec(pool, (#[trigger] chosen[i])@),
    ensures
        select_from(pool, draws, chosen, want).len() <= want,
        forall|i: int, j: int|
            0 <= i < j < select_from(pool, draws, chosen, want).len() ==> select_from(
                pool,
                draws,
                chosen,
                want,
            )[i]@ != select_from(pool, draws, chosen, want)[j]@,
        forall|i: int|
            0 <= i < select_from(pool, draws, chosen, want).len() ==> contains_word_spec(
                pool,
                (#[trigger] select_from(pool, draws, chosen, want)[i])@,
            ),
    decreases draws.len(),
{
    if !(pool.len() == 0 || chosen.len() >= want || draws.len() == 0) {
        let w = pool[draws[0] as int % pool.len() as int];
        if contains_word_spec(chosen, w@) {
            lemma_select_from_props(pool, draws.drop_first(), chosen, want);
        } else {
            lemma_select_from_props(pool, draws.drop_first(), chosen.push(w), want);
        }
    }
}

/// Walk the draws in order and gather the words they select, skipping
/// duplicates, until `want` words are chosen or the draws are exhausted.
/// The result is exactly what `select_from` states for these draws.
pub fn select_targets(pool: &Vec<String>, draws: &Vec<u32>, want: usize) -> (r: Vec<String>)
    ensures
        r@ == select_from(pool@, draws@, Seq::<String>::empty(), want as nat),
{
    let mut chosen: Vec<String> = Vec::new();
    let mut i: usize = 0;
    proof {
        assert(draws@.skip(0) =~= draws@);
    }
    while i < draws.len()
        invariant
            i <= draws@.len(),
            select_from(pool@, draws@, Seq::<String>::empty(), want as nat) == select_from(
                pool@,
                draws@.skip(i as int),
                chosen@,
                want as nat,
            ),
        decreases draws@.len() - i,
    {
        if pool.len() == 0 || chosen.len() >= want {
            proof {
                assert(select_from(pool@, draws@.skip(i as int), chosen@, want as nat) == chosen@);
            }
            return chosen;
        }
        proof {
            assert(draws@.skip(i as int).drop_first() =~= draws@.skip(i as int + 1));
            assert(draws@.skip(i as int)[0] == draws@[i as int]);
        }
        let idx = (draws[i] as usize) % pool.len();
        let word = pool[idx].clone();
        if !contains_word(&chosen, word.as_str()) {
            chosen.push(word);
        }
        i = i + 1;
    }
    proof {
        assert(draws@.skip(i as int) =~= Seq::<u32>::empty());
    }
    chosen
}

/// The target list with the first occurrence of `w` taken out, if any.
pub open spec fn remove_first(ws: Seq<String>, w: Seq<char>) -> Seq<String> {
    if contains_word_spec(ws, w) {
        ws.remove(first_index_of(ws, w))
    } else {
        ws
    }
}

/// The pool that targets for puzzle `id` are drawn from: the target list,
/// with the two legacy spellings taken out for ids past the threshold.
pub open spec fn legacy_pool(ws: Seq<String>, id: int) -> Seq<String> {
    if id > LEGACY_ID_THRESHOLD as int {
        remove_first(remove_first(ws, "GIPSY"@), "GYPSY"@)
    } else {
        ws
    }
}

impl GameRules {
    /// Word lists fit the fixed word length, target indices fit in `u32`,
    /// and every target word is an eligible guess.
    pub open spec fn wf(self) -> bool {
        &&& self.words_target@.len() <= u32::MAX
        &&& forall|w: int|
            0 <= w < self.words_valid@.len() ==> (#[trigger] self.words_valid@[w])@.len()
                == WORD_LENGTH
        &&& forall|w: int|
            0 <= w < self.words_target@.len() ==> (#[trigger] self.words_target@[w])@.len()
                == WORD_LENGTH
        &&& forall|t: int|
            0 <= t < self.words_target@.len() ==> contains_word_spec(
                self.words_valid@,
                (#[trigger] self.words_target@[t])@,
            )
    }

    /// A copy of this variant with the board and guess counts overridden.
    pub fn with_boards_and_guesses(self, boards: usize, guesses: usize) -> (r: Self)
        ensures
            r.num_boards == boards,
            r.num_guesses == guesses,
            r.alphabet == self.alphabet,
            r.words_target == self.words_target,
            r.words_valid == self.words_valid,
    {
        let mut rules = self;
        rules.num_boards = boards;
        rules.num_guesses = guesses;
        rules
    }

    /// Deterministically pick up to `num_boards` distinct target words for
    /// a puzzle id: seed the generator with the id and select from the id's
    /// legacy pool by rejection sampling, within the drawing budget. The
    /// result is exactly the selection that the seeded stream makes, so
    /// equal inputs always pick the same words; every word returned comes
    /// from that pool, and no word repeats.
    pub fn get_targets_for_id(&self, id: usize) -> (r: Vec<String>)
        requires
            legacy_pool(self.words_target@, id as int).len() > 0,
        ensures
            r@ == select_from(
                legacy_pool(self.words_target@, id as int),
                mt_stream(id as u32, draw_budget(self.num_boards as int)),
                Seq::<String>::empty(),
                self.num_boards as nat,
            ),
            r@.len() <= self.num_boards,
            forall|i: int|
                0 <= i < r@.len() ==> contains_word_spec(
                    legacy_pool(self.words_target@, id as int),
                    (#[trigger] r@[i])@,
                ),
            forall|i: int, j: int| 0 <= i < j < r@.len() ==> r@[i]@ != r@[j]@,
    {
        let mut target_pool = clone_words(&self.words_target);
        if id > LEGACY_ID_THRESHOLD {
            match find_word(&target_pool, "GIPSY") {
                Some(idx) => {
                    target_pool.remove(idx);
                },
                None => {},
            }
            match find_word(&target_pool, "GYPSY") {
                Some(idx) => {
                    target_pool.remove(idx);
                },
                None => {},
            }
        }
        proof {
            assert(target_pool@ == legacy_pool(self.words_target@, id as int));
        }
        let budget = if self.num_boards > usize::MAX / DRAWS_PER_BOARD {
            usize::MAX
        } else {
            self.num_boards * DRAWS_PER_BOARD
        };
        let mut draws: Vec<u32> = Vec::new();
        let mut rng = rng_new(#[verifier::truncate] (id as u32));
        while draws.len() < budget
            invariant
                rng.seed() == id as u32,
                rng.drawn() == draws@.len(),
                draws@.len() <= budget,
                forall|k: int| 0 <= k < draws@.len() ==> draws@[k] == mt_draw(id as u32, k),
            decreases budget - draws@.len(),
        {
            let draw = rng_next(&mut rng);
            draws.push(draw);
        }
        proof {
            assert(budget as int == draw_budget(self.num_boards as int));
            assert(draws@ =~= mt_stream(id as u32, budget as int));
        }
        let r = select_targets(&target_pool, &draws, self.num_boards);
        proof {
            lemma_select_from_props(
                target_pool@,
                draws@,
                Seq::<String>::empty(),
                self.num_boards as nat,
            );
        }
        r
    }

    /// Build the outcome index for this variant: for every valid guess and
    /// every target, score the guess against the target and file the target
    /// index in the bucket of the resulting pattern code.
    pub fn gen_match_mapping(&self) -> (mm: MatchMapping)
        requires
            self.wf(),
        ensures
            mm.wf(),
            mm.words_valid@ == self.words_valid@,
            mm.words_target@ == self.words_target@,
    {
        let mut buckets: Vec<Vec<RoaringBitmap>> = Vec::new();
        let mut g: usize = 0;
        while g < self.words_valid.len()
            invariant
                self.wf(),
                g <= self.words_valid@.len(),
                buckets@.len() == g,
                forall|gg: int|
                    0 <= gg < g ==> (#[trigger] buckets@[gg])@.len() == NUM_PATTERNS,
                forall|gg: int, p: int, t: int|
                    0 <= gg < g && 0 <= p < NUM_PATTERNS ==> (#[trigger] bitmap_set(
                        buckets@[gg]@[p],
                    ).contains(t) <==> (0 <= t < self.words_target@.len() && encode(
                        feedback(self.words_valid@[gg]@, self.words_target@[t]@),
                    ) == p)),
            decreases self.words_valid@.len() - g,
        {
            let mut row: Vec<RoaringBitmap> = Vec::new();
            let mut p: usize = 0;
            while p < NUM_PATTERNS
                invariant
                    p <= NUM_PATTERNS,
                    row@.len() == p,
                    forall|q: int, t: int|
                        0 <= q < p ==> !(#[trigger] bitmap_set(row@[q]).contains(t)),
                decreases NUM_PATTERNS - p,
            {
                row.push(bm_new());
                p = p + 1;
            }
            let mut t: usize = 0;
            while t < self.words_target.len()
                invariant
                    self.wf(),
                    g < self.words_valid@.len(),
                    t <= self.words_target@.len(),
                    row@.len() == NUM_PATTERNS,
                    forall|p2: int, x: int|
                        0 <= p2 < NUM_PATTERNS ==> (#[trigger] bitmap_set(row@[p2]).contains(x)
                            <==> (0 <= x < t && encode(
                            feedback(self.words_valid@[g as int]@, self.words_target@[x]@),
                        ) == p2)),
                decreases self.words_target@.len() - t,
            {
                let mr = compute_match(self.words_valid[g].as_str(), self.words_target[t].as_str());
                let code = encode_match(&mr);
                bm_insert(&mut row[code], t as u32);
                t = t + 1;
            }
            buckets.push(row);
            g = g + 1;
        }
        MatchMapping {
            words_valid: clone_words(&self.words_valid),
            words_target: clone_words(&self.words_target),
            buckets,
        }
    }
}

} // verus!
