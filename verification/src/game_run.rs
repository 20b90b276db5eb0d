use vstd::prelude::*;

use vstd::arithmetic::div_mod::{lemma_div_is_ordered, lemma_div_multiples_vanish};
use vstd::arithmetic::mul::{lemma_mul_inequality, lemma_mul_is_distributive_add};

use crate::bitmap::{
    bitmap_set, bm_and_assign, bm_clone, bm_insert_range_below, bm_intersection_len, bm_len,
    bm_max, bm_new, bm_to_vec, lemma_bounded_set_len, lemma_intersect_len,
};
use crate::constants::{NUM_PATTERNS, WORD_LENGTH};
use crate::game_rules::GameRules;
use crate::types::{encode, encode_match, MatchMapping, MatchResult};
use crate::utils::{compute_match, contains_word_spec, feedback, find_word, first_index_of, str_eq};
use roaring::RoaringBitmap;

verus! {

/// Fixed-point scale of expected-reduction scores: scores are rationals,
/// reported as the floor of their value times this scale.
pub const REDUCTION_SCALE: u128 = 4294967296;

/// Score reported for a guess that is the only remaining possibility of
/// some board: maximal, so that a known answer always outranks a ranked one.
pub const KNOWN_ANSWER_SCORE: u128 = u128::MAX;

/// Size of the overlap between a possibility set and bucket `p` of guess
/// row `g`: how many still-possible targets would answer the guess with the
/// pattern of code `p`.
pub open spec fn overlap(possible: Set<int>, mm: MatchMapping, g: int, p: int) -> int {
    possible.intersect(mm.bucket(g, p)).len() as int
}

/// Numerator of the expected-reduction score over the first `p` buckets:
/// each bucket contributes its probability weight (the overlap) times the
/// possibilities it would eliminate.
pub open spec fn red_num(possible: Set<int>, mm: MatchMapping, g: int, p: int) -> int
    decreases p,
{
    if p <= 0 {
        0
    } else {
        red_num(possible, mm, g, p - 1) + overlap(possible, mm, g, p - 1) * (possible.len()
            - overlap(possible, mm, g, p - 1))
    }
}

/// Denominator of the expected-reduction score over the first `p` buckets:
/// the total probability weight.
pub open spec fn red_den(possible: Set<int>, mm: MatchMapping, g: int, p: int) -> int
    decreases p,
{
    if p <= 0 {
        0
    } else {
        red_den(possible, mm, g, p - 1) + overlap(possible, mm, g, p - 1)
    }
}

/// Expected number of possibilities that playing the guess of row `g` would
/// eliminate, over the probability distribution that the overlaps induce,
/// in fixed point. A guess with no probability mass scores zero rather
/// than dividing by zero.
pub open spec fn board_reduction(possible: Set<int>, mm: MatchMapping, g: int) -> int {
    let num = red_num(possible, mm, g, NUM_PATTERNS as int);
    let den = red_den(possible, mm, g, NUM_PATTERNS as int);
    if den == 0 {
        0
    } else {
        num * (REDUCTION_SCALE as int) / den
    }
}

proof fn lemma_red_sums_bounds(possible: Set<int>, mm: MatchMapping, g: int, p: int)
    requires
        possible.finite(),
        0 <= p,
    ensures
        0 <= red_den(possible, mm, g, p),
        0 <= red_num(possible, mm, g, p) <= possible.len() * red_den(possible, mm, g, p),
    decreases p,
{
    if p > 0 {
        lemma_red_sums_bounds(possible, mm, g, p - 1);
        let l = possible.len() as int;
        let o = overlap(possible, mm, g, p - 1);
        lemma_intersect_len(possible, mm.bucket(g, p - 1));
        assert(0 <= o <= l);
        assert(o * (l - o) <= l * o && 0 <= o * (l - o)) by (nonlinear_arith)
            requires
                0 <= o <= l,
        ;
        lemma_mul_is_distributive_add(l, red_den(possible, mm, g, p - 1), o);
    }
}

/// Mutable state of one board: the hidden target word, the parallel guess
/// and feedback histories, the set of target indices still consistent with
/// every feedback received, and whether the target has been guessed.
#[derive(Debug)]
pub struct Board {
    pub target: String,
    pub guesses: Vec<String>,
    pub matches: Vec<MatchResult>,
    pub possible: RoaringBitmap,
    pub solved: bool,
}

/// How one guess changes a board: a solved board does not move; otherwise
/// the guess and its feedback are appended, the board is solved exactly
/// when the guess is its target, and the possibility set is narrowed to the
/// targets that would have produced the same feedback pattern — so it never
/// grows.
pub open spec fn board_step(pre: Board, post: Board, guess: Seq<char>, mm: MatchMapping) -> bool {
    if pre.solved {
        post == pre
    } else {
        &&& post.target == pre.target
        &&& post.solved == (guess == pre.target@)
        &&& post.guesses@.len() == pre.guesses@.len() + 1
        &&& forall|k: int| 0 <= k < pre.guesses@.len() ==> post.guesses@[k] == pre.guesses@[k]
        &&& post.guesses@[pre.guesses@.len() as int]@ == guess
        &&& post.matches@.len() == pre.matches@.len() + 1
        &&& forall|k: int| 0 <= k < pre.matches@.len() ==> post.matches@[k] == pre.matches@[k]
        &&& post.matches@[pre.matches@.len() as int]@ == feedback(guess, pre.target@)
        &&& bitmap_set(post.possible) == bitmap_set(pre.possible).intersect(
            mm.bucket(
                first_index_of(mm.words_valid@, guess),
                encode(feedback(guess, pre.target@)),
            ),
        )
        &&& bitmap_set(post.possible).len() <= bitmap_set(pre.possible).len()
    }
}

impl Board {
    /// The board fits the outcome index it is played against: its target is
    /// one of the index's target words, its possibility set stays within
    /// the target index range, and — solved or not — the set holds every
    /// index whose word is the board's target.
    pub open spec fn wf(self, mm: MatchMapping) -> bool {
        &&& self.target@.len() == WORD_LENGTH
        &&& contains_word_spec(mm.words_target@, self.target@)
        &&& bitmap_set(self.possible).finite()
        &&& forall|t: int|
            bitmap_set(self.possible).contains(t) ==> 0 <= t < mm.words_target@.len()
        &&& forall|t: int|
            0 <= t < mm.words_target@.len() && (#[trigger] mm.words_target@[t])@ == self.target@
                ==> bitmap_set(self.possible).contains(t)
        &&& self.matches@.len() == self.guesses@.len()
    }

    /// A fresh board for `target`, with `possible` as its initial
    /// possibility set and no history.
    pub fn with_target_and_possible(target: String, possible: RoaringBitmap) -> (b: Board)
        ensures
            b.target == target,
            b.guesses@.len() == 0,
            b.matches@.len() == 0,
            b.possible == possible,
            b.solved == false,
    {
        Board { target, guesses: Vec::new(), matches: Vec::new(), possible, solved: false }
    }

    /// Play one guess: no-op if already solved, otherwise score the guess
    /// against this board's target, intersect the possibility set with the
    /// index bucket of the observed pattern, mark solved on an exact hit,
    /// and append guess and pattern to the history.
    pub fn add_guess(&mut self, guess: String, match_mapping: &MatchMapping)
        requires
            old(self).wf(*match_mapping),
            match_mapping.wf(),
            contains_word_spec(match_mapping.words_valid@, guess@),
        ensures
            final(self).wf(*match_mapping),
            board_step(*old(self), *final(self), guess@, *match_mapping),
    {
        if self.solved {
            return ;
        }
        proof {
            let ghost w = choose|i: int|
                0 <= i < match_mapping.words_valid@.len() && match_mapping.words_valid@[i]@
                    == guess@;
            assert(guess@.len() == WORD_LENGTH);
        }
        let match_result = compute_match(guess.as_str(), self.target.as_str());
        let code = encode_match(&match_result);
        let g_idx = match find_word(&match_mapping.words_valid, guess.as_str()) {
            Some(i) => i,
            None => {
                proof {
                    assert(false);
                }
                0
            },
        };
        proof {
            lemma_intersect_len(
                bitmap_set(self.possible),
                match_mapping.bucket(g_idx as int, code as int),
            );
        }
        bm_and_assign(&mut self.possible, &match_mapping.buckets[g_idx][code]);
        if str_eq(guess.as_str(), self.target.as_str()) {
            self.solved = true;
        }
        self.matches.push(match_result);
        self.guesses.push(guess);
    }

    /// Expected number of possibilities this guess would eliminate, were it
    /// played against the unknown true target: the probability-weighted sum,
    /// over the feedback patterns the guess can produce, of the
    /// possibilities each pattern rules out, in fixed point.
    pub fn calculate_possiblity_reduction(&self, guess: &str, match_mapping: &MatchMapping) -> (r:
        u128)
        requires
            self.wf(*match_mapping),
            match_mapping.wf(),
            contains_word_spec(match_mapping.words_valid@, guess@),
        ensures
            r == board_reduction(
                bitmap_set(self.possible),
                *match_mapping,
                first_index_of(match_mapping.words_valid@, guess@),
            ),
            r <= (u32::MAX as u128) * REDUCTION_SCALE,
    {
        let g_idx = match find_word(&match_mapping.words_valid, guess) {
            Some(i) => i,
            None => {
                proof {
                    assert(false);
                }
                0
            },
        };
        let ghost set = bitmap_set(self.possible);
        let ghost mm = *match_mapping;
        let ghost g = g_idx as int;
        proof {
            lemma_bounded_set_len(set, mm.words_target@.len() as int);
        }
        let l = bm_len(&self.possible);
        let mut num: u128 = 0;
        let mut den: u128 = 0;
        let mut p: usize = 0;
        while p < NUM_PATTERNS
            invariant
                self.wf(mm),
                mm.wf(),
                mm == *match_mapping,
                set == bitmap_set(self.possible),
                g == g_idx as int,
                0 <= g < mm.buckets@.len(),
                p <= NUM_PATTERNS,
                l == set.len(),
                l <= u32::MAX,
                num == red_num(set, mm, g, p as int),
                den == red_den(set, mm, g, p as int),
                num <= (p as int) * ((u32::MAX as int) * (u32::MAX as int)),
                den <= (p as int) * (u32::MAX as int),
            decreases NUM_PATTERNS - p,
        {
            let o = bm_intersection_len(&self.possible, &match_mapping.buckets[g_idx][p]);
            proof {
                lemma_intersect_len(set, mm.bucket(g, p as int));
                assert(o <= l);
                assert((o as int) * ((l - o) as int) <= (u32::MAX as int) * (u32::MAX as int))
                    by (nonlinear_arith)
                    requires
                        0 <= o as int <= u32::MAX as int,
                        0 <= (l - o) as int <= u32::MAX as int,
                ;
            }
            num = num + (o as u128) * ((l - o) as u128);
            den = den + (o as u128);
            p = p + 1;
        }
        if den == 0 {
            0
        } else {
            proof {
                lemma_red_sums_bounds(set, mm, g, NUM_PATTERNS as int);
                let n = num as int;
                let d = den as int;
                let li = l as int;
                let s = REDUCTION_SCALE as int;
                lemma_mul_inequality(n, li * d, s);
                assert((li * d) * s == d * (li * s)) by (nonlinear_arith);
                lemma_div_is_ordered(n * s, d * (li * s), d);
                lemma_div_multiples_vanish(li * s, d);
                assert(n * s / d <= li * s);
                lemma_mul_inequality(li, u32::MAX as int, s);
            }
            num * REDUCTION_SCALE / den
        }
    }
}

/// Sum of the possibility-set sizes of the first `i` boards.
pub open spec fn score_prefix(boards: Seq<Board>, i: int) -> int
    decreases i,
{
    if i <= 0 {
        0
    } else {
        score_prefix(boards, i - 1) + bitmap_set(boards[i - 1].possible).len()
    }
}

proof fn lemma_score_prefix_le(b1: Seq<Board>, b2: Seq<Board>, i: int)
    requires
        0 <= i <= b1.len(),
        b1.len() == b2.len(),
        forall|b: int|
            0 <= b < b1.len() ==> bitmap_set(b2[b].possible).len() <= bitmap_set(
                b1[b].possible,
            ).len(),
    ensures
        score_prefix(b2, i) <= score_prefix(b1, i),
    decreases i,
{
    if i > 0 {
        lemma_score_prefix_le(b1, b2, i - 1);
    }
}

/// Sum over the first `i` boards of the expected reduction that the guess
/// of row `g` would bring each board.
pub open spec fn run_reduction_prefix(boards: Seq<Board>, mm: MatchMapping, g: int, i: int) -> int
    decreases i,
{
    if i <= 0 {
        0
    } else {
        run_reduction_prefix(boards, mm, g, i - 1) + board_reduction(
            bitmap_set(boards[i - 1].possible),
            mm,
            g,
        )
    }
}

/// Some member of `set` carries the word `w` in the target list.
pub open spec fn word_is_possible(w: Seq<char>, set: Set<int>, targets: Seq<String>) -> bool {
    exists|t: int| #[trigger] set.contains(t) && w == targets[t]@
}

/// The word of target index `t` appears somewhere in `words`.
pub open spec fn member_is_listed(t: int, words: Seq<String>, targets: Seq<String>) -> bool {
    exists|k: int| 0 <= k < words.len() && (#[trigger] words[k])@ == targets[t]@
}

/// `idxs` enumerates members of `set` in ascending order and `words` is
/// its image in the target list: position `k` holds the word of index
/// `idxs[k]`.
pub open spec fn readout_of(
    words: Seq<String>,
    set: Set<int>,
    targets: Seq<String>,
    idxs: Seq<int>,
) -> bool {
    &&& idxs.len() == words.len()
    &&& forall|k1: int, k2: int| 0 <= k1 < k2 < idxs.len() ==> idxs[k1] < idxs[k2]
    &&& forall|k: int|
        0 <= k < idxs.len() ==> set.contains(#[trigger] idxs[k]) && words[k]@ == targets[idxs[k]]@
}

/// The word list reads out exactly the members of `set` as words of the
/// target list, in ascending index order: it has one entry per member,
/// every entry is the word of some member, every member's word appears,
/// and the entries follow a strictly increasing enumeration of the set.
pub open spec fn lists_possible(words: Seq<String>, set: Set<int>, targets: Seq<String>) -> bool {
    &&& words.len() == set.len()
    &&& forall|k: int|
        0 <= k < words.len() ==> word_is_possible((#[trigger] words[k])@, set, targets)
    &&& forall|t: int| #[trigger] set.contains(t) ==> member_is_listed(t, words, targets)
    &&& exists|idxs: Seq<int>| readout_of(words, set, targets, idxs)
}

/// Read out the words a board still considers possible, in target-list
/// order.
fn possible_words(board: &Board, targets: &Vec<String>) -> (words: Vec<String>)
    requires
        forall|t: int| bitmap_set(board.possible).contains(t) ==> 0 <= t < targets@.len(),
    ensures
        lists_possible(words@, bitmap_set(board.possible), targets@),
{
    let idxs = bm_to_vec(&board.possible);
    let mut words: Vec<String> = Vec::new();
    let mut k: usize = 0;
    while k < idxs.len()
        invariant
            k <= idxs@.len(),
            words@.len() == k,
            forall|t: int| bitmap_set(board.possible).contains(t) ==> 0 <= t < targets@.len(),
            forall|j: int|
                0 <= j < idxs@.len() ==> bitmap_set(board.possible).contains(
                    #[trigger] idxs@[j] as int,
                ),
            forall|x: int|
                bitmap_set(board.possible).contains(x) ==> exists|j: int|
                    0 <= j < idxs@.len() && idxs@[j] == x,
            idxs@.len() == bitmap_set(board.possible).len(),
            forall|j: int| 0 <= j < k ==> (#[trigger] words@[j])@ == targets@[idxs@[j] as int]@,
        decreases idxs@.len() - k,
    {
        let t = idxs[k];
        words.push(targets[t as usize].clone());
        k = k + 1;
    }
    proof {
        assert forall|k2: int| 0 <= k2 < words@.len() implies word_is_possible(
            (#[trigger] words@[k2])@,
            bitmap_set(board.possible),
            targets@,
        ) by {
            assert(bitmap_set(board.possible).contains(idxs@[k2] as int));
            assert(words@[k2]@ == targets@[idxs@[k2] as int]@);
        }
        assert forall|t: int| #[trigger]
        bitmap_set(board.possible).contains(t) implies member_is_listed(
            t,
            words@,
            targets@,
        ) by {
            let j = choose|j: int| 0 <= j < idxs@.len() && idxs@[j] == t;
            assert(words@[j]@ == targets@[idxs@[j] as int]@);
        }
        let iseq = Seq::new(idxs@.len(), |k: int| idxs@[k] as int);
        assert(readout_of(words@, bitmap_set(board.possible), targets@, iseq));
    }
    words
}

/// One multi-board game: the variant rules, the outcome index built from
/// them, the guesses played so far (each guess is played on every board),
/// and one board per simultaneous target.
#[derive(Debug)]
pub struct GameRun {
    pub rules: GameRules,
    pub match_mapping: MatchMapping,
    pub guesses: Vec<String>,
    pub boards: Vec<Board>,
}

impl GameRun {
    /// Expected reduction that playing `w` would bring, summed over all
    /// boards.
    pub open spec fn run_reduction_of(self, w: Seq<char>) -> int {
        run_reduction_prefix(
            self.boards@,
            self.match_mapping,
            first_index_of(self.match_mapping.words_valid@, w),
            self.boards@.len() as int,
        )
    }

    /// Sum of the possibility-set sizes across all boards.
    pub open spec fn possibility_score_spec(self) -> int {
        score_prefix(self.boards@, self.boards@.len() as int)
    }

    /// Whether some unsolved board has been narrowed to a single
    /// possibility, making its answer known.
    pub open spec fn is_known_answer_board(self, b: int) -> bool {
        &&& 0 <= b < self.boards@.len()
        &&& !self.boards@[b].solved
        &&& bitmap_set(self.boards@[b].possible).len() == 1
    }

    /// The run is built around one outcome index: the index was built from
    /// the run's own rules, and every board fits it.
    pub open spec fn wf(self) -> bool {
        &&& self.rules.wf()
        &&& self.match_mapping.wf()
        &&& self.match_mapping.words_valid@ == self.rules.words_valid@
        &&& self.match_mapping.words_target@ == self.rules.words_target@
        &&& self.boards@.len() <= u32::MAX
        &&& forall|b: int|
            0 <= b < self.boards@.len() ==> (#[trigger] self.boards@[b]).wf(self.match_mapping)
    }

    /// Start a run: build the outcome index from the rules and open one
    /// board per target word, each starting from the full target index
    /// range as its possibility set.
    pub fn new(rules: GameRules, target_words: Vec<String>) -> (r: GameRun)
        requires
            rules.wf(),
            target_words@.len() <= u32::MAX,
            forall|i: int|
                0 <= i < target_words@.len() ==> contains_word_spec(
                    rules.words_target@,
                    (#[trigger] target_words@[i])@,
                ),
        ensures
            r.wf(),
            r.rules == rules,
            r.guesses@.len() == 0,
            r.boards@.len() == target_words@.len(),
            forall|b: int|
                0 <= b < target_words@.len() ==> (#[trigger] r.boards@[b]).target
                    == target_words@[b],
            forall|b: int|
                0 <= b < target_words@.len() ==> bitmap_set((#[trigger] r.boards@[b]).possible)
                    == vstd::set_lib::set_int_range(0, rules.words_target@.len() as int),
            forall|b: int|
                0 <= b < target_words@.len() ==> (#[trigger] r.boards@[b]).guesses@.len() == 0
                    && r.boards@[b].solved == false,
    {
        let match_mapping = rules.gen_match_mapping();
        let mut all_possible = bm_new();
        bm_insert_range_below(&mut all_possible, rules.words_target.len() as u32);
        proof {
            vstd::set_lib::lemma_int_range(0, rules.words_target@.len() as int);
            assert(bitmap_set(all_possible) =~= vstd::set_lib::set_int_range(
                0,
                rules.words_target@.len() as int,
            ));
        }
        let mut boards: Vec<Board> = Vec::new();
        let mut i: usize = 0;
        while i < target_words.len()
            invariant
                rules.wf(),
                match_mapping.wf(),
                match_mapping.words_valid@ == rules.words_valid@,
                match_mapping.words_target@ == rules.words_target@,
                bitmap_set(all_possible) == vstd::set_lib::set_int_range(
                    0,
                    rules.words_target@.len() as int,
                ),
                i <= target_words@.len(),
                boards@.len() == i,
                forall|k: int|
                    0 <= k < target_words@.len() ==> contains_word_spec(
                        rules.words_target@,
                        (#[trigger] target_words@[k])@,
                    ),
                forall|b: int| 0 <= b < i ==> (#[trigger] boards@[b]).wf(match_mapping),
                forall|b: int|
                    0 <= b < i ==> (#[trigger] boards@[b]).target == target_words@[b],
                forall|b: int|
                    0 <= b < i ==> bitmap_set((#[trigger] boards@[b]).possible) == bitmap_set(
                        all_possible,
                    ),
                forall|b: int|
                    0 <= b < i ==> (#[trigger] boards@[b]).guesses@.len() == 0 && boards@[b].solved
                        == false,
            decreases target_words@.len() - i,
        {
            let board = Board::with_target_and_possible(
                target_words[i].clone(),
                bm_clone(&all_possible),
            );
            proof {
                vstd::set_lib::lemma_int_range(0, rules.words_target@.len() as int);
                let ghost w = choose|t: int|
                    0 <= t < rules.words_target@.len() && rules.words_target@[t]@
                        == target_words@[i as int]@;
                assert(board.wf(match_mapping));
            }
            boards.push(board);
            i = i + 1;
        }
        GameRun { rules, match_mapping, guesses: Vec::new(), boards }
    }

    /// Play one guess on every board and append it to the run's guess log.
    /// No board's possibility set grows, so the possibility score cannot
    /// increase.
    pub fn add_guess(&mut self, guess: String)
        requires
            old(self).wf(),
            contains_word_spec(old(self).rules.words_valid@, guess@),
        ensures
            final(self).wf(),
            final(self).rules == old(self).rules,
            final(self).match_mapping == old(self).match_mapping,
            final(self).guesses@.len() == old(self).guesses@.len() + 1,
            forall|k: int|
                0 <= k < old(self).guesses@.len() ==> final(self).guesses@[k] == old(
                    self,
                ).guesses@[k],
            final(self).guesses@[old(self).guesses@.len() as int]@ == guess@,
            final(self).boards@.len() == old(self).boards@.len(),
            forall|b: int|
                0 <= b < old(self).boards@.len() ==> board_step(
                    old(self).boards@[b],
                    (#[trigger] final(self).boards@[b]),
                    guess@,
                    old(self).match_mapping,
                ),
            final(self).possibility_score_spec() <= old(self).possibility_score_spec(),
    {
        let ghost pre = *self;
        let mut b: usize = 0;
        while b < self.boards.len()
            invariant
                pre.wf(),
                contains_word_spec(pre.match_mapping.words_valid@, guess@),
                self.rules == pre.rules,
                self.match_mapping == pre.match_mapping,
                self.guesses == pre.guesses,
                b <= self.boards@.len(),
                self.boards@.len() == pre.boards@.len(),
                forall|k: int|
                    b <= k < pre.boards@.len() ==> (#[trigger] self.boards@[k]) == pre.boards@[k],
                forall|k: int|
                    0 <= k < b ==> (#[trigger] self.boards@[k]).wf(pre.match_mapping),
                forall|k: int|
                    0 <= k < b ==> board_step(
                        pre.boards@[k],
                        (#[trigger] self.boards@[k]),
                        guess@,
                        pre.match_mapping,
                    ),
            decreases self.boards@.len() - b,
        {
            let board = &mut self.boards[b];
            board.add_guess(guess.clone(), &self.match_mapping);
            b = b + 1;
        }
        self.guesses.push(guess);
        proof {
            assert(forall|k: int|
                0 <= k < pre.boards@.len() ==> bitmap_set(
                    (#[trigger] self.boards@[k]).possible,
                ).len() <= bitmap_set(pre.boards@[k].possible).len());
            lemma_score_prefix_le(pre.boards@, self.boards@, pre.boards@.len() as int);
        }
    }

    /// Whether every board has been solved.
    pub fn is_solved(&self) -> (r: bool)
        ensures
            r == forall|b: int| 0 <= b < self.boards@.len() ==> (#[trigger] self.boards@[b]).solved,
    {
        let mut b: usize = 0;
        while b < self.boards.len()
            invariant
                b <= self.boards@.len(),
                forall|k: int| 0 <= k < b ==> (#[trigger] self.boards@[k]).solved,
            decreases self.boards@.len() - b,
        {
            if !self.boards[b].solved {
                return false;
            }
            b = b + 1;
        }
        true
    }

    /// The words each board still considers possible, one list per board,
    /// in target-list order.
    pub fn all_possibility_sets(&self) -> (r: Vec<Vec<String>>)
        requires
            self.wf(),
        ensures
            r@.len() == self.boards@.len(),
            forall|b: int|
                0 <= b < r@.len() ==> lists_possible(
                    (#[trigger] r@[b])@,
                    bitmap_set(self.boards@[b].possible),
                    self.rules.words_target@,
                ),
    {
        let mut r: Vec<Vec<String>> = Vec::new();
        let mut b: usize = 0;
        while b < self.boards.len()
            invariant
                self.wf(),
                b <= self.boards@.len(),
                r@.len() == b,
                forall|bb: int|
                    0 <= bb < b ==> lists_possible(
                        (#[trigger] r@[bb])@,
                        bitmap_set(self.boards@[bb].possible),
                        self.rules.words_target@,
                    ),
            decreases self.boards@.len() - b,
        {
            let words = possible_words(&self.boards[b], &self.rules.words_target);
            r.push(words);
            b = b + 1;
        }
        r
    }

    /// Overall progress metric: the sum of the boards' possibility-set
    /// sizes, which never increases as guesses are played.
    pub fn possibility_score(&self) -> (r: u64)
        requires
            self.wf(),
        ensures
            r == self.possibility_score_spec(),
    {
        let mut sum: u64 = 0;
        let mut b: usize = 0;
        while b < self.boards.len()
            invariant
                self.wf(),
                b <= self.boards@.len(),
                sum == score_prefix(self.boards@, b as int),
                sum <= (b as int) * (u32::MAX as int),
            decreases self.boards@.len() - b,
        {
            proof {
                lemma_bounded_set_len(
                    bitmap_set(self.boards@[b as int].possible),
                    self.match_mapping.words_target@.len() as int,
                );
            }
            let l = bm_len(&self.boards[b].possible);
            sum = sum + l;
            b = b + 1;
        }
        sum
    }

    /// Expected reduction of the possibility score that playing `guess`
    /// would bring, summed over all boards.
    pub fn calculate_possiblity_reduction(&self, guess: &str) -> (r: u128)
        requires
            self.wf(),
            contains_word_spec(self.rules.words_valid@, guess@),
        ensures
            r == self.run_reduction_of(guess@),
            r <= (self.boards@.len() as u128) * ((u32::MAX as u128) * REDUCTION_SCALE),
    {
        let ghost g = first_index_of(self.match_mapping.words_valid@, guess@);
        let mut sum: u128 = 0;
        let mut b: usize = 0;
        while b < self.boards.len()
            invariant
                self.wf(),
                contains_word_spec(self.rules.words_valid@, guess@),
                b <= self.boards@.len(),
                g == first_index_of(self.match_mapping.words_valid@, guess@),
                sum == run_reduction_prefix(self.boards@, self.match_mapping, g, b as int),
                sum <= (b as int) * ((u32::MAX as int) * (REDUCTION_SCALE as int)),
            decreases self.boards@.len() - b,
        {
            let term = self.boards[b].calculate_possiblity_reduction(guess, &self.match_mapping);
            proof {
                let c = (u32::MAX as int) * (REDUCTION_SCALE as int);
                assert(sum + term <= ((b + 1) as int) * c) by (nonlinear_arith)
                    requires
                        sum <= (b as int) * c,
                        term <= c,
                        0 <= b as int,
                        0 <= c,
                ;
                assert(((b + 1) as int) * c <= 4294967296int * c) by (nonlinear_arith)
                    requires
                        ((b + 1) as int) <= 4294967296int,
                        0 <= c,
                ;
            }
            sum = sum + term;
            b = b + 1;
        }
        sum
    }

    /// The guess to play next, with its score. If some unsolved board is
    /// already narrowed to a single possibility, that word is returned at
    /// once with the known-answer score, bypassing the ranking; otherwise
    /// every target word is scored by its summed expected reduction and the
    /// first maximum wins.
    pub fn compute_best_guess(&self) -> (r: (String, u128))
        requires
            self.wf(),
            self.rules.words_target@.len() > 0,
        ensures
            (exists|b: int| self.is_known_answer_board(b)) ==> {
                &&& r.1 == KNOWN_ANSWER_SCORE
                &&& exists|b: int|
                    #[trigger] self.is_known_answer_board(b) && r.0@ == self.boards@[b].target@
                        && forall|b2: int| 0 <= b2 < b ==> !self.is_known_answer_board(b2)
            },
            !(exists|b: int| self.is_known_answer_board(b)) ==> exists|j: int|
                {
                    &&& 0 <= j < self.rules.words_target@.len()
                    &&& r.0@ == (#[trigger] self.rules.words_target@[j])@
                    &&& r.1 == self.run_reduction_of(self.rules.words_target@[j]@)
                    &&& forall|k: int|
                        0 <= k < j ==> self.run_reduction_of(
                            (#[trigger] self.rules.words_target@[k])@,
                        ) < r.1
                    &&& forall|k: int|
                        0 <= k < self.rules.words_target@.len() ==> self.run_reduction_of(
                            (#[trigger] self.rules.words_target@[k])@,
                        ) <= r.1
                },
    {
        let mut b: usize = 0;
        while b < self.boards.len()
            invariant
                self.wf(),
                b <= self.boards@.len(),
                forall|b2: int| 0 <= b2 < b ==> !self.is_known_answer_board(b2),
            decreases self.boards@.len() - b,
        {
            let board = &self.boards[b];
            if !board.solved && bm_len(&board.possible) == 1 {
                let sol_idx = match bm_max(&board.possible) {
                    Some(m) => m,
                    None => {
                        proof {
                            assert(false);
                        }
                        0
                    },
                };
                proof {
                    let ghost set = bitmap_set(self.boards@[b as int].possible);
                    let ghost t = choose|t: int|
                        0 <= t < self.match_mapping.words_target@.len()
                            && self.match_mapping.words_target@[t]@
                            == self.boards@[b as int].target@;
                    crate::bitmap::lemma_single_element(set, t, sol_idx as int);
                    assert(self.is_known_answer_board(b as int));
                    assert(self.rules.words_target@[sol_idx as int]@
                        == self.boards@[b as int].target@);
                }
                return (self.rules.words_target[sol_idx as usize].clone(), KNOWN_ANSWER_SCORE);
            }
            b = b + 1;
        }
        let mut best_idx: usize = 0;
        let mut best = self.calculate_possiblity_reduction(self.rules.words_target[0].as_str());
        let mut k: usize = 1;
        while k < self.rules.words_target.len()
            invariant
                self.wf(),
                self.rules.words_target@.len() > 0,
                1 <= k <= self.rules.words_target@.len(),
                best_idx < k,
                best == self.run_reduction_of(self.rules.words_target@[best_idx as int]@),
                forall|j: int|
                    0 <= j < best_idx ==> self.run_reduction_of(
                        (#[trigger] self.rules.words_target@[j])@,
                    ) < best,
                forall|j: int|
                    best_idx <= j < k ==> self.run_reduction_of(
                        (#[trigger] self.rules.words_target@[j])@,
                    ) <= best,
            decreases self.rules.words_target@.len() - k,
        {
            let score = self.calculate_possiblity_reduction(self.rules.words_target[k].as_str());
            if score > best {
                best = score;
                best_idx = k;
            }
            k = k + 1;
        }
        (self.rules.words_target[best_idx].clone(), best)
    }
}

} // verus!
