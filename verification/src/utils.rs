use vstd::prelude::*;

use crate::constants::WORD_LENGTH;
use crate::types::{Color, MatchResult};

verus! {

/// Number of occurrences of `c` among the first `i` characters of `s`.
pub open spec fn count_prefix(s: Seq<char>, i: int, c: char) -> nat
    decreases i,
{
    if i <= 0 {
        0
    } else {
        count_prefix(s, i - 1, c) + (if s[i - 1] == c {
            1nat
        } else {
            0nat
        })
    }
}

/// Number of occurrences of `c` in the whole of `s`.
pub open spec fn count_char(s: Seq<char>, c: char) -> nat {
    count_prefix(s, s.len() as int, c)
}

/// Number of positions among the first `i` where guess and target agree
/// on the letter `c`: the exact matches that consume an occurrence of `c`.
pub open spec fn exact_prefix(g: Seq<char>, t: Seq<char>, i: int, c: char) -> nat
    decreases i,
{
    if i <= 0 {
        0
    } else {
        exact_prefix(g, t, i - 1, c) + (if g[i - 1] == t[i - 1] && g[i - 1] == c {
            1nat
        } else {
            0nat
        })
    }
}

/// Number of exact matches of the letter `c` over the whole guess.
pub open spec fn exact_count(g: Seq<char>, t: Seq<char>, c: char) -> nat {
    exact_prefix(g, t, g.len() as int, c)
}

/// The color position `i` receives: an exact match is GREEN; otherwise the
/// letter is YELLOW while occurrences of it in the target remain after all
/// exact matches and the earlier YELLOW marks are accounted for, and GREY
/// once they are spent.
pub open spec fn mark(g: Seq<char>, t: Seq<char>, i: int) -> Color
    decreases i, 1int,
{
    if g[i] == t[i] {
        Color::GREEN
    } else if count_char(t, g[i]) > exact_count(g, t, g[i]) + yellows_before(g, t, i, g[i]) {
        Color::YELLOW
    } else {
        Color::GREY
    }
}

/// Number of positions before `i` where the letter `c` was marked YELLOW.
pub open spec fn yellows_before(g: Seq<char>, t: Seq<char>, i: int, c: char) -> nat
    decreases i, 0int,
{
    if i <= 0 {
        0
    } else {
        yellows_before(g, t, i - 1, c) + (if g[i - 1] == c && mark(g, t, i - 1) == Color::YELLOW {
            1nat
        } else {
            0nat
        })
    }
}

/// The full feedback pattern for a guess against a target.
pub open spec fn feedback(g: Seq<char>, t: Seq<char>) -> Seq<Color> {
    Seq::new(g.len(), |i: int| mark(g, t, i))
}

/// Count occurrences of `c` in `s`.
fn count_char_exec(s: &str, c: char) -> (n: usize)
    ensures
        n == count_char(s@, c),
        n <= s@.len(),
{
    let len = s.unicode_len();
    let mut n: usize = 0;
    let mut j: usize = 0;
    while j < len
        invariant
            len == s@.len(),
            j <= len,
            n == count_prefix(s@, j as int, c),
            n <= j,
        decreases len - j,
    {
        if s.get_char(j) == c {
            n = n + 1;
        }
        j = j + 1;
    }
    n
}

/// Count positions where guess and target agree on the letter `c`.
fn exact_count_exec(g: &str, t: &str, c: char) -> (n: usize)
    requires
        g@.len() == t@.len(),
    ensures
        n == exact_count(g@, t@, c),
        n <= g@.len(),
{
    let len = g.unicode_len();
    let mut n: usize = 0;
    let mut j: usize = 0;
    while j < len
        invariant
            len == g@.len(),
            g@.len() == t@.len(),
            j <= len,
            n == exact_prefix(g@, t@, j as int, c),
            n <= j,
        decreases len - j,
    {
        let gc = g.get_char(j);
        if gc == t.get_char(j) && gc == c {
            n = n + 1;
        }
        j = j + 1;
    }
    n
}

/// Compute the response colors for a guess given the actual target word.
///
/// Standard duplicate-correct scoring: exact matches consume occurrences
/// first, and the remaining occurrences grant YELLOW marks left to right.
pub fn compute_match(guess: &str, actual: &str) -> (res: MatchResult)
    requires
        guess@.len() == WORD_LENGTH,
        actual@.len() == WORD_LENGTH,
    ensures
        res@ == feedback(guess@, actual@),
{
    let mut res: Vec<Color> = Vec::new();
    let mut i: usize = 0;
    while i < WORD_LENGTH
        invariant
            guess@.len() == WORD_LENGTH,
            actual@.len() == WORD_LENGTH,
            i <= WORD_LENGTH,
            res@.len() == i,
            forall|j: int| 0 <= j < i ==> res@[j] == mark(guess@, actual@, j),
        decreases WORD_LENGTH - i,
    {
        let gc = guess.get_char(i);
        let tc = actual.get_char(i);
        if gc == tc {
            res.push(Color::GREEN);
        } else {
            let total = count_char_exec(actual, gc);
            let exacts = exact_count_exec(guess, actual, gc);
            let mut yellows: usize = 0;
            let mut j: usize = 0;
            while j < i
                invariant
                    guess@.len() == WORD_LENGTH,
                    actual@.len() == WORD_LENGTH,
                    i <= WORD_LENGTH,
                    j <= i,
                    res@.len() == i,
                    forall|k: int| 0 <= k < i ==> res@[k] == mark(guess@, actual@, k),
                    gc == guess@[i as int],
                    yellows == yellows_before(guess@, actual@, j as int, gc),
                    yellows <= j,
                decreases i - j,
            {
                if guess.get_char(j) == gc && res[j] == Color::YELLOW {
                    yellows = yellows + 1;
                }
                j = j + 1;
            }
            if total > exacts + yellows {
                res.push(Color::YELLOW);
            } else {
                res.push(Color::GREY);
            }
        }
        i = i + 1;
    }
    proof {
        assert(res@ =~= feedback(guess@, actual@));
    }
    res
}

/// Relies on `<str as PartialEq>::eq`: two string slices are equal exactly
/// when their characters are.
#[verifier::external_body]
pub fn str_eq(a: &str, b: &str) -> (r: bool)
    ensures
        r == (a@ == b@),
{
    a == b
}

/// Whether some word of `ws` reads as `w`.
pub open spec fn contains_word_spec(ws: Seq<String>, w: Seq<char>) -> bool {
    exists|i: int| 0 <= i < ws.len() && ws[i]@ == w
}

/// Position of the first word of `ws` (at or after `i`) that reads as `w`,
/// or the length of `ws` when none does.
pub open spec fn first_index_from(ws: Seq<String>, w: Seq<char>, i: int) -> int
    decreases ws.len() - i,
{
    if i >= ws.len() {
        ws.len() as int
    } else if ws[i]@ == w {
        i
    } else {
        first_index_from(ws, w, i + 1)
    }
}

/// Position of the first word of `ws` that reads as `w`.
pub open spec fn first_index_of(ws: Seq<String>, w: Seq<char>) -> int {
    first_index_from(ws, w, 0)
}

/// Find the first word equal to `w`, with its position.
pub fn find_word(ws: &Vec<String>, w: &str) -> (r: Option<usize>)
    ensures
        match r {
            Some(i) => i < ws@.len() && ws@[i as int]@ == w@ && i == first_index_of(ws@, w@)
                && contains_word_spec(ws@, w@),
            None => !contains_word_spec(ws@, w@),
        },
{
    let mut i: usize = 0;
    while i < ws.len()
        invariant
            i <= ws@.len(),
            forall|k: int| 0 <= k < i ==> ws@[k]@ != w@,
            first_index_of(ws@, w@) == first_index_from(ws@, w@, i as int),
        decreases ws@.len() - i,
    {
        if str_eq(ws[i].as_str(), w) {
            return Some(i);
        }
        i = i + 1;
    }
    None
}

/// Whether the list holds a word equal to `w`.
pub fn contains_word(ws: &Vec<String>, w: &str) -> (r: bool)
    ensures
        r == contains_word_spec(ws@, w@),
{
    find_word(ws, w).is_some()
}

/// Copy a word list; the copy reads word for word as the source list.
pub fn clone_words(ws: &Vec<String>) -> (r: Vec<String>)
    ensures
        r@ == ws@,
{
    let mut r: Vec<String> = Vec::new();
    let mut i: usize = 0;
    while i < ws.len()
        invariant
            i <= ws@.len(),
            r@ =~= ws@.subrange(0, i as int),
        decreases ws@.len() - i,
    {
        r.push(ws[i].clone());
        i = i + 1;
    }
    proof {
        assert(r@ =~= ws@);
    }
    r
}

/// A position is marked GREEN exactly when guess and target agree there,
/// so `exact_prefix` counts the GREEN marks of a letter.
pub proof fn lemma_mark_green_iff(g: Seq<char>, t: Seq<char>, i: int)
    ensures
        (mark(g, t, i) == Color::GREEN) <==> (g[i] == t[i]),
{
}

/// A guess scored against itself is all-GREEN: every position is an exact
/// match.
pub proof fn lemma_feedback_self_all_exact(w: Seq<char>)
    ensures
        feedback(w, w).len() == w.len(),
        forall|i: int| 0 <= i < w.len() ==> feedback(w, w)[i] == Color::GREEN,
{
}

proof fn lemma_exact_le_count(g: Seq<char>, t: Seq<char>, i: int, c: char)
    ensures
        exact_prefix(g, t, i, c) <= count_prefix(t, i, c),
    decreases i,
{
    if i > 0 {
        lemma_exact_le_count(g, t, i - 1, c);
    }
}

proof fn lemma_yellow_credit_bound(g: Seq<char>, t: Seq<char>, i: int, c: char)
    requires
        g.len() == t.len(),
        0 <= i <= g.len(),
    ensures
        exact_count(g, t, c) + yellows_before(g, t, i, c) <= count_char(t, c),
    decreases i,
{
    if i == 0 {
        lemma_exact_le_count(g, t, g.len() as int, c);
    } else {
        lemma_yellow_credit_bound(g, t, i - 1, c);
        if g[i - 1] == c && mark(g, t, i - 1) == Color::YELLOW {
            assert(count_char(t, c) > exact_count(g, t, c) + yellows_before(g, t, i - 1, c));
        }
    }
}

/// No double-crediting of duplicate letters: for any letter `c`, the number
/// of GREEN marks of `c` (the exact matches) plus the number of YELLOW marks
/// of `c` never exceeds the number of occurrences of `c` in the target.
pub proof fn lemma_no_double_credit(g: Seq<char>, t: Seq<char>, c: char)
    requires
        g.len() == t.len(),
    ensures
        exact_count(g, t, c) + yellows_before(g, t, g.len() as int, c) <= count_char(t, c),
{
    lemma_yellow_credit_bound(g, t, g.len() as int, c);
}

} // verus!
