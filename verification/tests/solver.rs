use ordlebot::game_rules::GameRules;
use ordlebot::game_run::{GameRun, KNOWN_ANSWER_SCORE, REDUCTION_SCALE};
use ordlebot::types::encode_match;
use ordlebot::utils::compute_match;

fn word_list(words: &[&str]) -> Vec<String> {
    words.iter().map(|w| w.to_string()).collect()
}

fn small_rules(words: &[&str], num_boards: usize, num_guesses: usize) -> GameRules {
    GameRules {
        num_boards,
        num_guesses,
        alphabet: Vec::new(),
        words_target: word_list(words),
        words_valid: word_list(words),
    }
}

const WORDS: [&str; 6] = ["DANDY", "CANDY", "DUSTY", "GREEN", "ALGOL", "TEETH"];

#[test]
fn outcome_index_partitions_targets() {
    let rules = small_rules(&WORDS, 1, 6);
    let mm = rules.gen_match_mapping();
    assert_eq!(mm.buckets.len(), WORDS.len());
    for (g, guess) in WORDS.iter().enumerate() {
        assert_eq!(mm.buckets[g].len(), 243);
        for (t, target) in WORDS.iter().enumerate() {
            let expected = encode_match(&compute_match(guess, target));
            let mut holders: Vec<usize> = Vec::new();
            for p in 0..243 {
                if mm.buckets[g][p].contains(t as u32) {
                    holders.push(p);
                }
            }
            assert_eq!(holders, vec![expected]);
        }
    }
}

#[test]
fn with_boards_and_guesses_overrides_counts() {
    let rules = small_rules(&WORDS, 32, 37);
    let dordle = rules.with_boards_and_guesses(2, 7);
    assert_eq!(dordle.num_boards, 2);
    assert_eq!(dordle.num_guesses, 7);
    assert_eq!(dordle.words_target, word_list(&WORDS));
    assert_eq!(dordle.words_valid, word_list(&WORDS));
}

#[test]
fn possibility_set_narrows_and_keeps_target() {
    let rules = small_rules(&WORDS, 1, 6);
    let mut run = GameRun::new(rules, word_list(&["DANDY"]));
    assert_eq!(run.possibility_score(), WORDS.len() as u64);
    let mut last = run.possibility_score();
    for guess in ["GREEN", "DUSTY", "CANDY", "DANDY"] {
        run.add_guess(guess.to_string());
        let score = run.possibility_score();
        assert!(score <= last);
        // index 0 is DANDY, the board's true target: never narrowed away
        assert!(run.boards[0].possible.contains(0));
        last = score;
    }
    assert!(run.is_solved());
}

#[test]
fn known_answer_short_circuits_ranking() {
    let rules = small_rules(&WORDS, 1, 6);
    let mut run = GameRun::new(rules, word_list(&["DANDY"]));
    // CANDY against target DANDY leaves DANDY as the only consistent target
    run.add_guess("CANDY".to_string());
    assert!(!run.is_solved());
    assert_eq!(run.boards[0].possible.len(), 1);
    let (word, score) = run.compute_best_guess();
    assert_eq!(word, "DANDY");
    assert_eq!(score, KNOWN_ANSWER_SCORE);
    assert_eq!(score, u128::MAX);
}

#[test]
fn expected_reduction_exact_value() {
    // Two equally likely targets: either pattern of the guess DANDY rules
    // out exactly one of them, so the expected reduction is exactly 1.
    let rules = small_rules(&["DANDY", "CANDY"], 1, 6);
    let run = GameRun::new(rules, word_list(&["DANDY"]));
    assert_eq!(run.calculate_possiblity_reduction("DANDY"), REDUCTION_SCALE);
    assert_eq!(run.calculate_possiblity_reduction("CANDY"), REDUCTION_SCALE);
}

#[test]
fn single_board_run_solves_dandy() {
    let rules = small_rules(&WORDS, 1, 6);
    let num_guesses = rules.num_guesses;
    let mut run = GameRun::new(rules, word_list(&["DANDY"]));
    let mut last = run.possibility_score();
    let mut solved_in = None;
    for guess_num in 0..num_guesses {
        let (guess, _score) = run.compute_best_guess();
        run.add_guess(guess);
        let score = run.possibility_score();
        assert!(score <= last);
        last = score;
        if run.is_solved() {
            solved_in = Some(guess_num + 1);
            break;
        }
    }
    assert!(run.is_solved());
    assert!(solved_in.unwrap() <= num_guesses);
    assert_eq!(run.boards[0].guesses.last().unwrap(), "DANDY");
}

#[test]
fn two_board_run_solves_both() {
    let rules = small_rules(&WORDS, 2, 7);
    let num_guesses = rules.num_guesses;
    let mut run = GameRun::new(rules, word_list(&["DANDY", "GREEN"]));
    let mut last = run.possibility_score();
    for _ in 0..num_guesses {
        let (guess, _score) = run.compute_best_guess();
        run.add_guess(guess);
        let score = run.possibility_score();
        assert!(score <= last);
        last = score;
        if run.is_solved() {
            break;
        }
    }
    assert!(run.is_solved());
}

#[test]
fn possibility_sets_list_remaining_words() {
    let rules = small_rules(&WORDS, 1, 6);
    let mut run = GameRun::new(rules, word_list(&["DANDY"]));
    let initial = run.all_possibility_sets();
    assert_eq!(initial.len(), 1);
    assert_eq!(initial[0], word_list(&WORDS));
    run.add_guess("CANDY".to_string());
    let narrowed = run.all_possibility_sets();
    assert_eq!(narrowed[0], word_list(&["DANDY"]));
}

#[test]
fn select_targets_is_deterministic() {
    let pool = word_list(&["AAAAA", "BBBBB", "CCCCC"]);
    let draws: Vec<u32> = vec![1, 1, 2, 0];
    let picked = ordlebot::game_rules::select_targets(&pool, &draws, 2);
    assert_eq!(picked, word_list(&["BBBBB", "CCCCC"]));
    let none_wanted = ordlebot::game_rules::select_targets(&pool, &draws, 0);
    assert!(none_wanted.is_empty());
}

#[test]
fn targets_for_id_are_distinct_pool_words() {
    let rules = small_rules(&WORDS, 2, 7);
    let picked = rules.get_targets_for_id(42);
    assert_eq!(picked.len(), 2);
    assert_ne!(picked[0], picked[1]);
    for w in &picked {
        assert!(WORDS.contains(&w.as_str()));
    }
    // the same id always selects the same words
    assert_eq!(picked, rules.get_targets_for_id(42));
}

#[test]
fn legacy_ids_exclude_gipsy_and_gypsy() {
    let pool: [&str; 4] = ["GIPSY", "GYPSY", "DANDY", "CANDY"];
    let rules = small_rules(&pool, 2, 7);
    for id in [188usize, 200, 219, 1000] {
        let picked = rules.get_targets_for_id(id);
        assert_eq!(picked.len(), 2);
        for w in &picked {
            assert_ne!(w, "GIPSY");
            assert_ne!(w, "GYPSY");
        }
    }
}
