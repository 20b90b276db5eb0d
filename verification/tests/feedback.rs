use ordlebot::types::Color;
use ordlebot::utils::compute_match;

#[test]
fn basic_pairs() {
    assert_eq!(
        compute_match("green", "green"),
        vec![Color::GREEN, Color::GREEN, Color::GREEN, Color::GREEN, Color::GREEN]
    );
    assert_eq!(
        compute_match("algol", "llola"),
        vec![Color::YELLOW, Color::GREEN, Color::GREY, Color::YELLOW, Color::YELLOW]
    );
    assert_eq!(
        compute_match("dealt", "teeth"),
        vec![Color::GREY, Color::GREEN, Color::GREY, Color::GREY, Color::YELLOW]
    );
}

#[test]
fn harder_pairs() {
    assert_eq!(
        compute_match("fffff", "ffffa"),
        vec![Color::GREEN, Color::GREEN, Color::GREEN, Color::GREEN, Color::GREY]
    );
    assert_eq!(
        compute_match("ffffa", "fffff"),
        vec![Color::GREEN, Color::GREEN, Color::GREEN, Color::GREEN, Color::GREY]
    );
    assert_eq!(
        compute_match("affff", "ffffa"),
        vec![Color::YELLOW, Color::GREEN, Color::GREEN, Color::GREEN, Color::YELLOW]
    );
}

#[test]
fn duplicate_letter_boundary_pairs() {
    assert_eq!(
        compute_match("FFFFA", "FFFFF"),
        vec![Color::GREEN, Color::GREEN, Color::GREEN, Color::GREEN, Color::GREY]
    );
    assert_eq!(
        compute_match("AFFFF", "FFFFA"),
        vec![Color::YELLOW, Color::GREEN, Color::GREEN, Color::GREEN, Color::YELLOW]
    );
}

#[test]
fn uppercase_pairs() {
    assert_eq!(
        compute_match("GREEN", "GREEN"),
        vec![Color::GREEN, Color::GREEN, Color::GREEN, Color::GREEN, Color::GREEN]
    );
    assert_eq!(
        compute_match("ALGOL", "LLOLA"),
        vec![Color::YELLOW, Color::GREEN, Color::GREY, Color::YELLOW, Color::YELLOW]
    );
    assert_eq!(
        compute_match("DEALT", "TEETH"),
        vec![Color::GREY, Color::GREEN, Color::GREY, Color::GREY, Color::YELLOW]
    );
}

#[test]
fn self_match_is_all_exact() {
    for w in ["DANDY", "abcde", "ZZZZZ", "qwert"] {
        assert_eq!(compute_match(w, w), vec![Color::GREEN; 5]);
    }
}

#[test]
fn exact_and_present_never_exceed_target_count() {
    let words = ["AABBA", "ABABA", "BBBAA", "CCCCC", "ABCDE", "AAAAA"];
    for guess in words {
        for target in words {
            let marks = compute_match(guess, target);
            for letter in ['A', 'B', 'C', 'D', 'E'] {
                let credited = guess
                    .chars()
                    .zip(marks.iter())
                    .filter(|(c, m)| *c == letter && **m != Color::GREY)
                    .count();
                let in_target = target.chars().filter(|c| *c == letter).count();
                assert!(credited <= in_target);
            }
        }
    }
}
