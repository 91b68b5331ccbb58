use enhanced_lib::game::{draw_secret, evaluate_guess, GuessOutcome};

#[test]
fn test_draw_secret_range() {
    for _ in 0..50 {
        let secret = draw_secret();
        assert!((1..101).contains(&secret));
    }
}

#[test]
fn test_evaluate_guess() {
    assert_eq!(evaluate_guess(42, 10), GuessOutcome::TooSmall);
    assert_eq!(evaluate_guess(42, 90), GuessOutcome::TooBig);
    assert_eq!(evaluate_guess(42, 42), GuessOutcome::Win);
}
