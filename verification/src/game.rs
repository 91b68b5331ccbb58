//! The guessing game's decision logic: a drawn secret and the verdict
//! on each guess. The input/output loop around it lives outside the
//! library.

use rand::Rng;
use vstd::prelude::*;

verus! {

/// The verdict on one guess against the secret.
#[derive(Clone, Copy, Debug, PartialEq, Eq, Structural)]
pub enum GuessOutcome {
    /// The guess is under the secret.
    TooSmall,
    /// The guess is over the secret.
    TooBig,
    /// The guess is the secret.
    Win,
}

/// Relies on rand's `thread_rng().gen_range(1..101)`: a draw from a
/// non-empty half-open range. Only the bounds hold of every outcome;
/// nothing can be promised about which value comes back.
#[verifier::external_body]
pub fn draw_secret() -> (r: u32)
    ensures
        1 <= r < 101,
{
    rand::thread_rng().gen_range(1..101)
}

/// The verdict on a guess: too small, too big, or a win, exactly by
/// the ordering of guess and secret.
pub fn evaluate_guess(secret: u32, guess: u32) -> (r: GuessOutcome)
    ensures
        r == GuessOutcome::TooSmall <==> guess < secret,
        r == GuessOutcome::TooBig <==> guess > secret,
        r == GuessOutcome::Win <==> guess == secret,
{
    if guess < secret {
        GuessOutcome::TooSmall
    } else if guess > secret {
        GuessOutcome::TooBig
    } else {
        GuessOutcome::Win
    }
}

} // verus!
