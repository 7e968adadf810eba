use std::time::{SystemTime, UNIX_EPOCH};
use vstd::prelude::*;

verus! {

/// What the player is told after a guess.
#[derive(Debug, Copy, Clone, PartialEq, Eq, Structural)]
pub enum Hint {
    /// The guess is the hidden number.
    Correct,
    /// The hidden number is greater than the guess.
    Greater,
    /// The hidden number is less than the guess.
    Less,
}

/// Three xorshift steps, with shifts of 21 left, 35 right and 4 left.
pub open spec fn xorshift_spec(seed: u64) -> u64 {
    let a = seed ^ (seed << 21u64);
    let b = a ^ (a >> 35u64);
    b ^ (b << 4u64)
}

/// Relies on `SystemTime::now` and `SystemTime::duration_since(UNIX_EPOCH)`:
/// whole seconds since the Unix epoch, `None` for a clock set before it.
#[verifier::external_body]
fn unix_seconds() -> (r: Option<u64>) {
    SystemTime::now().duration_since(UNIX_EPOCH).ok().map(|d| d.as_secs())
}

/// Scrambles `seed` by three xorshift steps.
pub fn xorshift(seed: u64) -> (r: u64)
    ensures
        r == xorshift_spec(seed),
{
    let mut s = seed;
    s ^= s << 21u64;
    s ^= s >> 35u64;
    s ^= s << 4u64;
    s
}

/// A pseudo-random number seeded by the current time in seconds; a clock set
/// before the Unix epoch seeds it with 0.
pub fn random_int() -> (r: u64)
    ensures
        exists|t: u64| r == xorshift_spec(t),
{
    let seed = match unix_seconds() {
        Some(t) => t,
        None => 0,
    };
    xorshift(seed)
}

/// The hidden number that a random draw `r` stands for, below 100.
pub fn pick_answer(r: u64) -> (a: u8)
    ensures
        a == r % 100,
{
    (r % 100) as u8
}

/// Compares a guess with the hidden number.
pub fn judge(answer: u8, guess: u8) -> (h: Hint)
    ensures
        h == if answer == guess {
            Hint::Correct
        } else if answer > guess {
            Hint::Greater
        } else {
            Hint::Less
        },
{
    if answer == guess {
        Hint::Correct
    } else if answer > guess {
        Hint::Greater
    } else {
        Hint::Less
    }
}

} // verus!
