//! A number guessing game: a secret, guesses held against it, and the
//! score and prize that the number of guesses earns.

use crate::lines::{number_of, parse_number, trim, trimmed_of};
use crate::math::{
    fib_fits, fib_inverse_rounded_up, fib_spec, is_first_at_least, lemma_fib_48,
    lemma_fib_fits_through_93,
};
use crate::vehicles::cars::{Car, Kinematics};
use rand::Rng;
use vstd::prelude::*;

verus! {

/// How a guess stands to the secret.
#[derive(Clone, Copy, Debug, PartialEq, Eq, Structural)]
pub enum Verdict {
    Less,
    Greater,
    Equal,
}

impl Verdict {
    /// The verdict in words.
    pub fn phrase(&self) -> (words: &'static str)
        ensures
            words@ == match *self {
                Verdict::Less => "less than"@,
                Verdict::Greater => "greater than"@,
                Verdict::Equal => "equal to"@,
            },
    {
        match self {
            Verdict::Less => "less than",
            Verdict::Greater => "greater than",
            Verdict::Equal => "equal to",
        }
    }
}

/// A game in progress.
#[derive(Debug)]
pub struct Game {
    pub secret: u32,
    pub guess_count: u32,
    pub done: bool,
}

/// Draws a number from `low` up to, not including, `end` with
/// `rand::Rng::gen_range` on the thread's generator. The draw is random:
/// all that is claimed is that it lies in the range, which must not be
/// empty.
#[verifier::external_body]
fn draw(low: u32, end: u32) -> (n: u32)
    requires
        low < end,
    ensures
        low <= n < end,
{
    rand::thread_rng().gen_range(low..end)
}

impl Game {
    /// A game whose secret is known.
    pub fn with_secret(secret: u32) -> (game: Game)
        ensures
            game.secret == secret,
            game.guess_count == 0,
            !game.done,
    {
        Game { secret, guess_count: 0, done: false }
    }

    /// A game with a secret drawn from `min` to `max`, both included.
    pub fn start(min: u32, max: u32) -> (game: Game)
        requires
            min <= max < u32::MAX,
        ensures
            min <= game.secret <= max,
            game.guess_count == 0,
            !game.done,
    {
        Game::with_secret(draw(min, max + 1))
    }

    /// Holds a guess against the secret, counts it, and ends the game
    /// where it is right.
    pub fn guess(&mut self, guess: u32) -> (verdict: Verdict)
        requires
            old(self).guess_count < u32::MAX,
        ensures
            verdict == judge(guess, old(self).secret),
            final(self).secret == old(self).secret,
            final(self).guess_count == old(self).guess_count + 1,
            final(self).done == (guess == old(self).secret),
    {
        let verdict = if guess < self.secret {
            Verdict::Less
        } else if guess > self.secret {
            Verdict::Greater
        } else {
            Verdict::Equal
        };
        self.done = guess == self.secret;
        self.guess_count = self.guess_count + 1;
        verdict
    }

    /// Takes a line that the player typed: where it writes a number, white
    /// space at its ends aside, that number is the guess, and it comes
    /// back with its verdict; any other line is passed over and not
    /// counted.
    pub fn guess_line(&mut self, line: &str) -> (judged: Option<(u32, Verdict)>)
        requires
            old(self).guess_count < u32::MAX,
        ensures
            final(self).secret == old(self).secret,
            match number_of(trimmed_of(line@)) {
                Some(guess) => {
                    &&& judged == Some((guess, judge(guess, old(self).secret)))
                    &&& final(self).guess_count == old(self).guess_count + 1
                    &&& final(self).done == (guess == old(self).secret)
                },
                None => judged.is_none() && *final(self) == *old(self),
            },
    {
        match parse_number(trim(line)) {
            Some(guess) => {
                let verdict = self.guess(guess);
                Some((guess, verdict))
            },
            None => None,
        }
    }
}

/// How `guess` stands to `secret`.
pub open spec fn judge(guess: u32, secret: u32) -> Verdict {
    if guess < secret {
        Verdict::Less
    } else if guess > secret {
        Verdict::Greater
    } else {
        Verdict::Equal
    }
}

/// The score of a game won at the Fibonacci index `k`: the index itself up
/// to two, one less above.
pub open spec fn score_of_index(k: nat) -> nat {
    if k > 2 {
        (k - 1) as nat
    } else {
        k
    }
}

/// The score of a game won with `guess_count` guesses: the least index
/// whose Fibonacci number is at least one less than the count, brought
/// down by one above two.
pub fn calc_score(guess_count: u32) -> (score: u32)
    requires
        guess_count >= 1,
    ensures
        exists|k: nat|
            is_first_at_least((guess_count - 1) as nat, k) && score == score_of_index(k),
        score <= 47,
{
    proof {
        lemma_fib_48();
        lemma_fib_fits_through_93(48);
    }
    match fib_inverse_rounded_up((guess_count - 1) as u64) {
        Some(k) => {
            assert(k <= 48) by {
                if k > 48 {
                    assert(fib_spec(48) < guess_count - 1);
                }
            }
            let r: u32 = k as u32;
            let score: u32 = if r > 2 {
                r - 1
            } else {
                r
            };
            assert(is_first_at_least((guess_count - 1) as nat, k as nat) && score
                == score_of_index(k as nat));
            score
        },
        None => {
            assert(false) by {
                assert(fib_fits(48));
            }
            0
        },
    }
}

/// The car that a score wins.
pub open spec fn prize_spec(score: u32) -> Kinematics {
    match score {
        0 => Kinematics::ferrari(),
        1 => Kinematics::mercedes(),
        2 => Kinematics::mustang(),
        3 => Kinematics::sedan(),
        4 => Kinematics::pickup_truck(),
        _ => Kinematics::go_kart(),
    }
}

/// Hands out the car that `score` wins: the lower the score, the better
/// the car.
pub fn get_prize(score: u32) -> (car: Car)
    ensures
        car@ == prize_spec(score),
        car.wf(),
{
    match score {
        0 => Car::new_ferrari(),
        1 => Car::new_mercedes(),
        2 => Car::new_mustang(),
        3 => Car::new_sedan(),
        4 => Car::new_pickup_truck(),
        _ => Car::new_go_kart(),
    }
}

} // verus!
