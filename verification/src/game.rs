//! The game itself: a secret value, a failure counter, and the reply the game
//! gives to each line of input.

use vstd::prelude::*;

use crate::parse::{parse_i32, parse_result};

verus! {

/// The game's reply to one line of input.
#[derive(Clone, Copy, Debug, PartialEq, Eq, Structural)]
pub enum Reply {
    /// The line did not parse as an integer; the player is asked again.
    ParseError,
    /// The guess is below the secret; `advise` asks whether to give up.
    TooSmall { guess: i32, advise: bool },
    /// The guess is above the secret; `advise` asks whether to give up.
    TooBig { guess: i32, advise: bool },
    /// The guess equals the secret: the game is over.
    Win { guess: i32 },
}

/// The reply a game with the given secret and failure count gives to a line.
pub open spec fn reply_of(secret: int, fails: int, line: Seq<u8>) -> Reply {
    match parse_result(line) {
        None => Reply::ParseError,
        Some(g) => if g < secret {
            Reply::TooSmall { guess: g as i32, advise: fails + 1 > 5 }
        } else if g > secret {
            Reply::TooBig { guess: g as i32, advise: fails + 1 > 5 }
        } else {
            Reply::Win { guess: g as i32 }
        },
    }
}

/// The failure count after a game with the given secret reads a line.
pub open spec fn fails_after(secret: int, fails: int, line: Seq<u8>) -> int {
    match parse_result(line) {
        None => fails,
        Some(g) => if g == secret {
            fails
        } else {
            fails + 1
        },
    }
}

/// Relies on rand::random_range: a uniform sample from the given range, here
/// the inclusive range of secrets, so the result lies in [0, 100].
#[verifier::external_body]
fn random_secret() -> (r: i32)
    ensures
        0 <= r <= 100,
{
    rand::random_range(0..=100)
}

/// Record one failed guess: raise the failure counter by one, and say whether
/// the player should be advised to quit, which happens as soon as the raised
/// counter exceeds five.
pub fn continue_loop(fails: &mut i32) -> (advise: bool)
    requires
        *old(fails) < i32::MAX,
    ensures
        *final(fails) == *old(fails) + 1,
        advise == (*final(fails) > 5),
{
    *fails += 1;
    *fails > 5
}

/// One game: the secret value drawn at the start, and how many guesses have
/// failed so far.
pub struct Game {
    pub secret: i32,
    pub fails: i32,
}

impl Game {
    /// The secret is in range and the failure count is a count.
    pub open spec fn wf(self) -> bool {
        0 <= self.secret <= 100 && 0 <= self.fails
    }

    /// A fresh game: a randomly drawn secret and no failed guesses.
    pub fn new_game() -> (g: Game)
        ensures
            g.wf(),
            g.fails == 0,
    {
        Game { secret: random_secret(), fails: 0 }
    }

    /// A game with a chosen secret.
    pub fn with_secret(secret: i32) -> (g: Game)
        requires
            0 <= secret <= 100,
        ensures
            g.wf(),
            g.secret == secret,
            g.fails == 0,
    {
        Game { secret, fails: 0 }
    }

    /// Feed one line of input to the game: parse it, compare the guess to the
    /// secret, and reply; a missed guess also raises the failure count.
    pub fn step(&mut self, line: &[u8]) -> (r: Reply)
        requires
            old(self).wf(),
            old(self).fails < i32::MAX,
        ensures
            final(self).wf(),
            final(self).secret == old(self).secret,
            r == reply_of(old(self).secret as int, old(self).fails as int, line@),
            final(self).fails as int == fails_after(
                old(self).secret as int,
                old(self).fails as int,
                line@,
            ),
    {
        match parse_i32(line) {
            None => Reply::ParseError,
            Some(g) => {
                if g < self.secret {
                    let advise = continue_loop(&mut self.fails);
                    Reply::TooSmall { guess: g, advise }
                } else if g > self.secret {
                    let advise = continue_loop(&mut self.fails);
                    Reply::TooBig { guess: g, advise }
                } else {
                    Reply::Win { guess: g }
                }
            },
        }
    }
}

impl Reply {
    /// The fixed line printed for this reply.
    pub fn message(&self) -> (m: &'static str)
        ensures
            self is ParseError ==> m@ == "An error has occurred. Most likely, you did not input a number."@,
            self is TooSmall ==> m@ == "Too small!"@,
            self is TooBig ==> m@ == "Too big!"@,
            self is Win ==> m@ == "You win!"@,
    {
        match self {
            Reply::ParseError => "An error has occurred. Most likely, you did not input a number.",
            Reply::TooSmall { .. } => "Too small!",
            Reply::TooBig { .. } => "Too big!",
            Reply::Win { .. } => "You win!",
        }
    }
}

/// Whether a reply carries the "maybe you should quit" advisory.
pub open spec fn advises(r: Reply) -> bool {
    match r {
        Reply::TooSmall { advise, .. } => advise,
        Reply::TooBig { advise, .. } => advise,
        _ => false,
    }
}

/// Whether a line parses to a guess that misses the secret.
pub open spec fn is_miss(secret: int, line: Seq<u8>) -> bool {
    match parse_result(line) {
        Some(g) => g != secret,
        None => false,
    }
}

/// A guess equal to the secret wins, whatever the failure count, and leaves
/// the failure count as it was.
pub proof fn lemma_correct_guess_wins(secret: int, fails: int, line: Seq<u8>)
    requires
        parse_result(line) == Some(secret),
    ensures
        reply_of(secret, fails, line) == (Reply::Win { guess: secret as i32 }),
        fails_after(secret, fails, line) == fails,
{
}

/// A line that does not parse as an integer never ends the game and never
/// raises the failure count: the reply only asks for another line.
pub proof fn lemma_non_numeric_is_harmless(secret: int, fails: int, line: Seq<u8>)
    requires
        parse_result(line) is None,
    ensures
        reply_of(secret, fails, line) == Reply::ParseError,
        fails_after(secret, fails, line) == fails,
{
}

/// The failure count once a whole sequence of lines has been read.
pub open spec fn fails_after_all(secret: int, fails: int, lines: Seq<Seq<u8>>) -> int
    decreases lines.len(),
{
    if lines.len() == 0 {
        fails
    } else {
        fails_after_all(secret, fails_after(secret, fails, lines.first()), lines.drop_first())
    }
}

/// Each missed guess raises the failure count by exactly one.
pub proof fn lemma_misses_are_counted(secret: int, fails: int, lines: Seq<Seq<u8>>)
    requires
        forall|i: int| 0 <= i < lines.len() ==> is_miss(secret, lines[i]),
    ensures
        fails_after_all(secret, fails, lines) == fails + lines.len(),
    decreases lines.len(),
{
    if lines.len() > 0 {
        assert(is_miss(secret, lines[0]));
        assert forall|i: int| 0 <= i < lines.drop_first().len() implies is_miss(
            secret,
            lines.drop_first()[i],
        ) by {
            assert(lines.drop_first()[i] == lines[i + 1]);
        }
        lemma_misses_are_counted(secret, fails + 1, lines.drop_first());
    }
}

/// A reply carries the advisory exactly when the guess misses the secret and
/// the failure count so raised exceeds five.
pub proof fn lemma_advisory_iff(secret: int, fails: int, line: Seq<u8>)
    ensures
        advises(reply_of(secret, fails, line)) == (is_miss(secret, line) && fails + 1 > 5),
{
}

/// In a fresh game, once five numeric guesses have missed, the next missed
/// guess raises the count past five and draws the advisory.
pub proof fn lemma_advisory_after_five_misses(secret: int, lines: Seq<Seq<u8>>, next: Seq<u8>)
    requires
        forall|i: int| 0 <= i < lines.len() ==> is_miss(secret, lines[i]),
        lines.len() >= 5,
        is_miss(secret, next),
    ensures
        advises(reply_of(secret, fails_after_all(secret, 0, lines), next)),
{
    lemma_misses_are_counted(secret, 0, lines);
}

} // verus!
