//! One quiz round: a translation record tagged with the direction
//! being tested, and the selection rule that picks that direction.

use vstd::prelude::*;

use crate::translation::Translation;

verus! {

/// A record bound to a quiz direction. `Local` tests recall of the
/// local word (the foreign word is shown); `Foreign` tests recall of
/// the foreign word (the local word is shown).
pub enum Guess {
    Local(Translation),
    Foreign(Translation),
}

impl Guess {
    /// The record inside, whatever the direction.
    pub open spec fn spec_translation(self) -> Translation {
        match self {
            Guess::Local(t) => t,
            Guess::Foreign(t) => t,
        }
    }

    /// The direction rule: quiz the side the user is currently weaker
    /// at by testing the opposite of the stronger side. A record with
    /// more correct foreign guesses than local ones is wrapped as
    /// `Local`; a tie resolves to `Foreign`.
    pub open spec fn select_spec(t: Translation) -> Guess {
        if t.guesses_foreign_correct > t.guesses_local_correct {
            Guess::Local(t)
        } else {
            Guess::Foreign(t)
        }
    }

    /// Wrap a drawn record in the direction the rule picks.
    pub fn select(t: Translation) -> (g: Guess)
        ensures
            g == Guess::select_spec(t),
    {
        if t.guesses_foreign_correct > t.guesses_local_correct {
            Guess::Local(t)
        } else {
            Guess::Foreign(t)
        }
    }

    /// The prompt text: the known side for the direction being tested.
    pub fn render(&self) -> (r: &str)
        ensures
            r@ == match *self {
                Guess::Local(t) => t.foreign@,
                Guess::Foreign(t) => t.local@,
            },
    {
        match self {
            Guess::Local(translation) => translation.foreign.as_str(),
            Guess::Foreign(translation) => translation.local.as_str(),
        }
    }

    /// The expected answer text, for feedback when a guess fails.
    pub fn render_translation(&self) -> (r: &str)
        ensures
            r@ == match *self {
                Guess::Local(t) => t.local@,
                Guess::Foreign(t) => t.foreign@,
            },
    {
        match self {
            Guess::Local(translation) => translation.local.as_str(),
            Guess::Foreign(translation) => translation.foreign.as_str(),
        }
    }

    /// Score one attempt against the side being tested, counting the
    /// round in that direction only.
    pub fn guess(&mut self, guess: &str) -> (correct: bool)
        requires
            match *old(self) {
                Guess::Local(t) => t.guesses_local_total < u32::MAX
                    && t.guesses_local_correct < u32::MAX,
                Guess::Foreign(t) => t.guesses_foreign_total < u32::MAX
                    && t.guesses_foreign_correct < u32::MAX,
            },
        ensures
            match *old(self) {
                Guess::Local(t) => {
                    &&& correct == t.local_guess_is_correct(guess@)
                    &&& *final(self) == Guess::Local(t.with_local_guess(correct))
                },
                Guess::Foreign(t) => {
                    &&& correct == t.foreign_guess_is_correct(guess@)
                    &&& *final(self) == Guess::Foreign(t.with_foreign_guess(correct))
                },
            },
    {
        match self {
            Guess::Local(translation) => translation.guess_local(guess),
            Guess::Foreign(translation) => translation.guess_foreign(guess),
        }
    }

    /// A borrow of the record inside, whatever the direction.
    pub fn translation(&self) -> (t: &Translation)
        ensures
            *t == self.spec_translation(),
    {
        match self {
            Guess::Local(translation) => translation,
            Guess::Foreign(translation) => translation,
        }
    }
}

} // verus!
