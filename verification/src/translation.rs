//! The translation record: a lowercased word pair plus four guess
//! counters, with case-insensitive scoring and the merge rule used
//! during bulk import.

use vstd::prelude::*;

use crate::casing::{lower_of, lowercase};
use crate::VocabStoreError;

verus! {

/// One persisted word pair. The pair `(local, foreign)` is the record's
/// key and is lowercased at construction; the counters track how often
/// each direction was quizzed and answered correctly.
#[derive(Debug, PartialEq)]
pub struct Translation {
    pub local: String,
    pub foreign: String,
    pub guesses_local_total: u32,
    pub guesses_local_correct: u32,
    pub guesses_foreign_total: u32,
    pub guesses_foreign_correct: u32,
}

impl Translation {
    /// The counter invariant: in each direction, no more correct
    /// guesses than guesses taken.
    pub open spec fn wf(self) -> bool {
        &&& self.guesses_local_correct <= self.guesses_local_total
        &&& self.guesses_foreign_correct <= self.guesses_foreign_total
    }

    /// Both records describe the same word pair.
    pub open spec fn same_pair(self, other: Translation) -> bool {
        self.local@ == other.local@ && self.foreign@ == other.foreign@
    }

    /// Whether `attempt` counts as a correct guess of the local word.
    pub open spec fn local_guess_is_correct(self, attempt: Seq<char>) -> bool {
        lower_of(self.local@) == lower_of(attempt)
    }

    /// Whether `attempt` counts as a correct guess of the foreign word.
    pub open spec fn foreign_guess_is_correct(self, attempt: Seq<char>) -> bool {
        lower_of(self.foreign@) == lower_of(attempt)
    }

    /// The record after one guess in the local direction.
    pub open spec fn with_local_guess(self, correct: bool) -> Translation {
        Translation {
            local: self.local,
            foreign: self.foreign,
            guesses_local_total: (self.guesses_local_total + 1) as u32,
            guesses_local_correct: if correct {
                (self.guesses_local_correct + 1) as u32
            } else {
                self.guesses_local_correct
            },
            guesses_foreign_total: self.guesses_foreign_total,
            guesses_foreign_correct: self.guesses_foreign_correct,
        }
    }

    /// The record after one guess in the foreign direction.
    pub open spec fn with_foreign_guess(self, correct: bool) -> Translation {
        Translation {
            local: self.local,
            foreign: self.foreign,
            guesses_local_total: self.guesses_local_total,
            guesses_local_correct: self.guesses_local_correct,
            guesses_foreign_total: (self.guesses_foreign_total + 1) as u32,
            guesses_foreign_correct: if correct {
                (self.guesses_foreign_correct + 1) as u32
            } else {
                self.guesses_foreign_correct
            },
        }
    }

    /// A fresh record: both words lowercased, all counters at zero.
    pub fn new(local: &str, foreign: &str) -> (t: Translation)
        ensures
            t.local@ == lower_of(local@),
            t.foreign@ == lower_of(foreign@),
            t.guesses_local_total == 0,
            t.guesses_local_correct == 0,
            t.guesses_foreign_total == 0,
            t.guesses_foreign_correct == 0,
            t.wf(),
    {
        Translation {
            local: lowercase(local),
            foreign: lowercase(foreign),
            guesses_local_total: 0,
            guesses_local_correct: 0,
            guesses_foreign_total: 0,
            guesses_foreign_correct: 0,
        }
    }

    /// Score one guess of the local word: the attempt matches the local
    /// word up to case. Counts the round in the local direction.
    pub fn guess_local(&mut self, guess: &str) -> (correct: bool)
        requires
            old(self).guesses_local_total < u32::MAX,
            old(self).guesses_local_correct < u32::MAX,
        ensures
            correct == old(self).local_guess_is_correct(guess@),
            *final(self) == old(self).with_local_guess(correct),
            old(self).wf() ==> final(self).wf(),
    {
        self.guesses_local_total = self.guesses_local_total + 1;
        if lowercase(self.local.as_str()) == lowercase(guess) {
            self.guesses_local_correct = self.guesses_local_correct + 1;
            true
        } else {
            false
        }
    }

    /// Score one guess of the foreign word; symmetric to `guess_local`.
    pub fn guess_foreign(&mut self, guess: &str) -> (correct: bool)
        requires
            old(self).guesses_foreign_total < u32::MAX,
            old(self).guesses_foreign_correct < u32::MAX,
        ensures
            correct == old(self).foreign_guess_is_correct(guess@),
            *final(self) == old(self).with_foreign_guess(correct),
            old(self).wf() ==> final(self).wf(),
    {
        self.guesses_foreign_total = self.guesses_foreign_total + 1;
        if lowercase(self.foreign.as_str()) == lowercase(guess) {
            self.guesses_foreign_correct = self.guesses_foreign_correct + 1;
            true
        } else {
            false
        }
    }

    /// The aggregate accuracy as a ratio: correct guesses over guesses
    /// taken, both directions combined. The quotient itself (0 when the
    /// denominator is 0) is the caller's affair.
    pub fn total_accuracy(&self) -> (r: (u64, u64))
        ensures
            r.0 == self.guesses_local_correct + self.guesses_foreign_correct,
            r.1 == self.guesses_local_total + self.guesses_foreign_total,
    {
        (
            (self.guesses_local_correct as u64) + (self.guesses_foreign_correct as u64),
            (self.guesses_local_total as u64) + (self.guesses_foreign_total as u64),
        )
    }

    /// The merge rule. For records with equal pair keys, each direction
    /// is resolved independently: the side with the strictly greater
    /// total wins and its counter pair is copied verbatim; a tie keeps
    /// `self` (the existing record).
    pub open spec fn reconcile_spec(self, other: Translation) -> Result<
        Translation,
        VocabStoreError,
    > {
        if !self.same_pair(other) {
            Err(VocabStoreError::ReconciliationError)
        } else {
            Ok(
                Translation {
                    local: self.local,
                    foreign: self.foreign,
                    guesses_local_total: if self.guesses_local_total
                        >= other.guesses_local_total {
                        self.guesses_local_total
                    } else {
                        other.guesses_local_total
                    },
                    guesses_local_correct: if self.guesses_local_total
                        >= other.guesses_local_total {
                        self.guesses_local_correct
                    } else {
                        other.guesses_local_correct
                    },
                    guesses_foreign_total: if self.guesses_foreign_total
                        >= other.guesses_foreign_total {
                        self.guesses_foreign_total
                    } else {
                        other.guesses_foreign_total
                    },
                    guesses_foreign_correct: if self.guesses_foreign_total
                        >= other.guesses_foreign_total {
                        self.guesses_foreign_correct
                    } else {
                        other.guesses_foreign_correct
                    },
                },
            )
        }
    }

    /// Merge two records for the same word pair, taking per direction
    /// the counters of the side with more evidence. Records whose pair
    /// keys differ are never merged.
    pub fn reconcile(self, other: Translation) -> (r: Result<Translation, VocabStoreError>)
        ensures
            r == self.reconcile_spec(other),
    {
        if !(self.local == other.local) || !(self.foreign == other.foreign) {
            return Err(VocabStoreError::ReconciliationError);
        }
        let more_local = self.guesses_local_total > other.guesses_local_total;
        let more_foreign = self.guesses_foreign_total > other.guesses_foreign_total;

        let (guesses_local_total, guesses_local_correct) = if more_local {
            (self.guesses_local_total, self.guesses_local_correct)
        } else if other.guesses_local_total > self.guesses_local_total {
            (other.guesses_local_total, other.guesses_local_correct)
        } else {
            (self.guesses_local_total, self.guesses_local_correct)
        };
        let (guesses_foreign_total, guesses_foreign_correct) = if more_foreign {
            (self.guesses_foreign_total, self.guesses_foreign_correct)
        } else if other.guesses_foreign_total > self.guesses_foreign_total {
            (other.guesses_foreign_total, other.guesses_foreign_correct)
        } else {
            (self.guesses_foreign_total, self.guesses_foreign_correct)
        };

        Ok(
            Translation {
                local: self.local,
                foreign: self.foreign,
                guesses_local_total,
                guesses_local_correct,
                guesses_foreign_total,
                guesses_foreign_correct,
            },
        )
    }
}

impl Clone for Translation {
    /// A clone carries the very same field values.
    fn clone(&self) -> (r: Self)
        ensures
            r == *self,
    {
        Translation {
            local: self.local.clone(),
            foreign: self.foreign.clone(),
            guesses_local_total: self.guesses_local_total,
            guesses_local_correct: self.guesses_local_correct,
            guesses_foreign_total: self.guesses_foreign_total,
            guesses_foreign_correct: self.guesses_foreign_correct,
        }
    }
}

/// The record after a run of guesses in the local direction, one
/// scoring call per attempt.
pub open spec fn after_local_guesses(t: Translation, attempts: Seq<Seq<char>>) -> Translation
    decreases attempts.len(),
{
    if attempts.len() == 0 {
        t
    } else {
        after_local_guesses(
            t.with_local_guess(t.local_guess_is_correct(attempts[0])),
            attempts.drop_first(),
        )
    }
}

/// Counting: a run of `n` scoring calls in the local direction adds
/// exactly `n` to `guesses_local_total`, at most `n` to
/// `guesses_local_correct`, touches nothing else, and preserves the
/// counter invariant. With a fresh record this reads: after `n`
/// guesses, the total is `n` and the correct count is at most `n`.
pub proof fn lemma_local_guess_counts(t: Translation, attempts: Seq<Seq<char>>)
    requires
        t.guesses_local_total + attempts.len() <= u32::MAX,
        t.guesses_local_correct + attempts.len() <= u32::MAX,
    ensures
        after_local_guesses(t, attempts).guesses_local_total == t.guesses_local_total
            + attempts.len(),
        after_local_guesses(t, attempts).guesses_local_correct <= t.guesses_local_correct
            + attempts.len(),
        after_local_guesses(t, attempts).guesses_foreign_total == t.guesses_foreign_total,
        after_local_guesses(t, attempts).guesses_foreign_correct == t.guesses_foreign_correct,
        after_local_guesses(t, attempts).local == t.local,
        after_local_guesses(t, attempts).foreign == t.foreign,
        t.wf() ==> after_local_guesses(t, attempts).wf(),
    decreases attempts.len(),
{
    if attempts.len() > 0 {
        let t1 = t.with_local_guess(t.local_guess_is_correct(attempts[0]));
        lemma_local_guess_counts(t1, attempts.drop_first());
    }
}

/// Case-insensitivity of scoring: two attempts with the same lowercase
/// form are scored identically, in both directions.
pub proof fn lemma_guess_case_insensitive(t: Translation, a: Seq<char>, b: Seq<char>)
    requires
        lower_of(a) == lower_of(b),
    ensures
        t.local_guess_is_correct(a) == t.local_guess_is_correct(b),
        t.foreign_guess_is_correct(a) == t.foreign_guess_is_correct(b),
        t.with_local_guess(t.local_guess_is_correct(a)) == t.with_local_guess(
            t.local_guess_is_correct(b),
        ),
        t.with_foreign_guess(t.foreign_guess_is_correct(a)) == t.with_foreign_guess(
            t.foreign_guess_is_correct(b),
        ),
{
}

/// Merging a record with itself gives the record back: both directions
/// tie, and a tie keeps the existing side.
pub proof fn lemma_reconcile_identical(t: Translation)
    ensures
        t.reconcile_spec(t) == Ok::<Translation, VocabStoreError>(t),
{
}

/// With both counters in range, the aggregate accuracy ratio lies in
/// the unit interval: the numerator never exceeds the denominator.
pub proof fn lemma_accuracy_in_unit_interval(t: Translation)
    requires
        t.wf(),
    ensures
        t.guesses_local_correct + t.guesses_foreign_correct <= t.guesses_local_total
            + t.guesses_foreign_total,
{
}

} // verus!
