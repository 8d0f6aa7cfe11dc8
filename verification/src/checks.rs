//! A run of checks of which the first failure is reported.

use vstd::prelude::*;
use vstd::string::*;

use crate::text::push_decimal;
use crate::time::Duration;

verus! {

/// The first failure among outcomes, if there is one.
pub open spec fn first_failure(outcomes: Seq<Option<Seq<char>>>) -> Option<Seq<char>>
    decreases outcomes.len(),
{
    if outcomes.len() == 0 {
        None
    } else {
        match first_failure(outcomes.drop_last()) {
            Some(message) => Some(message),
            None => outcomes.last(),
        }
    }
}

/// Nothing fails exactly if no outcome is a failure.
pub proof fn none_fails(outcomes: Seq<Option<Seq<char>>>)
    ensures
        first_failure(outcomes) is None <==> forall|i: int|
            0 <= i < outcomes.len() ==> #[trigger] outcomes[i] is None,
    decreases outcomes.len(),
{
    if outcomes.len() > 0 {
        let rest = outcomes.drop_last();
        none_fails(rest);
        if first_failure(outcomes) is None {
            assert forall|i: int| 0 <= i < outcomes.len() implies #[trigger] outcomes[i] is None by {
                if i < rest.len() {
                    assert(rest[i] == outcomes[i]);
                }
            }
        } else if forall|i: int| 0 <= i < outcomes.len() ==> #[trigger] outcomes[i] is None {
            assert forall|i: int| 0 <= i < rest.len() implies #[trigger] rest[i] is None by {
                assert(rest[i] == outcomes[i]);
            }
            assert(outcomes[outcomes.len() - 1] is None);
        }
    }
}

/// The text of an outcome.
pub open spec fn shown(outcome: Option<String>) -> Option<Seq<char>> {
    match outcome {
        Some(message) => Some(message@),
        None => None,
    }
}

/// The first failure so far.
pub struct Checks {
    failed: Option<String>,
    outcomes: Ghost<Seq<Option<Seq<char>>>>,
}

impl Checks {
    /// Every outcome so far, in order.
    pub closed spec fn outcomes(&self) -> Seq<Option<Seq<char>>> {
        self.outcomes@
    }

    pub closed spec fn wf(&self) -> bool {
        shown(self.failed) == first_failure(self.outcomes@)
    }

    pub fn new() -> (checks: Self)
        ensures
            checks.wf(),
            checks.outcomes() == Seq::<Option<Seq<char>>>::empty(),
    {
        Checks { failed: None, outcomes: Ghost(Seq::empty()) }
    }

    /// Takes in one outcome.
    pub fn note(&mut self, outcome: Option<String>)
        requires
            old(self).wf(),
        ensures
            final(self).wf(),
            final(self).outcomes() == old(self).outcomes().push(shown(outcome)),
    {
        let ghost next = self.outcomes@.push(shown(outcome));
        assert(next.drop_last() =~= self.outcomes@);
        self.outcomes = Ghost(next);
        if self.failed.is_none() {
            self.failed = outcome;
        }
    }

    pub fn refuse_if(&mut self, wrong: bool, message: &str)
        requires
            old(self).wf(),
        ensures
            final(self).wf(),
            final(self).outcomes() == old(self).outcomes().push(
                crate::config::problem_if(wrong, message@),
            ),
    {
        reveal(crate::config::problem_if);
        if wrong {
            self.note(Some(message.to_owned()));
        } else {
            self.note(None);
        }
    }

    pub fn positive(&mut self, name: &str, value: u64)
        requires
            old(self).wf(),
        ensures
            final(self).wf(),
            final(self).outcomes() == old(self).outcomes().push(
                crate::config::positive(name@, value as int),
            ),
    {
        reveal(crate::config::positive);
        if value == 0 {
            self.note(Some(not_positive(name)));
        } else {
            self.note(None);
        }
    }

    pub fn positive_span(&mut self, name: &str, value: Duration)
        requires
            old(self).wf(),
        ensures
            final(self).wf(),
            final(self).outcomes() == old(self).outcomes().push(
                crate::config::positive_span(name@, value),
            ),
    {
        reveal(crate::config::positive_span);
        if value.is_zero() {
            self.note(Some(not_a_span(name)));
        } else {
            self.note(None);
        }
    }

    pub fn positive_bytes(&mut self, name: &str, value: Option<u64>)
        requires
            old(self).wf(),
        ensures
            final(self).wf(),
            final(self).outcomes() == old(self).outcomes().push(
                crate::config::positive_bytes(name@, value),
            ),
    {
        reveal(crate::config::positive_bytes);
        match value {
            Some(bytes) => self.positive(name, bytes),
            None => self.note(None),
        }
    }

    pub fn positive_limit(&mut self, name: &str, value: Option<Duration>)
        requires
            old(self).wf(),
        ensures
            final(self).wf(),
            final(self).outcomes() == old(self).outcomes().push(
                crate::config::positive_limit(name@, value),
            ),
    {
        reveal(crate::config::positive_limit);
        match value {
            Some(span) => self.positive_span(name, span),
            None => self.note(None),
        }
    }

    pub fn above_flush(&mut self, name: &str, limit: Option<u64>, flush: u64)
        requires
            old(self).wf(),
        ensures
            final(self).wf(),
            final(self).outcomes() == old(self).outcomes().push(
                crate::config::above_flush(name@, limit, flush),
            ),
    {
        reveal(crate::config::above_flush);
        reveal(crate::config::problem_if);
        match limit {
            Some(bytes) => {
                if bytes < flush {
                    let mut message = name.to_owned();
                    message.append(" (");
                    push_decimal(&mut message, bytes);
                    message.append(") must not be below flush_max_bytes (");
                    push_decimal(&mut message, flush);
                    message.append(")");
                    self.note(Some(message));
                } else {
                    self.note(None);
                }
            },
            None => self.note(None),
        }
    }

    /// The first failure, or success.
    pub fn into_result(self) -> (out: Result<(), String>)
        requires
            self.wf(),
        ensures
            match out {
                Ok(_) => first_failure(self.outcomes()) is None,
                Err(message) => first_failure(self.outcomes()) == Some(message@),
            },
    {
        match self.failed {
            Some(message) => Err(message),
            None => Ok(()),
        }
    }
}

/// The message for a value of zero.
pub fn not_positive(name: &str) -> (message: String)
    ensures
        crate::config::positive(name@, 0) == Some(message@),
{
    reveal(crate::config::positive);
    let mut message = "invalid ".to_owned();
    message.append(name);
    message.append(": value must be greater than zero");
    message
}

/// The message for a duration of zero.
pub fn not_a_span(name: &str) -> (message: String)
    ensures
        message@ == "invalid "@ + name@ + ": duration must be greater than zero"@,
{
    let mut message = "invalid ".to_owned();
    message.append(name);
    message.append(": duration must be greater than zero");
    message
}

/// What is reported is the first failure, whatever comes behind it.
pub proof fn the_first_failure_is_reported(outcomes: Seq<Option<Seq<char>>>, i: int)
    requires
        0 <= i < outcomes.len(),
        outcomes[i] is Some,
        forall|j: int| 0 <= j < i ==> #[trigger] outcomes[j] is None,
    ensures
        first_failure(outcomes) == outcomes[i],
    decreases outcomes.len(),
{
    let rest = outcomes.drop_last();
    if i < rest.len() {
        assert(rest[i] == outcomes[i]);
        assert forall|j: int| 0 <= j < i implies #[trigger] rest[j] is None by {
            assert(rest[j] == outcomes[j]);
        }
        the_first_failure_is_reported(rest, i);
    } else {
        none_fails(rest);
        assert forall|j: int| 0 <= j < rest.len() implies #[trigger] rest[j] is None by {
            assert(rest[j] == outcomes[j]);
        }
        assert(outcomes.last() == outcomes[i]);
    }
}

} // verus!
