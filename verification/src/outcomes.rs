//! Sequences of outcomes, of which the first failure counts.

use vstd::prelude::*;
use crate::error::ResolveError;

verus! {

/// The values of `outcomes` where all of them are successes, else the
/// first failure among them.
pub open spec fn all_or_first_error<T>(outcomes: Seq<Result<T, ResolveError>>) -> Result<
    Seq<T>,
    ResolveError,
>
    decreases outcomes.len(),
{
    if outcomes.len() == 0 {
        Ok(Seq::empty())
    } else {
        match all_or_first_error(outcomes.drop_last()) {
            Err(error) => Err(error),
            Ok(values) => match outcomes.last() {
                Err(error) => Err(error),
                Ok(value) => Ok(values.push(value)),
            },
        }
    }
}

/// Where all outcomes are successes, the values stand in their order;
/// else the error is that of the first failure.
pub proof fn lemma_all_or_first_error<T>(outcomes: Seq<Result<T, ResolveError>>)
    ensures
        match all_or_first_error(outcomes) {
            Ok(values) => values.len() == outcomes.len() && forall|i: int|
                0 <= i < outcomes.len() ==> #[trigger] outcomes[i] == Ok::<T, ResolveError>(
                    values[i],
                ),
            Err(error) => exists|i: int|
                0 <= i < outcomes.len() && #[trigger] outcomes[i] == Err::<T, ResolveError>(error)
                    && forall|j: int| 0 <= j < i ==> (#[trigger] outcomes[j]) is Ok,
        },
    decreases outcomes.len(),
{
    if outcomes.len() > 0 {
        let front = outcomes.drop_last();
        lemma_all_or_first_error(front);
        match all_or_first_error(front) {
            Err(error) => {
                let i = choose|i: int|
                    0 <= i < front.len() && #[trigger] front[i] == Err::<T, ResolveError>(error)
                        && forall|j: int| 0 <= j < i ==> (#[trigger] front[j]) is Ok;
                assert(outcomes[i] == front[i]);
                assert forall|j: int| 0 <= j < i implies (#[trigger] outcomes[j]) is Ok by {
                    assert(outcomes[j] == front[j]);
                }
            },
            Ok(values) => {
                assert forall|j: int| 0 <= j < front.len() implies (#[trigger] outcomes[j])
                    == Ok::<T, ResolveError>(values[j]) by {
                    assert(outcomes[j] == front[j]);
                }
                match outcomes.last() {
                    Err(error) => {
                        let i = outcomes.len() - 1;
                        assert(outcomes[i] == Err::<T, ResolveError>(error));
                    },
                    Ok(value) => {},
                }
            },
        }
    }
}

/// Once a prefix of the outcomes holds a failure, the whole has the same
/// one.
pub proof fn lemma_failure_is_final<T>(outcomes: Seq<Result<T, ResolveError>>, upto: int)
    requires
        0 <= upto <= outcomes.len(),
        all_or_first_error(outcomes.take(upto)) is Err,
    ensures
        all_or_first_error(outcomes) == all_or_first_error(outcomes.take(upto)),
    decreases outcomes.len() - upto,
{
    if upto < outcomes.len() {
        assert(outcomes.take(upto + 1).drop_last() =~= outcomes.take(upto));
        lemma_failure_is_final(outcomes, upto + 1);
    } else {
        assert(outcomes.take(upto) =~= outcomes);
    }
}

} // verus!
