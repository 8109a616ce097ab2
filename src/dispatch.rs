//! Outcomes of the invocations of one stage, and how they are aggregated.
use vstd::prelude::*;
use crate::runbook::Action;

verus! {

/// Why one invocation failed.
#[derive(Clone, Debug, PartialEq, Eq)]
pub enum InvocationFailure {
    /// The call did not complete: the transport or the protocol failed.
    Transport(String),
    /// The service answered that the operation was unsuccessful.
    Unsuccessful,
}

/// The failure of one invocation, with the action and the identifier it was for.
#[derive(Clone, Debug, PartialEq, Eq)]
pub struct InvocationError {
    pub action: Action,
    pub id: String,
    pub cause: InvocationFailure,
}

/// The outcome of invoking `action` on `id`, given what came back: the success
/// flag of the service's answer, or a transport error.
pub open spec fn invocation_outcome(action: Action, id: String, response: Result<bool, String>) -> Result<
    (),
    InvocationError,
> {
    match response {
        Ok(true) => Ok(()),
        Ok(false) => Err(InvocationError { action, id, cause: InvocationFailure::Unsuccessful }),
        Err(e) => Err(InvocationError { action, id, cause: InvocationFailure::Transport(e) }),
    }
}

/// The outcomes of invoking `action` on each identifier, in identifier order.
pub open spec fn stage_outcomes(
    action: Action,
    ids: Seq<String>,
    responses: Seq<Result<bool, String>>,
) -> Seq<Result<(), InvocationError>> {
    Seq::new(ids.len(), |i: int| invocation_outcome(action, ids[i], responses[i]))
}

/// The aggregate of a sequence of outcomes: success when all succeeded,
/// otherwise the first failure in sequence order.
pub open spec fn first_failure_of(s: Seq<Result<(), InvocationError>>) -> Result<(), InvocationError>
    decreases s.len(),
{
    if s.len() == 0 {
        Ok(())
    } else if s[0] is Err {
        s[0]
    } else {
        first_failure_of(s.drop_first())
    }
}

/// Scanning from position `i` gives the same aggregate as scanning from the
/// start, when every outcome before `i` succeeded.
proof fn lemma_first_failure_skip(s: Seq<Result<(), InvocationError>>, i: int)
    requires
        0 <= i <= s.len(),
        forall|j: int| 0 <= j < i ==> s[j] is Ok,
    ensures
        first_failure_of(s) == first_failure_of(s.skip(i)),
    decreases i,
{
    if i > 0 {
        let t = s.drop_first();
        assert(t.skip(i - 1) =~= s.skip(i));
        lemma_first_failure_skip(t, i - 1);
    } else {
        assert(s.skip(0) =~= s);
    }
}

/// The aggregate is success when every outcome succeeded.
pub proof fn lemma_all_succeeded(s: Seq<Result<(), InvocationError>>)
    requires
        forall|j: int| 0 <= j < s.len() ==> s[j] is Ok,
    ensures
        first_failure_of(s) == Ok::<(), InvocationError>(()),
{
    lemma_first_failure_skip(s, s.len() as int);
}

/// Whatever order the invocations finished in, the failure reported for a
/// stage is the one at the earliest position in identifier order.
pub proof fn lemma_first_failure_in_input_order(s: Seq<Result<(), InvocationError>>, k: int)
    requires
        0 <= k < s.len(),
        s[k] is Err,
        forall|j: int| 0 <= j < k ==> s[j] is Ok,
    ensures
        first_failure_of(s) == s[k],
{
    lemma_first_failure_skip(s, k);
}

/// Maps what came back from one invocation to its outcome; an answer whose
/// success flag is false is a failure of its own kind, apart from transport errors.
pub fn check_response(action: Action, id: &String, response: &Result<bool, String>) -> (r: Result<
    (),
    InvocationError,
>)
    ensures
        r == invocation_outcome(action, *id, *response),
{
    match response {
        Ok(true) => Ok(()),
        Ok(false) => Err(
            InvocationError { action, id: id.clone(), cause: InvocationFailure::Unsuccessful },
        ),
        Err(e) => Err(
            InvocationError { action, id: id.clone(), cause: InvocationFailure::Transport(e.clone()) },
        ),
    }
}

/// Aggregates outcomes collected in identifier order: success only when all
/// succeeded, otherwise the first failure in that order. Later failures are
/// not reported.
pub fn first_failure(results: Vec<Result<(), InvocationError>>) -> (r: Result<(), InvocationError>)
    ensures
        r == first_failure_of(results@),
        r is Ok <==> forall|j: int| 0 <= j < results.len() ==> #[trigger] results@[j] is Ok,
        r is Err ==> exists|k: int|
            0 <= k < results.len() && results@[k] == r && forall|j: int|
                0 <= j < k ==> #[trigger] results@[j] is Ok,
{
    let ghost s = results@;
    let mut pending = results;
    let mut i: usize = 0;
    while i < pending.len()
        invariant
            pending@ == s,
            s == results@,
            i <= s.len(),
            forall|j: int| 0 <= j < i ==> #[trigger] s[j] is Ok,
        decreases s.len() - i,
    {
        if pending[i].is_err() {
            proof {
                lemma_first_failure_in_input_order(s, i as int);
            }
            return pending.remove(i);
        }
        i = i + 1;
    }
    proof {
        lemma_all_succeeded(s);
    }
    Ok(())
}

/// Aggregates the answers to one stage's invocations of `action`, given in the
/// order of `ids`: each answer is mapped to its outcome, then the first
/// failure in identifier order is reported, or success when there is none.
pub fn aggregate_responses(action: Action, ids: &Vec<String>, responses: &Vec<Result<bool, String>>) -> (r:
    Result<(), InvocationError>)
    requires
        responses.len() == ids.len(),
    ensures
        r == first_failure_of(stage_outcomes(action, ids@, responses@)),
{
    let ghost expected = stage_outcomes(action, ids@, responses@);
    let mut outcomes: Vec<Result<(), InvocationError>> = Vec::new();
    let mut i: usize = 0;
    while i < ids.len()
        invariant
            i <= ids.len(),
            responses.len() == ids.len(),
            expected == stage_outcomes(action, ids@, responses@),
            outcomes@ == expected.subrange(0, i as int),
        decreases ids.len() - i,
    {
        let outcome = check_response(action, &ids[i], &responses[i]);
        outcomes.push(outcome);
        assert(outcomes@ =~= expected.subrange(0, i + 1));
        i = i + 1;
    }
    assert(outcomes@ =~= expected);
    first_failure(outcomes)
}

} // verus!
