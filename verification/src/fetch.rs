//! Fetching one page with retries: the decisions, one step at a time.
//!
//! A caller starts in `Pending`, hands in `Start`, and then does what
//! each action says, handing back how the attempt went, until the state
//! is `Succeeded` or `Failed`.

use crate::error::ScraperError;
use crate::types::ScrapedContent;
use vstd::arithmetic::power2::{
    lemma2_to64, lemma2_to64_rest, lemma_pow2_strictly_increases, lemma_pow2_unfold, pow2,
};
use vstd::prelude::*;

verus! {

/// Where the fetch of one page stands.
#[derive(Debug)]
pub enum FetchState {
    /// Nothing was tried yet.
    Pending,
    /// An attempt is under way; `retries` attempts have failed before
    /// it.
    Attempting { retries: u32 },
    /// An attempt gave the page.
    Succeeded { page: ScrapedContent },
    /// No attempt is left. `last_error` is the failure of the last one,
    /// or `None` where none was made.
    Failed { last_error: Option<ScraperError> },
}

/// What happened to the fetch.
#[derive(Debug)]
pub enum FetchEvent {
    /// The fetch is asked for.
    Start,
    /// The attempt gave the page.
    Fetched { page: ScrapedContent },
    /// The attempt failed.
    Refused { error: ScraperError },
}

/// What the caller does next.
#[derive(Clone, Copy, Debug, PartialEq, Eq)]
pub enum FetchAction {
    /// Make an attempt at once: take a permit of the rate limiter,
    /// wait the pacing delay, and send the request.
    Attempt,
    /// Wait `seconds` seconds, then make an attempt in the same way.
    Backoff { seconds: u64 },
    /// Stop: the state is final.
    Finish,
    /// Nothing: the event does not belong to the state.
    Ignore,
}

/// The seconds to wait after the failure number `retries`, counted from
/// one: two to the power `retries`, or the largest number of seconds
/// where that power does not fit.
pub open spec fn backoff(retries: nat) -> nat {
    if retries < 64 {
        pow2(retries)
    } else {
        u64::MAX as nat
    }
}

/// The state and the action that follow an event, with at most
/// `max_retries` attempts.
pub open spec fn transition(max_retries: u32, state: FetchState, event: FetchEvent) -> (
    FetchState,
    FetchAction,
) {
    match (state, event) {
        (FetchState::Pending, FetchEvent::Start) => if max_retries == 0 {
            (FetchState::Failed { last_error: None }, FetchAction::Finish)
        } else {
            (FetchState::Attempting { retries: 0 }, FetchAction::Attempt)
        },
        (FetchState::Attempting { retries }, FetchEvent::Fetched { page }) => (
            FetchState::Succeeded { page },
            FetchAction::Finish,
        ),
        (FetchState::Attempting { retries }, FetchEvent::Refused { error }) => if retries + 1
            < max_retries {
            (
                FetchState::Attempting { retries: (retries + 1) as u32 },
                FetchAction::Backoff { seconds: backoff((retries + 1) as nat) as u64 },
            )
        } else {
            (FetchState::Failed { last_error: Some(error) }, FetchAction::Finish)
        },
        (FetchState::Succeeded { page }, _) => (
            FetchState::Succeeded { page },
            FetchAction::Finish,
        ),
        (FetchState::Failed { last_error }, _) => (
            FetchState::Failed { last_error },
            FetchAction::Finish,
        ),
        (state, _) => (state, FetchAction::Ignore),
    }
}

/// The seconds to wait after the failure number `retries`.
pub fn backoff_seconds(retries: u32) -> (seconds: u64)
    ensures
        seconds == backoff(retries as nat),
{
    if retries >= 64 {
        return u64::MAX;
    }
    let mut seconds: u64 = 1;
    let mut k: u32 = 0;
    proof {
        lemma2_to64();
    }
    while k < retries
        invariant
            k <= retries < 64,
            seconds == pow2(k as nat),
        decreases retries - k,
    {
        proof {
            lemma_pow2_unfold((k + 1) as nat);
            lemma2_to64_rest();
            if k + 1 < 63 {
                lemma_pow2_strictly_increases((k + 1) as nat, 63);
            }
        }
        seconds = seconds * 2;
        k += 1;
    }
    seconds
}

/// The state and the action that follow an event, with at most
/// `max_retries` attempts.
pub fn step(max_retries: u32, state: FetchState, event: FetchEvent) -> (next: (
    FetchState,
    FetchAction,
))
    ensures
        next == transition(max_retries, state, event),
{
    match state {
        FetchState::Pending => match event {
            FetchEvent::Start => if max_retries == 0 {
                (FetchState::Failed { last_error: None }, FetchAction::Finish)
            } else {
                (FetchState::Attempting { retries: 0 }, FetchAction::Attempt)
            },
            _ => (FetchState::Pending, FetchAction::Ignore),
        },
        FetchState::Attempting { retries } => match event {
            FetchEvent::Start => (FetchState::Attempting { retries }, FetchAction::Ignore),
            FetchEvent::Fetched { page } => (FetchState::Succeeded { page }, FetchAction::Finish),
            FetchEvent::Refused { error } => if retries < max_retries && retries + 1
                < max_retries {
                (
                    FetchState::Attempting { retries: retries + 1 },
                    FetchAction::Backoff { seconds: backoff_seconds(retries + 1) },
                )
            } else {
                (FetchState::Failed { last_error: Some(error) }, FetchAction::Finish)
            },
        },
        FetchState::Succeeded { page } => (FetchState::Succeeded { page }, FetchAction::Finish),
        FetchState::Failed { last_error } => (
            FetchState::Failed { last_error },
            FetchAction::Finish,
        ),
    }
}

/// What a final state hands to the caller: the page, or the failure of
/// the last attempt. Where no attempt was made, the failure says that
/// the retries are used up. A state that is not final hands out nothing.
pub fn outcome(state: FetchState) -> (out: Option<Result<ScrapedContent, ScraperError>>)
    ensures
        match state {
            FetchState::Succeeded { page } => out == Some(
                Ok::<ScrapedContent, ScraperError>(page),
            ),
            FetchState::Failed { last_error: Some(error) } => out == Some(
                Err::<ScrapedContent, ScraperError>(error),
            ),
            FetchState::Failed { last_error: None } => {
                &&& out matches Some(Err(ScraperError::ExtractionError(message)))
                &&& message@ == "Max retries exceeded"@
            },
            _ => out is None,
        },
{
    match state {
        FetchState::Succeeded { page } => Some(Ok(page)),
        FetchState::Failed { last_error } => match last_error {
            Some(error) => Some(Err(error)),
            None => Some(
                Err(ScraperError::ExtractionError("Max retries exceeded".to_owned())),
            ),
        },
        _ => None,
    }
}

/// What a run of events amounts to.
pub struct Trace {
    /// The state after the last event.
    pub state: FetchState,
    /// How many attempts the actions asked for.
    pub attempts: nat,
    /// How many seconds of waiting the actions asked for.
    pub slept: nat,
}

/// The attempts that an action asks for.
pub open spec fn attempts_of(action: FetchAction) -> nat {
    match action {
        FetchAction::Attempt => 1,
        FetchAction::Backoff { seconds } => 1,
        _ => 0,
    }
}

/// The seconds of waiting that an action asks for.
pub open spec fn seconds_of(action: FetchAction) -> nat {
    match action {
        FetchAction::Backoff { seconds } => seconds as nat,
        _ => 0,
    }
}

/// What the events amount to when they are handed in one after the
/// other, from `state` on.
pub open spec fn run(max_retries: u32, state: FetchState, events: Seq<FetchEvent>) -> Trace
    decreases events.len(),
{
    if events.len() == 0 {
        Trace { state, attempts: 0, slept: 0 }
    } else {
        let (next, action) = transition(max_retries, state, events[0]);
        let rest = run(max_retries, next, events.skip(1));
        Trace {
            state: rest.state,
            attempts: rest.attempts + attempts_of(action),
            slept: rest.slept + seconds_of(action),
        }
    }
}

/// The sum of the powers of two from the first to the one numbered
/// `k`.
pub open spec fn total_backoff(k: nat) -> nat
    decreases k,
{
    if k == 0 {
        0
    } else {
        total_backoff((k - 1) as nat) + pow2(k)
    }
}

/// The events of a fetch whose attempts fail with `errors`, one after
/// the other.
pub open spec fn refusals(errors: Seq<ScraperError>) -> Seq<FetchEvent> {
    Seq::new(errors.len(), |i: int| FetchEvent::Refused { error: errors[i] })
}

/// From an attempt after `retries` failures: where the attempts fail
/// with `errors` and the next one gives `page`, and the ceiling is not
/// reached, the fetch succeeds with one more attempt for each failure
/// and, where the powers fit, has waited the powers of two in between.
proof fn lemma_succeeds_from(
    max_retries: u32,
    retries: u32,
    errors: Seq<ScraperError>,
    page: ScrapedContent,
)
    requires
        retries + errors.len() < max_retries,
    ensures
        ({
            let trace = run(
                max_retries,
                FetchState::Attempting { retries },
                refusals(errors).push(FetchEvent::Fetched { page }),
            );
            &&& trace.state == FetchState::Succeeded { page }
            &&& trace.attempts == errors.len()
            &&& retries + errors.len() < 64 ==> trace.slept + total_backoff(retries as nat)
                == total_backoff(retries as nat + errors.len())
        }),
    decreases errors.len(),
{
    let events = refusals(errors).push(FetchEvent::Fetched { page });
    let state = FetchState::Attempting { retries };
    if errors.len() == 0 {
        assert(events[0] == FetchEvent::Fetched { page });
        assert(events.skip(1) =~= Seq::<FetchEvent>::empty());
        let next = FetchState::Succeeded { page };
        assert(transition(max_retries, state, events[0]) == (next, FetchAction::Finish));
        assert(run(max_retries, next, events.skip(1)).state == next);
    } else {
        let rest = errors.skip(1);
        assert(events[0] == FetchEvent::Refused { error: errors[0] });
        assert(events.skip(1) =~= refusals(rest).push(FetchEvent::Fetched { page }));
        lemma_succeeds_from(max_retries, (retries + 1) as u32, rest, page);
        if retries + errors.len() < 64 {
            lemma2_to64();
            lemma2_to64_rest();
            if retries + 1 < 63 {
                lemma_pow2_strictly_increases((retries + 1) as nat, 63);
            }
            assert(total_backoff((retries + 1) as nat) == total_backoff(retries as nat) + pow2(
                (retries + 1) as nat,
            ));
        }
    }
}

/// From an attempt after `retries` failures: where the attempts fail
/// with `errors` and the last of them reaches the ceiling, the fetch
/// fails with the last error, after one more attempt for each failure
/// but the last, and, where the powers fit, after waiting the powers of
/// two in between.
proof fn lemma_gives_up_from(max_retries: u32, retries: u32, errors: Seq<ScraperError>)
    requires
        errors.len() >= 1,
        retries + errors.len() == max_retries,
    ensures
        ({
            let trace = run(max_retries, FetchState::Attempting { retries }, refusals(errors));
            &&& trace.state == FetchState::Failed { last_error: Some(errors.last()) }
            &&& trace.attempts == errors.len() - 1
            &&& max_retries <= 64 ==> trace.slept + total_backoff(retries as nat)
                == total_backoff((max_retries - 1) as nat)
        }),
    decreases errors.len(),
{
    let events = refusals(errors);
    let state = FetchState::Attempting { retries };
    assert(events[0] == FetchEvent::Refused { error: errors[0] });
    if errors.len() == 1 {
        assert(events.skip(1) =~= Seq::<FetchEvent>::empty());
        let next = FetchState::Failed { last_error: Some(errors[0]) };
        assert(transition(max_retries, state, events[0]) == (next, FetchAction::Finish));
        assert(run(max_retries, next, events.skip(1)).state == next);
    } else {
        let rest = errors.skip(1);
        assert(events.skip(1) =~= refusals(rest));
        assert(rest.last() == errors.last());
        lemma_gives_up_from(max_retries, (retries + 1) as u32, rest);
        if max_retries <= 64 {
            lemma2_to64();
            lemma2_to64_rest();
            if retries + 1 < 63 {
                lemma_pow2_strictly_increases((retries + 1) as nat, 63);
            }
            assert(total_backoff((retries + 1) as nat) == total_backoff(retries as nat) + pow2(
                (retries + 1) as nat,
            ));
        }
    }
}

/// A fetch whose first attempts fail and whose next attempt succeeds,
/// with fewer failures than the ceiling, succeeds: it hands out the
/// page and has made one attempt more than there were failures. Where
/// the powers fit, with fewer than 64 failures, it has waited two to
/// the power of the failure's number after each failure.
pub proof fn lemma_retry_succeeds(
    max_retries: u32,
    errors: Seq<ScraperError>,
    page: ScrapedContent,
)
    requires
        errors.len() < max_retries,
    ensures
        ({
            let events = seq![FetchEvent::Start] + refusals(errors).push(
                FetchEvent::Fetched { page },
            );
            let trace = run(max_retries, FetchState::Pending, events);
            &&& trace.state == FetchState::Succeeded { page }
            &&& trace.attempts == errors.len() + 1
            &&& errors.len() < 64 ==> trace.slept == total_backoff(errors.len())
        }),
{
    let tail = refusals(errors).push(FetchEvent::Fetched { page });
    let events = seq![FetchEvent::Start] + tail;
    assert(events[0] == FetchEvent::Start);
    assert(events.skip(1) =~= tail);
    lemma_succeeds_from(max_retries, 0, errors, page);
}

/// A fetch whose every attempt fails gives up after exactly as many
/// attempts as the ceiling allows, with the failure of the last one;
/// with a ceiling of zero it makes no attempt. Where the powers fit, it
/// has waited two to the power of the failure's number after each
/// failure but the last. Whatever is handed in after that, no further
/// attempt is asked for.
pub proof fn lemma_retry_gives_up(
    max_retries: u32,
    errors: Seq<ScraperError>,
    later: Seq<FetchEvent>,
)
    requires
        errors.len() == max_retries,
    ensures
        ({
            let trace = run(
                max_retries,
                FetchState::Pending,
                seq![FetchEvent::Start] + refusals(errors),
            );
            &&& trace.attempts == max_retries
            &&& trace.state == FetchState::Failed {
                last_error: if max_retries == 0 {
                    None
                } else {
                    Some(errors.last())
                },
            }
            &&& 1 <= max_retries <= 64 ==> trace.slept == total_backoff((max_retries - 1) as nat)
            &&& run(max_retries, trace.state, later).attempts == 0
            &&& run(max_retries, trace.state, later).state == trace.state
        }),
{
    let tail = refusals(errors);
    let events = seq![FetchEvent::Start] + tail;
    assert(events[0] == FetchEvent::Start);
    assert(events.skip(1) =~= tail);
    if max_retries == 0 {
        assert(tail =~= Seq::<FetchEvent>::empty());
        let next = FetchState::Failed { last_error: None };
        assert(run(max_retries, next, tail).state == next);
        lemma_final_state_stays(max_retries, next, later);
    } else {
        lemma_gives_up_from(max_retries, 0, errors);
        lemma_final_state_stays(
            max_retries,
            FetchState::Failed { last_error: Some(errors.last()) },
            later,
        );
    }
}

/// A final state stays as it is, and asks for no attempt and no
/// waiting, whatever is handed in.
pub proof fn lemma_final_state_stays(
    max_retries: u32,
    state: FetchState,
    events: Seq<FetchEvent>,
)
    requires
        state is Succeeded || state is Failed,
    ensures
        run(max_retries, state, events).state == state,
        run(max_retries, state, events).attempts == 0,
        run(max_retries, state, events).slept == 0,
    decreases events.len(),
{
    if events.len() > 0 {
        lemma_final_state_stays(max_retries, state, events.skip(1));
    }
}

/// The most attempts that can still be asked for from a state.
pub open spec fn attempts_left(max_retries: u32, state: FetchState) -> nat {
    match state {
        FetchState::Pending => max_retries as nat,
        FetchState::Attempting { retries } => if retries + 1 < max_retries {
            (max_retries - 1 - retries) as nat
        } else {
            0
        },
        _ => 0,
    }
}

/// Whatever is handed in, from a state no more attempts are asked for
/// than are left to it.
pub proof fn lemma_attempts_left(max_retries: u32, state: FetchState, events: Seq<FetchEvent>)
    ensures
        run(max_retries, state, events).attempts <= attempts_left(max_retries, state),
    decreases events.len(),
{
    if events.len() > 0 {
        let (next, action) = transition(max_retries, state, events[0]);
        lemma_attempts_left(max_retries, next, events.skip(1));
    }
}

/// Whatever is handed in, the fetch of one page asks for at most as
/// many attempts as the ceiling allows.
pub proof fn lemma_attempts_bounded(max_retries: u32, events: Seq<FetchEvent>)
    ensures
        run(max_retries, FetchState::Pending, events).attempts <= max_retries,
{
    lemma_attempts_left(max_retries, FetchState::Pending, events);
}

} // verus!
