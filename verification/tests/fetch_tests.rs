use sollama::error::ScraperError;
use sollama::fetch::{backoff_seconds, outcome, step, FetchAction, FetchEvent, FetchState};
use sollama::search::SearchEngine;
use sollama::types::{Metadata, ScrapedContent, Timestamp};

fn page() -> ScrapedContent {
    ScrapedContent {
        url: "https://example.com".to_string(),
        content: "text".to_string(),
        metadata: Metadata::new(),
        timestamp: Timestamp { nanos: 0 },
    }
}

fn failure(n: usize) -> ScraperError {
    ScraperError::SearchError(format!("failure {}", n))
}

/// Drives the fetch of one page against attempts that fail `failures`
/// times and then succeed; gives the final state, the attempts made and
/// the seconds waited.
fn drive(max_retries: u32, failures: usize) -> (FetchState, usize, u64) {
    let engine = SearchEngine::new(max_retries);
    let mut attempts = 0;
    let mut slept = 0;
    let (mut state, mut action) = engine.advance(FetchState::Pending, FetchEvent::Start);
    loop {
        match action {
            FetchAction::Attempt => {}
            FetchAction::Backoff { seconds } => slept += seconds,
            FetchAction::Finish | FetchAction::Ignore => return (state, attempts, slept),
        }
        attempts += 1;
        let event = if attempts > failures {
            FetchEvent::Fetched { page: page() }
        } else {
            FetchEvent::Refused { error: failure(attempts) }
        };
        let next = engine.advance(state, event);
        state = next.0;
        action = next.1;
    }
}

#[test]
fn backoff_doubles() {
    assert_eq!(backoff_seconds(0), 1);
    assert_eq!(backoff_seconds(1), 2);
    assert_eq!(backoff_seconds(2), 4);
    assert_eq!(backoff_seconds(3), 8);
    assert_eq!(backoff_seconds(10), 1024);
    assert_eq!(backoff_seconds(63), 1 << 63);
}

#[test]
fn backoff_stops_at_the_largest_number() {
    assert_eq!(backoff_seconds(64), u64::MAX);
    assert_eq!(backoff_seconds(u32::MAX), u64::MAX);
}

#[test]
fn first_attempt_is_made_at_once() {
    let (state, action) = step(3, FetchState::Pending, FetchEvent::Start);
    assert!(matches!(state, FetchState::Attempting { retries: 0 }));
    assert_eq!(action, FetchAction::Attempt);
}

#[test]
fn success_on_the_first_attempt() {
    let (state, attempts, slept) = drive(3, 0);
    assert!(matches!(state, FetchState::Succeeded { .. }));
    assert_eq!(attempts, 1);
    assert_eq!(slept, 0);
}

#[test]
fn success_after_failures_has_waited_the_powers_of_two() {
    let (state, attempts, slept) = drive(3, 2);
    assert!(matches!(state, FetchState::Succeeded { .. }));
    assert_eq!(attempts, 3);
    assert_eq!(slept, 2 + 4);

    let (state, attempts, slept) = drive(6, 5);
    assert!(matches!(state, FetchState::Succeeded { .. }));
    assert_eq!(attempts, 6);
    assert_eq!(slept, 2 + 4 + 8 + 16 + 32);
}

#[test]
fn failing_attempts_stop_at_the_ceiling() {
    let (state, attempts, slept) = drive(3, 100);
    assert_eq!(attempts, 3);
    assert_eq!(slept, 2 + 4);
    match state {
        FetchState::Failed { last_error: Some(ScraperError::SearchError(message)) } => {
            assert_eq!(message, "failure 3")
        }
        other => panic!("unexpected state: {:?}", other),
    }
}

#[test]
fn one_attempt_is_not_followed_by_a_wait() {
    let (state, attempts, slept) = drive(1, 100);
    assert!(matches!(state, FetchState::Failed { last_error: Some(_) }));
    assert_eq!(attempts, 1);
    assert_eq!(slept, 0);
}

#[test]
fn ceiling_of_zero_makes_no_attempt() {
    let (state, attempts, slept) = drive(0, 0);
    assert_eq!(attempts, 0);
    assert_eq!(slept, 0);
    assert!(matches!(state, FetchState::Failed { last_error: None }));
    match outcome(state) {
        Some(Err(ScraperError::ExtractionError(message))) => {
            assert_eq!(message, "Max retries exceeded")
        }
        other => panic!("unexpected outcome: {:?}", other),
    }
}

#[test]
fn final_states_stay() {
    let (state, action) = step(3, FetchState::Succeeded { page: page() }, FetchEvent::Refused { error: failure(1) });
    assert!(matches!(state, FetchState::Succeeded { .. }));
    assert_eq!(action, FetchAction::Finish);
    let (state, action) = step(3, FetchState::Failed { last_error: None }, FetchEvent::Start);
    assert!(matches!(state, FetchState::Failed { last_error: None }));
    assert_eq!(action, FetchAction::Finish);
}

#[test]
fn events_out_of_place_are_ignored() {
    let (state, action) = step(3, FetchState::Pending, FetchEvent::Fetched { page: page() });
    assert!(matches!(state, FetchState::Pending));
    assert_eq!(action, FetchAction::Ignore);
    let (state, action) = step(3, FetchState::Pending, FetchEvent::Refused { error: failure(1) });
    assert!(matches!(state, FetchState::Pending));
    assert_eq!(action, FetchAction::Ignore);
    let (state, action) = step(3, FetchState::Attempting { retries: 1 }, FetchEvent::Start);
    assert!(matches!(state, FetchState::Attempting { retries: 1 }));
    assert_eq!(action, FetchAction::Ignore);
}

#[test]
fn refusal_below_the_ceiling_backs_off() {
    let (state, action) = step(5, FetchState::Attempting { retries: 2 }, FetchEvent::Refused { error: failure(3) });
    assert!(matches!(state, FetchState::Attempting { retries: 3 }));
    assert_eq!(action, FetchAction::Backoff { seconds: 8 });
}

#[test]
fn refusal_far_along_waits_the_largest_number() {
    let (state, action) = step(100, FetchState::Attempting { retries: 63 }, FetchEvent::Refused { error: failure(64) });
    assert!(matches!(state, FetchState::Attempting { retries: 64 }));
    assert_eq!(action, FetchAction::Backoff { seconds: u64::MAX });
    let (state, _) = step(u32::MAX, FetchState::Attempting { retries: u32::MAX }, FetchEvent::Refused { error: failure(0) });
    assert!(matches!(state, FetchState::Failed { last_error: Some(_) }));
}

#[test]
fn outcome_hands_out_final_states_only() {
    assert!(outcome(FetchState::Pending).is_none());
    assert!(outcome(FetchState::Attempting { retries: 0 }).is_none());
    match outcome(FetchState::Succeeded { page: page() }) {
        Some(Ok(found)) => assert_eq!(found.url, "https://example.com"),
        other => panic!("unexpected outcome: {:?}", other),
    }
    match outcome(FetchState::Failed { last_error: Some(ScraperError::RateLimitError) }) {
        Some(Err(ScraperError::RateLimitError)) => {}
        other => panic!("unexpected outcome: {:?}", other),
    }
    match outcome(FetchState::Failed { last_error: Some(ScraperError::LLMError("x".to_string())) }) {
        Some(Err(ScraperError::LLMError(message))) => assert_eq!(message, "x"),
        other => panic!("unexpected outcome: {:?}", other),
    }
}
