use website_status_checker::checker::{failure_text, AttemptOutcome, RetryState, Step};

/// Runs one check against a scripted capability; returns the status and the
/// number of attempts made.
fn run_scripted(max_retries: usize, answers: &[Result<u16, &str>]) -> (Result<u16, String>, usize) {
    let mut state = RetryState::new(max_retries);
    let mut calls = 0;
    loop {
        let answer = answers[calls];
        calls += 1;
        let outcome = match answer {
            Ok(code) => AttemptOutcome::Response(code),
            Err(cause) => AttemptOutcome::Transport(cause.to_string()),
        };
        match state.record(outcome) {
            Step::Retry(next) => state = next,
            Step::Done(status) => return (status, calls),
        }
    }
}

#[test]
fn failure_text_names_attempts_and_cause() {
    assert_eq!(failure_text(12, "connection refused"), "Failed after 12 attempts: connection refused");
    assert_eq!(failure_text(0, ""), "Failed after 0 attempts: ");
    assert_eq!(failure_text(1, "x"), "Failed after 1 attempts: x");
}

#[test]
fn always_timing_out_makes_retries_plus_one_attempts() {
    let answers = [Err("timed out"); 10];
    for r in 0..5usize {
        let (status, calls) = run_scripted(r, &answers);
        assert_eq!(calls, r + 1);
        assert_eq!(status, Err(format!("Failed after {} attempts: timed out", r + 1)));
    }
}

#[test]
fn no_retries_means_one_attempt() {
    let (status, calls) = run_scripted(0, &[Err("dns failure"), Ok(200)]);
    assert_eq!(calls, 1);
    assert_eq!(status, Err("Failed after 1 attempts: dns failure".to_string()));
}

#[test]
fn success_on_attempt_j_makes_j_attempts() {
    let r = 3;
    for j in 1..=r + 1 {
        let mut answers: Vec<Result<u16, &str>> = vec![Err("refused"); j - 1];
        answers.push(Ok(204));
        answers.push(Ok(500));
        let (status, calls) = run_scripted(r, &answers);
        assert_eq!(calls, j);
        assert_eq!(status, Ok(204));
    }
}

#[test]
fn not_found_is_a_successful_check() {
    let (status, calls) = run_scripted(2, &[Ok(404), Err("unused")]);
    assert_eq!(calls, 1);
    assert_eq!(status, Ok(404));
    let (status, _) = run_scripted(2, &[Err("reset"), Ok(503)]);
    assert_eq!(status, Ok(503));
}

#[test]
fn attempt_number_counts_from_one() {
    let state = RetryState::new(2);
    assert_eq!(state.attempt_number(), 1);
    let next = match state.record(AttemptOutcome::Transport("t".to_string())) {
        Step::Retry(next) => next,
        Step::Done(_) => panic!("retry expected"),
    };
    assert_eq!(next.attempt_number(), 2);
}
