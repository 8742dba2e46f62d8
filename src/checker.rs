use vstd::prelude::*;

verus! {

/// The character of a decimal digit `d < 10`.
pub open spec fn digit_char(d: nat) -> char {
    if d == 0 { '0' }
    else if d == 1 { '1' }
    else if d == 2 { '2' }
    else if d == 3 { '3' }
    else if d == 4 { '4' }
    else if d == 5 { '5' }
    else if d == 6 { '6' }
    else if d == 7 { '7' }
    else if d == 8 { '8' }
    else { '9' }
}

/// The decimal rendering of `n`, most significant digit first, no padding.
pub open spec fn decimal(n: nat) -> Seq<char>
    decreases n,
{
    if n < 10 {
        seq![digit_char(n)]
    } else {
        decimal(n / 10) + seq![digit_char(n % 10)]
    }
}

/// The error text of a check whose attempts all failed, the last one with `cause`.
pub open spec fn failure_message(attempts: nat, cause: Seq<char>) -> Seq<char> {
    "Failed after "@ + decimal(attempts) + " attempts: "@ + cause
}

/// Relies on `ToString` for `u128` (through its `Display`): the plain decimal
/// digits of the value.
#[verifier::external_body]
fn decimal_text(n: u128) -> (r: String)
    ensures
        r@ == decimal(n as nat),
{
    n.to_string()
}

/// Builds the error text of a check that made `attempts` failed attempts.
pub fn failure_text(attempts: u128, cause: &str) -> (r: String)
    ensures
        r@ == failure_message(attempts as nat, cause@),
{
    let mut text = String::from_str("Failed after ");
    let digits = decimal_text(attempts);
    text.append(digits.as_str());
    text.append(" attempts: ");
    text.append(cause);
    text
}

/// What one HTTP attempt gave.
#[derive(Debug)]
pub enum AttemptOutcome {
    /// The server answered with this status code, whatever it is.
    Response(u16),
    /// No answer: connection refused, timeout, name resolution failure.
    Transport(String),
}

/// The plain-value form of an attempt's outcome.
pub open spec fn outcome_view(o: AttemptOutcome) -> Result<u16, Seq<char>> {
    match o {
        AttemptOutcome::Response(code) => Ok(code),
        AttemptOutcome::Transport(cause) => Err(cause@),
    }
}

/// The plain-value form of a check's status.
pub open spec fn status_view(s: Result<u16, String>) -> Result<u16, Seq<char>> {
    match s {
        Ok(code) => Ok(code),
        Err(text) => Err(text@),
    }
}

/// The verdict after one more attempt that answered `answer`, when `failed`
/// attempts had failed before it and `budget` retries are allowed; `None`
/// asks for another attempt.
pub open spec fn step_verdict(failed: nat, budget: nat, answer: Result<u16, Seq<char>>) -> Option<
    Result<u16, Seq<char>>,
> {
    match answer {
        Ok(code) => Some(Ok(code)),
        Err(cause) => if failed < budget {
            None
        } else {
            Some(Err(failure_message(failed + 1, cause)))
        },
    }
}

/// The number of attempts made and the verdict reached when the HTTP
/// capability answers `answers` in turn, `failed` attempts having failed
/// already; no verdict if the answers run out first.
pub open spec fn run_check(failed: nat, budget: nat, answers: Seq<Result<u16, Seq<char>>>) -> (
    nat,
    Option<Result<u16, Seq<char>>>,
)
    decreases answers.len(),
{
    if answers.len() == 0 {
        (failed, None)
    } else {
        match step_verdict(failed, budget, answers[0]) {
            Some(v) => (failed + 1, Some(v)),
            None => run_check(failed + 1, budget, answers.drop_first()),
        }
    }
}

/// The retry policy of one URL check, between two attempts.
pub struct RetryState {
    failures: usize,
    max_retries: usize,
}

/// What the caller does next after reporting an attempt.
pub enum Step {
    /// Make one more attempt, then report it to the state held here.
    Retry(RetryState),
    /// The check is over with this status.
    Done(Result<u16, String>),
}

impl RetryState {
    /// Attempts that have failed so far.
    pub closed spec fn failed(&self) -> nat {
        self.failures as nat
    }

    /// Retries allowed after the first failed attempt.
    pub closed spec fn budget(&self) -> nat {
        self.max_retries as nat
    }

    /// Another attempt is still allowed.
    pub open spec fn wf(&self) -> bool {
        self.failed() <= self.budget()
    }

    /// The state before the first attempt of a check.
    pub fn new(max_retries: usize) -> (r: Self)
        ensures
            r.failed() == 0,
            r.budget() == max_retries,
            r.wf(),
    {
        RetryState { failures: 0, max_retries }
    }

    /// The number of the attempt now due, counting from one.
    pub fn attempt_number(&self) -> (n: u128)
        ensures
            n == self.failed() + 1,
    {
        self.failures as u128 + 1
    }

    /// Takes the outcome of the attempt now due. A response of any status
    /// ends the check with that status; a transport failure asks for another
    /// attempt while retries remain, and otherwise ends the check with
    /// `failure_message` over the number of attempts made.
    pub fn record(self, outcome: AttemptOutcome) -> (r: Step)
        requires
            self.wf(),
        ensures
            match r {
                Step::Done(status) => step_verdict(
                    self.failed(),
                    self.budget(),
                    outcome_view(outcome),
                ) == Some(status_view(status)),
                Step::Retry(next) => step_verdict(
                    self.failed(),
                    self.budget(),
                    outcome_view(outcome),
                ) is None && next.failed() == self.failed() + 1 && next.budget() == self.budget()
                    && next.wf(),
            },
    {
        match outcome {
            AttemptOutcome::Response(code) => Step::Done(Ok(code)),
            AttemptOutcome::Transport(cause) => {
                if self.failures < self.max_retries {
                    Step::Retry(RetryState { failures: self.failures + 1, max_retries: self.max_retries })
                } else {
                    let text = failure_text(self.failures as u128 + 1, cause.as_str());
                    Step::Done(Err(text))
                }
            },
        }
    }
}

proof fn lemma_failing_from(failed: nat, budget: nat, answers: Seq<Result<u16, Seq<char>>>)
    requires
        failed <= budget,
        answers.len() > budget - failed,
        forall|i: int| 0 <= i < answers.len() ==> (#[trigger] answers[i]) is Err,
    ensures
        run_check(failed, budget, answers) == (
            budget + 1,
            Some(Err::<u16, Seq<char>>(failure_message(budget + 1, answers[budget - failed]->Err_0))),
        ),
    decreases answers.len(),
{
    assert(answers[0] is Err);
    if failed < budget {
        let rest = answers.drop_first();
        assert forall|i: int| 0 <= i < rest.len() implies (#[trigger] rest[i]) is Err by {
            assert(rest[i] == answers[i + 1]);
        }
        lemma_failing_from(failed + 1, budget, rest);
        assert(rest[budget - (failed + 1)] == answers[budget - failed]);
    }
}

/// A URL whose every attempt fails at the transport level is tried exactly
/// `budget + 1` times, and the check ends in an error naming that count and
/// the last cause.
pub proof fn lemma_always_failing(budget: nat, answers: Seq<Result<u16, Seq<char>>>)
    requires
        answers.len() > budget,
        forall|i: int| 0 <= i < answers.len() ==> (#[trigger] answers[i]) is Err,
    ensures
        run_check(0, budget, answers) == (
            budget + 1,
            Some(Err::<u16, Seq<char>>(failure_message(budget + 1, answers[budget as int]->Err_0))),
        ),
{
    lemma_failing_from(0, budget, answers);
}

proof fn lemma_succeeds_from(
    failed: nat,
    budget: nat,
    answers: Seq<Result<u16, Seq<char>>>,
    j: nat,
)
    requires
        1 <= j,
        failed + j <= budget + 1,
        j <= answers.len(),
        forall|i: int| 0 <= i < j - 1 ==> (#[trigger] answers[i]) is Err,
        answers[j - 1] is Ok,
    ensures
        run_check(failed, budget, answers) == (failed + j, Some(answers[j - 1])),
    decreases j,
{
    if j > 1 {
        assert(answers[0] is Err);
        let rest = answers.drop_first();
        assert forall|i: int| 0 <= i < (j - 1) - 1 implies (#[trigger] rest[i]) is Err by {
            assert(rest[i] == answers[i + 1]);
        }
        assert(rest[(j - 1) - 1] == answers[j - 1]);
        lemma_succeeds_from(failed + 1, budget, rest, (j - 1) as nat);
    }
}

/// A URL whose attempt number `j`, within the allowed `budget + 1`, is the
/// first to get a response is tried exactly `j` times, and the check ends with
/// that response's status.
pub proof fn lemma_succeeds_on_attempt(budget: nat, answers: Seq<Result<u16, Seq<char>>>, j: nat)
    requires
        1 <= j <= budget + 1,
        j <= answers.len(),
        forall|i: int| 0 <= i < j - 1 ==> (#[trigger] answers[i]) is Err,
        answers[j - 1] is Ok,
    ensures
        run_check(0, budget, answers) == (j, Some(answers[j - 1])),
{
    lemma_succeeds_from(0, budget, answers, j);
}

/// Any HTTP status, 404 included, is a successful check: a first attempt that
/// gets a response ends the check with `Ok` of its code, never an error.
pub proof fn lemma_status_is_success(budget: nat, answers: Seq<Result<u16, Seq<char>>>, code: u16)
    requires
        answers.len() >= 1,
        answers[0] == Ok::<u16, Seq<char>>(code),
    ensures
        run_check(0, budget, answers) == (1nat, Some(Ok::<u16, Seq<char>>(code))),
{
}

} // verus!
