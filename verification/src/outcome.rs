//! Latency guard and aggregate reporting.
//!
//! A dispatched request either fails at the transport layer or yields a
//! response after a measured round-trip time. The guard classifies each of
//! these into an [`Outcome`]; a batch of outcomes folds into one overall
//! result that fails if any single outcome failed. The HTTP status code of a
//! response is deliberately not part of the model: only transport-level
//! failure and elapsed time decide success.

use vstd::prelude::*;

verus! {

/// Maximum allowed round-trip time for one request, in milliseconds.
pub const MAX_RESPONSE_MS: u128 = 400;

/// The classified result of attempting to send one task.
#[derive(Debug)]
pub enum Outcome {
    /// A response arrived within the latency threshold.
    Success,
    /// No response was received at all (connection refused, timeout, ...).
    TransportFailure { endpoint: String, cause: String },
    /// A response arrived, but only after more than the allowed time.
    LatencyViolation { elapsed_ms: u128 },
}

/// The decimal digit `d` as a character.
pub open spec fn digit_char(d: nat) -> char {
    if d == 0 { '0' }
    else if d == 1 { '1' }
    else if d == 2 { '2' }
    else if d == 3 { '3' }
    else if d == 4 { '4' }
    else if d == 5 { '5' }
    else if d == 6 { '6' }
    else if d == 7 { '7' }
    else if d == 8 { '8' }
    else { '9' }
}

/// The usual decimal rendering of `n`, without leading zeros.
pub open spec fn dec_str(n: nat) -> Seq<char>
    decreases n,
{
    if n < 10 {
        seq![digit_char(n)]
    } else {
        dec_str(n / 10).push(digit_char(n % 10))
    }
}

/// The message reported for a transport-level failure.
pub open spec fn transport_message(endpoint: Seq<char>, cause: Seq<char>) -> Seq<char> {
    "Failed to send task to "@ + endpoint + ": "@ + cause
}

/// The message reported for a response that broke the latency threshold.
pub open spec fn latency_message(elapsed_ms: nat) -> Seq<char> {
    "Failed! Response took "@ + dec_str(elapsed_ms) + "ms. Maximum "@
        + dec_str(MAX_RESPONSE_MS as nat) + "ms response."@
}

impl Outcome {
    /// The message an outcome carries: `None` exactly for a success.
    pub open spec fn spec_message(self) -> Option<Seq<char>> {
        match self {
            Outcome::Success => None,
            Outcome::TransportFailure { endpoint, cause } =>
                Some(transport_message(endpoint@, cause@)),
            Outcome::LatencyViolation { elapsed_ms } =>
                Some(latency_message(elapsed_ms as nat)),
        }
    }

    pub fn is_success(&self) -> (r: bool)
        ensures
            r == (*self is Success),
    {
        match self {
            Outcome::Success => true,
            _ => false,
        }
    }

    /// Renders the outcome's failure message, if it is a failure.
    pub fn message(&self) -> (r: Option<String>)
        ensures
            r is None <==> *self is Success,
            r matches Some(m) ==> Some(m@) == self.spec_message(),
    {
        match self {
            Outcome::Success => None,
            Outcome::TransportFailure { endpoint, cause } => {
                let m = "Failed to send task to ".to_owned()
                    .concat(endpoint.as_str())
                    .concat(": ")
                    .concat(cause.as_str());
                Some(m)
            },
            Outcome::LatencyViolation { elapsed_ms } => {
                let m = "Failed! Response took ".to_owned()
                    .concat(u128_to_string(*elapsed_ms).as_str())
                    .concat("ms. Maximum ")
                    .concat(u128_to_string(MAX_RESPONSE_MS).as_str())
                    .concat("ms response.");
                Some(m)
            },
        }
    }
}

/// A single decimal digit as a string slice.
fn digit_str(d: u128) -> (r: &'static str)
    requires
        d < 10,
    ensures
        r@ == seq![digit_char(d as nat)],
{
    proof {
        reveal_strlit("0");
        reveal_strlit("1");
        reveal_strlit("2");
        reveal_strlit("3");
        reveal_strlit("4");
        reveal_strlit("5");
        reveal_strlit("6");
        reveal_strlit("7");
        reveal_strlit("8");
        reveal_strlit("9");
    }
    match d {
        0 => "0",
        1 => "1",
        2 => "2",
        3 => "3",
        4 => "4",
        5 => "5",
        6 => "6",
        7 => "7",
        8 => "8",
        _ => "9",
    }
}

/// Renders `n` in decimal.
pub fn u128_to_string(n: u128) -> (r: String)
    ensures
        r@ == dec_str(n as nat),
    decreases n,
{
    if n < 10 {
        digit_str(n).to_owned()
    } else {
        let mut s = u128_to_string(n / 10);
        s.append(digit_str(n % 10));
        proof {
            assert(s@ =~= dec_str(n as nat));
        }
        s
    }
}

/// Latency guard: classifies the result of one send attempt.
///
/// `send_result` is `Err(cause)` when no response was received at all, and
/// `Ok(elapsed_ms)` when a response — of any HTTP status — arrived after
/// `elapsed_ms` milliseconds. Status codes are deliberately ignored.
pub fn classify(endpoint: &str, send_result: Result<u128, String>) -> (r: Outcome)
    ensures
        send_result matches Err(cause) ==>
            r matches (Outcome::TransportFailure { endpoint: ep, cause: c })
            && ep@ == endpoint@ && c@ == cause@,
        send_result matches Ok(elapsed) ==> (if elapsed <= MAX_RESPONSE_MS {
            r is Success
        } else {
            r matches (Outcome::LatencyViolation { elapsed_ms }) && elapsed_ms == elapsed
        }),
{
    match send_result {
        Err(cause) => Outcome::TransportFailure { endpoint: endpoint.to_owned(), cause },
        Ok(elapsed) => {
            if elapsed <= MAX_RESPONSE_MS {
                Outcome::Success
            } else {
                Outcome::LatencyViolation { elapsed_ms: elapsed }
            }
        },
    }
}

/// Folds the outcomes of all dispatched tasks into the overall result:
/// `Ok` exactly when every task succeeded, otherwise the first failure's
/// message.
pub fn aggregate(outcomes: &Vec<Outcome>) -> (r: Result<(), String>)
    ensures
        r is Ok <==> (forall|i: int| 0 <= i < outcomes@.len() ==> outcomes@[i] is Success),
        r matches Err(m) ==> exists|i: int|
            0 <= i < outcomes@.len()
            && Some(m@) == #[trigger] outcomes@[i].spec_message()
            && !(outcomes@[i] is Success)
            && (forall|j: int| 0 <= j < i ==> outcomes@[j] is Success),
{
    let mut i: usize = 0;
    while i < outcomes.len()
        invariant
            0 <= i <= outcomes@.len(),
            forall|j: int| 0 <= j < i ==> outcomes@[j] is Success,
        decreases outcomes@.len() - i,
    {
        match outcomes[i].message() {
            Some(m) => {
                return Err(m);
            },
            None => {},
        }
        i += 1;
    }
    Ok(())
}

} // verus!
