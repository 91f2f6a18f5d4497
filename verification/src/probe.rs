//! What one health probe of a service says about it.

use reqwest::StatusCode;
use vstd::prelude::*;

use crate::clock::Span;

verus! {

/// How one health probe of a service ended.
#[derive(Clone, Copy, Debug, PartialEq, Eq, Structural)]
pub enum Probe {
    /// The service answered with this HTTP status code, after this long.
    Answered { code: u16, elapsed: Span },
    /// No answer came: the request failed, or the time for it ran out.
    Unanswered,
}

/// A status code of the success class.
pub open spec fn success_code(code: u16) -> bool {
    200 <= code <= 299
}

impl Probe {
    /// The probe found the service healthy: it answered with a success.
    pub open spec fn healthy(self) -> bool {
        match self {
            Probe::Answered { code, .. } => success_code(code),
            Probe::Unanswered => false,
        }
    }

    /// The latency in milliseconds, which only an answer has.
    pub open spec fn latency(self) -> Option<u64> {
        match self {
            Probe::Answered { elapsed, .. } => Some(
                (elapsed.whole_millis() % 0x1_0000_0000_0000_0000) as u64,
            ),
            Probe::Unanswered => None,
        }
    }

    /// Whether the service is healthy, and how long it took to answer in milliseconds.
    ///
    /// An answer that is no success counts as unhealthy, but has its latency all the same.
    pub fn result(self) -> (result: (bool, Option<u64>))
        ensures
            result.0 == self.healthy(),
            result.1 == self.latency(),
            result.0 ==> result.1 is Some,
            self matches Probe::Answered { code, elapsed } ==> {
                &&& result.0 <==> 200 <= code <= 299
                &&& result.1 is Some
                &&& result.1->0 == ((elapsed.secs * 1_000_000_000 + elapsed.nanos) / 1_000_000)
                    % 0x1_0000_0000_0000_0000
            },
            self is Unanswered ==> !result.0 && result.1 is None,
    {
        match self {
            Probe::Answered { code, elapsed } => (is_success(code), Some(elapsed.as_millis())),
            Probe::Unanswered => (false, None),
        }
    }
}

/// An answer is healthy exactly when its status code lies from 200 to 299, however long it took,
/// and no answer never is.
pub proof fn health_is_a_matter_of_the_code(code: u16, elapsed: Span)
    ensures
        (Probe::Answered { code, elapsed }).healthy() <==> 200 <= code <= 299,
        !Probe::Unanswered.healthy(),
{
}

/// Two answers with the same status code have the same health, and two that took the same time
/// have the same latency.
pub proof fn health_and_latency_are_independent(
    code: u16,
    other_code: u16,
    elapsed: Span,
    other_elapsed: Span,
)
    ensures
        (Probe::Answered { code, elapsed }).healthy() == (Probe::Answered {
            code,
            elapsed: other_elapsed,
        }).healthy(),
        (Probe::Answered { code, elapsed }).latency() == (Probe::Answered {
            code: other_code,
            elapsed,
        }).latency(),
{
}

/// The latency of an answer is the number of whole milliseconds that it took, as long as 64 bits
/// hold it, and modulo 2^64 beyond; no answer has none.
pub proof fn latency_is_the_time_that_the_answer_took(code: u16, elapsed: Span)
    ensures
        Probe::Unanswered.latency() is None,
        (Probe::Answered { code, elapsed }).latency() is Some,
        ({
            let ms = (Probe::Answered { code, elapsed }).latency()->0;
            let nanos = elapsed.secs * 1_000_000_000 + elapsed.nanos;
            &&& nanos < 0x1_0000_0000_0000_0000 * 1_000_000 ==> ms * 1_000_000 <= nanos < (ms + 1)
                * 1_000_000
            &&& ms == (nanos / 1_000_000) % 0x1_0000_0000_0000_0000
        }),
{
}

/// Where one answer took `n` milliseconds longer than another, its latency is `n` higher, as long
/// as 64 bits hold it.
pub proof fn latency_grows_with_the_time(code: u16, short: Span, long: Span, n: nat)
    requires
        long.secs * 1_000_000_000 + long.nanos == short.secs * 1_000_000_000 + short.nanos + n
            * 1_000_000,
        long.secs * 1_000_000_000 + long.nanos < 0x1_0000_0000_0000_0000 * 1_000_000,
    ensures
        (Probe::Answered { code, elapsed: long }).latency()->0 == (Probe::Answered {
            code,
            elapsed: short,
        }).latency()->0 + n,
{
}

/// Calls `reqwest::StatusCode::is_success` on the status code with the number `code`.
///
/// Trusted: a number is a success exactly when it lies from 200 to 299. A number outside 100 to
/// 999 is no status code (`StatusCode::from_u16` refuses it), and no success either.
#[verifier::external_body]
fn is_success(code: u16) -> (success: bool)
    ensures
        success == success_code(code),
{
    match StatusCode::from_u16(code) {
        Ok(status) => status.is_success(),
        Err(_) => false,
    }
}

} // verus!
