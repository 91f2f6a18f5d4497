//! Lengths of time, and the wall clock in Unix milliseconds.

use std::time::SystemTime;
use vstd::prelude::*;

verus! {

/// A length of time: whole seconds, and the rest in nanoseconds.
#[derive(Clone, Copy, Debug, PartialEq, Eq, Structural)]
pub struct Span {
    pub secs: u64,
    pub nanos: u32,
}

impl Span {
    /// The whole milliseconds in the span, however many they are.
    pub open spec fn whole_millis(self) -> nat {
        (self.secs * 1000 + self.nanos / 1_000_000) as nat
    }

    /// The whole milliseconds in the span, modulo 2^64.
    pub fn as_millis(self) -> (millis: u64)
        ensures
            millis == self.whole_millis() % 0x1_0000_0000_0000_0000,
            millis == ((self.secs * 1_000_000_000 + self.nanos) / 1_000_000)
                % 0x1_0000_0000_0000_0000,
    {
        let whole: u128 = (self.secs as u128) * 1000 + (self.nanos / 1_000_000) as u128;
        assert(#[verifier::truncate] (whole as u64) == whole % 0x1_0000_0000_0000_0000)
            by (bit_vector);
        #[verifier::truncate]
        (whole as u64)
    }
}

/// The Unix time in milliseconds that a clock shows which is `since` past the epoch; a clock that
/// is set to before the epoch (`None`) shows 0.
pub open spec fn shown_ms(since: Option<Span>) -> nat {
    match since {
        Some(span) => span.whole_millis() % 0x1_0000_0000_0000_0000,
        None => 0,
    }
}

/// The Unix time in milliseconds at `since` past the epoch, and 0 before the epoch.
pub fn unix_ms(since: Option<Span>) -> (ms: u64)
    ensures
        ms == shown_ms(since),
        since matches Some(span) ==> ms == ((span.secs * 1_000_000_000 + span.nanos) / 1_000_000)
            % 0x1_0000_0000_0000_0000,
        since is None ==> ms == 0,
{
    match since {
        Some(span) => span.as_millis(),
        None => 0,
    }
}

/// The system's clock can give the reading `since`. Only [`since_epoch`] knows which readings those
/// are: outside this module nothing can be shown to be one but what [`now_ms`] has read.
pub closed spec fn clock_gives(since: Option<Span>) -> bool {
    call_ensures(since_epoch, (), since)
}

/// `ms` has been read from the system's clock: it is what [`shown_ms`] makes of a reading. This is
/// no bound on `ms`, as a clock may be set to any time; the exact value for each reading is stated
/// at [`unix_ms`].
pub open spec fn read_from_clock(ms: u64) -> bool {
    exists|since: Option<Span>| clock_gives(since) && ms == #[trigger] shown_ms(since)
}

/// Calls `std::time::SystemTime::elapsed` on the Unix epoch.
///
/// Trusted: a clock at or past the epoch gives the time since then, with less than a second in the
/// nanoseconds, and one before the epoch gives an error, here `None`. Which time it is rests on
/// the system's clock alone, and nothing is said of it.
#[verifier::external_body]
fn since_epoch() -> (since: Option<Span>)
    ensures
        since matches Some(span) ==> span.nanos < 1_000_000_000,
{
    match SystemTime::UNIX_EPOCH.elapsed() {
        Ok(time) => Some(Span { secs: time.as_secs(), nanos: time.subsec_nanos() }),
        Err(_) => None,
    }
}

/// Takes a reading, and keeps in mind where it comes from.
fn take_reading<F: Fn() -> Option<Span>>(clock: F) -> (since: Option<Span>)
    requires
        call_requires(clock, ()),
    ensures
        call_ensures(clock, (), since),
{
    clock()
}

/// The current Unix time in milliseconds, by the system's clock; 0 where that is set to before the
/// epoch. Which time it is rests on that clock alone: the contract says that the value has been
/// read from it, and [`unix_ms`] which value each reading gives.
pub fn now_ms() -> (ms: u64)
    ensures
        read_from_clock(ms),
{
    let since = take_reading(since_epoch);
    unix_ms(since)
}

/// The whole milliseconds of a span are those that fit into it: one more would be longer than the
/// span.
pub proof fn whole_millis_fit_the_span(span: Span)
    ensures
        span.whole_millis() * 1_000_000 <= span.secs * 1_000_000_000 + span.nanos,
        span.secs * 1_000_000_000 + span.nanos < (span.whole_millis() + 1) * 1_000_000,
{
}

/// A longer span never has fewer whole milliseconds, and one that is longer by `n` milliseconds
/// has `n` more.
pub proof fn longer_spans_have_more_millis(short: Span, long: Span, n: nat)
    ensures
        short.secs * 1_000_000_000 + short.nanos <= long.secs * 1_000_000_000 + long.nanos
            ==> short.whole_millis() <= long.whole_millis(),
        short.secs * 1_000_000_000 + short.nanos + n * 1_000_000 == long.secs * 1_000_000_000
            + long.nanos ==> short.whole_millis() + n == long.whole_millis(),
{
}

/// A clock shows the whole milliseconds that have passed since the epoch, as long as 64 bits hold
/// them, and 0 before the epoch.
pub proof fn shown_time_is_the_time_since_the_epoch(span: Span)
    ensures
        shown_ms(None) == 0,
        shown_ms(Some(span)) <= u64::MAX,
        span.secs * 1_000_000_000 + span.nanos < 0x1_0000_0000_0000_0000 * 1_000_000 ==> {
            &&& shown_ms(Some(span)) * 1_000_000 <= span.secs * 1_000_000_000 + span.nanos
            &&& span.secs * 1_000_000_000 + span.nanos < (shown_ms(Some(span)) + 1) * 1_000_000
        },
        shown_ms(Some(span)) == ((span.secs * 1_000_000_000 + span.nanos) / 1_000_000)
            % 0x1_0000_0000_0000_0000,
{
}

/// The shown time goes on as time does: a reading that is `n` milliseconds later shows a time that
/// is `n` milliseconds later, as long as 64 bits hold it.
pub proof fn shown_time_goes_on(early: Span, late: Span, n: nat)
    requires
        late.secs * 1_000_000_000 + late.nanos == early.secs * 1_000_000_000 + early.nanos + n
            * 1_000_000,
        late.secs * 1_000_000_000 + late.nanos < 0x1_0000_0000_0000_0000 * 1_000_000,
    ensures
        shown_ms(Some(late)) == shown_ms(Some(early)) + n,
{
}

/// A time that has been read from the clock is 0, or the whole milliseconds, modulo 2^64, since
/// the epoch at a reading that the clock can give.
pub proof fn time_read_belongs_to_a_reading(ms: u64)
    requires
        read_from_clock(ms),
    ensures
        (clock_gives(None) && ms == 0) || exists|span: Span| #[trigger]
            clock_gives(Some(span)) && ms == ((span.secs * 1_000_000_000 + span.nanos) / 1_000_000)
                % 0x1_0000_0000_0000_0000,
{
    let since = choose|since: Option<Span>| clock_gives(since) && ms == #[trigger] shown_ms(since);
    assert(clock_gives(since));
}

/// The readings that the clock can give are those that a call of [`since_epoch`] can return.
proof fn reading_comes_from_the_clock(since: Option<Span>)
    ensures
        clock_gives(since) <==> call_ensures(since_epoch, (), since),
        clock_gives(since) ==> (since matches Some(span) ==> span.nanos < 1_000_000_000),
{
}

} // verus!
