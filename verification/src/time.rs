//! Lengths of time as seconds and nanoseconds, the reading of written
//! durations and the moment that lies a duration before another.

use std::time::{SystemTime, UNIX_EPOCH};
use vstd::prelude::*;

verus! {

/// A length of time: whole seconds, and the nanoseconds beyond them.
#[derive(Clone, Copy, Debug, PartialEq, Eq, Structural)]
pub struct Span {
    pub secs: u64,
    pub nanos: u32,
}

impl Span {
    /// The whole length in nanoseconds.
    pub open spec fn total_nanos(self) -> int {
        self.secs * 1_000_000_000 + self.nanos
    }

    /// A span of `secs` seconds and `nanos` nanoseconds.
    pub fn new(secs: u64, nanos: u32) -> (span: Span)
        ensures
            span == (Span { secs, nanos }),
    {
        Span { secs, nanos }
    }
}

/// Greatest weight of a text that is handed to `parse_duration`.
pub const MAX_DURATION_WEIGHT: u64 = 500_000_000_000;

/// Whether `c` is one of the ten decimal digits.
pub open spec fn is_digit(c: char) -> bool {
    '0' <= c <= '9'
}

/// Whether `c` is a letter of a unit in a written duration, which ends the
/// number before it.
pub open spec fn is_unit_letter(c: char) -> bool {
    'a' <= c <= 'z' || 'A' <= c <= 'Z' || c == 'µ'
}

/// The weight of the number that `text` ends in: ten to the power of the
/// digits that stand behind the last unit letter, or zero where none does.
pub open spec fn open_weight(text: Seq<char>) -> nat
    decreases text.len(),
{
    if text.len() == 0 {
        0
    } else {
        let before = open_weight(text.drop_last());
        if is_digit(text.last()) {
            if before == 0 {
                10
            } else {
                10 * before
            }
        } else if is_unit_letter(text.last()) {
            0
        } else {
            before
        }
    }
}

/// The weights of the numbers of `text` that a unit letter has ended, added up.
pub open spec fn closed_weight(text: Seq<char>) -> nat
    decreases text.len(),
{
    if text.len() == 0 {
        0
    } else {
        closed_weight(text.drop_last()) + if is_unit_letter(text.last()) {
            open_weight(text.drop_last())
        } else {
            0
        }
    }
}

/// The weight of a written duration: for each of its numbers ten to the
/// power of its digits, added up. The digits of a number are all those
/// between one unit and the next, whatever else stands among them.
pub open spec fn duration_weight(text: Seq<char>) -> nat {
    closed_weight(text) + open_weight(text)
}

proof fn lemma_duration_weight_grows(text: Seq<char>, i: int)
    requires
        0 <= i <= text.len(),
    ensures
        duration_weight(text.take(i)) <= duration_weight(text),
    decreases text.len() - i,
{
    if i == text.len() {
        assert(text.take(i) == text);
    } else {
        assert(text.take(i + 1).drop_last() == text.take(i));
        lemma_duration_weight_grows(text, i + 1);
    }
}

/// Whether the weight of `text` is at most `MAX_DURATION_WEIGHT`.
pub fn within_duration_weight(text: &str) -> (within: bool)
    ensures
        within == (duration_weight(text@) <= MAX_DURATION_WEIGHT),
{
    let mut closed: u64 = 0;
    let mut open: u64 = 0;
    for c in it: text.chars()
        invariant
            it.seq() == text@,
            closed == closed_weight(text@.take(it.index() as int)),
            open == open_weight(text@.take(it.index() as int)),
            closed + open <= MAX_DURATION_WEIGHT,
    {
        proof {
            assert(text@.take(it.index() + 1).drop_last() == text@.take(it.index() as int));
        }
        if '0' <= c && c <= '9' {
            open = if open == 0 {
                10
            } else {
                10 * open
            };
            if open > MAX_DURATION_WEIGHT - closed {
                proof {
                    lemma_duration_weight_grows(text@, it.index() + 1);
                }
                return false;
            }
        } else if ('a' <= c && c <= 'z') || ('A' <= c && c <= 'Z') || c == 'µ' {
            closed = closed + open;
            open = 0;
        }
    }
    assert(text@.take(text@.len() as int) == text@);
    true
}

/// What `humantime::parse_duration` reads from `text`: the seconds and the
/// nanoseconds of the duration, or nothing where it rejects the text.
pub uninterp spec fn parsed_duration(text: Seq<char>) -> Option<(u64, u32)>;

/// Calls `humantime::parse_duration`, whose result depends on the text alone,
/// and hands on the seconds and nanoseconds of the duration it reads. The
/// parser adds up its numbers with checked arithmetic but for one carry, from
/// a full second of nanoseconds into `u64::MAX` seconds, at which it panics.
/// It reads the digits between two units as one number, so a number is below
/// ten to the power of its digits and adds less than 31,557,600 times that
/// many seconds, the length of the longest unit, and with its fraction and
/// carries less than 31,557,602 seconds more. A text of a weight of at most
/// `MAX_DURATION_WEIGHT` thus stays below 1.74 * 10^19 seconds, short of
/// `u64::MAX`.
#[verifier::external_body]
pub(crate) fn parse_duration(text: &str) -> (span: Option<Span>)
    requires
        duration_weight(text@) <= MAX_DURATION_WEIGHT,
    ensures
        span == match parsed_duration(text@) {
            Some(read) => Some(Span { secs: read.0, nanos: read.1 }),
            None => None,
        },
{
    match humantime::parse_duration(text) {
        Ok(d) => Some(Span { secs: d.as_secs(), nanos: d.subsec_nanos() }),
        Err(_) => None,
    }
}

/// Makes `std::time::SystemTime` known as a type of which nothing is seen.
#[verifier::external_type_specification]
#[verifier::external_body]
pub struct ExSystemTime(SystemTime);

/// Calls `SystemTime::now`. Nothing is claimed of the reading.
#[verifier::external_body]
pub(crate) fn system_now() -> SystemTime {
    SystemTime::now()
}

/// Calls `SystemTime::duration_since` with the Unix epoch: the time from the
/// epoch to `time`, or nothing where `time` lies before it. Nothing is claimed
/// of the result.
#[verifier::external_body]
pub(crate) fn since_unix_epoch(time: &SystemTime) -> Option<Span> {
    match time.duration_since(UNIX_EPOCH) {
        Ok(d) => Some(Span { secs: d.as_secs(), nanos: d.subsec_nanos() }),
        Err(_) => None,
    }
}

/// The system clock's distance from the Unix epoch, or nothing where the clock
/// stands before the epoch.
pub(crate) fn unix_now() -> Option<Span> {
    let time = system_now();
    since_unix_epoch(&time)
}

/// The Unix time, in whole seconds, that lies `back` before `now`: nothing
/// where that moment precedes the epoch or its seconds exceed `i64`.
pub open spec fn cutoff_secs(now: Span, back: Span) -> Option<i64> {
    let gap = now.total_nanos() - back.total_nanos();
    if gap < 0 || gap / 1_000_000_000 > i64::MAX {
        None
    } else {
        Some((gap / 1_000_000_000) as i64)
    }
}

/// Computes `cutoff_secs`.
pub fn cutoff_before(now: Span, back: Span) -> (cutoff: Option<i64>)
    ensures
        cutoff == cutoff_secs(now, back),
{
    let from: u128 = now.secs as u128 * 1_000_000_000 + now.nanos as u128;
    let less: u128 = back.secs as u128 * 1_000_000_000 + back.nanos as u128;
    if from < less {
        None
    } else {
        let secs: u128 = (from - less) / 1_000_000_000;
        if secs > 0x7fff_ffff_ffff_ffff {
            None
        } else {
            Some(secs as i64)
        }
    }
}

} // verus!
