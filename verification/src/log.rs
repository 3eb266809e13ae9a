//! The clocks of the log: when each line was written since the start of the
//! process, and how long after the line before it.
//!
//! Instants are nanoseconds on a monotonic clock.

use vstd::prelude::*;

verus! {

/// The start of the process and the instant of the last log line.
#[derive(Debug, Clone, Copy, PartialEq, Eq, Structural)]
pub struct Clock {
    pub start: u64,
    pub prev: u64,
}

/// The time from `earlier` to `now`; none where `earlier` is the later one.
pub open spec fn elapsed(now: u64, earlier: u64) -> u64 {
    if now >= earlier {
        (now - earlier) as u64
    } else {
        0
    }
}

/// The clock that a line written at `now` goes by: the first line starts it.
pub open spec fn seeded(clock: Option<Clock>, now: u64) -> Clock {
    match clock {
        Some(c) => c,
        None => Clock { start: now, prev: now },
    }
}

/// The two times in front of a log line written at `now`: since the start, and
/// since the line before. The first line starts the clock.
pub fn prefix(clock: &mut Option<Clock>, now: u64) -> (r: (u64, u64))
    ensures
        r.0 == elapsed(now, seeded(*old(clock), now).start),
        r.1 == elapsed(now, seeded(*old(clock), now).prev),
        *final(clock) == Some(Clock { start: seeded(*old(clock), now).start, prev: now }),
{
    let c = match *clock {
        Some(c) => c,
        None => Clock { start: now, prev: now },
    };
    let total = now.saturating_sub(c.start);
    let delta = now.saturating_sub(c.prev);
    *clock = Some(Clock { start: c.start, prev: now });
    (total, delta)
}

/// The first line reports no time at all.
pub proof fn law_first_line_is_zero(now: u64)
    ensures
        elapsed(now, seeded(None, now).start) == 0,
        elapsed(now, seeded(None, now).prev) == 0,
{
}

/// The log reads as a timeline: the time since the start grows from line to line
/// by exactly the time between the two lines.
pub proof fn law_times_between_lines_add_up(clock: Clock, now: u64)
    requires
        clock.start <= clock.prev <= now,
    ensures
        elapsed(now, clock.start) == elapsed(clock.prev, clock.start) + elapsed(now, clock.prev),
{
}

/// The time between two instants is their distance; an instant that is not later than
/// another is at no distance behind it.
pub proof fn law_elapsed(now: u64, earlier: u64)
    ensures
        now >= earlier ==> elapsed(now, earlier) == now - earlier,
        now < earlier ==> elapsed(now, earlier) == 0,
{
}

/// A clock that runs is never set again; one that does not run starts now.
pub proof fn law_clock_is_set_once(clock: Clock, now: u64)
    ensures
        seeded(Some(clock), now) == clock,
        seeded(None, now).start == now,
        seeded(None, now).prev == now,
{
}

} // verus!
