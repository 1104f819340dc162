//! Small decisions of the companion: how often it warns, and how long it collects ended children.

use vstd::prelude::*;

verus! {

/// The least time between two warnings that the focus is not known yet, in nanoseconds.
pub const FG_WARN_INTERVAL: u128 = 60_000_000_000;

/// Whether a warning is due at `now`, after the last one.
pub open spec fn warning_due(last: Option<u128>, now: u128) -> bool {
    match last {
        Some(t) => now >= t + FG_WARN_INTERVAL,
        None => true,
    }
}

/// The time of the last warning once a moment has passed.
pub open spec fn after_moment(last: Option<u128>, now: u128) -> Option<u128> {
    if warning_due(last, now) {
        Some(now)
    } else {
        last
    }
}

/// Lets one warning through at a time. Times are nanoseconds of a clock that does not run back.
#[derive(Debug)]
pub struct WarnLimiter {
    last: Option<u128>,
}

impl View for WarnLimiter {
    type V = Option<u128>;

    closed spec fn view(&self) -> Option<u128> {
        self.last
    }
}

impl WarnLimiter {
    /// No warning yet.
    pub fn new() -> (out: Self)
        ensures
            out@ is None,
    {
        WarnLimiter { last: None }
    }

    /// Whether to warn now that the focus is not known yet.
    pub fn warn_fg_unavailable(&mut self, now: u128) -> (due: bool)
        ensures
            due == warning_due(old(self)@, now),
            final(self)@ == after_moment(old(self)@, now),
    {
        let due = match self.last {
            Some(t) => now >= t && now - t >= FG_WARN_INTERVAL,
            None => true,
        };
        if due {
            self.last = Some(now);
        }
        due
    }
}

/// After a warning, the next one is due once the interval has passed, and not before.
pub proof fn law_warnings_are_apart(last: Option<u128>, first: u128, second: u128)
    requires
        warning_due(last, first),
    ensures
        warning_due(after_moment(last, first), second) <==> second >= first + FG_WARN_INTERVAL,
{
}

/// Whether more ended children may be waiting: `waitpid` has just returned one.
pub fn reap_zombie_children(reaped: i32) -> (more: bool)
    ensures
        more == (reaped != 0 && reaped != -1),
{
    reaped != 0 && reaped != -1
}


/// The first warning is due at once. After it, none is due for sixty seconds, and a moment without
/// a warning does not put the next one off.
pub proof fn law_a_warning_a_minute(first: u128, between: u128, next: u128)
    requires
        first <= between < first + 60_000_000_000,
    ensures
        warning_due(None, first),
        after_moment(None, first) == Some(first),
        !warning_due(Some(first), between),
        after_moment(Some(first), between) == Some(first),
        warning_due(Some(first), next) <==> next >= first + 60_000_000_000,
{
}

} // verus!
