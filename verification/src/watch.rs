//! When the script is read again after its file has changed.
//!
//! Moments are given in nanoseconds since some fixed moment.

use vstd::prelude::*;

verus! {

/// How long changes are ignored after the script was read, in nanoseconds.
pub const QUIET: u128 = 200_000_000;

/// What is heard of the file.
#[derive(Debug, Clone, Copy, PartialEq, Eq, Structural)]
pub enum WatchEvent {
    /// The file was written or created.
    Changed,
    /// Something else happened to the file.
    Other,
    /// The file can no longer be watched.
    Failed,
}

/// What is done about it.
#[derive(Debug, Clone, Copy, PartialEq, Eq, Structural)]
pub enum WatchAction {
    /// Read the script again.
    Reload,
    /// Nothing.
    Ignore,
    /// Stop watching.
    Stop,
}

/// Which of the changes of a file are acted on: those that do not follow closely on one that was.
#[derive(Debug)]
pub struct Debounce {
    /// When a change was last acted on, if one was.
    pub last: Option<u128>,
}

/// What is done about an event at this moment.
pub open spec fn action_of(last: Option<u128>, event: WatchEvent, now: u128) -> WatchAction {
    match event {
        WatchEvent::Changed => match last {
            Some(last) => if now - last < QUIET {
                WatchAction::Ignore
            } else {
                WatchAction::Reload
            },
            None => WatchAction::Reload,
        },
        WatchEvent::Other => WatchAction::Ignore,
        WatchEvent::Failed => WatchAction::Stop,
    }
}

/// When a change was last acted on, after an event at this moment.
pub open spec fn last_after(last: Option<u128>, event: WatchEvent, now: u128) -> Option<u128> {
    if action_of(last, event, now) is Reload {
        Some(now)
    } else {
        last
    }
}

impl Debounce {
    /// Nothing was acted on yet.
    pub fn new() -> (fresh: Self)
        ensures
            fresh.last is None,
    {
        Debounce { last: None }
    }

    /// Decide what is done about an event at this moment.
    pub fn on_event(&mut self, event: WatchEvent, now: u128) -> (action: WatchAction)
        ensures
            action == action_of(old(self).last, event, now),
            final(self).last == last_after(old(self).last, event, now),
    {
        match event {
            WatchEvent::Changed => {
                if let Some(last) = self.last {
                    if now < last || now - last < QUIET {
                        return WatchAction::Ignore;
                    }
                }
                self.last = Some(now);
                WatchAction::Reload
            },
            WatchEvent::Other => WatchAction::Ignore,
            WatchEvent::Failed => WatchAction::Stop,
        }
    }
}

/// When a change was last acted on, after these events.
pub open spec fn last_after_all(last: Option<u128>, events: Seq<(WatchEvent, u128)>) -> Option<u128>
    decreases events.len(),
{
    if events.len() == 0 {
        last
    } else {
        last_after(last_after_all(last, events.drop_last()), events.last().0, events.last().1)
    }
}

/// After a script was read, no change within the quiet time is acted on, and the first change
/// after it is, whatever events lie between.
pub proof fn law_quiet_time(start: u128, events: Seq<(WatchEvent, u128)>, now: u128)
    requires
        forall|i: int|
            0 <= i < events.len() ==> start <= (#[trigger] events[i]).1 < start + 200_000_000
                && events[i].1 <= now,
        start <= now,
    ensures
        last_after_all(Some(start), events) == Some(start),
        action_of(last_after_all(Some(start), events), WatchEvent::Changed, now) is Reload
            <==> now >= start + 200_000_000,
    decreases events.len(),
{
    if events.len() > 0 {
        let before = events.drop_last();
        assert forall|i: int| 0 <= i < before.len() implies start <= (#[trigger] before[i]).1
            < start + 200_000_000 && before[i].1 <= now by {
            assert(before[i] == events[i]);
        }
        law_quiet_time(start, before, now);
        assert(events.last() == events[events.len() - 1]);
    }
}

/// The first change is acted on; what is no change is not, and leaves the quiet time as it is; and
/// a file that can no longer be watched is no longer watched.
pub proof fn law_what_is_acted_on(last: Option<u128>, now: u128)
    ensures
        action_of(None, WatchEvent::Changed, now) == WatchAction::Reload,
        last_after(None, WatchEvent::Changed, now) == Some(now),
        action_of(last, WatchEvent::Other, now) == WatchAction::Ignore,
        last_after(last, WatchEvent::Other, now) == last,
        action_of(last, WatchEvent::Failed, now) == WatchAction::Stop,
        last_after(last, WatchEvent::Failed, now) == last,
        last matches Some(then) ==> {
            &&& now >= then + 200_000_000 ==> action_of(last, WatchEvent::Changed, now)
                == WatchAction::Reload && last_after(last, WatchEvent::Changed, now) == Some(now)
            &&& now < then + 200_000_000 ==> action_of(last, WatchEvent::Changed, now)
                == WatchAction::Ignore && last_after(last, WatchEvent::Changed, now) == last
        },
{
}

} // verus!
