//! The scheduler: starts and stops the queue at set times on chosen days.
//! A timer samples the local time; the queue is started or stopped only when
//! the schedule's verdict changes.

use vstd::prelude::*;

verus! {

/// Start/stop times (hour, minute) and the days (0 = Sunday .. 6 = Saturday)
/// on which the schedule applies.
#[derive(Debug, Clone, Copy)]
pub struct Schedule {
    pub enabled: bool,
    pub start: (u8, u8),
    pub stop: (u8, u8),
    pub days: [bool; 7],
}

/// What the timer should do with the queue.
#[derive(Debug, Clone, Copy, PartialEq, Eq, Structural)]
pub enum ScheduleAction {
    StartQueue,
    StopQueue,
    Nothing,
}

pub open spec fn minutes(t: (u8, u8)) -> int {
    t.0 * 60 + t.1
}

/// Whether the schedule wants the queue running on day `dow` at minute `now`
/// of the day: between start and stop, across midnight when stop comes
/// before start.
pub open spec fn active_at(s: Schedule, dow: u16, now: u32) -> bool {
    s.days@[dow as int] && if minutes(s.start) <= minutes(s.stop) {
        minutes(s.start) <= now < minutes(s.stop)
    } else {
        now >= minutes(s.start) || now < minutes(s.stop)
    }
}

/// The default schedule: off, 09:00 to 18:00, every day.
pub fn default_schedule() -> (r: Schedule)
    ensures
        !r.enabled,
        r.start == (9u8, 0u8),
        r.stop == (18u8, 0u8),
        forall|d: int| 0 <= d < 7 ==> r.days@[d],
{
    Schedule { enabled: false, start: (9, 0), stop: (18, 0), days: [true, true, true, true, true, true, true] }
}

pub fn is_active(s: &Schedule, dow: u16, now: u32) -> (r: bool)
    requires
        dow < 7,
    ensures
        r == active_at(*s, dow, now),
{
    if !s.days[dow as usize] {
        return false;
    }
    let start: u32 = s.start.0 as u32 * 60 + s.start.1 as u32;
    let stop: u32 = s.stop.0 as u32 * 60 + s.stop.1 as u32;
    if start <= stop {
        now >= start && now < stop
    } else {
        now >= start || now < stop
    }
}

/// One timer tick: the verdict now and what to do. A disabled schedule does
/// nothing and forgets its last verdict; otherwise the queue is started when
/// the verdict turns on and stopped when it turns off.
pub open spec fn tick_spec(s: Schedule, was_active: bool, dow: u16, now: u32) -> (bool, ScheduleAction) {
    if !s.enabled {
        (false, ScheduleAction::Nothing)
    } else {
        let active = active_at(s, dow, now);
        (active, if active && !was_active {
            ScheduleAction::StartQueue
        } else if !active && was_active {
            ScheduleAction::StopQueue
        } else {
            ScheduleAction::Nothing
        })
    }
}

pub fn tick(s: &Schedule, was_active: bool, dow: u16, now: u32) -> (r: (bool, ScheduleAction))
    requires
        dow < 7,
    ensures
        r == tick_spec(*s, was_active, dow, now),
{
    if !s.enabled {
        return (false, ScheduleAction::Nothing);
    }
    let active = is_active(s, dow, now);
    let action = if active && !was_active {
        ScheduleAction::StartQueue
    } else if !active && was_active {
        ScheduleAction::StopQueue
    } else {
        ScheduleAction::Nothing
    };
    (active, action)
}

/// The timer acts on changes only: a second tick at the same moment does
/// nothing.
pub proof fn law_tick_is_edge_triggered(s: Schedule, was_active: bool, dow: u16, now: u32)
    ensures
        tick_spec(s, tick_spec(s, was_active, dow, now).0, dow, now).1 == ScheduleAction::Nothing,
{
}

/// The queue is started only on a rising verdict and stopped only on a
/// falling one.
pub proof fn law_tick_actions_match_verdict(s: Schedule, was_active: bool, dow: u16, now: u32)
    ensures
        tick_spec(s, was_active, dow, now).1 == ScheduleAction::StartQueue ==> !was_active
            && tick_spec(s, was_active, dow, now).0,
        tick_spec(s, was_active, dow, now).1 == ScheduleAction::StopQueue ==> was_active
            && !tick_spec(s, was_active, dow, now).0,
{
}

/// A window that crosses midnight (stop before start) covers exactly the
/// minutes outside `[stop, start)` on its days.
pub proof fn law_window_across_midnight(s: Schedule, dow: u16, now: u32)
    requires
        minutes(s.stop) < minutes(s.start),
        s.days@[dow as int],
    ensures
        active_at(s, dow, now) <==> !(minutes(s.stop) <= now < minutes(s.start)),
{
}

/// The schedule's verdict at one moment: enabled, and inside its window on
/// that day.
pub open spec fn verdict(t: (Schedule, u16, u32)) -> bool {
    t.0.enabled && active_at(t.0, t.1, t.2)
}

/// A run of timer ticks, each with the schedule in force and the day and
/// minute sampled, starting with no verdict in effect: the last verdict and
/// the actions taken, in order.
pub open spec fn tick_run(ticks: Seq<(Schedule, u16, u32)>) -> (bool, Seq<ScheduleAction>)
    decreases ticks.len(),
{
    if ticks.len() == 0 {
        (false, seq![])
    } else {
        let (was, acts) = tick_run(ticks.drop_last());
        let t = ticks.last();
        let (active, a) = tick_spec(t.0, was, t.1, t.2);
        (active, acts.push(a))
    }
}

/// Over any run of ticks the timer starts the queue exactly when the
/// verdict turns on and stops it exactly when an enabled schedule's verdict
/// turns off; it does nothing else. Before the first tick no verdict is in
/// effect.
pub proof fn law_tick_run(ticks: Seq<(Schedule, u16, u32)>)
    ensures
        tick_run(ticks).1.len() == ticks.len(),
        tick_run(ticks).0 == (ticks.len() > 0 && verdict(ticks.last())),
        forall|k: int|
            0 <= k < ticks.len() ==> {
                let prev = k > 0 && verdict(ticks[k - 1]);
                &&& (#[trigger] tick_run(ticks).1[k] == ScheduleAction::StartQueue) <==> (verdict(
                    ticks[k],
                ) && !prev)
                &&& (tick_run(ticks).1[k] == ScheduleAction::StopQueue) <==> (ticks[k].0.enabled
                    && !verdict(ticks[k]) && prev)
            },
    decreases ticks.len(),
{
    if ticks.len() > 0 {
        let init = ticks.drop_last();
        law_tick_run(init);
        let (was, acts) = tick_run(init);
        let n = ticks.len() - 1;
        assert forall|k: int| 0 <= k < ticks.len() implies {
            let prev = k > 0 && verdict(ticks[k - 1]);
            &&& (#[trigger] tick_run(ticks).1[k] == ScheduleAction::StartQueue) <==> (verdict(
                ticks[k],
            ) && !prev)
            &&& (tick_run(ticks).1[k] == ScheduleAction::StopQueue) <==> (ticks[k].0.enabled
                && !verdict(ticks[k]) && prev)
        } by {
            if k < n {
                assert(tick_run(ticks).1[k] == acts[k]);
                assert(ticks[k] == init[k]);
                if k > 0 {
                    assert(ticks[k - 1] == init[k - 1]);
                }
            } else {
                if n > 0 {
                    assert(ticks[n - 1] == init.last());
                }
            }
        }
    }
}

/// Day of the week (0 = Sunday) and minute of the day of a local time given
/// in seconds since 1970-01-01 00:00 (a Thursday).
pub open spec fn clock_spec(local_secs: u64) -> (u16, u32) {
    ((((local_secs as nat / 86400) + 4) % 7) as u16, ((local_secs as nat / 60) % 1440) as u32)
}

pub fn clock_of(local_secs: u64) -> (r: (u16, u32))
    ensures
        r == clock_spec(local_secs),
        r.0 < 7,
        r.1 < 1440,
{
    let days: u64 = local_secs / 86400;
    let dow: u64 = (days + 4) % 7;
    let minute: u64 = (local_secs / 60) % 1440;
    (dow as u16, minute as u32)
}

} // verus!
