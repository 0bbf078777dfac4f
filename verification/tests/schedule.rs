use adm::schedule::{clock_of, default_schedule, is_active, tick, Schedule, ScheduleAction};

fn sched(start: (u8, u8), stop: (u8, u8)) -> Schedule {
    Schedule { enabled: true, start, stop, days: [true; 7] }
}

#[test]
fn default_is_off_nine_to_six() {
    let s = default_schedule();
    assert!(!s.enabled);
    assert_eq!(s.start, (9, 0));
    assert_eq!(s.stop, (18, 0));
    assert_eq!(s.days, [true; 7]);
}

#[test]
fn daytime_window() {
    let s = sched((9, 0), (18, 0));
    assert!(!is_active(&s, 1, 8 * 60 + 59));
    assert!(is_active(&s, 1, 9 * 60));
    assert!(is_active(&s, 1, 17 * 60 + 59));
    assert!(!is_active(&s, 1, 18 * 60));
}

#[test]
fn window_across_midnight() {
    let s = sched((22, 30), (6, 0));
    assert!(is_active(&s, 3, 23 * 60));
    assert!(is_active(&s, 3, 5 * 60));
    assert!(!is_active(&s, 3, 12 * 60));
}

#[test]
fn days_filter() {
    let mut s = sched((0, 0), (23, 59));
    s.days = [false, true, true, true, true, true, false];
    assert!(!is_active(&s, 0, 600));
    assert!(is_active(&s, 1, 600));
}

#[test]
fn tick_is_edge_triggered() {
    let s = sched((9, 0), (18, 0));
    assert_eq!(tick(&s, false, 2, 600), (true, ScheduleAction::StartQueue));
    assert_eq!(tick(&s, true, 2, 600), (true, ScheduleAction::Nothing));
    assert_eq!(tick(&s, true, 2, 1200), (false, ScheduleAction::StopQueue));
    assert_eq!(tick(&s, false, 2, 1200), (false, ScheduleAction::Nothing));
    let off = Schedule { enabled: false, ..s };
    assert_eq!(tick(&off, true, 2, 600), (false, ScheduleAction::Nothing));
}

#[test]
fn clock_from_local_seconds() {
    assert_eq!(clock_of(0), (4, 0));
    assert_eq!(clock_of(3 * 86400 + 5 * 3600 + 7 * 60 + 59), (0, 307));
    assert_eq!(clock_of(86400 - 1), (4, 1439));
}

#[test]
fn run_of_ticks_starts_and_stops_on_edges() {
    let s = sched((9, 0), (10, 0));
    let mut was = false;
    let mut acts = Vec::new();
    for now in [500u32, 540, 560, 600, 610, 545] {
        let (v, a) = tick(&s, was, 3, now);
        acts.push(a);
        was = v;
    }
    assert_eq!(
        acts,
        vec![
            ScheduleAction::Nothing,
            ScheduleAction::StartQueue,
            ScheduleAction::Nothing,
            ScheduleAction::StopQueue,
            ScheduleAction::Nothing,
            ScheduleAction::StartQueue
        ]
    );
}
