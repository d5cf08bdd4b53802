use sailent::error::TaskError;
use sailent::schedule::{Scheduler, Trigger};

// 2023-11-14T22:13:20.250Z
const START_MS: i64 = 1_700_000_000_250;

#[test]
fn register_task_rejects_malformed_cron() {
    let mut s = Scheduler::new();
    match s.register_task("tick".to_string(), "not a cron".to_string()) {
        Err(TaskError::CronParse { expression }) => assert_eq!(expression, "not a cron"),
        other => panic!("unexpected {:?}", other),
    }
    assert_eq!(s.len(), 0);
    assert!(s.register_task("tick".to_string(), "*/1 * * * * *".to_string()).is_ok());
    assert_eq!(s.len(), 1);
    assert_eq!(s.task_name(0), "tick");
    assert!(!s.is_armed(0));
}

#[test]
fn poll_arms_idle_entries_strictly_after_now() {
    let mut s = Scheduler::new();
    s.register_task("a".to_string(), "*/1 * * * * *".to_string()).unwrap();
    s.register_task("b".to_string(), "0 0 * * * *".to_string()).unwrap();
    let triggers = s.run(START_MS);
    assert_eq!(triggers.len(), 2);
    assert_eq!((triggers[0].index, triggers[0].task_name.as_str()), (0, "a"));
    assert_eq!(triggers[0].fire_at, 1_700_000_001_000);
    assert_eq!(triggers[0].delay_ms, 750);
    assert_eq!(triggers[1].task_name, "b");
    assert_eq!(triggers[1].fire_at, 1_700_002_800_000);
    assert!(s.is_armed(0) && s.is_armed(1));
}

#[test]
fn armed_entry_is_not_armed_again() {
    let mut s = Scheduler::new();
    s.register_task("slow".to_string(), "*/1 * * * * *".to_string()).unwrap();
    assert_eq!(s.run(START_MS).len(), 1);
    // Long past the fire time, the trigger has not been reported finished.
    assert_eq!(s.run(START_MS + 10_000).len(), 0);
    assert_eq!(s.run(START_MS + 20_000).len(), 0);
    s.complete(0);
    let again = s.run(START_MS + 20_000);
    assert_eq!(again.len(), 1);
    assert_eq!(again[0].fire_at, 1_700_000_021_000);
}

#[test]
fn fire_time_on_a_whole_second_is_strictly_later() {
    let mut s = Scheduler::new();
    s.register_task("t".to_string(), "*/1 * * * * *".to_string()).unwrap();
    let t = s.run(1_700_000_000_000);
    assert_eq!(t[0].fire_at, 1_700_000_001_000);
    assert_eq!(t[0].delay_ms, 1000);
}

/// Drives the scheduler for five seconds of simulated time, polling every
/// 500 ms, with an execution that finishes as soon as it fires.
#[test]
fn cron_every_second_for_five_seconds() {
    let mut s = Scheduler::new();
    s.register_task("tick".to_string(), "*/1 * * * * *".to_string()).unwrap();
    let end = START_MS + 5_000;
    let mut outstanding: Vec<Trigger> = Vec::new();
    let mut dispatched: Vec<i64> = Vec::new();
    let mut now = START_MS;
    while now <= end {
        let mut still = Vec::new();
        for t in outstanding.drain(..) {
            if t.fire_at <= now {
                dispatched.push(t.fire_at);
                s.complete(t.index);
            } else {
                still.push(t);
            }
        }
        outstanding = still;
        outstanding.extend(s.run(now));
        now += 500;
    }
    assert!(dispatched.len() >= 4 && dispatched.len() <= 6, "{:?}", dispatched);
    for w in dispatched.windows(2) {
        assert!(w[1] - w[0] >= 900, "{:?}", dispatched);
    }
}

#[test]
fn no_overlap_with_slow_execution() {
    // Period 1 s, each execution takes 2.5 s: dispatches follow the
    // executions, never the period.
    let mut s = Scheduler::new();
    s.register_task("slow".to_string(), "*/1 * * * * *".to_string()).unwrap();
    let mut now = START_MS;
    let mut running_until: Option<(usize, i64)> = None;
    let mut outstanding: Vec<Trigger> = Vec::new();
    let mut dispatches = 0;
    let end = START_MS + 10_000;
    while now <= end {
        if let Some((index, until)) = running_until {
            if until <= now {
                s.complete(index);
                running_until = None;
            }
        }
        let mut still = Vec::new();
        for t in outstanding.drain(..) {
            if t.fire_at <= now && running_until.is_none() {
                dispatches += 1;
                running_until = Some((t.index, t.fire_at + 2_500));
            } else if t.fire_at > now {
                still.push(t);
            }
        }
        outstanding = still;
        let armed = s.run(now);
        assert!(armed.len() <= 1);
        assert!(armed.is_empty() || running_until.is_none());
        outstanding.extend(armed);
        now += 100;
    }
    assert!(dispatches >= 3 && dispatches <= 4, "{}", dispatches);
}

#[test]
fn one_trigger_per_task_name() {
    let mut s = Scheduler::new();
    s.register_task("dup".to_string(), "*/1 * * * * *".to_string()).unwrap();
    s.register_task("dup".to_string(), "*/2 * * * * *".to_string()).unwrap();
    s.register_task("other".to_string(), "*/1 * * * * *".to_string()).unwrap();
    let first = s.run(START_MS);
    let names: Vec<&str> = first.iter().map(|t| t.task_name.as_str()).collect();
    assert_eq!(names, vec!["dup", "other"]);
    assert_eq!(first[0].index, 0);
    assert!(!s.is_armed(1));
    assert!(s.run(START_MS + 5_000).is_empty());
    s.complete(0);
    let second = s.run(START_MS + 5_000);
    assert_eq!(second.len(), 1);
    assert_eq!(second[0].index, 0);
}

#[test]
fn clock_going_back_never_repeats_a_fire_second() {
    let mut s = Scheduler::new();
    s.register_task("t".to_string(), "*/1 * * * * *".to_string()).unwrap();
    let first = s.run(START_MS);
    assert_eq!(first[0].fire_at, 1_700_000_001_000);
    s.complete(0);
    // The clock reads earlier than the last fire: the next fire still
    // comes after it.
    let second = s.run(START_MS - 3_000);
    assert_eq!(second[0].fire_at, 1_700_000_002_000);
    assert_eq!(second[0].delay_ms, 1_700_000_002_000 - (START_MS - 3_000));
}

#[test]
fn out_of_range_instants_arm_nothing() {
    let mut s = Scheduler::new();
    s.register_task("t".to_string(), "*/1 * * * * *".to_string()).unwrap();
    assert!(s.run(-1).is_empty());
    assert!(s.run(i64::MAX).is_empty());
    assert!(!s.is_armed(0));
}
