use lib_common::schedule::{
    parse_u32, pid_file_verdict, lock_file_oversized, preempts, wait_millis, LockVerdict, QueueType, Schedule,
    ScheduleError, ScheduleTrigger, Scheduler, Task, TaskCancellationError, TaskState, distinct_ids,
    lock_io_retryable, LockIoError,
};

#[test]
fn schedule_new_accepts_interval_and_valid_cron() {
    let s = Schedule::new(3, 7, ScheduleTrigger::Interval { minutes: 5 }).unwrap();
    assert_eq!(s.id(), 3);
    assert_eq!(s.key(), 7);
    assert_eq!(s.last_run(), None);
    let c = Schedule::new(1, 2, ScheduleTrigger::Cron("0 0 * * * *".to_string())).unwrap();
    assert_eq!(c.id(), 1);
}

#[test]
fn schedule_new_rejects_bad_cron() {
    let r = Schedule::new(1, 2, ScheduleTrigger::Cron("not a cron".to_string()));
    assert!(matches!(r, Err(ScheduleError::Cron(_))));
}

#[test]
fn interval_next_run_is_minutes_later() {
    let s = Schedule::new(1, 1, ScheduleTrigger::Interval { minutes: 2 }).unwrap();
    assert_eq!(s.next_run_time_at(1_000), Some(121_000));
    assert_eq!(s.next_run_time_at(i64::MAX), None);
}

#[test]
fn cron_next_run_is_the_next_full_hour() {
    // every hour at minute 0: from 00:30 UTC on 1 Jan 2024, the next is 01:00
    let s = Schedule::new(1, 1, ScheduleTrigger::Cron("0 0 * * * *".to_string())).unwrap();
    let half_past = 1_704_067_200_000 + 30 * 60_000;
    assert_eq!(s.next_run_time_at(half_past), Some(1_704_067_200_000 + 3_600_000));
    // strictly after: at exactly 01:00 the next is 02:00
    assert_eq!(s.next_run_time_at(1_704_067_200_000 + 3_600_000), Some(1_704_067_200_000 + 7_200_000));
}

#[test]
fn wait_is_zero_once_due() {
    assert_eq!(wait_millis(100, 40), 60);
    assert_eq!(wait_millis(100, 100), 0);
    assert_eq!(wait_millis(100, 500), 0);
    assert_eq!(wait_millis(i64::MAX, i64::MIN), u64::MAX);
}

#[test]
fn scheduler_add_schedule_numbers_ids_and_queues_runs() {
    let mut sched = Scheduler::new();
    let (a, qa) = sched.add_schedule_at(ScheduleTrigger::Interval { minutes: 1 }, 9, 0).unwrap();
    assert_eq!(a.id(), 1);
    assert_eq!(qa, Some(QueueType::New));
    let (b, qb) = sched.add_schedule_at(ScheduleTrigger::Interval { minutes: 3 }, 9, 0).unwrap();
    assert_eq!(b.id(), 2);
    assert_eq!(qb, Some(QueueType::Exising));
    assert_eq!(sched.schedules().len(), 2);
    // the earliest run of the key's queue comes first
    let t = sched.next_task(Some(9)).unwrap();
    assert_eq!(t.due_time(), 60_000);
    assert_eq!(t.schedule().id(), 1);
    let t = sched.next_task(Some(9)).unwrap();
    assert_eq!(t.due_time(), 180_000);
    assert!(sched.next_task(Some(9)).is_none());
    assert!(sched.next_task(Some(5)).is_none());
}

#[test]
fn scheduler_rejects_bad_cron_and_stays_unchanged() {
    let mut sched = Scheduler::new();
    assert!(sched.add_schedule_at(ScheduleTrigger::Cron("x".to_string()), 1, 0).is_err());
    assert!(sched.schedules().is_empty());
    assert!(sched.next_task(None).is_none());
}

#[test]
fn scheduler_run_now_queues_immediate_run() {
    let mut sched = Scheduler::new();
    let (s, _) = sched.add_schedule_at(ScheduleTrigger::Interval { minutes: 10 }, 4, 0).unwrap();
    let (t, q) = sched.run_now_at(s.id(), 50).unwrap();
    assert_eq!(t.due_time(), 50);
    assert_eq!(q, QueueType::Exising);
    assert!(sched.run_now_at(99, 50).is_none());
}

#[test]
fn scheduler_polls_queue_with_earliest_task() {
    let mut sched = Scheduler::new();
    sched.add_schedule_at(ScheduleTrigger::Interval { minutes: 10 }, 1, 0).unwrap();
    sched.add_schedule_at(ScheduleTrigger::Interval { minutes: 1 }, 2, 0).unwrap();
    let t = sched.next_task(None).unwrap();
    assert_eq!(t.schedule().key(), 2);
    assert_eq!(t.due_time(), 60_000);
}

#[test]
fn scheduler_from_schedules_queues_each_now() {
    let a = Schedule::new(1, 1, ScheduleTrigger::Interval { minutes: 1 }).unwrap();
    let b = Schedule::new(2, 2, ScheduleTrigger::Interval { minutes: 1 }).unwrap();
    let list = vec![a, b];
    assert!(distinct_ids(&list));
    let mut sched = Scheduler::from_schedules(list, 77);
    let t = sched.next_task(Some(2)).unwrap();
    assert_eq!(t.due_time(), 77);
    assert_eq!(t.schedule().id(), 2);
}

#[test]
fn duplicate_ids_are_detected() {
    let a = Schedule::new(1, 1, ScheduleTrigger::Interval { minutes: 1 }).unwrap();
    let b = Schedule::new(1, 2, ScheduleTrigger::Interval { minutes: 1 }).unwrap();
    assert!(!distinct_ids(&vec![a, b]));
}

#[test]
fn rescheduling_preempts_only_earlier_runs_of_polled_key() {
    assert!(preempts(None, 3, Some(10), 20));
    assert!(preempts(Some(3), 3, Some(10), 20));
    assert!(!preempts(Some(4), 3, Some(10), 20));
    assert!(!preempts(None, 3, Some(20), 20));
    assert!(!preempts(None, 3, None, 20));
}

#[test]
fn task_identity_is_schedule_and_due_time() {
    let s = Schedule::new(5, 1, ScheduleTrigger::Interval { minutes: 1 }).unwrap();
    let t1 = Task::immediate_at(s.duplicate(), 10);
    let t2 = Task::immediate_at(s.duplicate(), 10);
    let t3 = Task::immediate_at(s, 11);
    assert!(t1.same_run(&t2));
    assert!(!t1.same_run(&t3));
    assert_eq!(t3.wait_at(1), 10);
}

#[test]
fn parse_u32_follows_std() {
    assert_eq!(parse_u32("1234"), Some(1234));
    assert_eq!(parse_u32("+7"), Some(7));
    assert_eq!(parse_u32("4294967295"), Some(u32::MAX));
    assert_eq!(parse_u32("4294967296"), None);
    assert_eq!(parse_u32(""), None);
    assert_eq!(parse_u32("+"), None);
    assert_eq!(parse_u32("-1"), None);
    assert_eq!(parse_u32("12a"), None);
    assert_eq!(parse_u32(" 12"), None);
    for s in ["0", "42", "+0017", "99999999999", "x"] {
        assert_eq!(parse_u32(s), s.parse::<u32>().ok());
    }
}

#[test]
fn pid_file_verdicts() {
    assert!(lock_file_oversized(11));
    assert!(!lock_file_oversized(10));
    assert_eq!(pid_file_verdict("123", 123), LockVerdict::Take);
    assert_eq!(pid_file_verdict("garbage", 123), LockVerdict::Take);
    assert_eq!(pid_file_verdict("456", 123), LockVerdict::HeldBy(456));
}

#[test]
fn error_and_state_texts() {
    assert_eq!(TaskCancellationError.to_string(), "Task cancelled");
    assert_eq!(TaskState::default(), TaskState::Pending);
}

#[test]
fn completed_run_queues_the_next_one() {
    let mut sched = Scheduler::new();
    let (s, _) = sched.add_schedule_at(ScheduleTrigger::Interval { minutes: 1 }, 3, 0).unwrap();
    let t = sched.next_task(Some(3)).unwrap();
    assert_eq!(t.due_time(), 60_000);
    assert_eq!(sched.complete_run_at(&t, 60_000), Some(QueueType::Exising));
    let next = sched.next_task(Some(3)).unwrap();
    assert_eq!(next.due_time(), 120_000);
    assert_eq!(next.schedule().id(), s.id());
}

#[test]
fn earliest_task_of_all_keys_is_taken() {
    let mut sched = Scheduler::new();
    sched.add_schedule_at(ScheduleTrigger::Interval { minutes: 5 }, 1, 0).unwrap();
    sched.add_schedule_at(ScheduleTrigger::Interval { minutes: 1 }, 1, 0).unwrap();
    sched.add_schedule_at(ScheduleTrigger::Interval { minutes: 3 }, 2, 0).unwrap();
    let t = sched.next_task(None).unwrap();
    assert_eq!(t.due_time(), 60_000);
    let t = sched.next_task(None).unwrap();
    assert_eq!(t.due_time(), 180_000);
    // the emptied queue of key 2 now counts as earliest: nothing is taken
    assert!(sched.next_task(None).is_none());
}

#[test]
fn duplicate_id_names_the_shared_id() {
    let list = vec![
        Schedule::new(4, 1, ScheduleTrigger::Interval { minutes: 1 }).unwrap(),
        Schedule::new(7, 2, ScheduleTrigger::Interval { minutes: 1 }).unwrap(),
        Schedule::new(4, 3, ScheduleTrigger::Interval { minutes: 1 }).unwrap(),
    ];
    assert_eq!(lib_common::schedule::duplicate_id(&list), Some(4));
    let distinct = vec![Schedule::new(1, 1, ScheduleTrigger::Interval { minutes: 1 }).unwrap()];
    assert_eq!(lib_common::schedule::duplicate_id(&distinct), None);
}

#[test]
fn only_other_lock_errors_end_the_attempt() {
    assert!(lock_io_retryable(LockIoError::ResourceBusy));
    assert!(lock_io_retryable(LockIoError::PermissionDenied));
    assert!(!lock_io_retryable(LockIoError::Other));
}
