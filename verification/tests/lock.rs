use fs_util::lock::{
    heartbeat_path, Heartbeat, HeartbeatAction, LaxSingleProcessFsFlag, LockAction, LockEvent,
    LockPhase, LockPolicy, HEARTBEAT_PERIOD_MS, MAX_TRANSIENT_ERRORS, NOTICE_AFTER_MS,
    RETRY_SLEEP_MS,
};
use fs_util::path::{FsPath, Segment};

fn lock_path(names: &[&str]) -> FsPath {
    let mut segments = vec![Segment::RootDir];
    for name in names {
        segments.push(Segment::Normal(name.to_string()));
    }
    FsPath::from_segments(segments)
}

/// A lock file as the operating system arbitrates it, with the heartbeat
/// file of its holder.
struct LockSimulation {
    holder: Option<usize>,
    heartbeat_age_ms: u128,
}

/// Performs one action of an acquirer against the simulation and hands the
/// event to it. Returns true once the acquisition has ended.
fn lock_drive(flag: &mut LaxSingleProcessFsFlag, who: usize, sim: &mut LockSimulation) -> bool {
    let event = match flag.pending() {
        LockAction::OpenFile => LockEvent::Opened,
        LockAction::TryLock => {
            if sim.holder.is_none() {
                sim.holder = Some(who);
                LockEvent::Acquired
            } else {
                LockEvent::Busy { waited_ms: 0 }
            }
        }
        LockAction::Wait { .. } => LockEvent::HeartbeatAge { age_ms: sim.heartbeat_age_ms },
        LockAction::Hold | LockAction::Proceed => return true,
    };
    flag.step(event);
    flag.is_finished()
}

#[test]
fn lax_fs_lock() {
    let path = lock_path(&["tmp", "file.lock"]);
    let mut sim = LockSimulation { holder: None, heartbeat_age_ms: 10 };
    let mut file_txt = String::new();

    let mut first = LaxSingleProcessFsFlag::lock(path.duplicate(), "waiting");
    while !lock_drive(&mut first, 1, &mut sim) {}
    assert!(first.is_locked());

    // the second acquirer competes while the first holds the lock
    let mut second = LaxSingleProcessFsFlag::lock(path, "waiting");
    for _ in 0..50 {
        assert!(!lock_drive(&mut second, 2, &mut sim));
    }
    assert!(!second.is_locked());
    file_txt.clear();
    file_txt.push_str("update1");
    assert_eq!(file_txt, "update1");

    // the first holder drops its handle
    sim.holder = None;
    while !lock_drive(&mut second, 2, &mut sim) {}
    assert!(second.is_locked());
    file_txt.clear();
    file_txt.push_str("update2");
    assert_eq!(file_txt, "update2");
}

#[test]
fn lax_fs_lock_ordered() {
    let count = 10;
    let mut sim = LockSimulation { holder: None, heartbeat_age_ms: 10 };
    let mut flags: Vec<LaxSingleProcessFsFlag> = (0..count)
        .map(|_| LaxSingleProcessFsFlag::lock(lock_path(&["tmp", "file.lock"]), "waiting"))
        .collect();
    let mut done = vec![false; count];
    let mut expected_order: Vec<String> = Vec::new();
    let mut output = String::new();
    let mut round = 0;
    while done.iter().any(|d| !d) {
        // visit the acquirers in an order that changes from round to round
        for k in 0..count {
            let i = (k * 7 + round * 3) % count;
            if done[i] {
                continue;
            }
            if lock_drive(&mut flags[i], i, &mut sim) {
                assert!(flags[i].is_locked());
                assert_eq!(sim.holder, Some(i));
                expected_order.push(i.to_string());
                if !output.is_empty() {
                    output.push('\n');
                }
                output.push_str(&i.to_string());
                sim.holder = None;
                done[i] = true;
            }
        }
        round += 1;
        assert!(round < 1000);
    }
    assert_eq!(expected_order.len(), count);
    assert_eq!(output, expected_order.join("\n"));
}

#[test]
fn lock_standard_policy() {
    let policy = LockPolicy::standard();
    assert_eq!(policy.max_transient_errors, 10);
    assert_eq!(policy.heartbeat_period_ms, 100);
    assert_eq!(policy.retry_sleep_ms, 20);
    assert_eq!(policy.notice_after_ms, 1000);
    assert_eq!(policy, LockPolicy::default());
    assert_eq!(
        (MAX_TRANSIENT_ERRORS, HEARTBEAT_PERIOD_MS, RETRY_SLEEP_MS, NOTICE_AFTER_MS),
        (10, 100, 20, 1000)
    );
    assert!(!policy.is_stale(200));
    assert!(policy.is_stale(201));
    let wide = LockPolicy { heartbeat_period_ms: u64::MAX, ..policy };
    assert!(!wide.is_stale(2 * (u64::MAX as u128)));
    assert!(wide.is_stale(2 * (u64::MAX as u128) + 1));
}

#[test]
fn lock_open_failure_proceeds_unlocked() {
    let mut flag = LaxSingleProcessFsFlag::lock(lock_path(&["file.lock"]), "waiting");
    assert_eq!(flag.pending(), LockAction::OpenFile);
    assert_eq!(flag.step(LockEvent::OpenFailed), LockAction::Proceed);
    assert!(flag.is_finished());
    assert!(!flag.is_locked());
    assert_eq!(flag.progress().phase, LockPhase::Unlocked);
}

#[test]
fn lock_is_taken_at_once_when_free() {
    let mut flag = LaxSingleProcessFsFlag::lock(lock_path(&["file.lock"]), "waiting");
    assert_eq!(flag.step(LockEvent::Opened), LockAction::TryLock);
    assert_eq!(flag.step(LockEvent::Acquired), LockAction::Hold);
    assert!(flag.is_locked());
    assert!(flag.is_finished());
    // a finished acquisition stays as it is
    assert_eq!(flag.step(LockEvent::HeartbeatUnreadable), LockAction::Hold);
    assert_eq!(flag.step(LockEvent::OpenFailed), LockAction::Hold);
    assert!(flag.is_locked());
}

#[test]
fn lock_stale_heartbeat_gives_up() {
    let mut flag = LaxSingleProcessFsFlag::lock(lock_path(&["file.lock"]), "waiting");
    flag.step(LockEvent::Opened);
    assert_eq!(
        flag.step(LockEvent::Busy { waited_ms: 5 }),
        LockAction::Wait { show_notice: false, sleep_ms: 20 }
    );
    assert_eq!(flag.step(LockEvent::HeartbeatAge { age_ms: 200 }), LockAction::TryLock);
    flag.step(LockEvent::Busy { waited_ms: 30 });
    assert_eq!(flag.step(LockEvent::HeartbeatAge { age_ms: 201 }), LockAction::Proceed);
    assert!(flag.is_finished());
    assert!(!flag.is_locked());
}

#[test]
fn lock_gives_up_after_ten_failed_readings() {
    let mut flag = LaxSingleProcessFsFlag::lock(lock_path(&["file.lock"]), "waiting");
    flag.step(LockEvent::Opened);
    for failed in 1..=10 {
        assert_eq!(
            flag.step(LockEvent::Busy { waited_ms: 0 }),
            LockAction::Wait { show_notice: false, sleep_ms: 20 }
        );
        let action = flag.step(LockEvent::HeartbeatUnreadable);
        if failed < 10 {
            assert_eq!(action, LockAction::TryLock);
            assert_eq!(flag.progress().error_count, failed);
        } else {
            assert_eq!(action, LockAction::Proceed);
        }
    }
    assert!(flag.is_finished());
    assert!(!flag.is_locked());
}

#[test]
fn lock_fresh_heartbeat_resets_the_failed_readings() {
    let mut flag = LaxSingleProcessFsFlag::lock(lock_path(&["file.lock"]), "waiting");
    flag.step(LockEvent::Opened);
    for _ in 0..100 {
        for _ in 0..9 {
            flag.step(LockEvent::Busy { waited_ms: 0 });
            assert_eq!(flag.step(LockEvent::HeartbeatUnreadable), LockAction::TryLock);
        }
        assert_eq!(flag.progress().error_count, 9);
        flag.step(LockEvent::Busy { waited_ms: 0 });
        assert_eq!(flag.step(LockEvent::HeartbeatAge { age_ms: 0 }), LockAction::TryLock);
        assert_eq!(flag.progress().error_count, 0);
    }
    assert!(!flag.is_finished());
}

#[test]
fn lock_notice_is_shown_once_after_a_second() {
    let mut flag = LaxSingleProcessFsFlag::lock(lock_path(&["file.lock"]), "please wait");
    assert_eq!(flag.long_wait_message(), "please wait");
    flag.step(LockEvent::Opened);
    assert_eq!(
        flag.step(LockEvent::Busy { waited_ms: 1000 }),
        LockAction::Wait { show_notice: false, sleep_ms: 20 }
    );
    flag.step(LockEvent::HeartbeatAge { age_ms: 1 });
    assert_eq!(
        flag.step(LockEvent::Busy { waited_ms: 1001 }),
        LockAction::Wait { show_notice: true, sleep_ms: 20 }
    );
    assert!(flag.progress().notice_shown);
    flag.step(LockEvent::HeartbeatAge { age_ms: 1 });
    assert_eq!(
        flag.step(LockEvent::Busy { waited_ms: 5000 }),
        LockAction::Wait { show_notice: false, sleep_ms: 20 }
    );
}

#[test]
fn lock_ignores_an_event_that_answers_nothing() {
    let mut flag = LaxSingleProcessFsFlag::lock(lock_path(&["file.lock"]), "waiting");
    assert_eq!(flag.step(LockEvent::Acquired), LockAction::OpenFile);
    assert_eq!(flag.step(LockEvent::HeartbeatAge { age_ms: 900 }), LockAction::OpenFile);
    assert_eq!(flag.progress().phase, LockPhase::Opening);
    flag.step(LockEvent::Opened);
    assert_eq!(flag.step(LockEvent::HeartbeatAge { age_ms: 900 }), LockAction::TryLock);
    assert_eq!(flag.step(LockEvent::Opened), LockAction::TryLock);
    flag.step(LockEvent::Busy { waited_ms: 0 });
    assert_eq!(
        flag.step(LockEvent::Acquired),
        LockAction::Wait { show_notice: false, sleep_ms: 20 }
    );
    assert!(!flag.is_locked());
}

#[test]
fn lock_policy_can_be_overridden() {
    let policy = LockPolicy {
        max_transient_errors: 2,
        heartbeat_period_ms: 1000,
        retry_sleep_ms: 5,
        notice_after_ms: 0,
    };
    let mut flag =
        LaxSingleProcessFsFlag::lock_with_policy(lock_path(&["file.lock"]), "waiting", policy);
    assert_eq!(flag.policy(), policy);
    flag.step(LockEvent::Opened);
    assert_eq!(
        flag.step(LockEvent::Busy { waited_ms: 1 }),
        LockAction::Wait { show_notice: true, sleep_ms: 5 }
    );
    assert_eq!(flag.step(LockEvent::HeartbeatAge { age_ms: 2000 }), LockAction::TryLock);
    flag.step(LockEvent::Busy { waited_ms: 1 });
    assert_eq!(flag.step(LockEvent::HeartbeatUnreadable), LockAction::TryLock);
    flag.step(LockEvent::Busy { waited_ms: 1 });
    assert_eq!(flag.step(LockEvent::HeartbeatUnreadable), LockAction::Proceed);

    let none = LockPolicy { max_transient_errors: 0, ..policy };
    let mut flag =
        LaxSingleProcessFsFlag::lock_with_policy(lock_path(&["file.lock"]), "waiting", none);
    assert_eq!(flag.step(LockEvent::Opened), LockAction::Proceed);
}

#[test]
fn lock_heartbeat_file_is_the_sibling_with_lock_poll() {
    let flag = LaxSingleProcessFsFlag::lock(lock_path(&["tmp", "file.lock"]), "waiting");
    assert!(flag.file_path().same(&lock_path(&["tmp", "file.lock"])));
    assert!(flag.poll_path().same(&lock_path(&["tmp", "file.lock.poll"])));
    assert!(heartbeat_path(&lock_path(&["tmp", "deps"])).same(&lock_path(&["tmp", "deps.lock.poll"])));
    assert!(heartbeat_path(&lock_path(&["a.b.lock"])).same(&lock_path(&["a.b.lock.poll"])));
    assert!(heartbeat_path(&lock_path(&[])).same(&lock_path(&[])));
}

#[test]
fn lock_heartbeat_counts_up_until_cancelled() {
    let policy = LockPolicy::standard();
    let mut heartbeat = Heartbeat::new();
    let mut last = 0;
    for _ in 0..50 {
        match heartbeat.tick(&policy, false) {
            HeartbeatAction::Write { counter, sleep_ms } => {
                assert!(counter > last);
                assert_eq!(counter, last + 1);
                assert_eq!(sleep_ms, 100);
                last = counter;
            }
            HeartbeatAction::Stop => panic!("stopped without being cancelled"),
        }
    }
    assert_eq!(heartbeat.tick(&policy, true), HeartbeatAction::Stop);
    assert_eq!(heartbeat.tick(&policy, false), HeartbeatAction::Stop);
    assert_eq!(heartbeat.counter, 50);
    assert!(heartbeat.stopped);
}
