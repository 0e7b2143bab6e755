//! The decisions of a lax, heartbeat-monitored file lock.
//!
//! Acquiring the lock alternates work on the file system (opening the lock
//! file, trying the advisory lock, sleeping, reading the age of the holder's
//! heartbeat file) with decisions. The decisions are a state machine: the
//! caller performs the action it is handed and reports what happened as the
//! next event. An acquisition ends in one of two ways, never in an error:
//! the lock is held, or the caller proceeds without it.

use crate::path::{with_extension_of, FsPath, SegmentView};
use vstd::prelude::*;

verus! {

/// The constants that govern an acquisition.
#[derive(Clone, Copy, Debug, PartialEq, Eq, Structural)]
pub struct LockPolicy {
    /// How many heartbeat readings in a row may fail before giving up.
    pub max_transient_errors: u32,
    /// The period, in milliseconds, at which a holder rewrites its heartbeat.
    pub heartbeat_period_ms: u64,
    /// How long, in milliseconds, a waiter sleeps between two attempts.
    pub retry_sleep_ms: u64,
    /// The wait, in milliseconds, after which the waiter is told to show its
    /// notice.
    pub notice_after_ms: u64,
}

/// The retry budget of the standard policy.
pub const MAX_TRANSIENT_ERRORS: u32 = 10;

/// The heartbeat period of the standard policy, in milliseconds.
pub const HEARTBEAT_PERIOD_MS: u64 = 100;

/// The sleep between two attempts of the standard policy, in milliseconds.
pub const RETRY_SLEEP_MS: u64 = 20;

/// The wait before the notice of the standard policy, in milliseconds.
pub const NOTICE_AFTER_MS: u64 = 1000;

impl LockPolicy {
    /// The age, in milliseconds, beyond which a heartbeat is stale: twice
    /// the heartbeat period.
    pub open spec fn stale_after_ms(self) -> int {
        2 * self.heartbeat_period_ms
    }

    /// The standard policy.
    pub open spec fn standard_spec() -> LockPolicy {
        LockPolicy {
            max_transient_errors: MAX_TRANSIENT_ERRORS,
            heartbeat_period_ms: HEARTBEAT_PERIOD_MS,
            retry_sleep_ms: RETRY_SLEEP_MS,
            notice_after_ms: NOTICE_AFTER_MS,
        }
    }

    /// The standard policy: ten failed readings, a heartbeat every 100 ms,
    /// 20 ms between attempts, the notice after one second.
    pub fn standard() -> (r: LockPolicy)
        ensures
            r == Self::standard_spec(),
    {
        LockPolicy {
            max_transient_errors: MAX_TRANSIENT_ERRORS,
            heartbeat_period_ms: HEARTBEAT_PERIOD_MS,
            retry_sleep_ms: RETRY_SLEEP_MS,
            notice_after_ms: NOTICE_AFTER_MS,
        }
    }

    /// Whether a heartbeat of the given age is stale.
    pub fn is_stale(&self, age_ms: u128) -> (r: bool)
        ensures
            r == (age_ms > self.stale_after_ms()),
    {
        let period: u128 = self.heartbeat_period_ms as u128;
        age_ms > 2 * period
    }
}

impl Default for LockPolicy {
    fn default() -> (r: LockPolicy)
        ensures
            r == LockPolicy::standard_spec(),
    {
        LockPolicy::standard()
    }
}

/// Where an acquisition stands.
#[derive(Clone, Copy, Debug, PartialEq, Eq, Structural)]
pub enum LockPhase {
    /// The lock file is to be opened.
    Opening,
    /// The advisory lock is to be tried.
    Trying,
    /// The lock is held elsewhere; the holder's heartbeat is to be read.
    Waiting,
    /// The lock is held by this acquisition.
    Locked,
    /// The caller proceeds without the lock.
    Unlocked,
}

/// The state of an acquisition.
#[derive(Clone, Copy, Debug, PartialEq, Eq, Structural)]
pub struct LockProgress {
    pub phase: LockPhase,
    /// Heartbeat readings that failed in a row.
    pub error_count: u32,
    /// Whether the caller was told to show its notice.
    pub notice_shown: bool,
}

/// What the caller observed when it performed the last action.
#[derive(Clone, Copy, Debug, PartialEq, Eq, Structural)]
pub enum LockEvent {
    /// The lock file could not be opened or created.
    OpenFailed,
    /// The lock file is open.
    Opened,
    /// The advisory lock was taken.
    Acquired,
    /// The advisory lock is held elsewhere, after `waited_ms` milliseconds
    /// since the acquisition began.
    Busy { waited_ms: u128 },
    /// The holder's heartbeat file was last written `age_ms` milliseconds ago.
    HeartbeatAge { age_ms: u128 },
    /// The age of the holder's heartbeat file could not be read.
    HeartbeatUnreadable,
}

/// What the caller is to do next.
#[derive(Clone, Copy, Debug, PartialEq, Eq, Structural)]
pub enum LockAction {
    /// Open the lock file for reading and writing, creating it if absent.
    OpenFile,
    /// Try to take the exclusive advisory lock without blocking.
    TryLock,
    /// Show the notice if told so, sleep, then read the age of the heartbeat
    /// file.
    Wait { show_notice: bool, sleep_ms: u64 },
    /// The lock is held: empty the heartbeat file and start the heartbeat.
    Hold,
    /// Proceed without the lock.
    Proceed,
}

/// The action that a state waits on.
pub open spec fn pending_action(policy: LockPolicy, s: LockProgress) -> LockAction {
    match s.phase {
        LockPhase::Opening => LockAction::OpenFile,
        LockPhase::Trying => LockAction::TryLock,
        LockPhase::Waiting => LockAction::Wait { show_notice: false, sleep_ms: policy.retry_sleep_ms },
        LockPhase::Locked => LockAction::Hold,
        LockPhase::Unlocked => LockAction::Proceed,
    }
}

/// The state in which the caller proceeds without the lock.
pub open spec fn given_up(s: LockProgress) -> (LockProgress, LockAction) {
    (
        LockProgress { phase: LockPhase::Unlocked, error_count: s.error_count, notice_shown: s.notice_shown },
        LockAction::Proceed,
    )
}

/// Another attempt with `error_count` failed readings in a row, as long as
/// the budget allows one.
pub open spec fn retry(policy: LockPolicy, s: LockProgress, error_count: int) -> (
    LockProgress,
    LockAction,
) {
    if error_count < policy.max_transient_errors {
        (
            LockProgress {
                phase: LockPhase::Trying,
                error_count: error_count as u32,
                notice_shown: s.notice_shown,
            },
            LockAction::TryLock,
        )
    } else {
        given_up(s)
    }
}

/// The transition of an acquisition: the state and the action that follow
/// from a state and an event. An event that does not answer the action that
/// the state waits on changes nothing, and the action is handed out again.
pub open spec fn step_of(policy: LockPolicy, s: LockProgress, e: LockEvent) -> (
    LockProgress,
    LockAction,
) {
    match (s.phase, e) {
        (LockPhase::Opening, LockEvent::OpenFailed) => given_up(s),
        (LockPhase::Opening, LockEvent::Opened) => retry(policy, s, 0),
        (LockPhase::Trying, LockEvent::Acquired) => (
            LockProgress { phase: LockPhase::Locked, error_count: s.error_count, notice_shown: s.notice_shown },
            LockAction::Hold,
        ),
        (LockPhase::Trying, LockEvent::Busy { waited_ms }) => {
            let show = !s.notice_shown && waited_ms > policy.notice_after_ms;
            (
                LockProgress {
                    phase: LockPhase::Waiting,
                    error_count: s.error_count,
                    notice_shown: s.notice_shown || show,
                },
                LockAction::Wait { show_notice: show, sleep_ms: policy.retry_sleep_ms },
            )
        },
        (LockPhase::Waiting, LockEvent::HeartbeatAge { age_ms }) => {
            if age_ms > policy.stale_after_ms() {
                given_up(s)
            } else {
                retry(policy, s, 0)
            }
        },
        (LockPhase::Waiting, LockEvent::HeartbeatUnreadable) => retry(policy, s, s.error_count + 1),
        _ => (s, pending_action(policy, s)),
    }
}

/// The state at which an acquisition begins.
pub open spec fn initial_progress() -> LockProgress {
    LockProgress { phase: LockPhase::Opening, error_count: 0, notice_shown: false }
}

/// While an attempt is under way, the failed readings are within the budget.
pub open spec fn progress_wf(policy: LockPolicy, s: LockProgress) -> bool {
    (s.phase == LockPhase::Trying || s.phase == LockPhase::Waiting) ==> s.error_count
        < policy.max_transient_errors
}

/// The step from one state to the next.
pub fn advance(policy: &LockPolicy, s: LockProgress, e: LockEvent) -> (r: (LockProgress, LockAction))
    requires
        progress_wf(*policy, s),
    ensures
        r == step_of(*policy, s, e),
        progress_wf(*policy, r.0),
{
    let unlocked = LockProgress {
        phase: LockPhase::Unlocked,
        error_count: s.error_count,
        notice_shown: s.notice_shown,
    };
    match s.phase {
        LockPhase::Opening => match e {
            LockEvent::OpenFailed => (unlocked, LockAction::Proceed),
            LockEvent::Opened => attempt(policy, s, 0),
            _ => (s, LockAction::OpenFile),
        },
        LockPhase::Trying => match e {
            LockEvent::Acquired => (
                LockProgress {
                    phase: LockPhase::Locked,
                    error_count: s.error_count,
                    notice_shown: s.notice_shown,
                },
                LockAction::Hold,
            ),
            LockEvent::Busy { waited_ms } => {
                let after: u128 = policy.notice_after_ms as u128;
                let show = !s.notice_shown && waited_ms > after;
                (
                    LockProgress {
                        phase: LockPhase::Waiting,
                        error_count: s.error_count,
                        notice_shown: s.notice_shown || show,
                    },
                    LockAction::Wait { show_notice: show, sleep_ms: policy.retry_sleep_ms },
                )
            },
            _ => (s, LockAction::TryLock),
        },
        LockPhase::Waiting => match e {
            LockEvent::HeartbeatAge { age_ms } => {
                if policy.is_stale(age_ms) {
                    (unlocked, LockAction::Proceed)
                } else {
                    attempt(policy, s, 0)
                }
            },
            LockEvent::HeartbeatUnreadable => attempt(policy, s, s.error_count + 1),
            _ => (s, LockAction::Wait { show_notice: false, sleep_ms: policy.retry_sleep_ms }),
        },
        LockPhase::Locked => (s, LockAction::Hold),
        LockPhase::Unlocked => (s, LockAction::Proceed),
    }
}

/// Another attempt with `error_count` failed readings in a row, as long as
/// the budget allows one.
fn attempt(policy: &LockPolicy, s: LockProgress, error_count: u32) -> (r: (LockProgress, LockAction))
    ensures
        r == retry(*policy, s, error_count as int),
        progress_wf(*policy, r.0),
{
    if error_count < policy.max_transient_errors {
        (
            LockProgress { phase: LockPhase::Trying, error_count, notice_shown: s.notice_shown },
            LockAction::TryLock,
        )
    } else {
        (
            LockProgress {
                phase: LockPhase::Unlocked,
                error_count: s.error_count,
                notice_shown: s.notice_shown,
            },
            LockAction::Proceed,
        )
    }
}

/// The state after a run of events.
pub open spec fn run_of(policy: LockPolicy, s: LockProgress, events: Seq<LockEvent>) -> LockProgress
    decreases events.len(),
{
    if events.len() == 0 {
        s
    } else {
        run_of(policy, step_of(policy, s, events[0]).0, events.drop_first())
    }
}

/// How often a run of events tells the caller to show its notice.
pub open spec fn notices_of(policy: LockPolicy, s: LockProgress, events: Seq<LockEvent>) -> nat
    decreases events.len(),
{
    if events.len() == 0 {
        0
    } else {
        let next = step_of(policy, s, events[0]);
        let shown: nat = if next.1 matches LockAction::Wait { show_notice: true, .. } {
            1
        } else {
            0
        };
        shown + notices_of(policy, next.0, events.drop_first())
    }
}

/// The event answers the action that the phase waits on.
pub open spec fn answers(phase: LockPhase, e: LockEvent) -> bool {
    match phase {
        LockPhase::Opening => e is OpenFailed || e is Opened,
        LockPhase::Trying => e is Acquired || e is Busy,
        LockPhase::Waiting => e is HeartbeatAge || e is HeartbeatUnreadable,
        LockPhase::Locked => true,
        LockPhase::Unlocked => true,
    }
}

/// The event shows no sign of life: it neither hands the lock over nor shows
/// a heartbeat that is fresh.
pub open spec fn lifeless(policy: LockPolicy, e: LockEvent) -> bool {
    match e {
        LockEvent::Acquired => false,
        LockEvent::HeartbeatAge { age_ms } => age_ms > policy.stale_after_ms(),
        _ => true,
    }
}

/// Every event of the run answers the action before it and shows no sign of
/// life.
pub open spec fn stalled(policy: LockPolicy, s: LockProgress, events: Seq<LockEvent>) -> bool
    decreases events.len(),
{
    events.len() == 0 || (answers(s.phase, events[0]) && lifeless(policy, events[0]) && stalled(
        policy,
        step_of(policy, s, events[0]).0,
        events.drop_first(),
    ))
}

/// The number of events after which a stalled acquisition has given up.
pub open spec fn steps_left(policy: LockPolicy, s: LockProgress) -> int {
    match s.phase {
        LockPhase::Opening => 1 + 2 * policy.max_transient_errors,
        LockPhase::Trying => 2 * (policy.max_transient_errors - s.error_count),
        LockPhase::Waiting => 2 * (policy.max_transient_errors - s.error_count) - 1,
        LockPhase::Locked => 0,
        LockPhase::Unlocked => 0,
    }
}

/// A finished acquisition stays as it is, whatever is reported to it.
pub proof fn lemma_finished_is_final(policy: LockPolicy, s: LockProgress, events: Seq<LockEvent>)
    requires
        s.phase == LockPhase::Locked || s.phase == LockPhase::Unlocked,
    ensures
        run_of(policy, s, events) == s,
        notices_of(policy, s, events) == 0,
    decreases events.len(),
{
    if events.len() > 0 {
        lemma_finished_is_final(policy, s, events.drop_first());
    }
}

/// The failed readings stay within the budget along every run.
pub proof fn lemma_run_keeps_budget(policy: LockPolicy, s: LockProgress, events: Seq<LockEvent>)
    requires
        progress_wf(policy, s),
    ensures
        progress_wf(policy, run_of(policy, s, events)),
    decreases events.len(),
{
    if events.len() > 0 {
        lemma_run_keeps_budget(policy, step_of(policy, s, events[0]).0, events.drop_first());
    }
}

/// A waiter that reads a heartbeat older than twice the heartbeat period
/// gives up at once and proceeds without the lock.
pub proof fn lemma_stale_heartbeat_gives_up(policy: LockPolicy, s: LockProgress, age_ms: u128)
    requires
        s.phase == LockPhase::Waiting,
        age_ms > 2 * policy.heartbeat_period_ms,
    ensures
        step_of(policy, s, LockEvent::HeartbeatAge { age_ms }).0.phase == LockPhase::Unlocked,
        step_of(policy, s, LockEvent::HeartbeatAge { age_ms }).1 == LockAction::Proceed,
{
}

/// A waiter that reads a heartbeat no older than twice the heartbeat period
/// forgets the failed readings and tries again.
pub proof fn lemma_fresh_heartbeat_resets(policy: LockPolicy, s: LockProgress, age_ms: u128)
    requires
        progress_wf(policy, s),
        s.phase == LockPhase::Waiting,
        age_ms <= 2 * policy.heartbeat_period_ms,
    ensures
        step_of(policy, s, LockEvent::HeartbeatAge { age_ms }).0 == (LockProgress {
            phase: LockPhase::Trying,
            error_count: 0,
            notice_shown: s.notice_shown,
        }),
        step_of(policy, s, LockEvent::HeartbeatAge { age_ms }).1 == LockAction::TryLock,
{
}

/// An acquisition whose lock stays held elsewhere, and whose holder shows no
/// fresh heartbeat, does not wait for ever: after `steps_left` answers, which
/// is at most one more than twice the retry budget, it has given up and the
/// caller proceeds without the lock.
pub proof fn lemma_stalled_wait_is_bounded(policy: LockPolicy, s: LockProgress, events: Seq<LockEvent>)
    requires
        progress_wf(policy, s),
        s.phase != LockPhase::Locked,
        stalled(policy, s, events),
        events.len() >= steps_left(policy, s),
    ensures
        run_of(policy, s, events).phase == LockPhase::Unlocked,
        steps_left(policy, s) <= 1 + 2 * policy.max_transient_errors,
    decreases events.len(),
{
    if s.phase == LockPhase::Unlocked {
        lemma_finished_is_final(policy, s, events);
    } else {
        assert(steps_left(policy, s) >= 1);
        let next = step_of(policy, s, events[0]).0;
        assert(steps_left(policy, next) <= steps_left(policy, s) - 1);
        lemma_stalled_wait_is_bounded(policy, next, events.drop_first());
    }
}

/// The lock is reported as held only after the advisory lock was taken: a
/// run of events without `Acquired` never ends in `Locked`.
pub proof fn lemma_locked_only_by_acquisition(policy: LockPolicy, s: LockProgress, events: Seq<LockEvent>)
    requires
        s.phase != LockPhase::Locked,
        forall|i: int| 0 <= i < events.len() ==> !(events[i] is Acquired),
    ensures
        run_of(policy, s, events).phase != LockPhase::Locked,
    decreases events.len(),
{
    if events.len() > 0 {
        let rest = events.drop_first();
        assert forall|i: int| 0 <= i < rest.len() implies !(rest[i] is Acquired) by {
            assert(rest[i] == events[i + 1]);
        }
        lemma_locked_only_by_acquisition(policy, step_of(policy, s, events[0]).0, rest);
    }
}

/// The caller is told to show its notice at most once in an acquisition,
/// and never again once it was told.
pub proof fn lemma_notice_at_most_once(policy: LockPolicy, s: LockProgress, events: Seq<LockEvent>)
    ensures
        notices_of(policy, s, events) <= 1,
        s.notice_shown ==> notices_of(policy, s, events) == 0,
    decreases events.len(),
{
    if events.len() > 0 {
        lemma_notice_at_most_once(policy, step_of(policy, s, events[0]).0, events.drop_first());
    }
}

/// The notice is shown only to a waiter that has waited longer than the
/// policy's delay.
pub proof fn lemma_notice_needs_long_wait(policy: LockPolicy, s: LockProgress, e: LockEvent)
    ensures
        step_of(policy, s, e).1 matches LockAction::Wait { show_notice: true, .. } ==> (e matches LockEvent::Busy {
            waited_ms,
        } && waited_ms > policy.notice_after_ms && s.phase == LockPhase::Trying && !s.notice_shown),
{
}

/// The extension of the heartbeat file: `lock.poll`.
pub open spec fn poll_extension() -> Seq<char> {
    seq!['l', 'o', 'c', 'k', '.', 'p', 'o', 'l', 'l']
}

/// The path of the heartbeat file that belongs to a lock file: its sibling
/// with the extension `lock.poll`.
pub open spec fn heartbeat_path_of(file_path: Seq<SegmentView>) -> Seq<SegmentView> {
    with_extension_of(file_path, poll_extension())
}

/// The path of the heartbeat file that belongs to the lock file at
/// `file_path`.
pub fn heartbeat_path(file_path: &FsPath) -> (r: FsPath)
    ensures
        r@ == heartbeat_path_of(file_path@),
{
    proof {
        reveal_strlit("lock.poll");
        assert("lock.poll"@ =~= poll_extension());
    }
    file_path.with_extension("lock.poll")
}

/// The mathematical value of a [`LaxSingleProcessFsFlag`].
pub struct FlagView {
    pub file_path: Seq<SegmentView>,
    pub poll_path: Seq<SegmentView>,
    pub long_wait_message: Seq<char>,
    pub policy: LockPolicy,
    pub progress: LockProgress,
}

/// A file system based flag that lets processes go one after the other
/// where that can be arranged, and lets the caller proceed where it cannot.
///
/// The value is an acquisition: it begins with [`LaxSingleProcessFsFlag::lock`],
/// is driven by [`LaxSingleProcessFsFlag::step`], and ends either holding
/// the lock or not.
#[derive(Debug)]
pub struct LaxSingleProcessFsFlag {
    file_path: FsPath,
    poll_path: FsPath,
    long_wait_message: String,
    policy: LockPolicy,
    progress: LockProgress,
}

impl View for LaxSingleProcessFsFlag {
    type V = FlagView;

    closed spec fn view(&self) -> FlagView {
        FlagView {
            file_path: self.file_path@,
            poll_path: self.poll_path@,
            long_wait_message: self.long_wait_message@,
            policy: self.policy,
            progress: self.progress,
        }
    }
}

impl LaxSingleProcessFsFlag {
    /// The failed readings are within the budget, and the heartbeat file is
    /// the sibling of the lock file.
    pub open spec fn wf(&self) -> bool {
        &&& progress_wf(self@.policy, self@.progress)
        &&& self@.poll_path == heartbeat_path_of(self@.file_path)
    }

    /// Begins an acquisition of the lock file at `file_path` under the
    /// standard policy. The first action is to open the lock file.
    pub fn lock(file_path: FsPath, long_wait_message: &str) -> (r: LaxSingleProcessFsFlag)
        ensures
            r.wf(),
            r@ == (FlagView {
                file_path: file_path@,
                poll_path: heartbeat_path_of(file_path@),
                long_wait_message: long_wait_message@,
                policy: LockPolicy::standard_spec(),
                progress: initial_progress(),
            }),
    {
        Self::lock_with_policy(file_path, long_wait_message, LockPolicy::standard())
    }

    /// Begins an acquisition of the lock file at `file_path` under `policy`.
    /// The first action is to open the lock file.
    pub fn lock_with_policy(file_path: FsPath, long_wait_message: &str, policy: LockPolicy) -> (r:
        LaxSingleProcessFsFlag)
        ensures
            r.wf(),
            r@ == (FlagView {
                file_path: file_path@,
                poll_path: heartbeat_path_of(file_path@),
                long_wait_message: long_wait_message@,
                policy: policy,
                progress: initial_progress(),
            }),
    {
        let poll_path = heartbeat_path(&file_path);
        LaxSingleProcessFsFlag {
            file_path,
            poll_path,
            long_wait_message: String::from_str(long_wait_message),
            policy,
            progress: LockProgress { phase: LockPhase::Opening, error_count: 0, notice_shown: false },
        }
    }

    /// Takes in what the caller observed and says what it is to do next.
    /// Only the progress of the acquisition changes.
    pub fn step(&mut self, event: LockEvent) -> (action: LockAction)
        requires
            old(self).wf(),
        ensures
            final(self).wf(),
            final(self)@ == (FlagView {
                progress: step_of(old(self)@.policy, old(self)@.progress, event).0,
                ..old(self)@
            }),
            action == step_of(old(self)@.policy, old(self)@.progress, event).1,
    {
        let (progress, action) = advance(&self.policy, self.progress, event);
        self.progress = progress;
        action
    }

    /// The action that the acquisition waits on.
    pub fn pending(&self) -> (action: LockAction)
        ensures
            action == pending_action(self@.policy, self@.progress),
    {
        match self.progress.phase {
            LockPhase::Opening => LockAction::OpenFile,
            LockPhase::Trying => LockAction::TryLock,
            LockPhase::Waiting => LockAction::Wait {
                show_notice: false,
                sleep_ms: self.policy.retry_sleep_ms,
            },
            LockPhase::Locked => LockAction::Hold,
            LockPhase::Unlocked => LockAction::Proceed,
        }
    }

    /// Whether the acquisition ended with the lock held.
    pub fn is_locked(&self) -> (r: bool)
        ensures
            r == (self@.progress.phase == LockPhase::Locked),
    {
        match self.progress.phase {
            LockPhase::Locked => true,
            _ => false,
        }
    }

    /// Whether the acquisition has ended, with or without the lock.
    pub fn is_finished(&self) -> (r: bool)
        ensures
            r == (self@.progress.phase == LockPhase::Locked || self@.progress.phase
                == LockPhase::Unlocked),
    {
        match self.progress.phase {
            LockPhase::Locked => true,
            LockPhase::Unlocked => true,
            _ => false,
        }
    }

    /// The progress of the acquisition.
    pub fn progress(&self) -> (r: LockProgress)
        ensures
            r == self@.progress,
    {
        self.progress
    }

    /// The policy of the acquisition.
    pub fn policy(&self) -> (r: LockPolicy)
        ensures
            r == self@.policy,
    {
        self.policy
    }

    /// The path of the lock file.
    pub fn file_path(&self) -> (r: &FsPath)
        ensures
            r@ == self@.file_path,
    {
        &self.file_path
    }

    /// The path of the heartbeat file.
    pub fn poll_path(&self) -> (r: &FsPath)
        ensures
            r@ == self@.poll_path,
    {
        &self.poll_path
    }

    /// The message of the notice that is shown after a long wait.
    pub fn long_wait_message(&self) -> (r: &String)
        ensures
            r@ == self@.long_wait_message,
    {
        &self.long_wait_message
    }
}

/// The state of a holder's heartbeat: how often the heartbeat file was
/// written, and whether the heartbeat has stopped.
#[derive(Clone, Copy, Debug, PartialEq, Eq, Structural)]
pub struct Heartbeat {
    pub counter: u64,
    pub stopped: bool,
}

/// What the heartbeat task is to do next.
#[derive(Clone, Copy, Debug, PartialEq, Eq, Structural)]
pub enum HeartbeatAction {
    /// Write the counter to the heartbeat file as text, then sleep.
    Write { counter: u64, sleep_ms: u64 },
    /// End the task; nothing is written any more.
    Stop,
}

/// One tick of a heartbeat: the state and the action that follow from a
/// state and from whether the holder has cancelled the heartbeat. Until it
/// is cancelled each tick writes a counter one greater than the last; once
/// it is cancelled the heartbeat stops for good.
pub open spec fn tick_of(policy: LockPolicy, h: Heartbeat, cancelled: bool) -> (Heartbeat, HeartbeatAction) {
    if cancelled || h.stopped {
        (Heartbeat { counter: h.counter, stopped: true }, HeartbeatAction::Stop)
    } else {
        (
            Heartbeat { counter: (h.counter + 1) as u64, stopped: false },
            HeartbeatAction::Write {
                counter: (h.counter + 1) as u64,
                sleep_ms: policy.heartbeat_period_ms,
            },
        )
    }
}

impl Heartbeat {
    /// A heartbeat that has written nothing yet.
    pub fn new() -> (r: Heartbeat)
        ensures
            r == (Heartbeat { counter: 0, stopped: false }),
    {
        Heartbeat { counter: 0, stopped: false }
    }

    /// One tick of the heartbeat. `cancelled` says whether the holder has
    /// cancelled it.
    pub fn tick(&mut self, policy: &LockPolicy, cancelled: bool) -> (action: HeartbeatAction)
        requires
            old(self).counter < u64::MAX,
        ensures
            (*final(self), action) == tick_of(*policy, *old(self), cancelled),
            action matches HeartbeatAction::Write { counter, .. } ==> counter > old(self).counter
                && !cancelled,
            cancelled ==> action == HeartbeatAction::Stop && final(self).stopped,
    {
        if cancelled || self.stopped {
            self.stopped = true;
            HeartbeatAction::Stop
        } else {
            self.counter = self.counter + 1;
            HeartbeatAction::Write { counter: self.counter, sleep_ms: policy.heartbeat_period_ms }
        }
    }
}

/// The state of a heartbeat after a run of ticks; `cancels[i]` says whether
/// the holder had cancelled it at tick `i`.
pub open spec fn beat_of(policy: LockPolicy, h: Heartbeat, cancels: Seq<bool>) -> Heartbeat
    decreases cancels.len(),
{
    if cancels.len() == 0 {
        h
    } else {
        tick_of(policy, beat_of(policy, h, cancels.drop_last()), cancels.last()).0
    }
}

/// The action of tick `i` of a run of ticks.
pub open spec fn beat_action(policy: LockPolicy, h: Heartbeat, cancels: Seq<bool>, i: int) -> HeartbeatAction {
    tick_of(policy, beat_of(policy, h, cancels.subrange(0, i)), cancels[i]).1
}

/// Along a run of ticks the counter never falls, rises by at most one a
/// tick, and a heartbeat that has stopped stays stopped.
pub proof fn lemma_beat_monotone(policy: LockPolicy, h: Heartbeat, cancels: Seq<bool>, a: int, b: int)
    requires
        0 <= a <= b <= cancels.len(),
        h.counter + cancels.len() <= u64::MAX,
    ensures
        h.counter <= beat_of(policy, h, cancels.subrange(0, a)).counter <= beat_of(
            policy,
            h,
            cancels.subrange(0, b),
        ).counter <= h.counter + b,
        beat_of(policy, h, cancels.subrange(0, a)).stopped ==> beat_of(
            policy,
            h,
            cancels.subrange(0, b),
        ).stopped,
    decreases b,
{
    if b == 0 {
        assert(cancels.subrange(0, 0).len() == 0);
    } else if a == b {
        lemma_beat_monotone(policy, h, cancels, a - 1, a - 1);
        assert(cancels.subrange(0, b).drop_last() =~= cancels.subrange(0, b - 1));
    } else {
        lemma_beat_monotone(policy, h, cancels, a, b - 1);
        assert(cancels.subrange(0, b).drop_last() =~= cancels.subrange(0, b - 1));
    }
}

/// While a heartbeat runs, the counter that it writes strictly increases:
/// of two ticks that write, the later writes the greater counter.
pub proof fn lemma_heartbeat_strictly_increases(
    policy: LockPolicy,
    h: Heartbeat,
    cancels: Seq<bool>,
    i: int,
    j: int,
)
    requires
        0 <= i < j < cancels.len(),
        h.counter + cancels.len() <= u64::MAX,
        beat_action(policy, h, cancels, i) is Write,
        beat_action(policy, h, cancels, j) is Write,
    ensures
        beat_action(policy, h, cancels, i)->Write_counter < beat_action(
            policy,
            h,
            cancels,
            j,
        )->Write_counter,
{
    lemma_beat_monotone(policy, h, cancels, i, i);
    lemma_beat_monotone(policy, h, cancels, i + 1, j);
    assert(cancels.subrange(0, i + 1).drop_last() =~= cancels.subrange(0, i));
    assert(cancels.subrange(0, i + 1).last() == cancels[i]);
}

/// Once the holder has cancelled the heartbeat, nothing is written any
/// more: every tick from the first cancelled one on stops.
pub proof fn lemma_heartbeat_stops_for_good(
    policy: LockPolicy,
    h: Heartbeat,
    cancels: Seq<bool>,
    i: int,
    j: int,
)
    requires
        0 <= i <= j < cancels.len(),
        h.counter + cancels.len() <= u64::MAX,
        cancels[i],
    ensures
        beat_action(policy, h, cancels, j) == HeartbeatAction::Stop,
{
    if i < j {
        lemma_beat_monotone(policy, h, cancels, i + 1, j);
        assert(cancels.subrange(0, i + 1).drop_last() =~= cancels.subrange(0, i));
        assert(cancels.subrange(0, i + 1).last() == cancels[i]);
    }
}

} // verus!
