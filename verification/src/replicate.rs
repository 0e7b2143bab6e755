//! The decisions taken while a directory is copied, hard-linked, measured
//! or removed.
//!
//! The work on the file system stays with the caller. It reports the kind of
//! each entry and the outcome of each operation, and is told what to do next.

use vstd::prelude::*;

verus! {

/// What is done with an entry of the directory that is replicated.
#[derive(Clone, Copy, Debug, PartialEq, Eq, Structural)]
pub enum EntryPlan {
    /// A directory: replicate it in turn.
    Recurse,
    /// A file: copy or link it.
    Transfer,
    /// Anything else, a symbolic link among them: leave it out.
    Skip,
}

/// What is done with an entry whose file type says `is_dir` and `is_file`.
pub open spec fn entry_plan_of(is_dir: bool, is_file: bool) -> EntryPlan {
    if is_dir {
        EntryPlan::Recurse
    } else if is_file {
        EntryPlan::Transfer
    } else {
        EntryPlan::Skip
    }
}

/// What is done with an entry whose file type says `is_dir` and `is_file`.
pub fn entry_plan(is_dir: bool, is_file: bool) -> (r: EntryPlan)
    ensures
        r == entry_plan_of(is_dir, is_file),
{
    if is_dir {
        EntryPlan::Recurse
    } else if is_file {
        EntryPlan::Transfer
    } else {
        EntryPlan::Skip
    }
}

/// How an operation on the file system ended.
#[derive(Clone, Copy, Debug, PartialEq, Eq, Structural)]
pub enum IoOutcome {
    Done,
    /// It failed because the target exists already.
    AlreadyExists,
    /// It failed because the target was not found.
    NotFound,
    /// It failed for another reason.
    OtherError,
}

/// The operation at which hard-linking a file failed for good.
#[derive(Clone, Copy, Debug, PartialEq, Eq, Structural)]
pub enum LinkFailure {
    /// Creating the hard link.
    Linking,
    /// Removing the file that stood in the link's place.
    Removing,
}

/// Where the hard-linking of one file stands.
#[derive(Clone, Copy, Debug, PartialEq, Eq, Structural)]
pub enum LinkState {
    /// The link is to be created.
    Linking,
    /// A file stands in the link's place and is to be removed.
    Removing,
    /// The link is to be created once more.
    Relinking,
    /// The link is there, made here or by someone else.
    Linked,
    /// The last reported failure is passed on.
    Failed(LinkFailure),
}

/// What the caller is to do next.
#[derive(Clone, Copy, Debug, PartialEq, Eq, Structural)]
pub enum LinkAction {
    /// Create the hard link, after a sleep of `sleep_ms` milliseconds.
    Link { sleep_ms: u64 },
    /// Remove the file that stands in the link's place.
    Remove,
    /// Go on with the next entry, after a sleep of `sleep_ms` milliseconds.
    Finish { sleep_ms: u64 },
    /// Pass on the failure that was reported last.
    Fail(LinkFailure),
}

/// The sleep, in milliseconds, that lets a contender get ahead.
pub const CONTENTION_SLEEP_MS: u64 = 10;

/// The action that a state waits on.
pub open spec fn link_pending(s: LinkState) -> LinkAction {
    match s {
        LinkState::Linking => LinkAction::Link { sleep_ms: 0 },
        LinkState::Removing => LinkAction::Remove,
        LinkState::Relinking => LinkAction::Link { sleep_ms: 0 },
        LinkState::Linked => LinkAction::Finish { sleep_ms: 0 },
        LinkState::Failed(f) => LinkAction::Fail(f),
    }
}

/// The transition of hard-linking one file. A link that fails because its
/// target exists has the target removed and is tried once more. Where the
/// target has vanished by then, or the second link finds it there again,
/// someone else is taken to be at the same work: the caller sleeps and goes
/// on. Every other failure is passed on.
pub open spec fn link_step_of(s: LinkState, outcome: IoOutcome) -> (LinkState, LinkAction) {
    match s {
        LinkState::Linking => match outcome {
            IoOutcome::Done => (LinkState::Linked, LinkAction::Finish { sleep_ms: 0 }),
            IoOutcome::AlreadyExists => (LinkState::Removing, LinkAction::Remove),
            _ => (LinkState::Failed(LinkFailure::Linking), LinkAction::Fail(LinkFailure::Linking)),
        },
        LinkState::Removing => match outcome {
            IoOutcome::Done => (LinkState::Relinking, LinkAction::Link { sleep_ms: 0 }),
            IoOutcome::NotFound => (
                LinkState::Relinking,
                LinkAction::Link { sleep_ms: CONTENTION_SLEEP_MS },
            ),
            _ => (
                LinkState::Failed(LinkFailure::Removing),
                LinkAction::Fail(LinkFailure::Removing),
            ),
        },
        LinkState::Relinking => match outcome {
            IoOutcome::Done => (LinkState::Linked, LinkAction::Finish { sleep_ms: 0 }),
            IoOutcome::AlreadyExists => (
                LinkState::Linked,
                LinkAction::Finish { sleep_ms: CONTENTION_SLEEP_MS },
            ),
            _ => (LinkState::Failed(LinkFailure::Linking), LinkAction::Fail(LinkFailure::Linking)),
        },
        LinkState::Linked => (s, link_pending(s)),
        LinkState::Failed(_) => (s, link_pending(s)),
    }
}

/// Whether the hard-linking of the file has ended.
pub open spec fn link_finished(s: LinkState) -> bool {
    s is Linked || s is Failed
}

/// The hard-linking of one file.
#[derive(Clone, Copy, Debug, PartialEq, Eq, Structural)]
pub struct HardLink {
    pub state: LinkState,
}

impl HardLink {
    /// Begins the hard-linking of a file. The first action is to create the
    /// link.
    pub fn new() -> (r: HardLink)
        ensures
            r.state == LinkState::Linking,
    {
        HardLink { state: LinkState::Linking }
    }

    /// Takes in how the last operation ended and says what to do next.
    pub fn step(&mut self, outcome: IoOutcome) -> (action: LinkAction)
        ensures
            (final(self).state, action) == link_step_of(old(self).state, outcome),
    {
        let (state, action) = match self.state {
            LinkState::Linking => match outcome {
                IoOutcome::Done => (LinkState::Linked, LinkAction::Finish { sleep_ms: 0 }),
                IoOutcome::AlreadyExists => (LinkState::Removing, LinkAction::Remove),
                _ => (
                    LinkState::Failed(LinkFailure::Linking),
                    LinkAction::Fail(LinkFailure::Linking),
                ),
            },
            LinkState::Removing => match outcome {
                IoOutcome::Done => (LinkState::Relinking, LinkAction::Link { sleep_ms: 0 }),
                IoOutcome::NotFound => (
                    LinkState::Relinking,
                    LinkAction::Link { sleep_ms: CONTENTION_SLEEP_MS },
                ),
                _ => (
                    LinkState::Failed(LinkFailure::Removing),
                    LinkAction::Fail(LinkFailure::Removing),
                ),
            },
            LinkState::Relinking => match outcome {
                IoOutcome::Done => (LinkState::Linked, LinkAction::Finish { sleep_ms: 0 }),
                IoOutcome::AlreadyExists => (
                    LinkState::Linked,
                    LinkAction::Finish { sleep_ms: CONTENTION_SLEEP_MS },
                ),
                _ => (
                    LinkState::Failed(LinkFailure::Linking),
                    LinkAction::Fail(LinkFailure::Linking),
                ),
            },
            LinkState::Linked => (LinkState::Linked, LinkAction::Finish { sleep_ms: 0 }),
            LinkState::Failed(f) => (LinkState::Failed(f), LinkAction::Fail(f)),
        };
        self.state = state;
        action
    }

    /// Whether the hard-linking of the file has ended.
    pub fn is_finished(&self) -> (r: bool)
        ensures
            r == link_finished(self.state),
    {
        match self.state {
            LinkState::Linked => true,
            LinkState::Failed(_) => true,
            _ => false,
        }
    }
}

/// The state after a run of outcomes.
pub open spec fn link_run_of(s: LinkState, outcomes: Seq<IoOutcome>) -> LinkState
    decreases outcomes.len(),
{
    if outcomes.len() == 0 {
        s
    } else {
        link_run_of(link_step_of(s, outcomes[0]).0, outcomes.drop_first())
    }
}

/// Hard-linking a file ends after three operations at most: a link, a
/// removal and a second link.
pub proof fn lemma_link_ends_in_three(outcomes: Seq<IoOutcome>)
    requires
        outcomes.len() >= 3,
    ensures
        link_finished(link_run_of(LinkState::Linking, outcomes)),
{
    let s1 = link_step_of(LinkState::Linking, outcomes[0]).0;
    let r1 = outcomes.drop_first();
    let s2 = link_step_of(s1, r1[0]).0;
    let r2 = r1.drop_first();
    let s3 = link_step_of(s2, r2[0]).0;
    assert(link_run_of(LinkState::Linking, outcomes) == link_run_of(s1, r1));
    assert(link_run_of(s1, r1) == link_run_of(s2, r2));
    assert(link_run_of(s2, r2) == link_run_of(s3, r2.drop_first()));
    assert(link_finished(s3));
    lemma_link_finished_is_final(s3, r2.drop_first());
}

/// Once the hard-linking of a file has ended, nothing changes any more.
pub proof fn lemma_link_finished_is_final(s: LinkState, outcomes: Seq<IoOutcome>)
    requires
        link_finished(s),
    ensures
        link_run_of(s, outcomes) == s,
    decreases outcomes.len(),
{
    if outcomes.len() > 0 {
        lemma_link_finished_is_final(s, outcomes.drop_first());
    }
}

/// The outcome of removing a directory that may be absent: that it was not
/// found is no failure.
pub open spec fn removal_outcome_of(outcome: IoOutcome) -> IoOutcome {
    match outcome {
        IoOutcome::NotFound => IoOutcome::Done,
        other => other,
    }
}

/// The outcome of removing a directory and all below it, where an absent
/// directory is no failure. `outcome` is how the removal ended.
pub fn remove_dir_all_if_exists(outcome: IoOutcome) -> (r: IoOutcome)
    ensures
        r == removal_outcome_of(outcome),
{
    match outcome {
        IoOutcome::NotFound => IoOutcome::Done,
        other => other,
    }
}

/// The message of a failed symbolic link: the failure, then the two paths.
pub open spec fn symlink_message_of(failure: Seq<char>, oldpath: Seq<char>, newpath: Seq<char>) -> Seq<char> {
    failure + seq![',', ' ', 's', 'y', 'm', 'l', 'i', 'n', 'k', ' ', '\''] + oldpath + seq![
        '\'',
        ' ',
        '-',
        '>',
        ' ',
        '\'',
    ] + newpath + seq!['\'']
}

/// The message with which a failed symbolic link from `newpath` to
/// `oldpath` is reported; `failure` is the message of the failure itself.
pub fn symlink_dir(failure: &str, oldpath: &str, newpath: &str) -> (r: String)
    ensures
        r@ == symlink_message_of(failure@, oldpath@, newpath@),
{
    proof {
        reveal_strlit(", symlink '");
        reveal_strlit("' -> '");
        reveal_strlit("'");
        assert(", symlink '"@ =~= seq![',', ' ', 's', 'y', 'm', 'l', 'i', 'n', 'k', ' ', '\'']);
        assert("' -> '"@ =~= seq!['\'', ' ', '-', '>', ' ', '\'']);
        assert("'"@ =~= seq!['\'']);
    }
    let mut r = String::from_str(failure);
    r.append(", symlink '");
    r.append(oldpath);
    r.append("' -> '");
    r.append(newpath);
    r.append("'");
    r
}

/// The sum of the lengths.
pub open spec fn total_of(lengths: Seq<u64>) -> nat
    decreases lengths.len(),
{
    if lengths.len() == 0 {
        0
    } else {
        total_of(lengths.drop_last()) + lengths.last() as nat
    }
}

/// The size of a directory: the sum of the lengths of the files in it and
/// below it. `None` where the sum is more than a `u64` holds.
pub fn dir_size(lengths: &[u64]) -> (r: Option<u64>)
    ensures
        match r {
            Some(total) => total == total_of(lengths@),
            None => total_of(lengths@) > u64::MAX,
        },
{
    let mut total: u64 = 0;
    let mut i: usize = 0;
    assert(lengths@.subrange(0, 0) =~= Seq::empty());
    while i < lengths.len()
        invariant
            i <= lengths.len(),
            total == total_of(lengths@.subrange(0, i as int)),
        decreases lengths.len() - i,
    {
        assert(lengths@.subrange(0, i + 1).drop_last() =~= lengths@.subrange(0, i as int));
        if lengths[i] > u64::MAX - total {
            proof {
                lemma_total_grows(lengths@, i + 1);
            }
            return None;
        }
        total = total + lengths[i];
        i += 1;
    }
    assert(lengths@.subrange(0, lengths@.len() as int) =~= lengths@);
    Some(total)
}

/// The sum of the first lengths is no more than the sum of all.
proof fn lemma_total_grows(lengths: Seq<u64>, n: int)
    requires
        0 <= n <= lengths.len(),
    ensures
        total_of(lengths.subrange(0, n)) <= total_of(lengths),
    decreases lengths.len(),
{
    if n < lengths.len() {
        lemma_total_grows(lengths.drop_last(), n);
        assert(lengths.drop_last().subrange(0, n) =~= lengths.subrange(0, n));
    } else {
        assert(lengths.subrange(0, n) =~= lengths);
    }
}

} // verus!
