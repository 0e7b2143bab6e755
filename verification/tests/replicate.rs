use fs_util::replicate::{
    dir_size, entry_plan, remove_dir_all_if_exists, symlink_dir, EntryPlan, HardLink, IoOutcome,
    LinkAction, LinkFailure, LinkState, CONTENTION_SLEEP_MS,
};

#[test]
fn replicate_entry_plan() {
    assert_eq!(entry_plan(true, false), EntryPlan::Recurse);
    assert_eq!(entry_plan(false, true), EntryPlan::Transfer);
    assert_eq!(entry_plan(false, false), EntryPlan::Skip);
    assert_eq!(entry_plan(true, true), EntryPlan::Recurse);
}

#[test]
fn replicate_link_succeeds_at_once() {
    let mut link = HardLink::new();
    assert!(!link.is_finished());
    assert_eq!(link.step(IoOutcome::Done), LinkAction::Finish { sleep_ms: 0 });
    assert!(link.is_finished());
    assert_eq!(link.state, LinkState::Linked);
}

#[test]
fn replicate_link_replaces_an_existing_file() {
    let mut link = HardLink::new();
    assert_eq!(link.step(IoOutcome::AlreadyExists), LinkAction::Remove);
    assert_eq!(link.step(IoOutcome::Done), LinkAction::Link { sleep_ms: 0 });
    assert_eq!(link.step(IoOutcome::Done), LinkAction::Finish { sleep_ms: 0 });
    assert_eq!(link.state, LinkState::Linked);
}

#[test]
fn replicate_link_yields_to_a_contender() {
    assert_eq!(CONTENTION_SLEEP_MS, 10);
    let mut link = HardLink::new();
    link.step(IoOutcome::AlreadyExists);
    assert_eq!(link.step(IoOutcome::NotFound), LinkAction::Link { sleep_ms: 10 });
    assert_eq!(link.step(IoOutcome::AlreadyExists), LinkAction::Finish { sleep_ms: 10 });
    assert!(link.is_finished());
    assert_eq!(link.step(IoOutcome::OtherError), LinkAction::Finish { sleep_ms: 0 });
}

#[test]
fn replicate_link_passes_failures_on() {
    let mut link = HardLink::new();
    assert_eq!(link.step(IoOutcome::OtherError), LinkAction::Fail(LinkFailure::Linking));
    assert_eq!(link.state, LinkState::Failed(LinkFailure::Linking));

    let mut link = HardLink::new();
    assert_eq!(link.step(IoOutcome::NotFound), LinkAction::Fail(LinkFailure::Linking));

    let mut link = HardLink::new();
    link.step(IoOutcome::AlreadyExists);
    assert_eq!(link.step(IoOutcome::OtherError), LinkAction::Fail(LinkFailure::Removing));
    assert!(link.is_finished());
    assert_eq!(link.step(IoOutcome::Done), LinkAction::Fail(LinkFailure::Removing));

    let mut link = HardLink::new();
    link.step(IoOutcome::AlreadyExists);
    link.step(IoOutcome::Done);
    assert_eq!(link.step(IoOutcome::NotFound), LinkAction::Fail(LinkFailure::Linking));

    let mut link = HardLink::new();
    link.step(IoOutcome::AlreadyExists);
    assert_eq!(link.step(IoOutcome::AlreadyExists), LinkAction::Fail(LinkFailure::Removing));
}

#[test]
fn replicate_link_ends_within_three_operations() {
    let outcomes =
        [IoOutcome::Done, IoOutcome::AlreadyExists, IoOutcome::NotFound, IoOutcome::OtherError];
    for a in outcomes {
        for b in outcomes {
            for c in outcomes {
                let mut link = HardLink::new();
                link.step(a);
                link.step(b);
                link.step(c);
                assert!(link.is_finished());
            }
        }
    }
}

#[test]
fn replicate_absent_directory_is_removed() {
    assert_eq!(remove_dir_all_if_exists(IoOutcome::NotFound), IoOutcome::Done);
    assert_eq!(remove_dir_all_if_exists(IoOutcome::Done), IoOutcome::Done);
    assert_eq!(remove_dir_all_if_exists(IoOutcome::AlreadyExists), IoOutcome::AlreadyExists);
    assert_eq!(remove_dir_all_if_exists(IoOutcome::OtherError), IoOutcome::OtherError);
}

#[test]
fn replicate_symlink_failure_names_both_paths() {
    assert_eq!(
        symlink_dir("File exists (os error 17)", "/a/old", "/b/new"),
        "File exists (os error 17), symlink '/a/old' -> '/b/new'"
    );
    assert_eq!(symlink_dir("", "", ""), ", symlink '' -> ''");
}

#[test]
fn replicate_dir_size_is_the_sum() {
    assert_eq!(dir_size(&[]), Some(0));
    assert_eq!(dir_size(&[1, 2, 3, 4096]), Some(4102));
    assert_eq!(dir_size(&[u64::MAX]), Some(u64::MAX));
    assert_eq!(dir_size(&[u64::MAX - 1, 1]), Some(u64::MAX));
    assert_eq!(dir_size(&[u64::MAX, 1]), None);
    assert_eq!(dir_size(&[1, u64::MAX, 0]), None);
}
