use celeste::plan::{decide_conflict, failure_side, plan, ConflictStep, Side, Step};
use celeste::walk::Origin;
use celeste::resolver::{LocalStat, RemoteStat, Resolution};

fn local(is_dir: bool) -> Option<LocalStat> {
    Some(LocalStat { modified: 1, is_dir })
}

fn remote(is_dir: bool) -> Option<RemoteStat> {
    Some(RemoteStat { modified: 1, is_dir })
}

#[test]
fn push_of_a_file_copies_it() {
    assert_eq!(plan(Resolution::Push, local(false), None), vec![Step::CopyToRemote]);
    assert_eq!(plan(Resolution::Push, local(false), remote(false)), vec![Step::CopyToRemote]);
}

#[test]
fn push_of_a_file_over_a_directory_purges_first() {
    assert_eq!(
        plan(Resolution::Push, local(false), remote(true)),
        vec![Step::PurgeRemote, Step::CopyToRemote]
    );
}

#[test]
fn push_of_a_directory_creates_it_and_descends() {
    assert_eq!(plan(Resolution::Push, local(true), None), vec![Step::MakeRemoteDir, Step::Descend]);
    assert_eq!(plan(Resolution::Push, local(true), remote(true)), vec![Step::Descend]);
}

#[test]
fn push_of_a_directory_over_a_file_deletes_first() {
    assert_eq!(
        plan(Resolution::Push, local(true), remote(false)),
        vec![Step::DeleteRemote, Step::MakeRemoteDir, Step::Descend]
    );
}

#[test]
fn pull_of_a_file_copies_it() {
    assert_eq!(plan(Resolution::Pull, None, remote(false)), vec![Step::CopyToLocal]);
    assert_eq!(plan(Resolution::Pull, local(false), remote(false)), vec![Step::CopyToLocal]);
}

#[test]
fn pull_of_a_file_over_a_directory_removes_the_tree_first() {
    assert_eq!(
        plan(Resolution::Pull, local(true), remote(false)),
        vec![Step::RemoveLocalTree, Step::CopyToLocal]
    );
}

#[test]
fn pull_of_a_directory_creates_it_and_descends() {
    assert_eq!(plan(Resolution::Pull, None, remote(true)), vec![Step::MakeLocalDir, Step::Descend]);
    assert_eq!(plan(Resolution::Pull, local(true), remote(true)), vec![Step::Descend]);
}

#[test]
fn pull_of_a_directory_over_a_file_removes_the_file_first() {
    assert_eq!(
        plan(Resolution::Pull, local(false), remote(true)),
        vec![Step::RemoveLocalFile, Step::MakeLocalDir, Step::Descend]
    );
}

#[test]
fn removals_delete_what_is_there() {
    assert_eq!(plan(Resolution::RemoveLocal, local(false), None), vec![Step::RemoveLocalFile]);
    assert_eq!(plan(Resolution::RemoveLocal, local(true), None), vec![Step::RemoveLocalTree]);
}

#[test]
fn remote_copy_of_a_deleted_item_is_purged_whatever_its_kind() {
    assert_eq!(plan(Resolution::RemoveRemote, None, remote(false)), vec![Step::PurgeRemote]);
    assert_eq!(plan(Resolution::RemoveRemote, None, remote(true)), vec![Step::PurgeRemote]);
    assert_eq!(plan(Resolution::RemoveRemote, local(true), remote(false)), vec![Step::PurgeRemote]);
}

#[test]
fn directory_that_is_left_alone_is_walked() {
    assert_eq!(plan(Resolution::NoOp, local(true), remote(true)), vec![Step::Descend]);
}

#[test]
fn nothing_is_walked_unless_both_sides_are_directories() {
    assert_eq!(plan(Resolution::NoOp, local(false), remote(false)), vec![]);
    assert_eq!(plan(Resolution::NoOp, local(true), remote(false)), vec![]);
    assert_eq!(plan(Resolution::NoOp, local(false), remote(true)), vec![]);
    assert_eq!(plan(Resolution::NoOp, local(true), None), vec![]);
    assert_eq!(plan(Resolution::NoOp, None, remote(true)), vec![]);
    assert_eq!(plan(Resolution::NoOp, None, None), vec![]);
}

#[test]
fn failure_is_listed_under_the_side_it_happened_on() {
    for origin in [Origin::Local, Origin::Remote] {
        for step in [Step::PurgeRemote, Step::DeleteRemote, Step::MakeRemoteDir, Step::CopyToLocal] {
            assert_eq!(failure_side(step, origin), Side::Remote);
        }
        for step in [Step::RemoveLocalTree, Step::RemoveLocalFile, Step::MakeLocalDir] {
            assert_eq!(failure_side(step, origin), Side::Local);
        }
    }
}

#[test]
fn failed_copy_to_the_remote_is_listed_under_the_tree_that_is_walked() {
    assert_eq!(failure_side(Step::CopyToRemote, Origin::Local), Side::Local);
    assert_eq!(failure_side(Step::CopyToRemote, Origin::Remote), Side::Remote);
    assert_eq!(failure_side(Step::Descend, Origin::Local), Side::Local);
    assert_eq!(failure_side(Step::Descend, Origin::Remote), Side::Remote);
}

#[test]
fn nothing_is_planned_without_a_transfer() {
    for resolution in [
        Resolution::NoOp,
        Resolution::Conflict,
        Resolution::Forget,
        Resolution::Violation,
    ] {
        assert_eq!(plan(resolution, local(false), remote(false)), vec![]);
    }
    for resolution in [Resolution::Conflict, Resolution::Forget, Resolution::Violation] {
        assert_eq!(plan(resolution, local(true), remote(true)), vec![]);
    }
}

#[test]
fn nothing_is_planned_for_a_side_that_was_not_seen() {
    assert_eq!(plan(Resolution::Push, None, remote(false)), vec![]);
    assert_eq!(plan(Resolution::Pull, local(false), None), vec![]);
    assert_eq!(plan(Resolution::RemoveLocal, None, None), vec![]);
    assert_eq!(plan(Resolution::RemoveRemote, None, None), vec![]);
}

#[test]
fn conflict_with_nothing_left_is_dismissed() {
    assert_eq!(decide_conflict(false, false, None), ConflictStep::Dismiss);
    assert_eq!(decide_conflict(false, false, Some(Side::Local)), ConflictStep::Dismiss);
}

#[test]
fn conflict_with_one_side_left_keeps_that_side() {
    assert_eq!(decide_conflict(true, false, None), ConflictStep::Push);
    assert_eq!(decide_conflict(true, false, Some(Side::Remote)), ConflictStep::Push);
    assert_eq!(decide_conflict(false, true, None), ConflictStep::Pull);
    assert_eq!(decide_conflict(false, true, Some(Side::Local)), ConflictStep::Pull);
}

#[test]
fn conflict_with_both_sides_left_follows_the_choice() {
    assert_eq!(decide_conflict(true, true, None), ConflictStep::Ask);
    assert_eq!(decide_conflict(true, true, Some(Side::Local)), ConflictStep::Push);
    assert_eq!(decide_conflict(true, true, Some(Side::Remote)), ConflictStep::Pull);
}
