//! The steps that carry out a resolution, and the choice between the two
//! sides of a conflict.
//!
//! A step that destroys something is only planned against what the two
//! sides were confirmed to hold: a node is deleted when the other side's
//! node of another kind is to take its place, or when the policy found its
//! counterpart deleted.
//!
//! A directory that exists on both sides is always walked, whether it moved
//! or not: what lies below it may have changed without a trace on the
//! directory itself.

use vstd::prelude::*;
use crate::resolver::{both_directories, LocalStat, RemoteStat, Resolution};
use crate::walk::Origin;

verus! {

/// One operation on the local file system or on the remote.
#[derive(Clone, Copy, Debug, PartialEq, Eq, Structural)]
pub enum Step {
    /// Delete the remote item, with everything below it if it is a
    /// directory.
    PurgeRemote,
    /// Delete the remote file that stands where a directory is to be.
    DeleteRemote,
    /// Create the remote directory.
    MakeRemoteDir,
    /// Copy the local file to the remote.
    CopyToRemote,
    /// Delete the local directory with everything below it.
    RemoveLocalTree,
    /// Delete the local file.
    RemoveLocalFile,
    /// Create the local directory.
    MakeLocalDir,
    /// Copy the remote file to the local side.
    CopyToLocal,
    /// Walk the entries of the directory, which exists on both sides: those
    /// the local side lists and then those the remote lists.
    Descend,
}

impl Step {
    /// Whether the step deletes something on the remote.
    pub open spec fn destroys_remote(self) -> bool {
        self == Step::PurgeRemote || self == Step::DeleteRemote
    }

    /// Whether the step deletes something on the local side.
    pub open spec fn destroys_local(self) -> bool {
        self == Step::RemoveLocalTree || self == Step::RemoveLocalFile
    }

    /// Whether the step changes one of the two sides. Walking a directory
    /// changes neither.
    pub open spec fn changes_a_side(self) -> bool {
        self != Step::Descend
    }
}

/// The steps that bring a local item to the remote. A remote node of the
/// other kind is deleted first.
pub open spec fn push_steps(local: LocalStat, remote: Option<RemoteStat>) -> Seq<Step> {
    let clear = match remote {
        Some(r) => if r.is_dir == local.is_dir {
            Seq::<Step>::empty()
        } else if r.is_dir {
            seq![Step::PurgeRemote]
        } else {
            seq![Step::DeleteRemote]
        },
        None => Seq::<Step>::empty(),
    };
    let place = if !local.is_dir {
        seq![Step::CopyToRemote]
    } else if remote is Some && remote->0.is_dir {
        seq![Step::Descend]
    } else {
        seq![Step::MakeRemoteDir, Step::Descend]
    };
    clear + place
}

/// The steps that bring a remote item to the local side. A local node of
/// the other kind is deleted first.
pub open spec fn pull_steps(local: Option<LocalStat>, remote: RemoteStat) -> Seq<Step> {
    let clear = match local {
        Some(l) => if l.is_dir == remote.is_dir {
            Seq::<Step>::empty()
        } else if l.is_dir {
            seq![Step::RemoveLocalTree]
        } else {
            seq![Step::RemoveLocalFile]
        },
        None => Seq::<Step>::empty(),
    };
    let place = if !remote.is_dir {
        seq![Step::CopyToLocal]
    } else if local is Some && local->0.is_dir {
        seq![Step::Descend]
    } else {
        seq![Step::MakeLocalDir, Step::Descend]
    };
    clear + place
}

/// The steps of a resolution. A resolution that moves or removes an item
/// which the observations do not show has no steps. An item that is left
/// alone is walked if it is a directory on both sides. An item whose local
/// copy was deleted is purged on the remote, whatever its kind.
pub open spec fn steps_of(
    resolution: Resolution,
    local: Option<LocalStat>,
    remote: Option<RemoteStat>,
) -> Seq<Step> {
    match resolution {
        Resolution::Push => match local {
            Some(l) => push_steps(l, remote),
            None => Seq::<Step>::empty(),
        },
        Resolution::Pull => match remote {
            Some(r) => pull_steps(local, r),
            None => Seq::<Step>::empty(),
        },
        Resolution::RemoveLocal => match local {
            Some(l) => if l.is_dir {
                seq![Step::RemoveLocalTree]
            } else {
                seq![Step::RemoveLocalFile]
            },
            None => Seq::<Step>::empty(),
        },
        Resolution::RemoveRemote => match remote {
            Some(_) => seq![Step::PurgeRemote],
            None => Seq::<Step>::empty(),
        },
        Resolution::NoOp => if both_directories(local, remote) {
            seq![Step::Descend]
        } else {
            Seq::<Step>::empty()
        },
        _ => Seq::<Step>::empty(),
    }
}

fn plan_push(local: LocalStat, remote: Option<RemoteStat>) -> (steps: Vec<Step>)
    ensures
        steps@ == push_steps(local, remote),
{
    let mut steps: Vec<Step> = Vec::new();
    let mut remote_dir_exists = false;
    match remote {
        Some(r) => {
            if r.is_dir != local.is_dir {
                if r.is_dir {
                    steps.push(Step::PurgeRemote);
                } else {
                    steps.push(Step::DeleteRemote);
                }
            }
            remote_dir_exists = r.is_dir;
        },
        None => {},
    }
    if !local.is_dir {
        steps.push(Step::CopyToRemote);
    } else {
        if !remote_dir_exists {
            steps.push(Step::MakeRemoteDir);
        }
        steps.push(Step::Descend);
    }
    assert(steps@ =~= push_steps(local, remote));
    steps
}

fn plan_pull(local: Option<LocalStat>, remote: RemoteStat) -> (steps: Vec<Step>)
    ensures
        steps@ == pull_steps(local, remote),
{
    let mut steps: Vec<Step> = Vec::new();
    let mut local_dir_exists = false;
    match local {
        Some(l) => {
            if l.is_dir != remote.is_dir {
                if l.is_dir {
                    steps.push(Step::RemoveLocalTree);
                } else {
                    steps.push(Step::RemoveLocalFile);
                }
            }
            local_dir_exists = l.is_dir;
        },
        None => {},
    }
    if !remote.is_dir {
        steps.push(Step::CopyToLocal);
    } else {
        if !local_dir_exists {
            steps.push(Step::MakeLocalDir);
        }
        steps.push(Step::Descend);
    }
    assert(steps@ =~= pull_steps(local, remote));
    steps
}

/// Plans the steps that carry out a resolution.
pub fn plan(resolution: Resolution, local: Option<LocalStat>, remote: Option<RemoteStat>) -> (steps:
    Vec<Step>)
    ensures
        steps@ == steps_of(resolution, local, remote),
{
    match resolution {
        Resolution::Push => match local {
            Some(l) => plan_push(l, remote),
            None => Vec::new(),
        },
        Resolution::Pull => match remote {
            Some(r) => plan_pull(local, r),
            None => Vec::new(),
        },
        Resolution::RemoveLocal => match local {
            Some(l) => {
                let mut steps: Vec<Step> = Vec::new();
                if l.is_dir {
                    steps.push(Step::RemoveLocalTree);
                } else {
                    steps.push(Step::RemoveLocalFile);
                }
                assert(steps@ =~= steps_of(resolution, local, remote));
                steps
            },
            None => Vec::new(),
        },
        Resolution::RemoveRemote => match remote {
            Some(_) => {
                let mut steps: Vec<Step> = Vec::new();
                steps.push(Step::PurgeRemote);
                assert(steps@ =~= steps_of(resolution, local, remote));
                steps
            },
            None => Vec::new(),
        },
        Resolution::NoOp => match (local, remote) {
            (Some(l), Some(r)) => {
                let mut steps: Vec<Step> = Vec::new();
                if l.is_dir && r.is_dir {
                    steps.push(Step::Descend);
                }
                assert(steps@ =~= steps_of(resolution, local, remote));
                steps
            },
            _ => Vec::new(),
        },
        _ => Vec::new(),
    }
}

/// One side of an item.
#[derive(Clone, Copy, Debug, PartialEq, Eq, Structural)]
pub enum Side {
    Local,
    Remote,
}

/// The side under whose path a failure of a step is listed. What is done
/// to one side fails on that side; a copy to the local side fails on the
/// remote it reads from, and a copy to the remote on the side whose tree is
/// being walked.
pub open spec fn blamed_side(step: Step, origin: Origin) -> Side {
    match step {
        Step::PurgeRemote | Step::DeleteRemote | Step::MakeRemoteDir | Step::CopyToLocal => Side::Remote,
        Step::RemoveLocalTree | Step::RemoveLocalFile | Step::MakeLocalDir => Side::Local,
        Step::CopyToRemote | Step::Descend => match origin {
            Origin::Local => Side::Local,
            Origin::Remote => Side::Remote,
        },
    }
}

/// Says under which side's path a failure of `step` is to be listed, in a
/// walk over the tree `origin`.
pub fn failure_side(step: Step, origin: Origin) -> (side: Side)
    ensures
        side == blamed_side(step, origin),
{
    match step {
        Step::PurgeRemote | Step::DeleteRemote | Step::MakeRemoteDir | Step::CopyToLocal => Side::Remote,
        Step::RemoveLocalTree | Step::RemoveLocalFile | Step::MakeLocalDir => Side::Local,
        Step::CopyToRemote | Step::Descend => match origin {
            Origin::Local => Side::Local,
            Origin::Remote => Side::Remote,
        },
    }
}

/// What to do about a conflict once someone looks at it.
#[derive(Clone, Copy, Debug, PartialEq, Eq, Structural)]
pub enum ConflictStep {
    /// Neither side exists any more: drop the error.
    Dismiss,
    /// Keep the local item.
    Push,
    /// Keep the remote item.
    Pull,
    /// Both sides exist and nobody has chosen yet.
    Ask,
}

/// A side that is left alone wins without asking; where both sides are
/// left, the choice decides.
pub open spec fn conflict_step(local_exists: bool, remote_exists: bool, choice: Option<Side>) -> ConflictStep {
    if !local_exists && !remote_exists {
        ConflictStep::Dismiss
    } else if !remote_exists {
        ConflictStep::Push
    } else if !local_exists {
        ConflictStep::Pull
    } else {
        match choice {
            Some(Side::Local) => ConflictStep::Push,
            Some(Side::Remote) => ConflictStep::Pull,
            None => ConflictStep::Ask,
        }
    }
}

/// Decides what to do about a conflict, given which sides still exist and
/// which side was chosen, if any.
pub fn decide_conflict(local_exists: bool, remote_exists: bool, choice: Option<Side>) -> (step:
    ConflictStep)
    ensures
        step == conflict_step(local_exists, remote_exists, choice),
{
    if !local_exists && !remote_exists {
        ConflictStep::Dismiss
    } else if !remote_exists {
        ConflictStep::Push
    } else if !local_exists {
        ConflictStep::Pull
    } else {
        match choice {
            Some(Side::Local) => ConflictStep::Push,
            Some(Side::Remote) => ConflictStep::Pull,
            None => ConflictStep::Ask,
        }
    }
}

} // verus!
