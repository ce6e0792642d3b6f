//! The per-item policy: what to do with one path, given what both sides look
//! like now and what was recorded when they last agreed.

use vstd::prelude::*;

verus! {

/// What the local file system reports for a path.
#[derive(Clone, Copy, Debug, PartialEq, Eq, Structural)]
pub struct LocalStat {
    /// Modification time in seconds since the Unix epoch.
    pub modified: u64,
    pub is_dir: bool,
}

/// What the remote reports for a path.
#[derive(Clone, Copy, Debug, PartialEq, Eq, Structural)]
pub struct RemoteStat {
    /// Modification time in seconds relative to the Unix epoch.
    pub modified: i64,
    pub is_dir: bool,
}

/// The timestamps both sides had at the end of the last successful transfer.
#[derive(Clone, Copy, Debug, PartialEq, Eq, Structural)]
pub struct Baseline {
    pub local: u64,
    pub remote: i64,
}

/// How one side has moved relative to its recorded timestamp.
#[derive(Clone, Copy, Debug, PartialEq, Eq, Structural)]
pub enum Drift {
    Absent,
    Older,
    Same,
    Newer,
}

/// The action the policy prescribes for one item.
#[derive(Clone, Copy, Debug, PartialEq, Eq, Structural)]
pub enum Resolution {
    /// Both sides are as recorded, or there is nothing to act on.
    NoOp,
    /// Copy local to remote, then record the fresh timestamps.
    Push,
    /// Copy remote to local, then record the fresh timestamps.
    Pull,
    /// The remote copy is gone and the local one is untouched: remove the
    /// local copy and drop the baseline.
    RemoveLocal,
    /// The local copy is gone and the remote one is untouched: remove the
    /// remote copy and drop the baseline.
    RemoveRemote,
    /// Both copies are gone: drop the baseline.
    Forget,
    /// Both sides changed since the baseline; someone has to choose.
    Conflict,
    /// A timestamp moved backwards: the pass must abort.
    Violation,
}

pub open spec fn drift_of(observed: Option<int>, recorded: int) -> Drift {
    match observed {
        None => Drift::Absent,
        Some(t) => if t > recorded {
            Drift::Newer
        } else if t == recorded {
            Drift::Same
        } else {
            Drift::Older
        },
    }
}

pub open spec fn local_time(local: Option<LocalStat>) -> Option<int> {
    match local {
        Some(l) => Some(l.modified as int),
        None => None,
    }
}

pub open spec fn remote_time(remote: Option<RemoteStat>) -> Option<int> {
    match remote {
        Some(r) => Some(r.modified as int),
        None => None,
    }
}

/// Both sides exist and both are directories.
pub open spec fn both_directories(local: Option<LocalStat>, remote: Option<RemoteStat>) -> bool {
    local is Some && remote is Some && local->0.is_dir && remote->0.is_dir
}

/// The policy for an item that has a baseline.
pub open spec fn resolution_with_baseline(
    local: Option<LocalStat>,
    remote: Option<RemoteStat>,
    baseline: Baseline,
) -> Resolution {
    match (
        drift_of(local_time(local), baseline.local as int),
        drift_of(remote_time(remote), baseline.remote as int),
    ) {
        (Drift::Newer, Drift::Newer) => if both_directories(local, remote) {
            Resolution::NoOp
        } else {
            Resolution::Conflict
        },
        (Drift::Newer, Drift::Same) => Resolution::Push,
        (Drift::Newer, Drift::Absent) => Resolution::Push,
        (Drift::Same, Drift::Newer) => Resolution::Pull,
        (Drift::Absent, Drift::Newer) => Resolution::Pull,
        (Drift::Same, Drift::Absent) => Resolution::RemoveLocal,
        (Drift::Absent, Drift::Same) => Resolution::RemoveRemote,
        (Drift::Same, Drift::Same) => Resolution::NoOp,
        (Drift::Absent, Drift::Absent) => Resolution::Forget,
        _ => Resolution::Violation,
    }
}

/// The policy for an item that was never reconciled: the side modified last
/// wins, a tie goes to the remote, and a lone side is propagated.
pub open spec fn resolution_without_baseline(
    local: Option<LocalStat>,
    remote: Option<RemoteStat>,
) -> Resolution {
    match (local, remote) {
        (Some(l), Some(r)) => if l.modified as int > r.modified as int {
            Resolution::Push
        } else {
            Resolution::Pull
        },
        (Some(_), None) => Resolution::Push,
        (None, Some(_)) => Resolution::Pull,
        (None, None) => Resolution::NoOp,
    }
}

pub open spec fn resolution(
    local: Option<LocalStat>,
    remote: Option<RemoteStat>,
    baseline: Option<Baseline>,
) -> Resolution {
    match baseline {
        Some(b) => resolution_with_baseline(local, remote, b),
        None => resolution_without_baseline(local, remote),
    }
}

/// Classifies a local observation against its recorded timestamp.
pub fn local_drift(local: Option<LocalStat>, recorded: u64) -> (d: Drift)
    ensures
        d == drift_of(local_time(local), recorded as int),
{
    match local {
        None => Drift::Absent,
        Some(l) => if l.modified > recorded {
            Drift::Newer
        } else if l.modified == recorded {
            Drift::Same
        } else {
            Drift::Older
        },
    }
}

/// Classifies a remote observation against its recorded timestamp.
pub fn remote_drift(remote: Option<RemoteStat>, recorded: i64) -> (d: Drift)
    ensures
        d == drift_of(remote_time(remote), recorded as int),
{
    match remote {
        None => Drift::Absent,
        Some(r) => if r.modified > recorded {
            Drift::Newer
        } else if r.modified == recorded {
            Drift::Same
        } else {
            Drift::Older
        },
    }
}

/// Whether a local timestamp is strictly later than a remote one, compared
/// as integers.
pub fn local_is_later(local: u64, remote: i64) -> (later: bool)
    ensures
        later == (local as int > remote as int),
{
    remote < 0 || local > remote as u64
}

/// Decides what to do with one item.
pub fn resolve(
    local: Option<LocalStat>,
    remote: Option<RemoteStat>,
    baseline: Option<Baseline>,
) -> (r: Resolution)
    ensures
        r == resolution(local, remote, baseline),
{
    match baseline {
        Some(b) => {
            let l = local_drift(local, b.local);
            let r = remote_drift(remote, b.remote);
            match (l, r) {
                (Drift::Newer, Drift::Newer) => {
                    let dirs = match (local, remote) {
                        (Some(ls), Some(rs)) => ls.is_dir && rs.is_dir,
                        _ => false,
                    };
                    if dirs {
                        Resolution::NoOp
                    } else {
                        Resolution::Conflict
                    }
                },
                (Drift::Newer, Drift::Same) => Resolution::Push,
                (Drift::Newer, Drift::Absent) => Resolution::Push,
                (Drift::Same, Drift::Newer) => Resolution::Pull,
                (Drift::Absent, Drift::Newer) => Resolution::Pull,
                (Drift::Same, Drift::Absent) => Resolution::RemoveLocal,
                (Drift::Absent, Drift::Same) => Resolution::RemoveRemote,
                (Drift::Same, Drift::Same) => Resolution::NoOp,
                (Drift::Absent, Drift::Absent) => Resolution::Forget,
                _ => Resolution::Violation,
            }
        },
        None => match (local, remote) {
            (Some(l), Some(r)) => if local_is_later(l.modified, r.modified) {
                Resolution::Push
            } else {
                Resolution::Pull
            },
            (Some(_), None) => Resolution::Push,
            (None, Some(_)) => Resolution::Pull,
            (None, None) => Resolution::NoOp,
        },
    }
}

} // verus!
