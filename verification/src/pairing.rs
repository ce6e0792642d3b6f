//! Taking a new synchronized pair from what a user typed: the two roots in
//! the form the catalog keeps them, and whether the pair can be added.

use vstd::prelude::*;
use vstd::string::*;
use crate::catalog::{Catalog, DirKey, SyncDir};
use crate::text::chars_of;

verus! {

/// The number of slashes `s` starts with.
pub open spec fn leading_slashes(s: Seq<char>) -> nat
    decreases s.len(),
{
    if s.len() > 0 && s[0] == '/' {
        1 + leading_slashes(s.skip(1))
    } else {
        0
    }
}

/// The number of slashes `s` ends with.
pub open spec fn trailing_slashes(s: Seq<char>) -> nat
    decreases s.len(),
{
    if s.len() > 0 && s.last() == '/' {
        1 + trailing_slashes(s.drop_last())
    } else {
        0
    }
}

/// `s` without the slashes it starts with and those it ends with.
pub open spec fn without_slashes(s: Seq<char>) -> Seq<char> {
    let rest = s.skip(leading_slashes(s) as int);
    rest.take(rest.len() - trailing_slashes(rest))
}

/// `leading_slashes` is the position of the first character that is no
/// slash.
pub proof fn lemma_leading_slashes(s: Seq<char>, k: int)
    requires
        0 <= k <= s.len(),
        forall|j: int| 0 <= j < k ==> s[j] == '/',
        k == s.len() || s[k] != '/',
    ensures
        leading_slashes(s) == k,
    decreases k,
{
    if k > 0 {
        lemma_leading_slashes(s.skip(1), k - 1);
    }
}

/// `trailing_slashes` counts back to the last character that is no slash.
pub proof fn lemma_trailing_slashes(s: Seq<char>, k: int)
    requires
        0 <= k <= s.len(),
        forall|j: int| s.len() - k <= j < s.len() ==> s[j] == '/',
        k == s.len() || s[s.len() - k - 1] != '/',
    ensures
        trailing_slashes(s) == k,
    decreases k,
{
    if k > 0 {
        lemma_trailing_slashes(s.drop_last(), k - 1);
    }
}

/// What is left of a text without its outer slashes neither starts nor
/// ends with a slash.
pub proof fn lemma_without_slashes_is_bare(s: Seq<char>)
    ensures
        without_slashes(s).len() > 0 ==> without_slashes(s).first() != '/' && without_slashes(
            s,
        ).last() != '/',
{
    let lead = leading_slashes(s) as int;
    lemma_leading_bounds(s);
    let rest = s.skip(lead);
    lemma_trailing_bounds(rest);
    let trail = trailing_slashes(rest) as int;
    let out = without_slashes(s);
    if out.len() > 0 {
        assert(out.last() == rest[rest.len() - trail - 1]);
        assert(out.first() == s[lead]);
    }
}

proof fn lemma_leading_bounds(s: Seq<char>)
    ensures
        leading_slashes(s) <= s.len(),
        forall|j: int| 0 <= j < leading_slashes(s) ==> s[j] == '/',
        leading_slashes(s) < s.len() ==> s[leading_slashes(s) as int] != '/',
    decreases s.len(),
{
    if s.len() > 0 && s[0] == '/' {
        let tail = s.skip(1);
        lemma_leading_bounds(tail);
        assert forall|j: int| 0 <= j < leading_slashes(s) implies s[j] == '/' by {
            if j > 0 {
                assert(tail[j - 1] == s[j]);
            }
        }
        if leading_slashes(s) < s.len() {
            assert(tail[leading_slashes(tail) as int] == s[leading_slashes(s) as int]);
        }
    }
}

proof fn lemma_trailing_bounds(s: Seq<char>)
    ensures
        trailing_slashes(s) <= s.len(),
        forall|j: int| s.len() - trailing_slashes(s) <= j < s.len() ==> s[j] == '/',
        trailing_slashes(s) < s.len() ==> s[s.len() - trailing_slashes(s) - 1] != '/',
    decreases s.len(),
{
    if s.len() > 0 && s.last() == '/' {
        let head = s.drop_last();
        lemma_trailing_bounds(head);
        assert forall|j: int| s.len() - trailing_slashes(s) <= j < s.len() implies s[j] == '/' by {
            if j < head.len() {
                assert(head[j] == s[j]);
            }
        }
        if trailing_slashes(s) < s.len() {
            assert(head[head.len() - trailing_slashes(head) - 1] == s[s.len() - trailing_slashes(s)
                - 1]);
        }
    }
}

/// Drops the slashes a text starts with and those it ends with.
pub fn strip_slashes(text: &str) -> (bare: String)
    ensures
        bare@ == without_slashes(text@),
{
    let cs = chars_of(text);
    let n = cs.len();
    let mut start: usize = 0;
    while start < n && cs[start] == '/'
        invariant
            start <= n,
            n == cs@.len(),
            forall|j: int| 0 <= j < start ==> cs@[j] == '/',
        decreases n - start,
    {
        start += 1;
    }
    let mut end: usize = n;
    while end > start && cs[end - 1] == '/'
        invariant
            start <= end <= n,
            n == cs@.len(),
            forall|j: int| end <= j < n ==> cs@[j] == '/',
        decreases end,
    {
        end -= 1;
    }
    proof {
        lemma_leading_slashes(text@, start as int);
        let rest = text@.skip(start as int);
        assert forall|j: int| rest.len() - (n - end) <= j < rest.len() implies rest[j] == '/' by {
            assert(rest[j] == cs@[j + start]);
        }
        if end > start {
            assert(rest[rest.len() - (n - end) - 1] == cs@[end - 1]);
        }
        lemma_trailing_slashes(rest, n - end);
        assert(rest.take(rest.len() - (n - end)) =~= text@.subrange(start as int, end as int));
    }
    String::from_str(text.substring_char(start, end))
}

/// The pair that a user's entries stand for: the local root starts with
/// one slash and ends with none, the remote root starts and ends with
/// none.
pub open spec fn proposed(remote: Seq<char>, local_text: Seq<char>, remote_text: Seq<char>) -> DirKey {
    DirKey {
        remote,
        local_root: seq!['/'] + without_slashes(local_text),
        remote_root: without_slashes(remote_text),
    }
}

/// Builds the pair that a user's entries stand for.
pub fn propose(remote: &str, local_text: &str, remote_text: &str) -> (dir: SyncDir)
    ensures
        dir@ == proposed(remote@, local_text@, remote_text@),
{
    let mut local = String::from_str("/");
    proof {
        reveal_strlit("/");
    }
    let bare = strip_slashes(local_text);
    local.append(bare.as_str());
    assert(local@ =~= seq!['/'] + without_slashes(local_text@));
    SyncDir {
        remote: String::from_str(remote),
        local_path: local,
        remote_path: strip_slashes(remote_text),
    }
}

/// What asking the remote for the proposed root gave.
#[derive(Debug, PartialEq, Eq)]
pub enum RemoteProbe {
    Found,
    Missing,
    /// The remote could not be asked: the message it gave.
    Failed(String),
}

/// What the local file system shows at the proposed root.
#[derive(Clone, Copy, Debug, PartialEq, Eq, Structural)]
pub enum LocalProbe {
    Directory,
    File,
    Missing,
}

/// Why a pair cannot be added.
#[derive(Debug, PartialEq, Eq)]
pub enum PairError {
    /// The remote could not be asked: the message it gave.
    RemoteUnreachable(String),
    /// The remote directory does not exist.
    RemoteMissing,
    /// The pair is already being synced.
    AlreadySynced,
    /// The local directory does not exist.
    LocalMissing,
    /// The local path is not a directory.
    LocalNotDirectory,
}

/// A `RemoteProbe` by its characters.
pub enum RemoteProbeView {
    Found,
    Missing,
    Failed(Seq<char>),
}

/// A `PairError` by its characters.
pub enum PairErrorView {
    RemoteUnreachable(Seq<char>),
    RemoteMissing,
    AlreadySynced,
    LocalMissing,
    LocalNotDirectory,
}

impl View for RemoteProbe {
    type V = RemoteProbeView;

    open spec fn view(&self) -> RemoteProbeView {
        match self {
            RemoteProbe::Found => RemoteProbeView::Found,
            RemoteProbe::Missing => RemoteProbeView::Missing,
            RemoteProbe::Failed(message) => RemoteProbeView::Failed(message@),
        }
    }
}

impl View for PairError {
    type V = PairErrorView;

    open spec fn view(&self) -> PairErrorView {
        match self {
            PairError::RemoteUnreachable(message) => PairErrorView::RemoteUnreachable(message@),
            PairError::RemoteMissing => PairErrorView::RemoteMissing,
            PairError::AlreadySynced => PairErrorView::AlreadySynced,
            PairError::LocalMissing => PairErrorView::LocalMissing,
            PairError::LocalNotDirectory => PairErrorView::LocalNotDirectory,
        }
    }
}

/// The first thing that stands against adding a pair, if anything does:
/// the remote side is looked at first, then whether the pair is known,
/// then the local side.
pub open spec fn objection(
    known: bool,
    remote: RemoteProbeView,
    local: LocalProbe,
) -> Option<PairErrorView> {
    match remote {
        RemoteProbeView::Failed(message) => Some(PairErrorView::RemoteUnreachable(message)),
        RemoteProbeView::Missing => Some(PairErrorView::RemoteMissing),
        RemoteProbeView::Found => if known {
            Some(PairErrorView::AlreadySynced)
        } else {
            match local {
                LocalProbe::Missing => Some(PairErrorView::LocalMissing),
                LocalProbe::File => Some(PairErrorView::LocalNotDirectory),
                LocalProbe::Directory => None,
            }
        },
    }
}

/// Checks whether a proposed pair can be added, given what both sides
/// show at its roots.
pub fn check_pair(catalog: &Catalog, dir: &SyncDir, remote: &RemoteProbe, local: LocalProbe) -> (checked:
    Result<(), PairError>)
    ensures
        checked is Ok == objection(catalog@.dirs.contains(dir@), remote@, local) is None,
        checked is Err ==> Some(checked->Err_0@) == objection(
            catalog@.dirs.contains(dir@),
            remote@,
            local,
        ),
{
    match remote {
        RemoteProbe::Failed(message) => Err(PairError::RemoteUnreachable(message.clone())),
        RemoteProbe::Missing => Err(PairError::RemoteMissing),
        RemoteProbe::Found => {
            if catalog.has_dir(dir) {
                Err(PairError::AlreadySynced)
            } else {
                match local {
                    LocalProbe::Missing => Err(PairError::LocalMissing),
                    LocalProbe::File => Err(PairError::LocalNotDirectory),
                    LocalProbe::Directory => Ok(()),
                }
            }
        },
    }
}

} // verus!
