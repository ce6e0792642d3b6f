//! Removals that were asked for while a pass may be running. They wait here,
//! in the order they came, until the pass reaches a point where nothing
//! refers to what they remove.

use vstd::prelude::*;
use vstd::string::*;
use crate::catalog::{DirKey, SyncDir};
use crate::text::texts;

verus! {

/// The pairs of a list, as their identities.
pub open spec fn dir_keys(dirs: Seq<SyncDir>) -> Seq<DirKey> {
    Seq::new(dirs.len(), |i: int| dirs[i]@)
}

/// What a queue holds: the names of the remotes and the pairs to remove,
/// oldest first.
pub struct QueueView {
    pub remotes: Seq<Seq<char>>,
    pub dirs: Seq<DirKey>,
}

/// The two queues of pending removals.
pub struct DeletionQueue {
    remotes: Vec<String>,
    dirs: Vec<SyncDir>,
}

/// What one drain took out of the queue.
#[derive(Debug)]
pub struct Drained {
    /// The pairs to remove, oldest first.
    pub dirs: Vec<SyncDir>,
    /// The names of the remotes to remove, oldest first.
    pub remotes: Vec<String>,
}

impl View for DeletionQueue {
    type V = QueueView;

    closed spec fn view(&self) -> QueueView {
        QueueView { remotes: texts(self.remotes@), dirs: dir_keys(self.dirs@) }
    }
}

impl DeletionQueue {
    /// A queue with nothing pending.
    pub fn new() -> (queue: Self)
        ensures
            queue@.remotes == Seq::<Seq<char>>::empty(),
            queue@.dirs == Seq::<DirKey>::empty(),
    {
        let queue = DeletionQueue { remotes: Vec::new(), dirs: Vec::new() };
        assert(queue@.remotes =~= Seq::<Seq<char>>::empty());
        assert(queue@.dirs =~= Seq::<DirKey>::empty());
        queue
    }

    /// Asks for a remote to be removed.
    pub fn enqueue_remote(&mut self, name: &str)
        ensures
            final(self)@.remotes == old(self)@.remotes.push(name@),
            final(self)@.dirs == old(self)@.dirs,
    {
        self.remotes.push(String::from_str(name));
        assert(final(self)@.remotes =~= old(self)@.remotes.push(name@));
    }

    /// Asks for a pair to be removed.
    pub fn enqueue_syncdir(&mut self, remote: &str, local_path: &str, remote_path: &str)
        ensures
            final(self)@.remotes == old(self)@.remotes,
            final(self)@.dirs == old(self)@.dirs.push(
                DirKey { remote: remote@, local_root: local_path@, remote_root: remote_path@ },
            ),
    {
        self.dirs.push(SyncDir::new(remote, local_path, remote_path));
        assert(final(self)@.dirs =~= old(self)@.dirs.push(
            DirKey { remote: remote@, local_root: local_path@, remote_root: remote_path@ },
        ));
    }

    /// Whether nothing is pending.
    pub fn is_empty(&self) -> (empty: bool)
        ensures
            empty == (self@.remotes.len() == 0 && self@.dirs.len() == 0),
    {
        self.remotes.len() == 0 && self.dirs.len() == 0
    }

    /// Takes out everything that is pending and leaves the queue empty. What
    /// is asked for afterwards waits for the next drain.
    pub fn drain(&mut self) -> (batch: Drained)
        ensures
            texts(batch.remotes@) == old(self)@.remotes,
            dir_keys(batch.dirs@) == old(self)@.dirs,
            final(self)@.remotes == Seq::<Seq<char>>::empty(),
            final(self)@.dirs == Seq::<DirKey>::empty(),
    {
        let mut remotes: Vec<String> = Vec::new();
        let mut dirs: Vec<SyncDir> = Vec::new();
        std::mem::swap(&mut remotes, &mut self.remotes);
        std::mem::swap(&mut dirs, &mut self.dirs);
        assert(final(self)@.remotes =~= Seq::<Seq<char>>::empty());
        assert(final(self)@.dirs =~= Seq::<DirKey>::empty());
        Drained { dirs, remotes }
    }
}

} // verus!
