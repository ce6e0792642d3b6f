//! The state of a running engine: the catalog, the status board and the
//! removals that wait for a checkpoint.
//!
//! Removals may be asked for at any time. Asking changes nothing but the
//! queue; the catalog and the board change at a checkpoint, which a pass
//! reaches between items.
//!
//! Every pair the catalog knows is on the board, so an error of a known
//! pair always finds its place.

use vstd::prelude::*;
use vstd::string::*;
use crate::board::{dir_icon, dir_icon_for, tray_signal, tray_signal_for, DirIcon};
use crate::board::{Board, BoardView, ErrorView, Phase, SyncError, TraySignal};
use crate::plan::ConflictStep;
use crate::board::{lemma_without_no_dirs, lemma_without_one_more};
use crate::catalog::{dirs_of_remote, holds_dir};
use crate::catalog::{Catalog, CatalogView, DirKey, ItemKey, SyncDir, SyncItem};
use crate::queue::{dir_keys, DeletionQueue, Drained, QueueView};
use crate::resolver::Baseline;
use crate::text::texts;

verus! {

/// What an engine holds.
pub struct EngineView {
    pub catalog: CatalogView,
    pub queue: QueueView,
    pub board: BoardView,
}

/// The queue with nothing pending.
pub open spec fn empty_queue() -> QueueView {
    QueueView { remotes: Seq::empty(), dirs: Seq::empty() }
}

impl EngineView {
    /// Every pair the catalog knows is on the board.
    pub open spec fn coherent(self) -> bool {
        forall|d: DirKey| #[trigger] self.catalog.dirs.contains(d) ==> self.board.phases.contains_key(d)
    }

    /// A pair is due for a pass when it is known and has no unresolved
    /// errors.
    pub open spec fn due(self, dir: DirKey) -> bool {
        self.catalog.dirs.contains(dir) && !self.board.has_errors(dir)
    }

    /// A stop wins; without a remote there is nothing to go over.
    pub open spec fn pass_entry(self, stop: bool) -> PassEntry {
        if stop {
            PassEntry::Quit
        } else if self.catalog.remotes =~= Set::<Seq<char>>::empty() {
            PassEntry::NeedLogin
        } else {
            PassEntry::Run
        }
    }

    /// A stop wins, then a pair that is gone; otherwise the pair shows
    /// whether errors are left.
    pub open spec fn dir_end(self, dir: DirKey, stop: bool) -> DirEnd {
        if stop {
            DirEnd::Stopped
        } else if !self.catalog.dirs.contains(dir) {
            DirEnd::Gone
        } else {
            DirEnd::Finished(dir_icon_for(Phase::Finished, self.board.has_errors(dir)))
        }
    }

    /// A pair that the catalog takes is put on the board.
    pub open spec fn with_dir(self, dir: DirKey) -> EngineView {
        if self.catalog.remotes.contains(dir.remote) && !self.catalog.dirs.contains(dir) {
            EngineView {
                catalog: self.catalog.with_dir(dir),
                board: self.board.registered(dir),
                ..self
            }
        } else {
            self
        }
    }

    /// A pair leaves the catalog with its baselines and the board with its
    /// errors.
    pub open spec fn after_dir_removal(self, dir: DirKey) -> EngineView {
        EngineView {
            catalog: self.catalog.without_dir(dir),
            board: self.board.unregistered(dir),
            ..self
        }
    }

    /// A remote leaves the catalog with its pairs and their baselines, and
    /// its pairs leave the board.
    pub open spec fn after_remote_removal(self, name: Seq<char>) -> EngineView {
        EngineView {
            catalog: self.catalog.without_remote(name),
            board: self.board.without_dirs_in(dirs_of_remote(self.catalog.dirs, name)),
            ..self
        }
    }

    /// The pairs of `dirs` are removed one after the other, first to last.
    pub open spec fn after_dir_removals(self, dirs: Seq<DirKey>) -> EngineView
        decreases dirs.len(),
    {
        if dirs.len() == 0 {
            self
        } else {
            self.after_dir_removals(dirs.drop_last()).after_dir_removal(dirs.last())
        }
    }

    /// The remotes of `names` are removed one after the other, first to
    /// last.
    pub open spec fn after_remote_removals(self, names: Seq<Seq<char>>) -> EngineView
        decreases names.len(),
    {
        if names.len() == 0 {
            self
        } else {
            self.after_remote_removals(names.drop_last()).after_remote_removal(names.last())
        }
    }

    /// What a decision on a listed error does. Dismissing takes the error
    /// off the board. Keeping one side of a conflict, once the transfer is
    /// done, records the fresh timestamps of the item and takes the error
    /// off. Anything else leaves the error where it is.
    pub open spec fn after_decision(
        self,
        dir: DirKey,
        error: ErrorView,
        step: ConflictStep,
        fresh: Option<Baseline>,
    ) -> EngineView {
        if !self.board.lists(dir, error) {
            self
        } else {
            match step {
                ConflictStep::Dismiss => EngineView {
                    board: self.board.dismissed(dir, error),
                    ..self
                },
                ConflictStep::Push | ConflictStep::Pull => match (error, fresh) {
                    (ErrorView::BothMoreCurrent(local, remote), Some(b)) => EngineView {
                        catalog: self.catalog.with_item(
                            ItemKey { dir, local_path: local, remote_path: remote },
                            b,
                        ),
                        board: self.board.dismissed(dir, error),
                        ..self
                    },
                    _ => self,
                },
                ConflictStep::Ask => self,
            }
        }
    }

    /// Whether a decision takes the error off the board.
    pub open spec fn decision_resolves(
        self,
        dir: DirKey,
        error: ErrorView,
        step: ConflictStep,
        fresh: Option<Baseline>,
    ) -> bool {
        self.board.lists(dir, error) && match step {
            ConflictStep::Dismiss => true,
            ConflictStep::Push | ConflictStep::Pull => error is BothMoreCurrent && fresh is Some,
            ConflictStep::Ask => false,
        }
    }

    /// At a checkpoint the queue is emptied and what it held is removed:
    /// the pairs first, then the remotes, each in the order it was asked
    /// for.
    pub open spec fn after_checkpoint(self) -> EngineView {
        (EngineView { queue: empty_queue(), ..self }).after_dir_removals(
            self.queue.dirs,
        ).after_remote_removals(self.queue.remotes)
    }
}

/// How a pass starts.
#[derive(Clone, Copy, Debug, PartialEq, Eq, Structural)]
pub enum PassEntry {
    /// A stop was asked for: leave.
    Quit,
    /// No remote is known: someone has to log in first.
    NeedLogin,
    /// Go over the remotes.
    Run,
}

/// How the walks over a pair ended.
#[derive(Clone, Copy, Debug, PartialEq, Eq, Structural)]
pub enum DirEnd {
    /// A stop was asked for: the pass is given up.
    Stopped,
    /// The pair was removed meanwhile: the pass starts over.
    Gone,
    /// The walks ran to their end: the icon to show beside the pair.
    Finished(DirIcon),
}

/// The pairs that a list names.
pub open spec fn listed(dirs: Seq<SyncDir>) -> Set<DirKey> {
    Set::new(|d: DirKey| holds_dir(dirs, d))
}

/// The running engine.
pub struct Engine {
    catalog: Catalog,
    queue: DeletionQueue,
    board: Board,
}

impl View for Engine {
    type V = EngineView;

    closed spec fn view(&self) -> EngineView {
        EngineView { catalog: self.catalog@, queue: self.queue@, board: self.board@ }
    }
}

/// Removing a pair leaves every known pair on the board.
pub proof fn lemma_dir_removal_keeps_coherent(engine: EngineView, dir: DirKey)
    requires
        engine.coherent(),
    ensures
        engine.after_dir_removal(dir).coherent(),
{
}

/// Removing a remote leaves every known pair on the board.
pub proof fn lemma_remote_removal_keeps_coherent(engine: EngineView, name: Seq<char>)
    requires
        engine.coherent(),
    ensures
        engine.after_remote_removal(name).coherent(),
{
}

/// Removes a remote from the catalog and its pairs from the board.
fn remove_remote_from(catalog: &mut Catalog, board: &mut Board, name: &str)
    ensures
        final(catalog)@ == old(catalog)@.without_remote(name@),
        final(board)@ == old(board)@.without_dirs_in(dirs_of_remote(old(catalog)@.dirs, name@)),
{
    let listing = catalog.dirs_of(name);
    catalog.remove_remote(name);
    let ghost start = board@;
    let mut j: usize = 0;
    proof {
        lemma_without_no_dirs(start);
        assert(listed(listing@.take(0)) =~= Set::<DirKey>::empty());
    }
    while j < listing.len()
        invariant
            j <= listing@.len(),
            board@ == start.without_dirs_in(listed(listing@.take(j as int))),
        decreases listing.len() - j,
    {
        board.unregister(&listing[j]);
        proof {
            let sooner = listing@.take(j as int);
            let later = listing@.take(j + 1);
            lemma_without_one_more(start, listed(sooner), listing@[j as int]@);
            assert(listed(later) =~= listed(sooner).insert(listing@[j as int]@)) by {
                assert forall|d: DirKey| listed(later).contains(d) <==> listed(sooner).insert(
                    listing@[j as int]@,
                ).contains(d) by {
                    if holds_dir(later, d) {
                        let a = choose|a: int| 0 <= a < later.len() && (#[trigger] later[a])@ == d;
                        if a < j {
                            assert(sooner[a]@ == d);
                        }
                    }
                    if holds_dir(sooner, d) {
                        let a = choose|a: int| 0 <= a < sooner.len() && (#[trigger] sooner[a])@ == d;
                        assert(later[a]@ == d);
                    }
                    if d == listing@[j as int]@ {
                        assert(later[j as int]@ == d);
                    }
                }
            }
        }
        j += 1;
    }
    proof {
        assert(listing@.take(j as int) =~= listing@);
        assert(listed(listing@) =~= dirs_of_remote(old(catalog)@.dirs, name@));
    }
}

impl Engine {
    #[verifier::type_invariant]
    spec fn known_pairs_are_on_the_board(&self) -> bool {
        forall|d: DirKey| #[trigger]
            self.catalog@.dirs.contains(d) ==> self.board@.phases.contains_key(d)
    }

    /// Takes the catalog and the board out and leaves empty ones behind.
    fn take_apart(&mut self) -> (parts: (Catalog, Board))
        ensures
            parts.0@ == old(self)@.catalog,
            parts.1@ == old(self)@.board,
            old(self)@.coherent(),
            final(self)@.queue == old(self)@.queue,
            final(self)@.catalog.dirs == Set::<DirKey>::empty(),
    {
        proof {
            use_type_invariant(&*self);
        }
        let mut catalog = Catalog::new();
        std::mem::swap(&mut catalog, &mut self.catalog);
        let mut board = Board::new();
        std::mem::swap(&mut board, &mut self.board);
        (catalog, board)
    }

    /// Puts a catalog and a board in the place of the empty ones.
    fn put_together(&mut self, catalog: Catalog, board: Board)
        requires
            old(self)@.catalog.dirs == Set::<DirKey>::empty(),
            (EngineView { catalog: catalog@, queue: old(self)@.queue, board: board@ }).coherent(),
        ensures
            final(self)@ == (EngineView {
                catalog: catalog@,
                queue: old(self)@.queue,
                board: board@,
            }),
    {
        proof {
            let whole = EngineView { catalog: catalog@, queue: old(self)@.queue, board: board@ };
            assert forall|d: DirKey| #[trigger] catalog@.dirs.contains(d) implies board@.phases.contains_key(
                d,
            ) by {
                assert(whole.catalog.dirs.contains(d));
            }
        }
        self.board = board;
        self.catalog = catalog;
    }

    /// An engine that knows no remote.
    pub fn new() -> (engine: Self)
        ensures
            engine@.catalog.remotes == Set::<Seq<char>>::empty(),
            engine@.catalog.dirs == Set::<DirKey>::empty(),
            engine@.catalog.items == Map::<ItemKey, Baseline>::empty(),
            engine@.queue == empty_queue(),
            engine@.board.phases == Map::<DirKey, Phase>::empty(),
            engine@.board.errors == Seq::<(DirKey, ErrorView)>::empty(),
    {
        Engine { catalog: Catalog::new(), queue: DeletionQueue::new(), board: Board::new() }
    }

    /// The catalog, for reading. Every pair it knows is on the board.
    pub fn catalog(&self) -> (catalog: &Catalog)
        ensures
            catalog@ == self@.catalog,
            self@.coherent(),
    {
        proof {
            use_type_invariant(self);
        }
        &self.catalog
    }

    /// The board, for reading. Every pair the catalog knows is on it.
    pub fn board(&self) -> (board: &Board)
        ensures
            board@ == self@.board,
            self@.coherent(),
    {
        proof {
            use_type_invariant(self);
        }
        &self.board
    }

    /// The queue, for reading.
    pub fn queue(&self) -> (queue: &DeletionQueue)
        ensures
            queue@ == self@.queue,
    {
        &self.queue
    }

    /// Registers a remote. Returns whether the name was new.
    pub fn add_remote(&mut self, name: &str) -> (added: bool)
        ensures
            final(self)@ == (EngineView {
                catalog: old(self)@.catalog.with_remote(name@),
                ..old(self)@
            }),
            added == !old(self)@.catalog.remotes.contains(name@),
            final(self)@.coherent(),
    {
        let (mut catalog, board) = self.take_apart();
        let added = catalog.add_remote(name);
        self.put_together(catalog, board);
        added
    }

    /// Registers a pair under its remote and puts it on the board. Returns
    /// whether it was taken: the remote is known and the pair was not.
    pub fn add_dir(&mut self, dir: SyncDir) -> (added: bool)
        ensures
            final(self)@ == old(self)@.with_dir(dir@),
            added == (old(self)@.catalog.remotes.contains(dir@.remote)
                && !old(self)@.catalog.dirs.contains(dir@)),
            final(self)@.coherent(),
    {
        let (mut catalog, mut board) = self.take_apart();
        let copy = dir.clone();
        let added = catalog.add_dir(dir);
        if added {
            board.register(&copy);
        } else {
            assert(old(self)@.catalog.dirs.contains(dir@) ==> old(self)@.catalog.dirs.insert(dir@)
                =~= old(self)@.catalog.dirs);
        }
        self.put_together(catalog, board);
        added
    }

    /// Asks for a remote to be removed at the next checkpoint.
    pub fn enqueue_remote(&mut self, name: &str)
        ensures
            final(self)@ == (EngineView {
                queue: QueueView {
                    remotes: old(self)@.queue.remotes.push(name@),
                    dirs: old(self)@.queue.dirs,
                },
                ..old(self)@
            }),
            final(self)@.coherent(),
    {
        proof {
            use_type_invariant(&*self);
        }
        let mut queue = DeletionQueue::new();
        std::mem::swap(&mut queue, &mut self.queue);
        queue.enqueue_remote(name);
        self.queue = queue;
    }

    /// Asks for a pair to be removed at the next checkpoint.
    pub fn enqueue_syncdir(&mut self, remote: &str, local_path: &str, remote_path: &str)
        ensures
            final(self)@ == (EngineView {
                queue: QueueView {
                    remotes: old(self)@.queue.remotes,
                    dirs: old(self)@.queue.dirs.push(
                        DirKey { remote: remote@, local_root: local_path@, remote_root: remote_path@ },
                    ),
                },
                ..old(self)@
            }),
            final(self)@.coherent(),
    {
        proof {
            use_type_invariant(&*self);
        }
        let mut queue = DeletionQueue::new();
        std::mem::swap(&mut queue, &mut self.queue);
        queue.enqueue_syncdir(remote, local_path, remote_path);
        self.queue = queue;
    }

    /// The checkpoint of a pass: takes everything out of the queue and
    /// removes it, the pairs first and then the remotes, each in the order
    /// it was asked for. Returns what was taken out.
    pub fn drain_and_process(&mut self) -> (batch: Drained)
        ensures
            final(self)@ == old(self)@.after_checkpoint(),
            dir_keys(batch.dirs@) == old(self)@.queue.dirs,
            texts(batch.remotes@) == old(self)@.queue.remotes,
            final(self)@.coherent(),
    {
        proof {
            use_type_invariant(&*self);
        }
        let mut queue = DeletionQueue::new();
        std::mem::swap(&mut queue, &mut self.queue);
        let batch = queue.drain();
        self.queue = queue;
        assert(self@.queue == empty_queue());
        let (mut catalog, mut board) = self.take_apart();
        let ghost start = EngineView { catalog: catalog@, queue: empty_queue(), board: board@ };
        let ghost dirs = dir_keys(batch.dirs@);
        let ghost names = texts(batch.remotes@);
        assert(start == (EngineView { queue: empty_queue(), ..old(self)@ }));
        let mut i: usize = 0;
        assert(dirs.take(0) =~= Seq::<DirKey>::empty());
        while i < batch.dirs.len()
            invariant
                i <= batch.dirs@.len(),
                dirs == dir_keys(batch.dirs@),
                start.queue == empty_queue(),
                (EngineView { catalog: catalog@, queue: empty_queue(), board: board@ })
                    == start.after_dir_removals(dirs.take(i as int)),
                (EngineView { catalog: catalog@, queue: empty_queue(), board: board@ }).coherent(),
            decreases batch.dirs.len() - i,
        {
            let ghost before = EngineView { catalog: catalog@, queue: empty_queue(), board: board@ };
            catalog.remove_dir(&batch.dirs[i]);
            board.unregister(&batch.dirs[i]);
            proof {
                assert(dirs.take(i + 1).drop_last() =~= dirs.take(i as int));
                assert(dirs.take(i + 1).last() == batch.dirs@[i as int]@);
                lemma_dir_removal_keeps_coherent(before, batch.dirs@[i as int]@);
                assert((EngineView { catalog: catalog@, queue: empty_queue(), board: board@ })
                    == before.after_dir_removal(batch.dirs@[i as int]@));
            }
            i += 1;
        }
        assert(dirs.take(i as int) =~= dirs);
        let ghost middle = EngineView { catalog: catalog@, queue: empty_queue(), board: board@ };
        let mut k: usize = 0;
        assert(names.take(0) =~= Seq::<Seq<char>>::empty());
        while k < batch.remotes.len()
            invariant
                k <= batch.remotes@.len(),
                names == texts(batch.remotes@),
                middle.queue == empty_queue(),
                (EngineView { catalog: catalog@, queue: empty_queue(), board: board@ })
                    == middle.after_remote_removals(names.take(k as int)),
                (EngineView { catalog: catalog@, queue: empty_queue(), board: board@ }).coherent(),
            decreases batch.remotes.len() - k,
        {
            let ghost before = EngineView { catalog: catalog@, queue: empty_queue(), board: board@ };
            remove_remote_from(&mut catalog, &mut board, batch.remotes[k].as_str());
            proof {
                assert(names.take(k + 1).drop_last() =~= names.take(k as int));
                assert(names.take(k + 1).last() == batch.remotes@[k as int]@);
                lemma_remote_removal_keeps_coherent(before, batch.remotes@[k as int]@);
                assert((EngineView { catalog: catalog@, queue: empty_queue(), board: board@ })
                    == before.after_remote_removal(batch.remotes@[k as int]@));
            }
            k += 1;
        }
        assert(names.take(k as int) =~= names);
        self.put_together(catalog, board);
        batch
    }

    /// Whether a pair is due for a pass: it is known and has no unresolved
    /// errors. A pair that is due is on the board.
    pub fn is_due(&self, dir: &SyncDir) -> (due: bool)
        ensures
            due == self@.due(dir@),
            self@.coherent(),
    {
        proof {
            use_type_invariant(self);
        }
        self.catalog.has_dir(dir) && !self.board.has_errors(dir)
    }

    /// Marks a pair as being checked, if it is due. Returns whether it is.
    pub fn begin_dir(&mut self, dir: &SyncDir) -> (due: bool)
        ensures
            due == old(self)@.due(dir@),
            final(self)@ == (if due {
                EngineView { board: old(self)@.board.with_phase(dir@, Phase::Checking), ..old(self)@ }
            } else {
                old(self)@
            }),
            final(self)@.coherent(),
    {
        let due = self.is_due(dir);
        let (catalog, mut board) = self.take_apart();
        if due {
            board.set_phase(dir, Phase::Checking);
        }
        self.put_together(catalog, board);
        due
    }

    /// Ends the walks over a pair, given whether a stop was asked for.
    /// Walks that ran to their end mark the pair as finished.
    pub fn finish_dir(&mut self, dir: &SyncDir, stop: bool) -> (end: DirEnd)
        ensures
            end == old(self)@.dir_end(dir@, stop),
            final(self)@ == (if end is Finished {
                EngineView { board: old(self)@.board.with_phase(dir@, Phase::Finished), ..old(self)@ }
            } else {
                old(self)@
            }),
            final(self)@.coherent(),
    {
        let (catalog, mut board) = self.take_apart();
        let end = if stop {
            DirEnd::Stopped
        } else if !catalog.has_dir(dir) {
            DirEnd::Gone
        } else {
            let pending = board.has_errors(dir);
            board.set_phase(dir, Phase::Finished);
            DirEnd::Finished(dir_icon(Phase::Finished, pending))
        };
        self.put_together(catalog, board);
        end
    }

    /// Says how a pass starts, given whether a stop was asked for.
    pub fn pass_entry(&self, stop: bool) -> (entry: PassEntry)
        ensures
            entry == self@.pass_entry(stop),
    {
        if stop {
            PassEntry::Quit
        } else if self.catalog.has_no_remote() {
            PassEntry::NeedLogin
        } else {
            PassEntry::Run
        }
    }

    /// Records the baseline of an item. Returns whether it was stored: the
    /// pair is known.
    pub fn record_baseline(
        &mut self,
        dir: &SyncDir,
        local_path: &str,
        remote_path: &str,
        baseline: Baseline,
    ) -> (stored: bool)
        ensures
            final(self)@ == (EngineView {
                catalog: old(self)@.catalog.with_item(
                    ItemKey { dir: dir@, local_path: local_path@, remote_path: remote_path@ },
                    baseline,
                ),
                ..old(self)@
            }),
            stored == old(self)@.catalog.dirs.contains(dir@),
            final(self)@.coherent(),
    {
        let (mut catalog, board) = self.take_apart();
        let item = SyncItem {
            dir: dir.clone(),
            local_path: String::from_str(local_path),
            remote_path: String::from_str(remote_path),
            last_local_timestamp: baseline.local,
            last_remote_timestamp: baseline.remote,
        };
        let stored = catalog.upsert(item);
        self.put_together(catalog, board);
        stored
    }

    /// Drops the baseline of an item. Returns whether there was one.
    pub fn forget_baseline(&mut self, dir: &SyncDir, local_path: &str, remote_path: &str) -> (found:
        bool)
        ensures
            final(self)@ == (EngineView {
                catalog: old(self)@.catalog.without_item(
                    ItemKey { dir: dir@, local_path: local_path@, remote_path: remote_path@ },
                ),
                ..old(self)@
            }),
            found == old(self)@.catalog.items.contains_key(
                ItemKey { dir: dir@, local_path: local_path@, remote_path: remote_path@ },
            ),
            final(self)@.coherent(),
    {
        let (mut catalog, board) = self.take_apart();
        let found = catalog.delete(dir, local_path, remote_path);
        self.put_together(catalog, board);
        found
    }

    /// Lists an error for a pair. Returns whether it was listed: the pair
    /// is on the board and the error was not listed for it yet.
    pub fn report(&mut self, dir: &SyncDir, error: SyncError) -> (added: bool)
        ensures
            final(self)@ == (EngineView {
                board: old(self)@.board.reported(dir@, error@),
                ..old(self)@
            }),
            added == (old(self)@.board.phases.contains_key(dir@) && !old(self)@.board.lists(
                dir@,
                error@,
            )),
            old(self)@.coherent(),
            final(self)@.coherent(),
    {
        let (catalog, mut board) = self.take_apart();
        let added = board.report(dir, error);
        self.put_together(catalog, board);
        added
    }

    /// Takes an error off a pair's list. Returns whether it was listed.
    pub fn dismiss(&mut self, dir: &SyncDir, error: &SyncError) -> (found: bool)
        ensures
            final(self)@ == (EngineView {
                board: old(self)@.board.dismissed(dir@, error@),
                ..old(self)@
            }),
            found == old(self)@.board.lists(dir@, error@),
            final(self)@.coherent(),
    {
        let (catalog, mut board) = self.take_apart();
        let found = board.dismiss(dir, error);
        self.put_together(catalog, board);
        found
    }

    /// Applies a decision on a listed error, outside of a pass. `fresh`
    /// holds the timestamps both sides show after the transfer that the
    /// decision asked for. Returns whether the error was taken off the
    /// board.
    pub fn conclude(
        &mut self,
        dir: &SyncDir,
        error: &SyncError,
        step: ConflictStep,
        fresh: Option<Baseline>,
    ) -> (resolved: bool)
        ensures
            final(self)@ == old(self)@.after_decision(dir@, error@, step, fresh),
            resolved == old(self)@.decision_resolves(dir@, error@, step, fresh),
            final(self)@.coherent(),
    {
        let (mut catalog, mut board) = self.take_apart();
        let resolved = if !board.has_listed(dir, error) {
            false
        } else {
            match step {
                ConflictStep::Dismiss => {
                    board.dismiss(dir, error);
                    true
                },
                ConflictStep::Push | ConflictStep::Pull => match (error, fresh) {
                    (SyncError::BothMoreCurrent(local, remote), Some(b)) => {
                        let item = SyncItem {
                            dir: dir.clone(),
                            local_path: local.clone(),
                            remote_path: remote.clone(),
                            last_local_timestamp: b.local,
                            last_remote_timestamp: b.remote,
                        };
                        catalog.upsert(item);
                        board.dismiss(dir, error);
                        true
                    },
                    _ => false,
                },
                ConflictStep::Ask => false,
            }
        };
        self.put_together(catalog, board);
        resolved
    }

    /// The state the tray icon is to show.
    pub fn tray_signal(&self, pass_running: bool) -> (signal: TraySignal)
        ensures
            signal == tray_signal_for(self@.board.errors.len(), pass_running),
    {
        tray_signal(self.board.pending_errors(), pass_running)
    }
}

} // verus!
