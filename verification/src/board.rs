//! The status board: for every synchronized pair, how far its check has
//! come and which errors wait for someone to resolve them.
//!
//! A pair with unresolved errors is left out of the next passes until the
//! errors are resolved.

use vstd::prelude::*;
use vstd::string::*;
use indexmap::IndexMap;
use std::collections::hash_map::RandomState;
use crate::catalog::{DirKey, SyncDir};
use crate::sequences::{lemma_filter_all, lemma_filter_keeps_distinct, lemma_filter_twice};

verus! {

/// How far the check of a pair has come.
#[derive(Clone, Copy, Debug, PartialEq, Eq, Structural)]
pub enum Phase {
    /// Registered, not looked at yet.
    Awaiting,
    /// A pass is looking at the pair.
    Checking,
    /// The last pass over the pair ran to its end.
    Finished,
}

/// An error met while syncing, as it is shown to the user.
#[derive(Debug, PartialEq, Eq, Hash)]
pub enum SyncError {
    /// Anything that went wrong at a path: the path and the message.
    General(String, String),
    /// Both the local and the remote item changed since they last agreed:
    /// the local path and the remote path.
    BothMoreCurrent(String, String),
}

/// A `SyncError` by its characters.
pub enum ErrorView {
    General(Seq<char>, Seq<char>),
    BothMoreCurrent(Seq<char>, Seq<char>),
}

impl View for SyncError {
    type V = ErrorView;

    open spec fn view(&self) -> ErrorView {
        match self {
            SyncError::General(path, message) => ErrorView::General(path@, message@),
            SyncError::BothMoreCurrent(local, remote) => ErrorView::BothMoreCurrent(
                local@,
                remote@,
            ),
        }
    }
}

/// The line that names an error.
pub open spec fn headline_of(error: ErrorView) -> Seq<char> {
    match error {
        ErrorView::General(path, _) => path,
        ErrorView::BothMoreCurrent(local, remote) => "Both '"@ + local + "' and '"@ + remote
            + "' are more recent than at last sync."@,
    }
}

impl Clone for SyncError {
    fn clone(&self) -> (copy: Self)
        ensures
            copy@ == self@,
    {
        match self {
            SyncError::General(path, message) => SyncError::General(path.clone(), message.clone()),
            SyncError::BothMoreCurrent(local, remote) => SyncError::BothMoreCurrent(
                local.clone(),
                remote.clone(),
            ),
        }
    }
}

impl SyncError {
    /// Whether two errors are the same error.
    pub fn same_as(&self, other: &SyncError) -> (same: bool)
        ensures
            same == (self@ == other@),
    {
        match (self, other) {
            (SyncError::General(p1, m1), SyncError::General(p2, m2)) => *p1 == *p2 && *m1 == *m2,
            (SyncError::BothMoreCurrent(l1, r1), SyncError::BothMoreCurrent(l2, r2)) => *l1 == *l2
                && *r1 == *r2,
            _ => false,
        }
    }

    /// The line that names the error: the path of a general error, and for
    /// a conflict the sentence that names both items.
    pub fn headline(&self) -> (line: String)
        ensures
            line@ == headline_of(self@),
    {
        match self {
            SyncError::General(path, _) => path.clone(),
            SyncError::BothMoreCurrent(local, remote) => {
                let mut line = String::from_str("Both '");
                line.append(local.as_str());
                line.append("' and '");
                line.append(remote.as_str());
                line.append("' are more recent than at last sync.");
                line
            },
        }
    }

    /// The line below the headline: the message of a general error; a
    /// conflict has none.
    pub fn detail(&self) -> (line: Option<String>)
        ensures
            line is Some == (self@ is General),
            self@ matches ErrorView::General(_, message) ==> line->0@ == message,
    {
        match self {
            SyncError::General(_, message) => Some(message.clone()),
            SyncError::BothMoreCurrent(_, _) => None,
        }
    }

    /// Whether the error is a conflict that needs a choice between the two
    /// sides.
    pub fn is_conflict(&self) -> (conflict: bool)
        ensures
            conflict == (self@ is BothMoreCurrent),
    {
        match self {
            SyncError::BothMoreCurrent(_, _) => true,
            SyncError::General(_, _) => false,
        }
    }
}

/// Makes `indexmap::IndexMap` known as a type. Nothing is said here of
/// what a map holds; `phase_entries` names it.
#[verifier::external_type_specification]
#[verifier::external_body]
#[verifier::reject_recursive_types(K)]
#[verifier::reject_recursive_types(V)]
#[verifier::reject_recursive_types(S)]
pub struct ExIndexMap<K, V, S>(IndexMap<K, V, S>);

/// The key under which a pair is filed: remote name, local root, remote root.
pub type BoardKey = (String, String, String);

/// A `BoardKey` by its characters.
pub type KeyView = (Seq<char>, Seq<char>, Seq<char>);

/// The entries of an `indexmap::IndexMap`, in the map's own order: each
/// key by its characters, with the value stored for it. The map keeps its
/// entries in the order they were inserted, but for what `swap_remove`
/// moves.
pub uninterp spec fn phase_entries(map: IndexMap<BoardKey, Phase, RandomState>) -> Seq<
    (KeyView, Phase),
>;

/// Whether some entry has the key `key`.
pub open spec fn has_key(entries: Seq<(KeyView, Phase)>, key: KeyView) -> bool {
    exists|i: int| 0 <= i < entries.len() && (#[trigger] entries[i]).0 == key
}

/// The position of an entry with the key `key`.
pub open spec fn index_of(entries: Seq<(KeyView, Phase)>, key: KeyView) -> int {
    choose|i: int| 0 <= i < entries.len() && (#[trigger] entries[i]).0 == key
}

/// The phase filed under `key`, if there is one.
pub open spec fn phase_at(entries: Seq<(KeyView, Phase)>, key: KeyView) -> Option<Phase> {
    if has_key(entries, key) {
        Some(entries[index_of(entries, key)].1)
    } else {
        None
    }
}

/// Calls `IndexMap::new`, which makes a map without entries.
#[verifier::external_body]
fn phases_new() -> (map: IndexMap<BoardKey, Phase, RandomState>)
    ensures
        phase_entries(map) == Seq::<(KeyView, Phase)>::empty(),
{
    IndexMap::new()
}

/// Calls `IndexMap::get`, which hands out the value stored for the key, or
/// nothing when the key is not in the map.
#[verifier::external_body]
fn phases_get(map: &IndexMap<BoardKey, Phase, RandomState>, key: &BoardKey) -> (found: Option<
    Phase,
>)
    ensures
        found == phase_at(phase_entries(*map), key@),
{
    map.get(key).copied()
}

/// Calls `IndexMap::insert`. Where the key is in the map, its entry keeps
/// its place and gets the new value, and the old value is returned. Where it
/// is not, the pair becomes the last entry and nothing is returned.
#[verifier::external_body]
fn phases_insert(map: &mut IndexMap<BoardKey, Phase, RandomState>, key: BoardKey, phase: Phase) -> (previous:
    Option<Phase>)
    ensures
        previous == phase_at(phase_entries(*old(map)), key@),
        phase_entries(*final(map)) == (if has_key(phase_entries(*old(map)), key@) {
            phase_entries(*old(map)).update(
                index_of(phase_entries(*old(map)), key@),
                (key@, phase),
            )
        } else {
            phase_entries(*old(map)).push((key@, phase))
        }),
{
    map.insert(key, phase)
}

/// Calls `IndexMap::swap_remove`. Where the key is in the map, its entry is
/// replaced by the last entry, the map gets shorter by one, and the removed
/// value is returned. Where it is not, nothing changes.
#[verifier::external_body]
fn phases_swap_remove(map: &mut IndexMap<BoardKey, Phase, RandomState>, key: &BoardKey) -> (removed:
    Option<Phase>)
    ensures
        removed == phase_at(phase_entries(*old(map)), key@),
        phase_entries(*final(map)) == (if has_key(phase_entries(*old(map)), key@) {
            phase_entries(*old(map)).update(
                index_of(phase_entries(*old(map)), key@),
                phase_entries(*old(map)).last(),
            ).drop_last()
        } else {
            phase_entries(*old(map))
        }),
{
    map.swap_remove(key)
}

/// The key of a pair, as it is filed.
pub open spec fn filed_as(dir: DirKey) -> KeyView {
    (dir.remote, dir.local_root, dir.remote_root)
}

spec fn distinct_keys(entries: Seq<(KeyView, Phase)>) -> bool {
    forall|i: int, j: int|
        0 <= i < j < entries.len() ==> (#[trigger] entries[i]).0 != (#[trigger] entries[j]).0
}

spec fn phase_map(entries: Seq<(KeyView, Phase)>) -> Map<DirKey, Phase> {
    Map::new(
        |d: DirKey| has_key(entries, filed_as(d)),
        |d: DirKey| entries[index_of(entries, filed_as(d))].1,
    )
}

proof fn lemma_index_of(entries: Seq<(KeyView, Phase)>, i: int)
    requires
        distinct_keys(entries),
        0 <= i < entries.len(),
    ensures
        has_key(entries, entries[i].0),
        index_of(entries, entries[i].0) == i,
{
    let k = entries[i].0;
    assert(has_key(entries, k));
    let s = index_of(entries, k);
    assert(0 <= s < entries.len() && entries[s].0 == k);
    if s < i {
        assert(entries[s].0 != entries[i].0);
    } else if i < s {
        assert(entries[i].0 != entries[s].0);
    }
}

proof fn lemma_entries_push(entries: Seq<(KeyView, Phase)>, dir: DirKey, phase: Phase)
    requires
        distinct_keys(entries),
        !has_key(entries, filed_as(dir)),
    ensures
        distinct_keys(entries.push((filed_as(dir), phase))),
        phase_map(entries.push((filed_as(dir), phase))) == phase_map(entries).insert(dir, phase),
{
    let grown = entries.push((filed_as(dir), phase));
    assert forall|i: int, j: int| 0 <= i < j < grown.len() implies (#[trigger] grown[i]).0 != (
    #[trigger] grown[j]).0 by {
        if j < entries.len() {
            assert(entries[i].0 != entries[j].0);
        } else {
            assert(entries[i].0 != filed_as(dir));
        }
    }
    let target = phase_map(entries).insert(dir, phase);
    assert forall|d: DirKey| phase_map(grown).contains_key(d) <==> target.contains_key(d) by {
        let k = filed_as(d);
        if has_key(grown, k) {
            let i = choose|i: int| 0 <= i < grown.len() && (#[trigger] grown[i]).0 == k;
            if i < entries.len() {
                assert(entries[i].0 == k);
            }
        }
        if has_key(entries, k) {
            let i = choose|i: int| 0 <= i < entries.len() && (#[trigger] entries[i]).0 == k;
            assert(grown[i].0 == k);
        }
        if d == dir {
            assert(grown[entries.len() as int].0 == k);
        }
    }
    assert forall|d: DirKey| phase_map(grown).contains_key(d) implies phase_map(grown)[d]
        == target[d] by {
        let i = index_of(grown, filed_as(d));
        lemma_index_of(grown, i);
        if i < entries.len() {
            lemma_index_of(entries, i);
        }
    }
    assert(phase_map(grown) =~= target);
}

proof fn lemma_entries_update(entries: Seq<(KeyView, Phase)>, dir: DirKey, phase: Phase)
    requires
        distinct_keys(entries),
        has_key(entries, filed_as(dir)),
    ensures
        distinct_keys(entries.update(index_of(entries, filed_as(dir)), (filed_as(dir), phase))),
        phase_map(entries.update(index_of(entries, filed_as(dir)), (filed_as(dir), phase)))
            == phase_map(entries).insert(dir, phase),
{
    let at = index_of(entries, filed_as(dir));
    let changed = entries.update(at, (filed_as(dir), phase));
    assert forall|i: int, j: int| 0 <= i < j < changed.len() implies (#[trigger] changed[i]).0 != (
    #[trigger] changed[j]).0 by {
        assert(entries[i].0 != entries[j].0);
    }
    let target = phase_map(entries).insert(dir, phase);
    assert forall|d: DirKey| phase_map(changed).contains_key(d) <==> target.contains_key(d) by {
        let k = filed_as(d);
        if has_key(changed, k) {
            let i = choose|i: int| 0 <= i < changed.len() && (#[trigger] changed[i]).0 == k;
            assert(entries[i].0 == k);
        }
        if has_key(entries, k) {
            let i = choose|i: int| 0 <= i < entries.len() && (#[trigger] entries[i]).0 == k;
            assert(changed[i].0 == k);
        }
    }
    assert forall|d: DirKey| phase_map(changed).contains_key(d) implies phase_map(changed)[d]
        == target[d] by {
        let i = index_of(changed, filed_as(d));
        lemma_index_of(changed, i);
        lemma_index_of(entries, i);
        lemma_index_of(entries, at);
    }
    assert(phase_map(changed) =~= target);
}

proof fn lemma_entries_swap_remove(entries: Seq<(KeyView, Phase)>, dir: DirKey)
    requires
        distinct_keys(entries),
        has_key(entries, filed_as(dir)),
    ensures
        distinct_keys(
            entries.update(index_of(entries, filed_as(dir)), entries.last()).drop_last(),
        ),
        phase_map(entries.update(index_of(entries, filed_as(dir)), entries.last()).drop_last())
            == phase_map(entries).remove(dir),
{
    let at = index_of(entries, filed_as(dir));
    let last = entries.len() - 1;
    let less = entries.update(at, entries.last()).drop_last();
    // Where each entry of the shorter list came from.
    let origin = |i: int| if i == at { last } else { i };
    assert forall|i: int, j: int| 0 <= i < j < less.len() implies (#[trigger] less[i]).0 != (
    #[trigger] less[j]).0 by {
        let a = origin(i);
        let b = origin(j);
        assert(less[i] == entries[a] && less[j] == entries[b]);
        if a < b {
            assert(entries[a].0 != entries[b].0);
        } else {
            assert(entries[b].0 != entries[a].0);
        }
    }
    let target = phase_map(entries).remove(dir);
    lemma_index_of(entries, at);
    assert forall|d: DirKey| phase_map(less).contains_key(d) <==> target.contains_key(d) by {
        let k = filed_as(d);
        if has_key(less, k) {
            let i = choose|i: int| 0 <= i < less.len() && (#[trigger] less[i]).0 == k;
            let a = origin(i);
            assert(entries[a].0 == k);
            if a < at {
                assert(entries[a].0 != entries[at].0);
            } else {
                assert(entries[at].0 != entries[a].0);
            }
        }
        if has_key(entries, k) && d != dir {
            let i = choose|i: int| 0 <= i < entries.len() && (#[trigger] entries[i]).0 == k;
            let a = if i == last { at } else { i };
            assert(less[a].0 == k);
        }
    }
    assert forall|d: DirKey| phase_map(less).contains_key(d) implies phase_map(less)[d]
        == target[d] by {
        let i = index_of(less, filed_as(d));
        lemma_index_of(less, i);
        let a = origin(i);
        assert(less[i] == entries[a]);
        lemma_index_of(entries, a);
    }
    assert(phase_map(less) =~= target);
}

/// The test that an entry belongs to another pair than `dir`.
pub open spec fn not_of(dir: DirKey) -> spec_fn((DirKey, ErrorView)) -> bool {
    |e: (DirKey, ErrorView)| e.0 != dir
}

/// The test that an entry belongs to the pair `dir`.
pub open spec fn of_dir(dir: DirKey) -> spec_fn((DirKey, ErrorView)) -> bool {
    |e: (DirKey, ErrorView)| e.0 == dir
}

/// The test that an entry belongs to none of the pairs in `gone`.
pub open spec fn of_none(gone: Set<DirKey>) -> spec_fn((DirKey, ErrorView)) -> bool {
    |e: (DirKey, ErrorView)| !gone.contains(e.0)
}

/// The test that an entry is another one than `error` of `dir`.
pub open spec fn other_than(dir: DirKey, error: ErrorView) -> spec_fn((DirKey, ErrorView)) -> bool {
    |e: (DirKey, ErrorView)| e != (dir, error)
}

/// The error of an entry.
pub open spec fn error_of() -> spec_fn((DirKey, ErrorView)) -> ErrorView {
    |e: (DirKey, ErrorView)| e.1
}

/// What a board holds: the phase of every registered pair, and the
/// unresolved errors with the pair each belongs to, oldest first.
pub struct BoardView {
    pub phases: Map<DirKey, Phase>,
    pub errors: Seq<(DirKey, ErrorView)>,
}

impl BoardView {
    /// No error is listed twice for a pair.
    pub open spec fn lists_each_once(self) -> bool {
        self.errors.no_duplicates()
    }

    /// A pair that is registered for the first time awaits its check.
    pub open spec fn registered(self, dir: DirKey) -> BoardView {
        if self.phases.contains_key(dir) {
            self
        } else {
            BoardView { phases: self.phases.insert(dir, Phase::Awaiting), ..self }
        }
    }

    /// Only a registered pair has a phase to change.
    pub open spec fn with_phase(self, dir: DirKey, phase: Phase) -> BoardView {
        if self.phases.contains_key(dir) {
            BoardView { phases: self.phases.insert(dir, phase), ..self }
        } else {
            self
        }
    }

    /// A pair leaves with its errors.
    pub open spec fn unregistered(self, dir: DirKey) -> BoardView {
        BoardView {
            phases: self.phases.remove(dir),
            errors: self.errors.filter(not_of(dir)),
        }
    }

    /// The pairs of `gone` leave with their errors.
    pub open spec fn without_dirs_in(self, gone: Set<DirKey>) -> BoardView {
        BoardView {
            phases: self.phases.remove_keys(gone),
            errors: self.errors.filter(of_none(gone)),
        }
    }

    /// Whether an error is listed for a pair.
    pub open spec fn lists(self, dir: DirKey, error: ErrorView) -> bool {
        self.errors.contains((dir, error))
    }

    /// An error is listed once, and only for a registered pair.
    pub open spec fn reported(self, dir: DirKey, error: ErrorView) -> BoardView {
        if self.phases.contains_key(dir) && !self.lists(dir, error) {
            BoardView { errors: self.errors.push((dir, error)), ..self }
        } else {
            self
        }
    }

    pub open spec fn dismissed(self, dir: DirKey, error: ErrorView) -> BoardView {
        BoardView {
            errors: self.errors.filter(other_than(dir, error)),
            ..self
        }
    }

    /// The errors of one pair, oldest first.
    pub open spec fn errors_of(self, dir: DirKey) -> Seq<ErrorView> {
        self.errors.filter(of_dir(dir)).map_values(error_of())
    }

    /// Whether a pair has unresolved errors.
    pub open spec fn has_errors(self, dir: DirKey) -> bool {
        exists|i: int| 0 <= i < self.errors.len() && (#[trigger] self.errors[i]).0 == dir
    }
}

/// Removing no pair changes nothing.
pub proof fn lemma_without_no_dirs(board: BoardView)
    ensures
        board.without_dirs_in(Set::<DirKey>::empty()) == board,
{
    let keep = of_none(Set::<DirKey>::empty());
    assert(board.errors.filter(keep) == board.errors) by {
        lemma_filter_all(board.errors, keep);
    }
    assert(board.phases.remove_keys(Set::<DirKey>::empty()) =~= board.phases);
}

/// Removing a set of pairs and then one more removes the larger set.
pub proof fn lemma_without_one_more(board: BoardView, gone: Set<DirKey>, dir: DirKey)
    ensures
        board.without_dirs_in(gone).unregistered(dir) == board.without_dirs_in(gone.insert(dir)),
{
    lemma_filter_twice(board.errors, of_none(gone), not_of(dir), of_none(gone.insert(dir)));
    assert(board.phases.remove_keys(gone).remove(dir) =~= board.phases.remove_keys(
        gone.insert(dir),
    ));
}

/// A list of errors by their characters.
pub open spec fn error_views(errors: Seq<SyncError>) -> Seq<ErrorView> {
    Seq::new(errors.len(), |i: int| errors[i]@)
}

/// An unresolved error and the pair it belongs to.
struct Report {
    dir: SyncDir,
    error: SyncError,
}

spec fn report_views(reports: Seq<Report>) -> Seq<(DirKey, ErrorView)> {
    Seq::new(reports.len(), |i: int| (reports[i].dir@, reports[i].error@))
}

/// The status board.
pub struct Board {
    phases: IndexMap<BoardKey, Phase, RandomState>,
    reports: Vec<Report>,
}

impl View for Board {
    type V = BoardView;

    closed spec fn view(&self) -> BoardView {
        BoardView {
            phases: phase_map(phase_entries(self.phases)),
            errors: report_views(self.reports@),
        }
    }
}

fn board_key(dir: &SyncDir) -> (key: BoardKey)
    ensures
        key@ == filed_as(dir@),
{
    (dir.remote.clone(), dir.local_path.clone(), dir.remote_path.clone())
}

impl Board {
    #[verifier::type_invariant]
    spec fn well_formed(&self) -> bool {
        &&& distinct_keys(phase_entries(self.phases))
        &&& report_views(self.reports@).no_duplicates()
    }

    /// A board without pairs.
    pub fn new() -> (board: Self)
        ensures
            board@.phases == Map::<DirKey, Phase>::empty(),
            board@.errors == Seq::<(DirKey, ErrorView)>::empty(),
    {
        let board = Board { phases: phases_new(), reports: Vec::new() };
        assert(board@.phases =~= Map::<DirKey, Phase>::empty());
        assert(board@.errors =~= Seq::<(DirKey, ErrorView)>::empty());
        board
    }

    /// The phase of a pair, if it is registered.
    pub fn phase_of(&self, dir: &SyncDir) -> (phase: Option<Phase>)
        ensures
            phase == self@.phases.get(dir@),
    {
        let key = board_key(dir);
        phases_get(&self.phases, &key)
    }

    /// Registers a pair. Returns whether it was new.
    pub fn register(&mut self, dir: &SyncDir) -> (added: bool)
        ensures
            final(self)@ == old(self)@.registered(dir@),
            added == !old(self)@.phases.contains_key(dir@),
    {
        proof {
            use_type_invariant(&*self);
        }
        let key = board_key(dir);
        let mut phases = phases_new();
        std::mem::swap(&mut phases, &mut self.phases);
        let ghost before = phase_entries(phases);
        let added = phases_get(&phases, &key).is_none();
        if added {
            proof {
                lemma_entries_push(before, dir@, Phase::Awaiting);
            }
            phases_insert(&mut phases, key, Phase::Awaiting);
        }
        self.phases = phases;
        added
    }

    /// Sets the phase of a registered pair. Returns whether the pair is
    /// registered.
    pub fn set_phase(&mut self, dir: &SyncDir, phase: Phase) -> (known: bool)
        ensures
            final(self)@ == old(self)@.with_phase(dir@, phase),
            known == old(self)@.phases.contains_key(dir@),
    {
        proof {
            use_type_invariant(&*self);
        }
        let key = board_key(dir);
        let mut phases = phases_new();
        std::mem::swap(&mut phases, &mut self.phases);
        let ghost before = phase_entries(phases);
        let known = phases_get(&phases, &key).is_some();
        if known {
            proof {
                lemma_entries_update(before, dir@, phase);
            }
            phases_insert(&mut phases, key, phase);
        }
        self.phases = phases;
        known
    }

    /// Removes a pair and its errors. Returns whether the pair was
    /// registered.
    pub fn unregister(&mut self, dir: &SyncDir) -> (known: bool)
        ensures
            final(self)@ == old(self)@.unregistered(dir@),
            known == old(self)@.phases.contains_key(dir@),
    {
        proof {
            use_type_invariant(&*self);
        }
        let key = board_key(dir);
        let mut phases = phases_new();
        std::mem::swap(&mut phases, &mut self.phases);
        let ghost before = phase_entries(phases);
        proof {
            if has_key(before, filed_as(dir@)) {
                lemma_entries_swap_remove(before, dir@);
            } else {
                assert(phase_map(before).remove(dir@) =~= phase_map(before));
            }
        }
        let known = phases_swap_remove(&mut phases, &key).is_some();
        self.phases = phases;
        let ghost all = report_views(self.reports@);
        let ghost keep = not_of(dir@);
        let mut kept: Vec<Report> = Vec::new();
        let mut i: usize = 0;
        proof {
            reveal(Seq::filter);
            assert(all.take(0) =~= Seq::<(DirKey, ErrorView)>::empty());
            assert(report_views(kept@) =~= Seq::<(DirKey, ErrorView)>::empty());
        }
        while i < self.reports.len()
            invariant
                i <= self.reports@.len(),
                all == report_views(self.reports@),
                keep == not_of(dir@),
                report_views(kept@) == all.take(i as int).filter(keep),
            decreases self.reports.len() - i,
        {
            let ghost so_far = report_views(kept@);
            proof {
                reveal(Seq::filter);
                assert(all.take(i + 1).drop_last() =~= all.take(i as int));
                assert(all.take(i + 1).last() == all[i as int]);
            }
            if !self.reports[i].dir.same_as(dir) {
                let copy = Report {
                    dir: self.reports[i].dir.clone(),
                    error: self.reports[i].error.clone(),
                };
                kept.push(copy);
                assert(report_views(kept@) =~= so_far.push(all[i as int]));
            }
            i += 1;
        }
        assert(all.take(i as int) =~= all);
        proof {
            lemma_filter_keeps_distinct(all, keep);
        }
        self.reports = kept;
        known
    }

    fn position_of(&self, dir: &SyncDir, error: &SyncError) -> (at: Option<usize>)
        ensures
            at is Some == self@.lists(dir@, error@),
            at is Some ==> at->0 < self@.errors.len() && self@.errors[at->0 as int] == (
                dir@,
                error@,
            ),
    {
        let mut i: usize = 0;
        while i < self.reports.len()
            invariant
                i <= self.reports@.len(),
                forall|j: int| 0 <= j < i ==> (#[trigger] self@.errors[j]) != (dir@, error@),
            decreases self.reports.len() - i,
        {
            assert(self@.errors[i as int] == (self.reports@[i as int].dir@, self.reports@[i as int].error@));
            if self.reports[i].dir.same_as(dir) && self.reports[i].error.same_as(error) {
                return Some(i);
            }
            i += 1;
        }
        None
    }

    /// Whether an error is listed for a pair.
    pub fn has_listed(&self, dir: &SyncDir, error: &SyncError) -> (listed: bool)
        ensures
            listed == self@.lists(dir@, error@),
    {
        self.position_of(dir, error).is_some()
    }

    /// Lists an error for a pair. Returns whether it was listed: the pair
    /// is registered and the error was not listed for it yet.
    pub fn report(&mut self, dir: &SyncDir, error: SyncError) -> (added: bool)
        ensures
            final(self)@ == old(self)@.reported(dir@, error@),
            added == (old(self)@.phases.contains_key(dir@) && !old(self)@.lists(dir@, error@)),
    {
        proof {
            use_type_invariant(&*self);
        }
        let known = self.phase_of(dir).is_some();
        let added = known && self.position_of(dir, &error).is_none();
        if added {
            let mut reports: Vec<Report> = Vec::new();
            std::mem::swap(&mut reports, &mut self.reports);
            let ghost before = report_views(reports@);
            reports.push(Report { dir: dir.clone(), error });
            assert(report_views(reports@) =~= before.push((dir@, error@)));
            assert(report_views(reports@).no_duplicates()) by {
                let after = report_views(reports@);
                assert forall|i: int, j: int| 0 <= i < after.len() && 0 <= j < after.len() && i
                    != j implies after[i] != after[j] by {
                    if i < before.len() && j < before.len() {
                        assert(before[i] != before[j]);
                    } else {
                        let other = if i < before.len() { i } else { j };
                        assert(before.contains(before[other]));
                    }
                }
            }
            self.reports = reports;
        }
        added
    }

    /// Takes an error off a pair's list. Returns whether it was listed.
    pub fn dismiss(&mut self, dir: &SyncDir, error: &SyncError) -> (found: bool)
        ensures
            final(self)@ == old(self)@.dismissed(dir@, error@),
            found == old(self)@.lists(dir@, error@),
    {
        proof {
            use_type_invariant(&*self);
        }
        let found = self.position_of(dir, error).is_some();
        let ghost all = report_views(self.reports@);
        let ghost keep = other_than(dir@, error@);
        let mut kept: Vec<Report> = Vec::new();
        let mut i: usize = 0;
        proof {
            reveal(Seq::filter);
            assert(all.take(0) =~= Seq::<(DirKey, ErrorView)>::empty());
            assert(report_views(kept@) =~= Seq::<(DirKey, ErrorView)>::empty());
        }
        while i < self.reports.len()
            invariant
                i <= self.reports@.len(),
                all == report_views(self.reports@),
                keep == other_than(dir@, error@),
                report_views(kept@) == all.take(i as int).filter(keep),
            decreases self.reports.len() - i,
        {
            let ghost so_far = report_views(kept@);
            proof {
                reveal(Seq::filter);
                assert(all.take(i + 1).drop_last() =~= all.take(i as int));
                assert(all.take(i + 1).last() == all[i as int]);
            }
            if !(self.reports[i].dir.same_as(dir) && self.reports[i].error.same_as(error)) {
                let copy = Report {
                    dir: self.reports[i].dir.clone(),
                    error: self.reports[i].error.clone(),
                };
                kept.push(copy);
                assert(report_views(kept@) =~= so_far.push(all[i as int]));
            }
            i += 1;
        }
        assert(all.take(i as int) =~= all);
        proof {
            lemma_filter_keeps_distinct(all, keep);
        }
        self.reports = kept;
        found
    }

    /// Whether a pair has unresolved errors.
    pub fn has_errors(&self, dir: &SyncDir) -> (pending: bool)
        ensures
            pending == self@.has_errors(dir@),
    {
        let mut i: usize = 0;
        while i < self.reports.len()
            invariant
                i <= self.reports@.len(),
                forall|j: int| 0 <= j < i ==> (#[trigger] self@.errors[j]).0 != dir@,
            decreases self.reports.len() - i,
        {
            assert(self@.errors[i as int].0 == self.reports@[i as int].dir@);
            if self.reports[i].dir.same_as(dir) {
                return true;
            }
            i += 1;
        }
        false
    }

    /// The unresolved errors of a pair, oldest first.
    pub fn errors_of(&self, dir: &SyncDir) -> (errors: Vec<SyncError>)
        ensures
            error_views(errors@) == self@.errors_of(dir@),
    {
        let ghost all = report_views(self.reports@);
        let ghost keep = of_dir(dir@);
        let ghost second = error_of();
        let ghost seen = |e: SyncError| e@;
        let mut out: Vec<SyncError> = Vec::new();
        let mut i: usize = 0;
        proof {
            reveal(Seq::filter);
            assert(all.take(0) =~= Seq::<(DirKey, ErrorView)>::empty());
            assert(out@.map_values(seen) =~= all.take(0).filter(keep).map_values(second));
        }
        while i < self.reports.len()
            invariant
                i <= self.reports@.len(),
                all == report_views(self.reports@),
                keep == of_dir(dir@),
                second == error_of(),
                seen == |e: SyncError| e@,
                out@.map_values(seen) == all.take(i as int).filter(keep).map_values(second),
            decreases self.reports.len() - i,
        {
            let ghost so_far = out@.map_values(seen);
            let ghost picked = all.take(i as int).filter(keep);
            proof {
                reveal(Seq::filter);
                assert(all.take(i + 1).drop_last() =~= all.take(i as int));
                assert(all.take(i + 1).last() == all[i as int]);
            }
            if self.reports[i].dir.same_as(dir) {
                let copy = self.reports[i].error.clone();
                out.push(copy);
                proof {
                    assert(all.take(i + 1).filter(keep) == picked.push(all[i as int]));
                    assert(out@.map_values(seen) =~= so_far.push(all[i as int].1));
                    assert(picked.push(all[i as int]).map_values(second) =~= picked.map_values(
                        second,
                    ).push(all[i as int].1));
                }
            }
            i += 1;
        }
        assert(all.take(i as int) =~= all);
        assert(error_views(out@) =~= out@.map_values(seen));
        out
    }

    /// The number of unresolved errors over all pairs. No error is counted
    /// twice: a pair lists each of its errors once.
    pub fn pending_errors(&self) -> (count: usize)
        ensures
            count == self@.errors.len(),
            self@.lists_each_once(),
    {
        proof {
            use_type_invariant(self);
        }
        self.reports.len()
    }
}

/// The state the tray icon shows.
#[derive(Clone, Copy, Debug, PartialEq, Eq, Structural)]
pub enum TraySignal {
    Syncing,
    Warning,
    Done,
}

/// The icon beside a pair.
#[derive(Clone, Copy, Debug, PartialEq, Eq, Structural)]
pub enum DirIcon {
    Loading,
    Busy,
    Done,
    Warning,
}

/// Unresolved errors show as a warning, whatever else goes on; without
/// them the tray shows whether a pass is running.
pub open spec fn tray_signal_for(pending_errors: nat, pass_running: bool) -> TraySignal {
    if pending_errors > 0 {
        TraySignal::Warning
    } else if pass_running {
        TraySignal::Syncing
    } else {
        TraySignal::Done
    }
}

/// A pair that was checked shows whether errors are left.
pub open spec fn dir_icon_for(phase: Phase, has_errors: bool) -> DirIcon {
    match phase {
        Phase::Awaiting => DirIcon::Loading,
        Phase::Checking => DirIcon::Busy,
        Phase::Finished => if has_errors {
            DirIcon::Warning
        } else {
            DirIcon::Done
        },
    }
}

/// The state the tray icon is to show.
pub fn tray_signal(pending_errors: usize, pass_running: bool) -> (signal: TraySignal)
    ensures
        signal == tray_signal_for(pending_errors as nat, pass_running),
{
    if pending_errors > 0 {
        TraySignal::Warning
    } else if pass_running {
        TraySignal::Syncing
    } else {
        TraySignal::Done
    }
}

/// The icon to show beside a pair.
pub fn dir_icon(phase: Phase, has_errors: bool) -> (icon: DirIcon)
    ensures
        icon == dir_icon_for(phase, has_errors),
{
    match phase {
        Phase::Awaiting => DirIcon::Loading,
        Phase::Checking => DirIcon::Busy,
        Phase::Finished => if has_errors {
            DirIcon::Warning
        } else {
            DirIcon::Done
        },
    }
}

} // verus!
