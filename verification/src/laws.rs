//! What holds of the engine as a whole, stated over the models that the
//! contracts of the other modules use.

use vstd::prelude::*;
use crate::board::{not_of, of_none, other_than, BoardView, ErrorView, Phase};
use crate::catalog::{CatalogView, DirKey, ItemKey};
use crate::engine::{empty_queue, EngineView};
use crate::engine::{lemma_dir_removal_keeps_coherent, lemma_remote_removal_keeps_coherent};
use crate::ignore::any_rule_matches;
use crate::item::{after_event, pending, valid, Action, EventView, RunView, StageView, Verdict};
use crate::paths::{joined_path, relative_path};
use crate::plan::{steps_of, Step};
use crate::queue::QueueView;
use crate::resolver::{both_directories, resolution, Baseline, LocalStat, RemoteStat, Resolution};
use crate::plan::ConflictStep;
use crate::sequences::lemma_filter_keeps_distinct;
use crate::walk::{candidate_for, item_key, AdmissionView, Origin, Settlement, WalkView};

verus! {

/// Both sides show exactly the timestamps of `baseline`.
pub open spec fn at_rest(
    local: Option<LocalStat>,
    remote: Option<RemoteStat>,
    baseline: Baseline,
) -> bool {
    &&& local is Some
    &&& remote is Some
    &&& local->0.modified == baseline.local
    &&& remote->0.modified == baseline.remote
}

/// The steps of an item that is left alone: a directory on both sides is
/// walked, and nothing else is done.
pub open spec fn steps_at_rest(local: Option<LocalStat>, remote: Option<RemoteStat>) -> Seq<Step> {
    if both_directories(local, remote) {
        seq![Step::Descend]
    } else {
        Seq::empty()
    }
}

/// An item whose two sides show the timestamps of its baseline is left
/// alone: the policy asks for nothing, no step changes either side, and
/// settling it changes neither the catalog nor the board. If it is a
/// directory, the one step is to walk what lies below it.
pub proof fn law_item_at_rest_is_left_alone(
    walk: WalkView,
    engine: EngineView,
    relative: Seq<char>,
    local: Option<LocalStat>,
    remote: Option<RemoteStat>,
    fresh: Option<Baseline>,
)
    requires
        engine.catalog.items.contains_key(item_key(walk.dir, relative)),
        at_rest(local, remote, engine.catalog.items[item_key(walk.dir, relative)]),
    ensures
        resolution(local, remote, engine.catalog.items.get(item_key(walk.dir, relative)))
            == Resolution::NoOp,
        steps_of(Resolution::NoOp, local, remote) == steps_at_rest(local, remote),
        forall|i: int|
            0 <= i < steps_of(Resolution::NoOp, local, remote).len() ==> !(#[trigger] steps_of(
                Resolution::NoOp,
                local,
                remote,
            )[i]).changes_a_side(),
        walk.settled(engine, relative, Resolution::NoOp, fresh) == engine,
{
}

/// A transfer that was settled leaves the item at rest. Once a push or a
/// pull is settled with the timestamps both sides show afterwards, a second
/// look at the same two sides asks for nothing, changes neither side and
/// records nothing.
pub proof fn law_second_look_is_idle(
    walk: WalkView,
    engine: EngineView,
    relative: Seq<char>,
    transfer: Resolution,
    fresh: Baseline,
    local: Option<LocalStat>,
    remote: Option<RemoteStat>,
)
    requires
        transfer == Resolution::Push || transfer == Resolution::Pull,
        walk.visited.contains(relative),
        engine.catalog.dirs.contains(walk.dir),
        at_rest(local, remote, fresh),
    ensures
        ({
            let after = walk.settled(engine, relative, transfer, Some(fresh));
            &&& after.catalog.items.get(item_key(walk.dir, relative)) == Some(fresh)
            &&& resolution(local, remote, after.catalog.items.get(item_key(walk.dir, relative)))
                == Resolution::NoOp
            &&& steps_of(Resolution::NoOp, local, remote) == steps_at_rest(local, remote)
            &&& walk.settled(after, relative, Resolution::NoOp, None) == after
        }),
{
}

/// An item that is gone from both sides and has no baseline asks for
/// nothing.
pub proof fn law_nothing_left_is_idle()
    ensures
        resolution(None, None, None) == Resolution::NoOp,
        steps_of(Resolution::NoOp, None, None) == Seq::<Step>::empty(),
{
}

/// A change on the local side alone is pushed: where the local timestamp
/// moved past the baseline and the remote one did not move, the policy asks
/// for a push, and once the push is settled the baseline holds the
/// timestamps both sides show afterwards.
pub proof fn law_local_change_is_pushed(
    walk: WalkView,
    engine: EngineView,
    relative: Seq<char>,
    local: LocalStat,
    remote: RemoteStat,
    fresh: Baseline,
)
    requires
        walk.visited.contains(relative),
        engine.catalog.dirs.contains(walk.dir),
        engine.catalog.items.contains_key(item_key(walk.dir, relative)),
        local.modified > engine.catalog.items[item_key(walk.dir, relative)].local,
        remote.modified == engine.catalog.items[item_key(walk.dir, relative)].remote,
    ensures
        resolution(
            Some(local),
            Some(remote),
            engine.catalog.items.get(item_key(walk.dir, relative)),
        ) == Resolution::Push,
        walk.settled(engine, relative, Resolution::Push, Some(fresh)).catalog.items.get(
            item_key(walk.dir, relative),
        ) == Some(fresh),
        walk.settled(engine, relative, Resolution::Push, Some(fresh)).board == engine.board,
{
}

/// A change on the remote side alone is pulled: where the remote timestamp
/// moved past the baseline and the local one did not move, the policy asks
/// for a pull, and once the pull is settled the baseline holds the
/// timestamps both sides show afterwards.
pub proof fn law_remote_change_is_pulled(
    walk: WalkView,
    engine: EngineView,
    relative: Seq<char>,
    local: LocalStat,
    remote: RemoteStat,
    fresh: Baseline,
)
    requires
        walk.visited.contains(relative),
        engine.catalog.dirs.contains(walk.dir),
        engine.catalog.items.contains_key(item_key(walk.dir, relative)),
        local.modified == engine.catalog.items[item_key(walk.dir, relative)].local,
        remote.modified > engine.catalog.items[item_key(walk.dir, relative)].remote,
    ensures
        resolution(
            Some(local),
            Some(remote),
            engine.catalog.items.get(item_key(walk.dir, relative)),
        ) == Resolution::Pull,
        walk.settled(engine, relative, Resolution::Pull, Some(fresh)).catalog.items.get(
            item_key(walk.dir, relative),
        ) == Some(fresh),
        walk.settled(engine, relative, Resolution::Pull, Some(fresh)).board == engine.board,
{
}

/// A file that changed on one side is copied once, from the side that
/// changed to the other, and nothing else is done to either side.
pub proof fn law_changed_file_is_copied_once(
    local: LocalStat,
    remote: RemoteStat,
    baseline: Baseline,
)
    requires
        !local.is_dir,
        !remote.is_dir,
    ensures
        local.modified > baseline.local && remote.modified == baseline.remote ==> steps_of(
            resolution(Some(local), Some(remote), Some(baseline)),
            Some(local),
            Some(remote),
        ) == seq![Step::CopyToRemote],
        local.modified == baseline.local && remote.modified > baseline.remote ==> steps_of(
            resolution(Some(local), Some(remote), Some(baseline)),
            Some(local),
            Some(remote),
        ) == seq![Step::CopyToLocal],
{
    let decision = resolution(Some(local), Some(remote), Some(baseline));
    if local.modified > baseline.local && remote.modified == baseline.remote {
        assert(steps_of(decision, Some(local), Some(remote)) =~= seq![Step::CopyToRemote]);
    }
    if local.modified == baseline.local && remote.modified > baseline.remote {
        assert(steps_of(decision, Some(local), Some(remote)) =~= seq![Step::CopyToLocal]);
    }
}

/// Where both sides moved past the baseline and they are not both
/// directories, the policy raises a conflict and nothing is transferred:
/// there is no step to take, the catalog stays as it is, and the board gets
/// the one error that names the item's two paths. The pair is known, so
/// it is on the board and the conflict finds its place.
pub proof fn law_changes_on_both_sides_conflict(
    walk: WalkView,
    engine: EngineView,
    relative: Seq<char>,
    local: LocalStat,
    remote: RemoteStat,
    fresh: Option<Baseline>,
)
    requires
        walk.visited.contains(relative),
        engine.coherent(),
        engine.catalog.dirs.contains(walk.dir),
        engine.catalog.items.contains_key(item_key(walk.dir, relative)),
        local.modified > engine.catalog.items[item_key(walk.dir, relative)].local,
        remote.modified > engine.catalog.items[item_key(walk.dir, relative)].remote,
        !(local.is_dir && remote.is_dir),
        !engine.board.lists(
            walk.dir,
            ErrorView::BothMoreCurrent(
                joined_path(walk.dir.local_root, relative),
                joined_path(walk.dir.remote_root, relative),
            ),
        ),
    ensures
        resolution(
            Some(local),
            Some(remote),
            engine.catalog.items.get(item_key(walk.dir, relative)),
        ) == Resolution::Conflict,
        steps_of(Resolution::Conflict, Some(local), Some(remote)) == Seq::<Step>::empty(),
        walk.settled(engine, relative, Resolution::Conflict, fresh).catalog == engine.catalog,
        walk.settled(engine, relative, Resolution::Conflict, fresh).board.errors
            == engine.board.errors.push(
            (
                walk.dir,
                ErrorView::BothMoreCurrent(
                    joined_path(walk.dir.local_root, relative),
                    joined_path(walk.dir.remote_root, relative),
                ),
            ),
        ),
        walk.settlement(engine, relative, Resolution::Conflict, fresh) == Settlement::Raised,
{
}

/// A conflict that is already listed is not listed twice.
pub proof fn law_conflict_is_listed_once(
    walk: WalkView,
    engine: EngineView,
    relative: Seq<char>,
    fresh: Option<Baseline>,
)
    requires
        engine.board.lists(
            walk.dir,
            ErrorView::BothMoreCurrent(
                joined_path(walk.dir.local_root, relative),
                joined_path(walk.dir.remote_root, relative),
            ),
        ),
    ensures
        walk.settled(engine, relative, Resolution::Conflict, fresh) == engine,
{
}

/// An item that is gone from the remote while its local copy still shows
/// the baseline's timestamp was deleted on the remote: the policy asks for
/// the local copy to be removed, and settling that drops the baseline and
/// lists no error.
pub proof fn law_remote_deletion_is_propagated(
    walk: WalkView,
    engine: EngineView,
    relative: Seq<char>,
    local: LocalStat,
    fresh: Option<Baseline>,
)
    requires
        walk.visited.contains(relative),
        engine.catalog.items.contains_key(item_key(walk.dir, relative)),
        local.modified == engine.catalog.items[item_key(walk.dir, relative)].local,
    ensures
        resolution(Some(local), None, engine.catalog.items.get(item_key(walk.dir, relative)))
            == Resolution::RemoveLocal,
        steps_of(Resolution::RemoveLocal, Some(local), None) == (if local.is_dir {
            seq![Step::RemoveLocalTree]
        } else {
            seq![Step::RemoveLocalFile]
        }),
        !walk.settled(engine, relative, Resolution::RemoveLocal, fresh).catalog.items.contains_key(
            item_key(walk.dir, relative),
        ),
        walk.settled(engine, relative, Resolution::RemoveLocal, fresh).board == engine.board,
        walk.settlement(engine, relative, Resolution::RemoveLocal, fresh) == Settlement::Dropped,
{
}

/// The same the other way round: an item that is gone from the local side
/// while its remote copy still shows the baseline's timestamp was deleted
/// locally. The remote copy is purged, whatever its kind.
pub proof fn law_local_deletion_is_propagated(
    walk: WalkView,
    engine: EngineView,
    relative: Seq<char>,
    remote: RemoteStat,
    fresh: Option<Baseline>,
)
    requires
        walk.visited.contains(relative),
        engine.catalog.items.contains_key(item_key(walk.dir, relative)),
        remote.modified == engine.catalog.items[item_key(walk.dir, relative)].remote,
    ensures
        resolution(None, Some(remote), engine.catalog.items.get(item_key(walk.dir, relative)))
            == Resolution::RemoveRemote,
        steps_of(Resolution::RemoveRemote, None, Some(remote)) == seq![Step::PurgeRemote],
        !walk.settled(engine, relative, Resolution::RemoveRemote, fresh).catalog.items.contains_key(
            item_key(walk.dir, relative),
        ),
        walk.settled(engine, relative, Resolution::RemoveRemote, fresh).board == engine.board,
        walk.settlement(engine, relative, Resolution::RemoveRemote, fresh) == Settlement::Dropped,
{
}

/// An item that is gone from both sides loses its baseline, and no error is
/// listed.
pub proof fn law_item_gone_on_both_sides_is_forgotten(
    walk: WalkView,
    engine: EngineView,
    relative: Seq<char>,
    fresh: Option<Baseline>,
)
    requires
        walk.visited.contains(relative),
        engine.catalog.items.contains_key(item_key(walk.dir, relative)),
    ensures
        resolution(None, None, engine.catalog.items.get(item_key(walk.dir, relative)))
            == Resolution::Forget,
        !walk.settled(engine, relative, Resolution::Forget, fresh).catalog.items.contains_key(
            item_key(walk.dir, relative),
        ),
        walk.settled(engine, relative, Resolution::Forget, fresh).board == engine.board,
{
}

/// Every entry that a walk has taken up passes the walk's rules.
pub open spec fn sound(walk: WalkView) -> bool {
    forall|i: int|
        0 <= i < walk.visited.len() ==> !any_rule_matches(walk.rules, #[trigger] walk.visited[i])
}

/// No baseline of the walk's pair belongs to a path that a rule of the walk
/// matches.
pub open spec fn clean(catalog: CatalogView, walk: WalkView) -> bool {
    forall|relative: Seq<char>| #[trigger]
        catalog.items.contains_key(item_key(walk.dir, relative)) ==> !any_rule_matches(
            walk.rules,
            relative,
        )
}

/// A path that a rule matches is never taken up, from neither tree, and a
/// walk that takes an entry up stays sound.
pub proof fn law_ignored_paths_are_not_taken_up(
    walk: WalkView,
    engine: EngineView,
    stop: bool,
    origin: Origin,
    path: Seq<char>,
)
    requires
        sound(walk),
    ensures
        relative_path(walk.root(origin), path) is Some && any_rule_matches(
            walk.rules,
            relative_path(walk.root(origin), path)->0,
        ) ==> !(walk.admission(engine, stop, origin, path) is Candidate),
        walk.admission(engine, stop, origin, path) matches AdmissionView::Candidate(c)
            ==> !any_rule_matches(walk.rules, c.relative),
        sound(walk.after(walk.admission(engine, stop, origin, path))),
{
    let said = walk.admission(engine, stop, origin, path);
    let next = walk.after(said);
    assert forall|i: int| 0 <= i < next.visited.len() implies !any_rule_matches(
        next.rules,
        #[trigger] next.visited[i],
    ) by {
        if i < walk.visited.len() {
            assert(next.visited[i] == walk.visited[i]);
        }
    }
}

/// The relative part of a path is found again in what it was joined to.
pub proof fn lemma_joined_path_is_injective(root: Seq<char>, a: Seq<char>, b: Seq<char>)
    requires
        joined_path(root, a) == joined_path(root, b),
    ensures
        a == b,
{
    if root.len() > 0 {
        let head = root.push('/');
        assert((head + a).skip(head.len() as int) =~= a);
        assert((head + b).skip(head.len() as int) =~= b);
    }
}

/// Settling an entry never records a baseline for a path that a rule of the
/// walk matches: a catalog that holds none keeps holding none, whatever is
/// settled.
pub proof fn law_ignored_paths_stay_out_of_the_catalog(
    walk: WalkView,
    engine: EngineView,
    relative: Seq<char>,
    resolution: Resolution,
    fresh: Option<Baseline>,
)
    requires
        sound(walk),
        clean(engine.catalog, walk),
    ensures
        clean(walk.settled(engine, relative, resolution, fresh).catalog, walk),
{
    let after = walk.settled(engine, relative, resolution, fresh).catalog;
    assert forall|other: Seq<char>| #[trigger]
        after.items.contains_key(item_key(walk.dir, other)) implies !any_rule_matches(
        walk.rules,
        other,
    ) by {
        if !engine.catalog.items.contains_key(item_key(walk.dir, other)) {
            assert(item_key(walk.dir, other) == item_key(walk.dir, relative));
            lemma_joined_path_is_injective(walk.dir.local_root, other, relative);
            let at = choose|i: int| 0 <= i < walk.visited.len() && walk.visited[i] == relative;
            assert(!any_rule_matches(walk.rules, walk.visited[at]));
        }
    }
}

/// Asking for a removal changes nothing that a walk in progress reads or
/// writes: the catalog and the board stay as they are, so the walk says and
/// decides what it would have without the request.
pub proof fn law_enqueued_removal_waits(
    engine: EngineView,
    asked: QueueView,
    walk: WalkView,
    stop: bool,
    origin: Origin,
    path: Seq<char>,
    relative: Seq<char>,
    resolution: Resolution,
    fresh: Option<Baseline>,
)
    ensures
        ({
            let later = EngineView { queue: asked, ..engine };
            &&& later.catalog == engine.catalog
            &&& later.board == engine.board
            &&& walk.admission(later, stop, origin, path) == walk.admission(
                engine,
                stop,
                origin,
                path,
            )
            &&& walk.settled(later, relative, resolution, fresh) == (EngineView {
                queue: asked,
                ..walk.settled(engine, relative, resolution, fresh)
            })
            &&& walk.settlement(later, relative, resolution, fresh) == walk.settlement(
                engine,
                relative,
                resolution,
                fresh,
            )
        }),
{
}

/// Removing pairs only ever takes away: every pair and every baseline that
/// is there afterwards was there before, and the remotes stay.
pub proof fn lemma_dir_removals_only_take(engine: EngineView, dirs: Seq<DirKey>)
    ensures
        engine.after_dir_removals(dirs).queue == engine.queue,
        engine.after_dir_removals(dirs).catalog.remotes == engine.catalog.remotes,
        forall|d: DirKey| #[trigger]
            engine.after_dir_removals(dirs).catalog.dirs.contains(d) ==> engine.catalog.dirs.contains(
                d,
            ) && !dirs.contains(d),
        forall|k: ItemKey| #[trigger]
            engine.after_dir_removals(dirs).catalog.items.contains_key(k)
                ==> engine.catalog.items.contains_key(k) && !dirs.contains(k.dir),
        forall|d: DirKey| #[trigger]
            engine.after_dir_removals(dirs).board.phases.contains_key(d)
                ==> engine.board.phases.contains_key(d) && !dirs.contains(d),
    decreases dirs.len(),
{
    if dirs.len() > 0 {
        let sooner = dirs.drop_last();
        lemma_dir_removals_only_take(engine, sooner);
        let mid = engine.after_dir_removals(sooner);
        let end = mid.after_dir_removal(dirs.last());
        assert(engine.after_dir_removals(dirs) == end);
        assert forall|d: DirKey| dirs.contains(d) implies sooner.contains(d) || d == dirs.last() by {
            let i = choose|i: int| 0 <= i < dirs.len() && dirs[i] == d;
            if i < sooner.len() {
                assert(sooner[i] == d);
            }
        }
    }
}

/// Removing remotes only ever takes away.
pub proof fn lemma_remote_removals_only_take(engine: EngineView, names: Seq<Seq<char>>)
    ensures
        engine.after_remote_removals(names).queue == engine.queue,
        forall|n: Seq<char>| #[trigger]
            engine.after_remote_removals(names).catalog.remotes.contains(n)
                ==> engine.catalog.remotes.contains(n) && !names.contains(n),
        forall|d: DirKey| #[trigger]
            engine.after_remote_removals(names).catalog.dirs.contains(d)
                ==> engine.catalog.dirs.contains(d) && !names.contains(d.remote),
        forall|k: ItemKey| #[trigger]
            engine.after_remote_removals(names).catalog.items.contains_key(k)
                ==> engine.catalog.items.contains_key(k) && !names.contains(k.dir.remote),
        forall|d: DirKey| #[trigger]
            engine.after_remote_removals(names).board.phases.contains_key(d)
                ==> engine.board.phases.contains_key(d),
    decreases names.len(),
{
    if names.len() > 0 {
        let sooner = names.drop_last();
        lemma_remote_removals_only_take(engine, sooner);
        let mid = engine.after_remote_removals(sooner);
        let end = mid.after_remote_removal(names.last());
        assert(engine.after_remote_removals(names) == end);
        assert forall|n: Seq<char>| names.contains(n) implies sooner.contains(n) || n
            == names.last() by {
            let i = choose|i: int| 0 <= i < names.len() && names[i] == n;
            if i < sooner.len() {
                assert(sooner[i] == n);
            }
        }
    }
}

/// A removal takes effect at the checkpoint and not before. The checkpoint
/// leaves the queue empty; a pair that was queued, or whose remote was, is
/// gone from the catalog with all its baselines, and a walk over it is told
/// to stop. What was not queued is all that can be left.
pub proof fn law_checkpoint_applies_what_was_queued(
    engine: EngineView,
    walk: WalkView,
    stop: bool,
    origin: Origin,
    path: Seq<char>,
)
    ensures
        engine.after_checkpoint().queue == empty_queue(),
        forall|d: DirKey| #[trigger]
            engine.after_checkpoint().catalog.dirs.contains(d) ==> engine.catalog.dirs.contains(d)
                && !engine.queue.dirs.contains(d) && !engine.queue.remotes.contains(d.remote),
        forall|k: ItemKey| #[trigger]
            engine.after_checkpoint().catalog.items.contains_key(k)
                ==> engine.catalog.items.contains_key(k) && !engine.queue.dirs.contains(k.dir)
                && !engine.queue.remotes.contains(k.dir.remote),
        forall|n: Seq<char>| #[trigger]
            engine.after_checkpoint().catalog.remotes.contains(n) ==> engine.catalog.remotes.contains(
                n,
            ) && !engine.queue.remotes.contains(n),
        engine.queue.dirs.contains(walk.dir) || engine.queue.remotes.contains(walk.dir.remote)
            ==> walk.admission(engine.after_checkpoint(), stop, origin, path)
            == AdmissionView::Stop,
{
    let emptied = EngineView { queue: empty_queue(), ..engine };
    lemma_dir_removals_only_take(emptied, engine.queue.dirs);
    let mid = emptied.after_dir_removals(engine.queue.dirs);
    lemma_remote_removals_only_take(mid, engine.queue.remotes);
}

/// A catalog that is consistent stays so under everything that can be done
/// to it.
pub proof fn law_catalog_stays_consistent(
    catalog: CatalogView,
    name: Seq<char>,
    dir: DirKey,
    key: ItemKey,
    baseline: Baseline,
)
    requires
        catalog.consistent(),
    ensures
        catalog.with_remote(name).consistent(),
        catalog.with_dir(dir).consistent(),
        catalog.with_item(key, baseline).consistent(),
        catalog.without_item(key).consistent(),
        catalog.without_dir(dir).consistent(),
        catalog.without_remote(name).consistent(),
{
}

/// A step that deletes something is only planned against a node that was
/// seen: on the side it deletes from, the item was observed, and either the
/// policy found the item deleted on the other side or the other side holds
/// a node of another kind that takes its place.
pub proof fn law_deletions_are_planned_against_what_was_seen(
    resolution: Resolution,
    local: Option<LocalStat>,
    remote: Option<RemoteStat>,
    i: int,
)
    requires
        0 <= i < steps_of(resolution, local, remote).len(),
    ensures
        steps_of(resolution, local, remote)[i].destroys_remote() ==> remote is Some && (resolution
            == Resolution::RemoveRemote || (resolution == Resolution::Push && local is Some
            && local->0.is_dir != remote->0.is_dir)),
        steps_of(resolution, local, remote)[i].destroys_local() ==> local is Some && (resolution
            == Resolution::RemoveLocal || (resolution == Resolution::Pull && remote is Some
            && local->0.is_dir != remote->0.is_dir)),
{
}

/// The policy only asks to move what is there: a push needs the local item
/// and a pull the remote one, and only what exists is removed.
pub proof fn law_resolution_moves_what_exists(
    local: Option<LocalStat>,
    remote: Option<RemoteStat>,
    baseline: Option<Baseline>,
)
    ensures
        resolution(local, remote, baseline) == Resolution::Push ==> local is Some,
        resolution(local, remote, baseline) == Resolution::Pull ==> remote is Some,
        resolution(local, remote, baseline) == Resolution::RemoveLocal ==> local is Some
            && remote is None,
        resolution(local, remote, baseline) == Resolution::RemoveRemote ==> remote is Some
            && local is None,
        resolution(local, remote, baseline) == Resolution::Conflict ==> local is Some
            && remote is Some && !both_directories(local, remote),
{
}

/// A run never waits for a step that is not there.
pub proof fn law_run_stays_valid(
    run: RunView,
    walk: WalkView,
    engine: EngineView,
    event: EventView,
)
    requires
        valid(run.stage),
    ensures
        valid(after_event(run, walk, engine, event).0.stage),
        after_event(run, walk, engine, event).0.candidate == run.candidate,
{
}

/// The steps of a run are those that were planned, in their order: once
/// both sides are seen the run asks for the first planned step, and after
/// each step that is done for the one that follows it.
pub proof fn law_run_performs_the_planned_steps(
    run: RunView,
    walk: WalkView,
    engine: EngineView,
    local: Option<LocalStat>,
    remote: Option<RemoteStat>,
    done: nat,
)
    requires
        run.stage == StageView::NeedRemote(local),
        walk.visited.contains(run.candidate.relative),
        resolution(local, remote, engine.catalog.items.get(item_key(walk.dir, run.candidate.relative)))
            != Resolution::Violation,
        done + 1 < steps_of(
            resolution(local, remote, engine.catalog.items.get(item_key(walk.dir, run.candidate.relative))),
            local,
            remote,
        ).len(),
    ensures
        ({
            let decision = resolution(
                local,
                remote,
                engine.catalog.items.get(item_key(walk.dir, run.candidate.relative)),
            );
            let steps = steps_of(decision, local, remote);
            let seen = after_event(run, walk, engine, EventView::Remote(remote));
            let under_way = RunView { stage: StageView::Stepping(decision, steps, done), ..run };
            &&& seen.1 == engine
            &&& pending(seen.0.stage) == Action::Perform(steps[0])
            &&& pending(after_event(under_way, walk, engine, EventView::Done).0.stage)
                == Action::Perform(steps[done as int + 1])
            &&& after_event(under_way, walk, engine, EventView::Done).1 == engine
        }),
{
}

/// A run over an item at rest changes nothing. Once both sides are seen it
/// is over, unless the item is a directory on both sides: then it asks for
/// the directory to be walked and is over after that. Nothing is recorded
/// either way.
pub proof fn law_run_over_an_item_at_rest_is_idle(
    run: RunView,
    walk: WalkView,
    engine: EngineView,
    local: Option<LocalStat>,
    remote: Option<RemoteStat>,
)
    requires
        run.stage == StageView::NeedLocal,
        walk.visited.contains(run.candidate.relative),
        engine.catalog.items.contains_key(item_key(walk.dir, run.candidate.relative)),
        at_rest(local, remote, engine.catalog.items[item_key(walk.dir, run.candidate.relative)]),
    ensures
        ({
            let first = after_event(run, walk, engine, EventView::Local(local));
            let second = after_event(first.0, walk, first.1, EventView::Remote(remote));
            let third = after_event(second.0, walk, second.1, EventView::Done);
            let over = Action::Finish(Verdict::Settled(Settlement::Nothing));
            &&& pending(first.0.stage) == Action::StatRemote
            &&& pending(second.0.stage) == (if both_directories(local, remote) {
                Action::Perform(Step::Descend)
            } else {
                over
            })
            &&& pending(third.0.stage) == over
            &&& first.1 == engine
            &&& second.1 == engine
            &&& third.1 == engine
        }),
{
}

/// A directory that exists on both sides is walked whenever the policy
/// does not give the pass up: at rest, moved on one side or moved on both,
/// the one step of its plan is to walk what lies below it. So a pass looks
/// at every item below the roots that no rule matches, at any depth.
pub proof fn law_directories_on_both_sides_are_walked(
    local: LocalStat,
    remote: RemoteStat,
    baseline: Option<Baseline>,
)
    requires
        local.is_dir,
        remote.is_dir,
        resolution(Some(local), Some(remote), baseline) != Resolution::Violation,
    ensures
        steps_of(resolution(Some(local), Some(remote), baseline), Some(local), Some(remote))
            == seq![Step::Descend],
        resolution(Some(local), Some(remote), baseline) != Resolution::Conflict,
{
    let decision = resolution(Some(local), Some(remote), baseline);
    assert(steps_of(decision, Some(local), Some(remote)) =~= seq![Step::Descend]);
}

/// A run over an item that changed on both sides performs no step: it
/// ends as soon as both sides are seen, with the conflict on the board and
/// the catalog as it was.
pub proof fn law_run_over_a_conflict_moves_nothing(
    run: RunView,
    walk: WalkView,
    engine: EngineView,
    local: LocalStat,
    remote: RemoteStat,
)
    requires
        run.stage == StageView::NeedLocal,
        walk.visited.contains(run.candidate.relative),
        engine.coherent(),
        engine.catalog.dirs.contains(walk.dir),
        engine.catalog.items.contains_key(item_key(walk.dir, run.candidate.relative)),
        local.modified > engine.catalog.items[item_key(walk.dir, run.candidate.relative)].local,
        remote.modified > engine.catalog.items[item_key(walk.dir, run.candidate.relative)].remote,
        !(local.is_dir && remote.is_dir),
        !engine.board.lists(
            walk.dir,
            ErrorView::BothMoreCurrent(
                joined_path(walk.dir.local_root, run.candidate.relative),
                joined_path(walk.dir.remote_root, run.candidate.relative),
            ),
        ),
    ensures
        ({
            let first = after_event(run, walk, engine, EventView::Local(Some(local)));
            let second = after_event(first.0, walk, first.1, EventView::Remote(Some(remote)));
            &&& pending(first.0.stage) == Action::StatRemote
            &&& pending(second.0.stage) == Action::Finish(Verdict::Settled(Settlement::Raised))
            &&& second.1.catalog == engine.catalog
            &&& second.1.board.errors == engine.board.errors.push(
                (
                    walk.dir,
                    ErrorView::BothMoreCurrent(
                        joined_path(walk.dir.local_root, run.candidate.relative),
                        joined_path(walk.dir.remote_root, run.candidate.relative),
                    ),
                ),
            )
        }),
{
}

/// A failure ends a run that is under way: it is listed on the board, and
/// no baseline is touched.
pub proof fn law_failure_ends_the_run(
    run: RunView,
    walk: WalkView,
    engine: EngineView,
    path: Seq<char>,
    message: Seq<char>,
)
    requires
        !(run.stage is Closed),
    ensures
        ({
            let after = after_event(run, walk, engine, EventView::Failed(path, message));
            &&& after.0.stage == StageView::Closed(Verdict::Failed)
            &&& after.1.catalog == engine.catalog
            &&& after.1.board == engine.board.reported(walk.dir, ErrorView::General(path, message))
        }),
{
}

/// Whatever a run is told, it records no baseline for a path that a rule
/// of the walk matches.
pub proof fn law_run_keeps_ignored_paths_out(
    run: RunView,
    walk: WalkView,
    engine: EngineView,
    event: EventView,
)
    requires
        sound(walk),
        clean(engine.catalog, walk),
    ensures
        clean(after_event(run, walk, engine, event).1.catalog, walk),
{
    let after = after_event(run, walk, engine, event).1.catalog;
    if after != engine.catalog {
        let (resolution, fresh) = choose|resolution: Resolution, fresh: Option<Baseline>|
            after == walk.settled(engine, run.candidate.relative, resolution, fresh).catalog;
        law_ignored_paths_stay_out_of_the_catalog(walk, engine, run.candidate.relative, resolution, fresh);
    }
}

/// A run asks for no step on an entry that its walk never took up, and so
/// on none that a rule of the walk matched.
pub proof fn law_run_refuses_what_was_not_taken_up(
    run: RunView,
    walk: WalkView,
    engine: EngineView,
    local: Option<LocalStat>,
    remote: Option<RemoteStat>,
)
    requires
        run.stage == StageView::NeedRemote(local),
        !walk.visited.contains(run.candidate.relative),
    ensures
        after_event(run, walk, engine, EventView::Remote(remote)) == (
            RunView { stage: StageView::Closed(Verdict::Settled(Settlement::Refused)), ..run },
            engine,
        ),
{
}

/// What a pass sees of one item: its relative path and what both sides
/// show.
pub struct Sighting {
    pub relative: Seq<char>,
    pub local: Option<LocalStat>,
    pub remote: Option<RemoteStat>,
}

/// A new run that is told what both sides show.
pub open spec fn seen_by(walk: WalkView, engine: EngineView, seen: Sighting) -> (
    RunView,
    EngineView,
) {
    let run = RunView {
        candidate: candidate_for(walk.dir, seen.relative),
        stage: StageView::NeedLocal,
    };
    let first = after_event(run, walk, engine, EventView::Local(seen.local));
    after_event(first.0, walk, first.1, EventView::Remote(seen.remote))
}

/// A new run that is told what both sides show and, if it asks for a
/// step, that the step is done.
pub open spec fn looked_at(walk: WalkView, engine: EngineView, seen: Sighting) -> (
    RunView,
    EngineView,
) {
    let run = RunView {
        candidate: candidate_for(walk.dir, seen.relative),
        stage: StageView::NeedLocal,
    };
    let first = after_event(run, walk, engine, EventView::Local(seen.local));
    let second = after_event(first.0, walk, first.1, EventView::Remote(seen.remote));
    after_event(second.0, walk, second.1, EventView::Done)
}

/// The engine after a pass has looked at each of `items` in turn.
pub open spec fn after_looking_at(
    walk: WalkView,
    engine: EngineView,
    items: Seq<Sighting>,
) -> EngineView
    decreases items.len(),
{
    if items.len() == 0 {
        engine
    } else {
        looked_at(walk, after_looking_at(walk, engine, items.drop_last()), items.last()).1
    }
}

/// A pass over items that are all at rest does nothing: every run ends
/// once both sides are seen and, for a directory, its entries are walked;
/// no run asks for a step that changes a side, and the engine is left as it
/// was.
pub proof fn law_pass_over_items_at_rest_is_idle(
    walk: WalkView,
    engine: EngineView,
    items: Seq<Sighting>,
)
    requires
        forall|i: int|
            0 <= i < items.len() ==> {
                &&& walk.visited.contains((#[trigger] items[i]).relative)
                &&& engine.catalog.items.contains_key(item_key(walk.dir, items[i].relative))
                &&& at_rest(
                    items[i].local,
                    items[i].remote,
                    engine.catalog.items[item_key(walk.dir, items[i].relative)],
                )
            },
    ensures
        after_looking_at(walk, engine, items) == engine,
        forall|i: int|
            0 <= i < items.len() ==> pending(looked_at(walk, engine, #[trigger] items[i]).0.stage)
                == Action::Finish(Verdict::Settled(Settlement::Nothing)),
        forall|i: int|
            0 <= i < items.len() ==> pending(seen_by(walk, engine, #[trigger] items[i]).0.stage)
                == (if both_directories(items[i].local, items[i].remote) {
                Action::Perform(Step::Descend)
            } else {
                Action::Finish(Verdict::Settled(Settlement::Nothing))
            }),
    decreases items.len(),
{
    if items.len() > 0 {
        let sooner = items.drop_last();
        assert forall|i: int| 0 <= i < sooner.len() implies {
            &&& walk.visited.contains((#[trigger] sooner[i]).relative)
            &&& engine.catalog.items.contains_key(item_key(walk.dir, sooner[i].relative))
            &&& at_rest(
                sooner[i].local,
                sooner[i].remote,
                engine.catalog.items[item_key(walk.dir, sooner[i].relative)],
            )
        } by {
            assert(sooner[i] == items[i]);
        }
        law_pass_over_items_at_rest_is_idle(walk, engine, sooner);
        assert forall|i: int| 0 <= i < items.len() implies pending(
            seen_by(walk, engine, #[trigger] items[i]).0.stage,
        ) == (if both_directories(items[i].local, items[i].remote) {
            Action::Perform(Step::Descend)
        } else {
            Action::Finish(Verdict::Settled(Settlement::Nothing))
        }) by {
            let seen = items[i];
            let run = RunView {
                candidate: candidate_for(walk.dir, seen.relative),
                stage: StageView::NeedLocal,
            };
            law_run_over_an_item_at_rest_is_idle(run, walk, engine, seen.local, seen.remote);
        }
        assert forall|i: int| 0 <= i < items.len() implies pending(
            looked_at(walk, engine, #[trigger] items[i]).0.stage,
        ) == Action::Finish(Verdict::Settled(Settlement::Nothing)) by {
            let seen = items[i];
            let run = RunView { candidate: candidate_for(walk.dir, seen.relative), stage: StageView::NeedLocal };
            law_run_over_an_item_at_rest_is_idle(run, walk, engine, seen.local, seen.remote);
        }
        let last = items.last();
        let run = RunView { candidate: candidate_for(walk.dir, last.relative), stage: StageView::NeedLocal };
        law_run_over_an_item_at_rest_is_idle(run, walk, engine, last.local, last.remote);
    }
}

/// Removing pairs one after the other leaves every known pair on the
/// board.
pub proof fn lemma_dir_removals_keep_coherent(engine: EngineView, dirs: Seq<DirKey>)
    requires
        engine.coherent(),
    ensures
        engine.after_dir_removals(dirs).coherent(),
    decreases dirs.len(),
{
    if dirs.len() > 0 {
        lemma_dir_removals_keep_coherent(engine, dirs.drop_last());
        lemma_dir_removal_keeps_coherent(engine.after_dir_removals(dirs.drop_last()), dirs.last());
    }
}

/// Removing remotes one after the other leaves every known pair on the
/// board.
pub proof fn lemma_remote_removals_keep_coherent(engine: EngineView, names: Seq<Seq<char>>)
    requires
        engine.coherent(),
    ensures
        engine.after_remote_removals(names).coherent(),
    decreases names.len(),
{
    if names.len() > 0 {
        lemma_remote_removals_keep_coherent(engine, names.drop_last());
        lemma_remote_removal_keeps_coherent(
            engine.after_remote_removals(names.drop_last()),
            names.last(),
        );
    }
}

/// Every pair the catalog knows stays on the board, whatever is done to
/// the engine: a pair is added, removals are asked for and applied, an
/// entry is settled, a run is told an event, an error is decided.
pub proof fn law_known_pairs_stay_on_the_board(
    engine: EngineView,
    walk: WalkView,
    run: RunView,
    dir: DirKey,
    asked: QueueView,
    relative: Seq<char>,
    resolution: Resolution,
    fresh: Option<Baseline>,
    event: EventView,
    error: ErrorView,
    step: ConflictStep,
    phase: Phase,
)
    requires
        engine.coherent(),
    ensures
        engine.with_dir(dir).coherent(),
        (EngineView { queue: asked, ..engine }).coherent(),
        engine.after_checkpoint().coherent(),
        (EngineView { board: engine.board.with_phase(dir, phase), ..engine }).coherent(),
        walk.settled(engine, relative, resolution, fresh).coherent(),
        after_event(run, walk, engine, event).1.coherent(),
        engine.after_decision(dir, error, step, fresh).coherent(),
{
    let emptied = EngineView { queue: empty_queue(), ..engine };
    lemma_dir_removals_keep_coherent(emptied, engine.queue.dirs);
    lemma_remote_removals_keep_coherent(
        emptied.after_dir_removals(engine.queue.dirs),
        engine.queue.remotes,
    );
}

/// A conflict of a known pair is never dropped: where the pair is known
/// and the entry was taken up, settling the conflict leaves it listed on
/// the board.
pub proof fn law_conflict_of_a_known_pair_is_listed(
    walk: WalkView,
    engine: EngineView,
    relative: Seq<char>,
    fresh: Option<Baseline>,
)
    requires
        engine.coherent(),
        engine.catalog.dirs.contains(walk.dir),
        walk.visited.contains(relative),
    ensures
        walk.settled(engine, relative, Resolution::Conflict, fresh).board.lists(
            walk.dir,
            ErrorView::BothMoreCurrent(
                joined_path(walk.dir.local_root, relative),
                joined_path(walk.dir.remote_root, relative),
            ),
        ),
{
    let conflict = (
        walk.dir,
        ErrorView::BothMoreCurrent(
            joined_path(walk.dir.local_root, relative),
            joined_path(walk.dir.remote_root, relative),
        ),
    );
    let after = walk.settled(engine, relative, Resolution::Conflict, fresh).board;
    if !engine.board.lists(conflict.0, conflict.1) {
        assert(after.errors == engine.board.errors.push(conflict));
        assert(after.errors[engine.board.errors.len() as int] == conflict);
    }
}

/// A board lists no error twice for a pair, whatever is done to it.
pub proof fn law_errors_are_listed_once(
    board: BoardView,
    dir: DirKey,
    error: ErrorView,
    phase: Phase,
    gone: Set<DirKey>,
)
    requires
        board.lists_each_once(),
    ensures
        board.registered(dir).lists_each_once(),
        board.with_phase(dir, phase).lists_each_once(),
        board.reported(dir, error).lists_each_once(),
        board.dismissed(dir, error).lists_each_once(),
        board.unregistered(dir).lists_each_once(),
        board.without_dirs_in(gone).lists_each_once(),
{
    lemma_filter_keeps_distinct(board.errors, other_than(dir, error));
    lemma_filter_keeps_distinct(board.errors, not_of(dir));
    lemma_filter_keeps_distinct(board.errors, of_none(gone));
    if board.phases.contains_key(dir) && !board.lists(dir, error) {
        let after = board.errors.push((dir, error));
        assert forall|i: int, j: int| 0 <= i < after.len() && 0 <= j < after.len() && i
            != j implies after[i] != after[j] by {
            if i < board.errors.len() && j < board.errors.len() {
                assert(board.errors[i] != board.errors[j]);
            } else {
                let other = if i < board.errors.len() { i } else { j };
                assert(board.errors.contains(board.errors[other]));
            }
        }
    }
}

} // verus!
