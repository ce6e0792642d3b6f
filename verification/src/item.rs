//! The course of one item through a walk: look at both sides, decide,
//! perform the planned steps one by one, look again, settle.
//!
//! The caller does what an `Action` names and reports what came of it as an
//! `Event`; the run then names the next action. A failure at any point is
//! listed on the board and ends the run.

use vstd::prelude::*;
use vstd::string::*;
use crate::board::ErrorView;
use crate::engine::{Engine, EngineView};
use crate::plan::{plan, steps_of, Step};
use crate::resolver::{resolution, Baseline, LocalStat, RemoteStat, Resolution};
use crate::walk::{item_key, Candidate, CandidateView, Settlement, Walk, WalkView};

verus! {

/// How a run ended.
#[derive(Clone, Copy, Debug, PartialEq, Eq, Structural)]
pub enum Verdict {
    /// The item was settled.
    Settled(Settlement),
    /// Something failed; the failure is on the board.
    Failed,
    /// The policy met timestamps that cannot be: the pass is given up.
    Aborted,
}

/// What the caller is to do next.
#[derive(Clone, Copy, Debug, PartialEq, Eq, Structural)]
pub enum Action {
    /// Look at the local side and report `Event::Local`.
    StatLocal,
    /// Ask the remote and report `Event::Remote`.
    StatRemote,
    /// Perform the step and report `Event::Done`.
    Perform(Step),
    /// Look at both sides again and report `Event::Fresh`.
    Refresh,
    /// Nothing: the run is over.
    Finish(Verdict),
}

/// What came of an action.
#[derive(Debug, PartialEq, Eq)]
pub enum Event {
    /// What the local side shows.
    Local(Option<LocalStat>),
    /// What the remote shows.
    Remote(Option<RemoteStat>),
    /// The step was performed.
    Done,
    /// The timestamps both sides show after the transfer.
    Fresh(Baseline),
    /// The action failed: the path it failed at and the message.
    Failed(String, String),
}

/// An `Event` by its characters.
pub enum EventView {
    Local(Option<LocalStat>),
    Remote(Option<RemoteStat>),
    Done,
    Fresh(Baseline),
    Failed(Seq<char>, Seq<char>),
}

impl View for Event {
    type V = EventView;

    open spec fn view(&self) -> EventView {
        match self {
            Event::Local(local) => EventView::Local(*local),
            Event::Remote(remote) => EventView::Remote(*remote),
            Event::Done => EventView::Done,
            Event::Fresh(fresh) => EventView::Fresh(*fresh),
            Event::Failed(path, message) => EventView::Failed(path@, message@),
        }
    }
}

/// Where a run stands.
pub enum StageView {
    /// The local side is to be looked at.
    NeedLocal,
    /// The remote is to be asked; the local side showed this.
    NeedRemote(Option<LocalStat>),
    /// The steps of the resolution are performed; the number tells how
    /// many are done.
    Stepping(Resolution, Seq<Step>, nat),
    /// The transfer is done and both sides are to be looked at again.
    NeedFresh(Resolution),
    /// The run is over.
    Closed(Verdict),
}

/// What a run holds: the entry it is about, with its path on both sides,
/// and where it stands.
pub struct RunView {
    pub candidate: CandidateView,
    pub stage: StageView,
}

/// The action a stage waits for.
pub open spec fn pending(stage: StageView) -> Action {
    match stage {
        StageView::NeedLocal => Action::StatLocal,
        StageView::NeedRemote(_) => Action::StatRemote,
        StageView::Stepping(_, steps, done) => Action::Perform(steps[done as int]),
        StageView::NeedFresh(_) => Action::Refresh,
        StageView::Closed(verdict) => Action::Finish(verdict),
    }
}

/// A stage that performs steps has a step left to perform.
pub open spec fn valid(stage: StageView) -> bool {
    stage matches StageView::Stepping(_, steps, done) ==> done < steps.len()
}

/// Settling ends the run.
pub open spec fn concluded(
    run: RunView,
    walk: WalkView,
    engine: EngineView,
    resolution: Resolution,
    fresh: Option<Baseline>,
) -> (RunView, EngineView) {
    (
        RunView {
            stage: StageView::Closed(
                Verdict::Settled(walk.settlement(engine, run.candidate.relative, resolution, fresh)),
            ),
            ..run
        },
        walk.settled(engine, run.candidate.relative, resolution, fresh),
    )
}

/// Once the steps are performed, a transfer asks for the fresh timestamps;
/// anything else is settled at once.
pub open spec fn after_steps(
    run: RunView,
    walk: WalkView,
    engine: EngineView,
    resolution: Resolution,
) -> (RunView, EngineView) {
    if resolution == Resolution::Push || resolution == Resolution::Pull {
        (RunView { stage: StageView::NeedFresh(resolution), ..run }, engine)
    } else {
        concluded(run, walk, engine, resolution, None)
    }
}

/// Once both sides are seen the policy decides. Nothing is done for an
/// entry the walk never took up. A violation gives the pass up; otherwise
/// the planned steps are performed, first to last.
pub open spec fn decided(
    run: RunView,
    walk: WalkView,
    engine: EngineView,
    local: Option<LocalStat>,
    remote: Option<RemoteStat>,
) -> (RunView, EngineView) {
    let resolution = resolution(
        local,
        remote,
        engine.catalog.items.get(item_key(walk.dir, run.candidate.relative)),
    );
    let steps = steps_of(resolution, local, remote);
    if !walk.visited.contains(run.candidate.relative) {
        (
            RunView { stage: StageView::Closed(Verdict::Settled(Settlement::Refused)), ..run },
            engine,
        )
    } else if resolution == Resolution::Violation {
        (RunView { stage: StageView::Closed(Verdict::Aborted), ..run }, engine)
    } else if steps.len() > 0 {
        (RunView { stage: StageView::Stepping(resolution, steps, 0), ..run }, engine)
    } else {
        after_steps(run, walk, engine, resolution)
    }
}

/// What an event does to a run and to the engine. A run that is over
/// stays as it is. A failure is listed on the board and ends the run. An
/// event that the stage does not wait for changes nothing.
pub open spec fn after_event(
    run: RunView,
    walk: WalkView,
    engine: EngineView,
    event: EventView,
) -> (RunView, EngineView) {
    match (run.stage, event) {
        (StageView::Closed(_), _) => (run, engine),
        (_, EventView::Failed(path, message)) => (
            RunView { stage: StageView::Closed(Verdict::Failed), ..run },
            EngineView {
                board: engine.board.reported(walk.dir, ErrorView::General(path, message)),
                ..engine
            },
        ),
        (StageView::NeedLocal, EventView::Local(local)) => (
            RunView { stage: StageView::NeedRemote(local), ..run },
            engine,
        ),
        (StageView::NeedRemote(local), EventView::Remote(remote)) => decided(
            run,
            walk,
            engine,
            local,
            remote,
        ),
        (StageView::Stepping(resolution, steps, done), EventView::Done) => if done + 1
            < steps.len() {
            (
                RunView {
                    stage: StageView::Stepping(resolution, steps, (done + 1) as nat),
                    ..run
                },
                engine,
            )
        } else {
            after_steps(run, walk, engine, resolution)
        },
        (StageView::NeedFresh(resolution), EventView::Fresh(fresh)) => concluded(
            run,
            walk,
            engine,
            resolution,
            Some(fresh),
        ),
        _ => (run, engine),
    }
}

enum Stage {
    NeedLocal,
    NeedRemote(Option<LocalStat>),
    Stepping(Resolution, Vec<Step>, usize),
    NeedFresh(Resolution),
    Closed(Verdict),
}

impl View for Stage {
    type V = StageView;

    closed spec fn view(&self) -> StageView {
        match self {
            Stage::NeedLocal => StageView::NeedLocal,
            Stage::NeedRemote(local) => StageView::NeedRemote(*local),
            Stage::Stepping(resolution, steps, done) => StageView::Stepping(
                *resolution,
                steps@,
                *done as nat,
            ),
            Stage::NeedFresh(resolution) => StageView::NeedFresh(*resolution),
            Stage::Closed(verdict) => StageView::Closed(*verdict),
        }
    }
}

/// The run of one item.
pub struct ItemRun {
    candidate: Candidate,
    stage: Stage,
}

impl View for ItemRun {
    type V = RunView;

    closed spec fn view(&self) -> RunView {
        RunView { candidate: self.candidate@, stage: self.stage@ }
    }
}

impl ItemRun {
    #[verifier::type_invariant]
    spec fn has_a_step_left(&self) -> bool {
        valid(self.stage@)
    }

    /// Starts the run of an entry that a walk took up.
    pub fn start(candidate: Candidate) -> (run: Self)
        ensures
            run@ == (RunView { candidate: candidate@, stage: StageView::NeedLocal }),
    {
        ItemRun { candidate, stage: Stage::NeedLocal }
    }

    /// The entry of the run, as it was handed to `start`.
    pub fn candidate(&self) -> (candidate: &Candidate)
        ensures
            candidate@ == self@.candidate,
    {
        &self.candidate
    }

    /// The action the run waits for.
    pub fn pending(&self) -> (action: Action)
        ensures
            action == pending(self@.stage),
            valid(self@.stage),
    {
        proof {
            use_type_invariant(self);
        }
        match &self.stage {
            Stage::NeedLocal => Action::StatLocal,
            Stage::NeedRemote(_) => Action::StatRemote,
            Stage::Stepping(_, steps, done) => Action::Perform(steps[*done]),
            Stage::NeedFresh(_) => Action::Refresh,
            Stage::Closed(verdict) => Action::Finish(*verdict),
        }
    }

    fn conclude(
        &self,
        walk: &Walk,
        engine: &mut Engine,
        resolution: Resolution,
        fresh: Option<Baseline>,
    ) -> (stage: Stage)
        ensures
            (RunView { stage: stage@, ..self@ }, final(engine)@) == concluded(
                self@,
                walk@,
                old(engine)@,
                resolution,
                fresh,
            ),
    {
        let settlement = walk.settle(engine, &self.candidate, resolution, fresh);
        Stage::Closed(Verdict::Settled(settlement))
    }

    fn finish_steps(&self, walk: &Walk, engine: &mut Engine, resolution: Resolution) -> (stage:
        Stage)
        ensures
            (RunView { stage: stage@, ..self@ }, final(engine)@) == after_steps(
                self@,
                walk@,
                old(engine)@,
                resolution,
            ),
    {
        match resolution {
            Resolution::Push | Resolution::Pull => Stage::NeedFresh(resolution),
            _ => self.conclude(walk, engine, resolution, None),
        }
    }

    /// Takes in what came of the last action and names the next one.
    pub fn advance(&mut self, walk: &Walk, engine: &mut Engine, event: Event) -> (next: Action)
        ensures
            (final(self)@, final(engine)@) == after_event(
                old(self)@,
                walk@,
                old(engine)@,
                event@,
            ),
            next == pending(final(self)@.stage),
            valid(final(self)@.stage),
            old(engine)@.coherent(),
            final(engine)@.coherent(),
    {
        proof {
            use_type_invariant(&*self);
        }
        // Reading the catalog tells that every pair it knows is on the board.
        let _ = engine.catalog();
        let mut stage = Stage::NeedLocal;
        std::mem::swap(&mut stage, &mut self.stage);
        let moved = match (stage, event) {
            (Stage::Closed(verdict), _) => Stage::Closed(verdict),
            (_, Event::Failed(path, message)) => {
                walk.report_failure(engine, path.as_str(), message.as_str());
                Stage::Closed(Verdict::Failed)
            },
            (Stage::NeedLocal, Event::Local(local)) => Stage::NeedRemote(local),
            (Stage::NeedRemote(local), Event::Remote(remote)) => {
                let resolution = walk.decide(engine, &self.candidate, local, remote);
                let steps = plan(resolution, local, remote);
                if !walk.has_visited(self.candidate.relative.as_str()) {
                    Stage::Closed(Verdict::Settled(Settlement::Refused))
                } else {
                    match resolution {
                        Resolution::Violation => Stage::Closed(Verdict::Aborted),
                        _ => if steps.len() > 0 {
                            Stage::Stepping(resolution, steps, 0)
                        } else {
                            self.finish_steps(walk, engine, resolution)
                        },
                    }
                }
            },
            (Stage::Stepping(resolution, steps, done), Event::Done) => {
                if done < steps.len() - 1 {
                    Stage::Stepping(resolution, steps, done + 1)
                } else {
                    self.finish_steps(walk, engine, resolution)
                }
            },
            (Stage::NeedFresh(resolution), Event::Fresh(fresh)) => self.conclude(
                walk,
                engine,
                resolution,
                Some(fresh),
            ),
            (stage, _) => stage,
        };
        self.stage = moved;
        self.pending()
    }
}

} // verus!
