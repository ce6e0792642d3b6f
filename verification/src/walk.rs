//! One walk over a synchronized pair: which entries it takes up, what it
//! decides for each, and what it records once an entry is dealt with.
//!
//! A pass walks the local tree of a pair and then its remote tree with the
//! same `Walk`. The walk remembers every entry it took up, so the second
//! tree only brings up what the first did not show, and nothing is recorded
//! for an entry the walk never took up.

use vstd::prelude::*;
use vstd::string::*;
use crate::board::{ErrorView, SyncError};
use crate::catalog::{DirKey, ItemKey, SyncDir};
use crate::engine::{Engine, EngineView};
use crate::ignore::{any_rule_matches, IgnoreSet};
use crate::paths::{join, joined_path, relative_path, relative_to};
use crate::resolver::{resolution, resolve, Baseline, LocalStat, RemoteStat, Resolution};
use crate::text::texts;

verus! {

/// The tree an entry was found in.
#[derive(Clone, Copy, Debug, PartialEq, Eq, Structural)]
pub enum Origin {
    Local,
    Remote,
}

/// An entry that a walk took up: its path on both sides and the part of
/// both paths below the pair's roots.
#[derive(Debug, PartialEq, Eq)]
pub struct Candidate {
    pub local_path: String,
    pub remote_path: String,
    pub relative: String,
}

/// A `Candidate` by its characters.
pub struct CandidateView {
    pub local_path: Seq<char>,
    pub remote_path: Seq<char>,
    pub relative: Seq<char>,
}

impl View for Candidate {
    type V = CandidateView;

    open spec fn view(&self) -> CandidateView {
        CandidateView {
            local_path: self.local_path@,
            remote_path: self.remote_path@,
            relative: self.relative@,
        }
    }
}

/// What a walk says to an entry.
#[derive(Debug, PartialEq, Eq)]
pub enum Admission {
    /// Leave the walk: a stop was asked for, or the pair is gone.
    Stop,
    /// The path does not lie below the pair's root.
    Outside,
    /// An exclusion rule matches the entry.
    Ignored,
    /// The walk took the entry up before.
    Visited,
    /// The entry is taken up.
    Candidate(Candidate),
}

/// An `Admission` by its characters.
pub enum AdmissionView {
    Stop,
    Outside,
    Ignored,
    Visited,
    Candidate(CandidateView),
}

impl View for Admission {
    type V = AdmissionView;

    open spec fn view(&self) -> AdmissionView {
        match self {
            Admission::Stop => AdmissionView::Stop,
            Admission::Outside => AdmissionView::Outside,
            Admission::Ignored => AdmissionView::Ignored,
            Admission::Visited => AdmissionView::Visited,
            Admission::Candidate(c) => AdmissionView::Candidate(c@),
        }
    }
}

/// What settling an entry did.
#[derive(Clone, Copy, Debug, PartialEq, Eq, Structural)]
pub enum Settlement {
    /// Nothing was to be done.
    Nothing,
    /// A baseline was recorded.
    Recorded,
    /// A baseline was dropped.
    Dropped,
    /// A conflict was listed on the board.
    Raised,
    /// The walk never took the entry up.
    Refused,
}

/// What a walk holds: its pair, its exclusion rules, and the relative
/// paths of the entries it took up, in that order.
pub struct WalkView {
    pub dir: DirKey,
    pub rules: Seq<Seq<char>>,
    pub visited: Seq<Seq<char>>,
}

/// The entry that lies `relative` below the roots of `dir`.
pub open spec fn candidate_for(dir: DirKey, relative: Seq<char>) -> CandidateView {
    CandidateView {
        local_path: joined_path(dir.local_root, relative),
        remote_path: joined_path(dir.remote_root, relative),
        relative,
    }
}

/// The identity of the item that lies `relative` below the roots of `dir`.
pub open spec fn item_key(dir: DirKey, relative: Seq<char>) -> ItemKey {
    ItemKey {
        dir,
        local_path: joined_path(dir.local_root, relative),
        remote_path: joined_path(dir.remote_root, relative),
    }
}

impl WalkView {
    /// The root that paths of a tree are relative to.
    pub open spec fn root(self, origin: Origin) -> Seq<char> {
        match origin {
            Origin::Local => self.dir.local_root,
            Origin::Remote => self.dir.remote_root,
        }
    }

    /// What the walk says to an entry. A stop wins over everything; then an
    /// entry must lie below the root, and no rule may match its relative
    /// path. The remote tree leaves out what was taken up before.
    pub open spec fn admission(
        self,
        engine: EngineView,
        stop: bool,
        origin: Origin,
        path: Seq<char>,
    ) -> AdmissionView {
        if stop || !engine.catalog.dirs.contains(self.dir) {
            AdmissionView::Stop
        } else {
            match relative_path(self.root(origin), path) {
                None => AdmissionView::Outside,
                Some(relative) => if relative.len() == 0 {
                    AdmissionView::Outside
                } else if any_rule_matches(self.rules, relative) {
                    AdmissionView::Ignored
                } else if origin == Origin::Remote && self.visited.contains(relative) {
                    AdmissionView::Visited
                } else {
                    AdmissionView::Candidate(candidate_for(self.dir, relative))
                },
            }
        }
    }

    /// The walk remembers an entry it takes up.
    pub open spec fn after(self, said: AdmissionView) -> WalkView {
        match said {
            AdmissionView::Candidate(c) => if self.visited.contains(c.relative) {
                self
            } else {
                WalkView { visited: self.visited.push(c.relative), ..self }
            },
            _ => self,
        }
    }

    /// What settling an entry does to the engine. A transfer that is done
    /// records the fresh timestamps, a removal and a forgotten item drop
    /// the baseline, a conflict is listed on the board. Nothing happens for
    /// an entry the walk never took up.
    pub open spec fn settled(
        self,
        engine: EngineView,
        relative: Seq<char>,
        resolution: Resolution,
        fresh: Option<Baseline>,
    ) -> EngineView {
        let entry = candidate_for(self.dir, relative);
        if !self.visited.contains(relative) {
            engine
        } else {
            match resolution {
                Resolution::Push | Resolution::Pull => match fresh {
                    Some(b) => EngineView {
                        catalog: engine.catalog.with_item(item_key(self.dir, relative), b),
                        ..engine
                    },
                    None => engine,
                },
                Resolution::RemoveLocal | Resolution::RemoveRemote | Resolution::Forget => EngineView {
                    catalog: engine.catalog.without_item(item_key(self.dir, relative)),
                    ..engine
                },
                Resolution::Conflict => EngineView {
                    board: engine.board.reported(
                        self.dir,
                        ErrorView::BothMoreCurrent(entry.local_path, entry.remote_path),
                    ),
                    ..engine
                },
                Resolution::NoOp | Resolution::Violation => engine,
            }
        }
    }

    /// What settling an entry reports.
    pub open spec fn settlement(
        self,
        engine: EngineView,
        relative: Seq<char>,
        resolution: Resolution,
        fresh: Option<Baseline>,
    ) -> Settlement {
        let entry = candidate_for(self.dir, relative);
        if !self.visited.contains(relative) {
            Settlement::Refused
        } else {
            match resolution {
                Resolution::Push | Resolution::Pull => if fresh is Some
                    && engine.catalog.dirs.contains(self.dir) {
                    Settlement::Recorded
                } else {
                    Settlement::Nothing
                },
                Resolution::RemoveLocal | Resolution::RemoveRemote | Resolution::Forget => if engine.catalog.items.contains_key(
                item_key(self.dir, relative)) {
                    Settlement::Dropped
                } else {
                    Settlement::Nothing
                },
                Resolution::Conflict => if engine.board.phases.contains_key(self.dir)
                    && !engine.board.lists(
                    self.dir,
                    ErrorView::BothMoreCurrent(entry.local_path, entry.remote_path),
                ) {
                    Settlement::Raised
                } else {
                    Settlement::Nothing
                },
                Resolution::NoOp | Resolution::Violation => Settlement::Nothing,
            }
        }
    }
}

fn holds_text(list: &Vec<String>, text: &String) -> (found: bool)
    ensures
        found == texts(list@).contains(text@),
{
    let mut i: usize = 0;
    while i < list.len()
        invariant
            i <= list@.len(),
            forall|j: int| 0 <= j < i ==> (#[trigger] texts(list@)[j]) != text@,
        decreases list.len() - i,
    {
        assert(texts(list@)[i as int] == list@[i as int]@);
        if list[i] == *text {
            return true;
        }
        i += 1;
    }
    false
}

/// A walk over one synchronized pair.
pub struct Walk {
    dir: SyncDir,
    rules: IgnoreSet,
    visited: Vec<String>,
}

impl View for Walk {
    type V = WalkView;

    closed spec fn view(&self) -> WalkView {
        WalkView { dir: self.dir@, rules: self.rules@, visited: texts(self.visited@) }
    }
}

impl Walk {
    #[verifier::type_invariant]
    spec fn visited_pass_the_rules(&self) -> bool {
        forall|i: int|
            0 <= i < self.visited@.len() ==> !any_rule_matches(
                self.rules@,
                (#[trigger] self.visited@[i])@,
            )
    }

    /// Starts a walk over `dir` under the rules that were loaded for it.
    pub fn begin(dir: SyncDir, rules: IgnoreSet) -> (walk: Self)
        ensures
            walk@ == (WalkView { dir: dir@, rules: rules@, visited: Seq::empty() }),
    {
        let walk = Walk { dir, rules, visited: Vec::new() };
        assert(walk@.visited =~= Seq::<Seq<char>>::empty());
        walk
    }

    /// The pair that is walked.
    pub fn dir(&self) -> (dir: &SyncDir)
        ensures
            dir@ == self@.dir,
    {
        &self.dir
    }

    /// The rules of the walk.
    pub fn rules(&self) -> (rules: &IgnoreSet)
        ensures
            rules@ == self@.rules,
    {
        &self.rules
    }

    /// Whether the walk took up the entry at `relative`.
    pub fn has_visited(&self, relative: &str) -> (visited: bool)
        ensures
            visited == self@.visited.contains(relative@),
    {
        let owned = String::from_str(relative);
        holds_text(&self.visited, &owned)
    }

    /// Says whether the walk takes up the entry at `path`, found in the
    /// tree `origin`, and remembers it if so. `stop` tells that the pass
    /// was asked to stop.
    pub fn consider(&mut self, engine: &Engine, stop: bool, origin: Origin, path: &str) -> (said:
        Admission)
        ensures
            said@ == old(self)@.admission(engine@, stop, origin, path@),
            final(self)@ == old(self)@.after(said@),
            engine@.coherent(),
    {
        proof {
            use_type_invariant(&*self);
        }
        let known = engine.catalog().has_dir(&self.dir);
        if stop || !known {
            return Admission::Stop;
        }
        let root = match origin {
            Origin::Local => self.dir.local_path.as_str(),
            Origin::Remote => self.dir.remote_path.as_str(),
        };
        let relative = match relative_to(root, path) {
            None => {
                return Admission::Outside;
            },
            Some(relative) => relative,
        };
        if relative.as_str().unicode_len() == 0 {
            return Admission::Outside;
        }
        if self.rules.matches(relative.as_str()) {
            return Admission::Ignored;
        }
        let seen = holds_text(&self.visited, &relative);
        if seen {
            match origin {
                Origin::Remote => {
                    return Admission::Visited;
                },
                Origin::Local => {},
            }
        } else {
            let mut visited: Vec<String> = Vec::new();
            std::mem::swap(&mut visited, &mut self.visited);
            let ghost before = visited@;
            visited.push(relative.clone());
            proof {
                assert(texts(visited@) =~= texts(before).push(relative@));
                assert forall|i: int| 0 <= i < visited@.len() implies !any_rule_matches(
                    self.rules@,
                    (#[trigger] visited@[i])@,
                ) by {
                    if i < before.len() {
                        assert(visited@[i] == before[i]);
                    }
                }
            }
            self.visited = visited;
        }
        let candidate = Candidate {
            local_path: join(self.dir.local_path.as_str(), relative.as_str()),
            remote_path: join(self.dir.remote_path.as_str(), relative.as_str()),
            relative,
        };
        Admission::Candidate(candidate)
    }

    /// Decides what to do with an entry the walk took up, from what both
    /// sides show now and the baseline the engine holds for it.
    pub fn decide(
        &self,
        engine: &Engine,
        candidate: &Candidate,
        local: Option<LocalStat>,
        remote: Option<RemoteStat>,
    ) -> (r: Resolution)
        ensures
            r == resolution(
                local,
                remote,
                engine@.catalog.items.get(item_key(self@.dir, candidate@.relative)),
            ),
    {
        let local_path = join(self.dir.local_path.as_str(), candidate.relative.as_str());
        let remote_path = join(self.dir.remote_path.as_str(), candidate.relative.as_str());
        let baseline = engine.catalog().find(&self.dir, local_path.as_str(), remote_path.as_str());
        resolve(local, remote, baseline)
    }

    /// Settles an entry once its resolution is carried out. `fresh` holds
    /// the timestamps both sides show after a transfer. A baseline is only
    /// ever recorded for an entry that the walk took up, and so for one
    /// that no rule of the walk matches. Every pair the catalog knows is on
    /// the board, so a conflict of a known pair is never dropped.
    pub fn settle(
        &self,
        engine: &mut Engine,
        candidate: &Candidate,
        resolution: Resolution,
        fresh: Option<Baseline>,
    ) -> (done: Settlement)
        ensures
            final(engine)@ == self@.settled(old(engine)@, candidate@.relative, resolution, fresh),
            done == self@.settlement(old(engine)@, candidate@.relative, resolution, fresh),
            done != Settlement::Refused ==> !any_rule_matches(self@.rules, candidate@.relative),
            old(engine)@.coherent(),
            final(engine)@.coherent(),
    {
        proof {
            use_type_invariant(self);
        }
        // Reading the catalog tells that every pair it knows is on the board.
        let _ = engine.catalog();
        if !holds_text(&self.visited, &candidate.relative) {
            return Settlement::Refused;
        }
        proof {
            let at = choose|i: int|
                0 <= i < texts(self.visited@).len() && texts(self.visited@)[i]
                    == candidate@.relative;
            assert(self.visited@[at]@ == candidate@.relative);
        }
        let local_path = join(self.dir.local_path.as_str(), candidate.relative.as_str());
        let remote_path = join(self.dir.remote_path.as_str(), candidate.relative.as_str());
        match resolution {
            Resolution::Push | Resolution::Pull => match fresh {
                Some(b) => {
                    if engine.record_baseline(
                        &self.dir,
                        local_path.as_str(),
                        remote_path.as_str(),
                        b,
                    ) {
                        Settlement::Recorded
                    } else {
                        Settlement::Nothing
                    }
                },
                None => Settlement::Nothing,
            },
            Resolution::RemoveLocal | Resolution::RemoveRemote | Resolution::Forget => {
                if engine.forget_baseline(&self.dir, local_path.as_str(), remote_path.as_str()) {
                    Settlement::Dropped
                } else {
                    Settlement::Nothing
                }
            },
            Resolution::Conflict => {
                if engine.report(&self.dir, SyncError::BothMoreCurrent(local_path, remote_path)) {
                    Settlement::Raised
                } else {
                    Settlement::Nothing
                }
            },
            Resolution::NoOp | Resolution::Violation => Settlement::Nothing,
        }
    }

    /// Lists a failure at `path` on the board: a transfer that failed, a
    /// directory that could not be read, a remote that did not answer.
    /// Returns whether it was listed.
    pub fn report_failure(&self, engine: &mut Engine, path: &str, message: &str) -> (added: bool)
        ensures
            final(engine)@ == (EngineView {
                board: old(engine)@.board.reported(
                    self@.dir,
                    ErrorView::General(path@, message@),
                ),
                ..old(engine)@
            }),
            added == (old(engine)@.board.phases.contains_key(self@.dir) && !old(engine)@.board.lists(
                self@.dir,
                ErrorView::General(path@, message@),
            )),
            old(engine)@.coherent(),
            final(engine)@.coherent(),
    {
        engine.report(
            &self.dir,
            SyncError::General(String::from_str(path), String::from_str(message)),
        )
    }
}

} // verus!
