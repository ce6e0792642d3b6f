use celeste::board::SyncError;
use celeste::catalog::SyncDir;
use celeste::engine::Engine;
use celeste::ignore::IgnoreSet;
use celeste::item::{Action, Event, ItemRun, Verdict};
use celeste::plan::Step;
use celeste::resolver::{Baseline, LocalStat, RemoteStat};
use celeste::walk::{Admission, Candidate, Origin, Settlement, Walk};

fn setup() -> (Engine, SyncDir, Walk) {
    let mut engine = Engine::new();
    engine.add_remote("drive");
    let dir = SyncDir::new("drive", "/a", "r");
    engine.add_dir(dir.clone());
    let walk = Walk::begin(dir.clone(), IgnoreSet::empty());
    (engine, dir, walk)
}

fn run_for(engine: &Engine, walk: &mut Walk, path: &str) -> ItemRun {
    match walk.consider(engine, false, Origin::Local, path) {
        Admission::Candidate(candidate) => ItemRun::start(candidate),
        other => panic!("not taken up: {:?}", other),
    }
}

fn local(modified: u64, is_dir: bool) -> Event {
    Event::Local(Some(LocalStat { modified, is_dir }))
}

fn remote(modified: i64, is_dir: bool) -> Event {
    Event::Remote(Some(RemoteStat { modified, is_dir }))
}

fn failed(path: &str, message: &str) -> Event {
    Event::Failed(path.to_string(), message.to_string())
}

#[test]
fn run_starts_by_looking_at_the_local_side() {
    let (engine, _, mut walk) = setup();
    let run = run_for(&engine, &mut walk, "/a/x");
    assert_eq!(run.pending(), Action::StatLocal);
    assert_eq!(run.candidate().relative, "x");
    assert_eq!(run.candidate().local_path, "/a/x");
    assert_eq!(run.candidate().remote_path, "r/x");
}

#[test]
fn run_of_a_new_file_copies_it_and_records_the_fresh_timestamps() {
    let (mut engine, dir, mut walk) = setup();
    let mut run = run_for(&engine, &mut walk, "/a/x");
    assert_eq!(run.advance(&walk, &mut engine, local(10, false)), Action::StatRemote);
    assert_eq!(
        run.advance(&walk, &mut engine, Event::Remote(None)),
        Action::Perform(Step::CopyToRemote)
    );
    assert_eq!(run.advance(&walk, &mut engine, Event::Done), Action::Refresh);
    assert_eq!(engine.catalog().find(&dir, "/a/x", "r/x"), None);
    let fresh = Baseline { local: 10, remote: 15 };
    assert_eq!(
        run.advance(&walk, &mut engine, Event::Fresh(fresh)),
        Action::Finish(Verdict::Settled(Settlement::Recorded))
    );
    assert_eq!(engine.catalog().find(&dir, "/a/x", "r/x"), Some(fresh));
}

#[test]
fn run_performs_the_steps_in_their_order() {
    let (mut engine, dir, mut walk) = setup();
    let mut run = run_for(&engine, &mut walk, "/a/d");
    run.advance(&walk, &mut engine, local(10, true));
    assert_eq!(
        run.advance(&walk, &mut engine, remote(5, false)),
        Action::Perform(Step::DeleteRemote)
    );
    assert_eq!(run.advance(&walk, &mut engine, Event::Done), Action::Perform(Step::MakeRemoteDir));
    assert_eq!(run.advance(&walk, &mut engine, Event::Done), Action::Perform(Step::Descend));
    assert_eq!(run.advance(&walk, &mut engine, Event::Done), Action::Refresh);
    let fresh = Baseline { local: 11, remote: 12 };
    assert_eq!(
        run.advance(&walk, &mut engine, Event::Fresh(fresh)),
        Action::Finish(Verdict::Settled(Settlement::Recorded))
    );
    assert_eq!(engine.catalog().find(&dir, "/a/d", "r/d"), Some(fresh));
}

#[test]
fn run_over_an_item_at_rest_ends_at_once() {
    let (mut engine, dir, mut walk) = setup();
    engine.record_baseline(&dir, "/a/x", "r/x", Baseline { local: 10, remote: 20 });
    let mut run = run_for(&engine, &mut walk, "/a/x");
    assert_eq!(run.advance(&walk, &mut engine, local(10, false)), Action::StatRemote);
    assert_eq!(
        run.advance(&walk, &mut engine, remote(20, false)),
        Action::Finish(Verdict::Settled(Settlement::Nothing))
    );
    assert_eq!(engine.catalog().find(&dir, "/a/x", "r/x"), Some(Baseline { local: 10, remote: 20 }));
    assert_eq!(engine.board().pending_errors(), 0);
}

#[test]
fn run_over_a_conflict_raises_it_without_a_step() {
    let (mut engine, dir, mut walk) = setup();
    engine.record_baseline(&dir, "/a/x", "r/x", Baseline { local: 10, remote: 20 });
    let mut run = run_for(&engine, &mut walk, "/a/x");
    run.advance(&walk, &mut engine, local(11, false));
    assert_eq!(
        run.advance(&walk, &mut engine, remote(21, false)),
        Action::Finish(Verdict::Settled(Settlement::Raised))
    );
    assert_eq!(
        engine.board().errors_of(&dir),
        vec![SyncError::BothMoreCurrent("/a/x".to_string(), "r/x".to_string())]
    );
    assert_eq!(engine.catalog().find(&dir, "/a/x", "r/x"), Some(Baseline { local: 10, remote: 20 }));
}

#[test]
fn run_over_a_remote_deletion_removes_the_local_copy() {
    let (mut engine, dir, mut walk) = setup();
    engine.record_baseline(&dir, "/a/x", "r/x", Baseline { local: 10, remote: 20 });
    let mut run = run_for(&engine, &mut walk, "/a/x");
    run.advance(&walk, &mut engine, local(10, false));
    assert_eq!(
        run.advance(&walk, &mut engine, Event::Remote(None)),
        Action::Perform(Step::RemoveLocalFile)
    );
    assert_eq!(engine.catalog().find(&dir, "/a/x", "r/x"), Some(Baseline { local: 10, remote: 20 }));
    assert_eq!(
        run.advance(&walk, &mut engine, Event::Done),
        Action::Finish(Verdict::Settled(Settlement::Dropped))
    );
    assert_eq!(engine.catalog().find(&dir, "/a/x", "r/x"), None);
    assert_eq!(engine.board().pending_errors(), 0);
}

#[test]
fn run_over_an_item_gone_on_both_sides_forgets_it() {
    let (mut engine, dir, mut walk) = setup();
    engine.record_baseline(&dir, "/a/x", "r/x", Baseline { local: 10, remote: 20 });
    let mut run = run_for(&engine, &mut walk, "/a/x");
    run.advance(&walk, &mut engine, Event::Local(None));
    assert_eq!(
        run.advance(&walk, &mut engine, Event::Remote(None)),
        Action::Finish(Verdict::Settled(Settlement::Dropped))
    );
    assert_eq!(engine.catalog().find(&dir, "/a/x", "r/x"), None);
}

#[test]
fn run_over_a_timestamp_that_moved_back_is_aborted() {
    let (mut engine, dir, mut walk) = setup();
    engine.record_baseline(&dir, "/a/x", "r/x", Baseline { local: 10, remote: 20 });
    let mut run = run_for(&engine, &mut walk, "/a/x");
    run.advance(&walk, &mut engine, local(9, false));
    assert_eq!(
        run.advance(&walk, &mut engine, remote(20, false)),
        Action::Finish(Verdict::Aborted)
    );
    assert_eq!(engine.catalog().find(&dir, "/a/x", "r/x"), Some(Baseline { local: 10, remote: 20 }));
    assert_eq!(engine.board().pending_errors(), 0);
}

#[test]
fn failure_of_a_stat_ends_the_run() {
    let (mut engine, dir, mut walk) = setup();
    let mut run = run_for(&engine, &mut walk, "/a/x");
    run.advance(&walk, &mut engine, local(10, false));
    assert_eq!(
        run.advance(&walk, &mut engine, failed("r/x", "timeout")),
        Action::Finish(Verdict::Failed)
    );
    assert_eq!(
        engine.board().errors_of(&dir),
        vec![SyncError::General("r/x".to_string(), "timeout".to_string())]
    );
}

#[test]
fn failure_of_a_step_ends_the_run_without_a_baseline() {
    let (mut engine, dir, mut walk) = setup();
    let mut run = run_for(&engine, &mut walk, "/a/x");
    run.advance(&walk, &mut engine, local(10, false));
    run.advance(&walk, &mut engine, Event::Remote(None));
    assert_eq!(
        run.advance(&walk, &mut engine, failed("/a/x", "quota exceeded")),
        Action::Finish(Verdict::Failed)
    );
    assert_eq!(engine.catalog().find(&dir, "/a/x", "r/x"), None);
    assert_eq!(engine.board().pending_errors(), 1);
    assert!(!engine.is_due(&dir));
}

#[test]
fn failure_of_the_second_look_records_nothing() {
    let (mut engine, dir, mut walk) = setup();
    let mut run = run_for(&engine, &mut walk, "/a/x");
    run.advance(&walk, &mut engine, local(10, false));
    run.advance(&walk, &mut engine, Event::Remote(None));
    assert_eq!(run.advance(&walk, &mut engine, Event::Done), Action::Refresh);
    assert_eq!(
        run.advance(&walk, &mut engine, failed("r/x", "gone")),
        Action::Finish(Verdict::Failed)
    );
    assert_eq!(engine.catalog().find(&dir, "/a/x", "r/x"), None);
}

#[test]
fn run_that_is_over_stays_over() {
    let (mut engine, dir, mut walk) = setup();
    let mut run = run_for(&engine, &mut walk, "/a/x");
    run.advance(&walk, &mut engine, failed("/a/x", "denied"));
    let over = Action::Finish(Verdict::Failed);
    assert_eq!(run.pending(), over);
    assert_eq!(run.advance(&walk, &mut engine, local(1, false)), over);
    assert_eq!(run.advance(&walk, &mut engine, Event::Done), over);
    assert_eq!(run.advance(&walk, &mut engine, failed("/a/x", "again")), over);
    assert_eq!(run.advance(&walk, &mut engine, Event::Fresh(Baseline { local: 1, remote: 1 })), over);
    assert_eq!(engine.board().pending_errors(), 1);
    assert_eq!(engine.catalog().find(&dir, "/a/x", "r/x"), None);
}

#[test]
fn event_that_is_not_waited_for_changes_nothing() {
    let (mut engine, dir, mut walk) = setup();
    let mut run = run_for(&engine, &mut walk, "/a/x");
    assert_eq!(run.advance(&walk, &mut engine, Event::Done), Action::StatLocal);
    assert_eq!(run.advance(&walk, &mut engine, remote(1, false)), Action::StatLocal);
    assert_eq!(
        run.advance(&walk, &mut engine, Event::Fresh(Baseline { local: 1, remote: 1 })),
        Action::StatLocal
    );
    run.advance(&walk, &mut engine, local(10, false));
    assert_eq!(run.advance(&walk, &mut engine, local(99, false)), Action::StatRemote);
    assert_eq!(
        run.advance(&walk, &mut engine, Event::Remote(None)),
        Action::Perform(Step::CopyToRemote)
    );
    assert_eq!(
        run.advance(&walk, &mut engine, Event::Fresh(Baseline { local: 1, remote: 1 })),
        Action::Perform(Step::CopyToRemote)
    );
    assert_eq!(engine.catalog().find(&dir, "/a/x", "r/x"), None);
}

#[test]
fn run_of_an_entry_that_was_never_taken_up_is_refused() {
    let (mut engine, dir, walk) = setup();
    let forged = Candidate {
        local_path: "/a/x".to_string(),
        remote_path: "r/x".to_string(),
        relative: "x".to_string(),
    };
    let mut run = ItemRun::start(forged);
    assert_eq!(run.advance(&walk, &mut engine, local(10, false)), Action::StatRemote);
    let refused = Action::Finish(Verdict::Settled(Settlement::Refused));
    assert_eq!(run.advance(&walk, &mut engine, Event::Remote(None)), refused);
    assert_eq!(run.advance(&walk, &mut engine, Event::Done), refused);
    assert_eq!(
        run.advance(&walk, &mut engine, Event::Fresh(Baseline { local: 10, remote: 11 })),
        refused
    );
    assert_eq!(engine.catalog().find(&dir, "/a/x", "r/x"), None);
}

#[test]
fn run_over_a_directory_at_rest_walks_it_and_records_nothing() {
    let (mut engine, dir, mut walk) = setup();
    engine.record_baseline(&dir, "/a/d", "r/d", Baseline { local: 10, remote: 20 });
    let mut run = run_for(&engine, &mut walk, "/a/d");
    run.advance(&walk, &mut engine, local(10, true));
    assert_eq!(run.advance(&walk, &mut engine, remote(20, true)), Action::Perform(Step::Descend));
    assert_eq!(
        run.advance(&walk, &mut engine, Event::Done),
        Action::Finish(Verdict::Settled(Settlement::Nothing))
    );
    assert_eq!(engine.catalog().find(&dir, "/a/d", "r/d"), Some(Baseline { local: 10, remote: 20 }));
    assert_eq!(engine.board().pending_errors(), 0);
}

#[test]
fn run_over_two_directories_that_both_moved_walks_them() {
    let (mut engine, dir, mut walk) = setup();
    engine.record_baseline(&dir, "/a/d", "r/d", Baseline { local: 10, remote: 20 });
    let mut run = run_for(&engine, &mut walk, "/a/d");
    run.advance(&walk, &mut engine, local(11, true));
    assert_eq!(run.advance(&walk, &mut engine, remote(21, true)), Action::Perform(Step::Descend));
    assert_eq!(
        run.advance(&walk, &mut engine, Event::Done),
        Action::Finish(Verdict::Settled(Settlement::Nothing))
    );
    assert_eq!(engine.catalog().find(&dir, "/a/d", "r/d"), Some(Baseline { local: 10, remote: 20 }));
    assert_eq!(engine.board().pending_errors(), 0);
}

#[test]
fn changed_file_below_a_directory_at_rest_is_copied_once() {
    let (mut engine, dir, mut walk) = setup();
    engine.record_baseline(&dir, "/a/d", "r/d", Baseline { local: 10, remote: 20 });
    engine.record_baseline(&dir, "/a/d/e", "r/d/e", Baseline { local: 10, remote: 20 });
    engine.record_baseline(&dir, "/a/d/e/f", "r/d/e/f", Baseline { local: 100, remote: 200 });

    let mut outer = run_for(&engine, &mut walk, "/a/d");
    outer.advance(&walk, &mut engine, local(10, true));
    assert_eq!(outer.advance(&walk, &mut engine, remote(20, true)), Action::Perform(Step::Descend));

    let mut inner = run_for(&engine, &mut walk, "/a/d/e");
    inner.advance(&walk, &mut engine, local(10, true));
    assert_eq!(inner.advance(&walk, &mut engine, remote(20, true)), Action::Perform(Step::Descend));

    let mut file = run_for(&engine, &mut walk, "/a/d/e/f");
    file.advance(&walk, &mut engine, local(150, false));
    assert_eq!(
        file.advance(&walk, &mut engine, remote(200, false)),
        Action::Perform(Step::CopyToRemote)
    );
    assert_eq!(file.advance(&walk, &mut engine, Event::Done), Action::Refresh);
    let fresh = Baseline { local: 150, remote: 260 };
    assert_eq!(
        file.advance(&walk, &mut engine, Event::Fresh(fresh)),
        Action::Finish(Verdict::Settled(Settlement::Recorded))
    );

    let nothing = Action::Finish(Verdict::Settled(Settlement::Nothing));
    assert_eq!(inner.advance(&walk, &mut engine, Event::Done), nothing);
    assert_eq!(outer.advance(&walk, &mut engine, Event::Done), nothing);
    assert_eq!(engine.catalog().find(&dir, "/a/d/e/f", "r/d/e/f"), Some(fresh));
    assert_eq!(engine.catalog().find(&dir, "/a/d", "r/d"), Some(Baseline { local: 10, remote: 20 }));
    assert_eq!(engine.board().pending_errors(), 0);
    assert_eq!(walk.consider(&engine, false, Origin::Remote, "r/d/e/f"), Admission::Visited);
}

#[test]
fn run_over_a_local_deletion_purges_the_remote_file() {
    let (mut engine, dir, mut walk) = setup();
    engine.record_baseline(&dir, "/a/x", "r/x", Baseline { local: 10, remote: 20 });
    let mut run = match walk.consider(&engine, false, Origin::Remote, "r/x") {
        Admission::Candidate(candidate) => ItemRun::start(candidate),
        other => panic!("not taken up: {:?}", other),
    };
    run.advance(&walk, &mut engine, Event::Local(None));
    assert_eq!(
        run.advance(&walk, &mut engine, remote(20, false)),
        Action::Perform(Step::PurgeRemote)
    );
    assert_eq!(
        run.advance(&walk, &mut engine, Event::Done),
        Action::Finish(Verdict::Settled(Settlement::Dropped))
    );
    assert_eq!(engine.catalog().find(&dir, "/a/x", "r/x"), None);
    assert_eq!(engine.board().pending_errors(), 0);
}

#[test]
fn run_hands_back_the_candidate_it_was_started_with() {
    let candidate = Candidate {
        local_path: "/a/one".to_string(),
        remote_path: "r/two".to_string(),
        relative: "three".to_string(),
    };
    let run = ItemRun::start(candidate);
    assert_eq!(run.candidate().local_path, "/a/one");
    assert_eq!(run.candidate().remote_path, "r/two");
    assert_eq!(run.candidate().relative, "three");
}
