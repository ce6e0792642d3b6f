use celeste::board::SyncError;
use celeste::catalog::SyncDir;
use celeste::engine::Engine;
use celeste::ignore::IgnoreSet;
use celeste::plan::{plan, Step};
use celeste::resolver::{Baseline, LocalStat, RemoteStat, Resolution};
use celeste::walk::{Admission, Candidate, Origin, Settlement, Walk};

fn setup(rules: &str) -> (Engine, SyncDir, Walk) {
    let mut engine = Engine::new();
    engine.add_remote("drive");
    let dir = SyncDir::new("drive", "/a", "");
    engine.add_dir(dir.clone());
    let walk = Walk::begin(dir.clone(), IgnoreSet::parse(rules));
    (engine, dir, walk)
}

fn taken(said: Admission) -> Candidate {
    match said {
        Admission::Candidate(candidate) => candidate,
        other => panic!("not taken up: {:?}", other),
    }
}

fn file(modified: u64) -> Option<LocalStat> {
    Some(LocalStat { modified, is_dir: false })
}

fn rfile(modified: i64) -> Option<RemoteStat> {
    Some(RemoteStat { modified, is_dir: false })
}

#[test]
fn new_local_file_is_pushed_and_then_left_alone() {
    let (mut engine, dir, mut walk) = setup("");
    let t1 = 1000;
    let t_push = 1005;
    let x = taken(walk.consider(&engine, false, Origin::Local, "/a/x"));
    assert_eq!(x.local_path, "/a/x");
    assert_eq!(x.remote_path, "x");
    let resolution = walk.decide(&engine, &x, file(t1), None);
    assert_eq!(resolution, Resolution::Push);
    assert_eq!(plan(resolution, file(t1), None), vec![Step::CopyToRemote]);
    let fresh = Baseline { local: t1, remote: t_push };
    assert_eq!(walk.settle(&mut engine, &x, resolution, Some(fresh)), Settlement::Recorded);
    assert_eq!(engine.catalog().find(&dir, "/a/x", "x"), Some(fresh));

    let mut next = Walk::begin(dir.clone(), IgnoreSet::empty());
    let x = taken(next.consider(&engine, false, Origin::Local, "/a/x"));
    let resolution = next.decide(&engine, &x, file(t1), rfile(t_push));
    assert_eq!(resolution, Resolution::NoOp);
    assert!(plan(resolution, file(t1), rfile(t_push)).is_empty());
    assert_eq!(next.settle(&mut engine, &x, resolution, None), Settlement::Nothing);
    assert_eq!(engine.catalog().find(&dir, "/a/x", "x"), Some(fresh));
    assert_eq!(engine.board().pending_errors(), 0);
}

#[test]
fn local_change_against_a_baseline_is_pushed() {
    let (mut engine, dir, mut walk) = setup("");
    engine.record_baseline(&dir, "/a/x", "x", Baseline { local: 100, remote: 200 });
    let x = taken(walk.consider(&engine, false, Origin::Local, "/a/x"));
    let resolution = walk.decide(&engine, &x, file(150), rfile(200));
    assert_eq!(resolution, Resolution::Push);
    let t_push = 260;
    let fresh = Baseline { local: 150, remote: t_push };
    assert_eq!(walk.settle(&mut engine, &x, resolution, Some(fresh)), Settlement::Recorded);
    assert_eq!(engine.catalog().find(&dir, "/a/x", "x"), Some(Baseline { local: 150, remote: 260 }));
}

#[test]
fn remote_change_against_a_baseline_is_pulled() {
    let (mut engine, dir, mut walk) = setup("");
    engine.record_baseline(&dir, "/a/x", "x", Baseline { local: 100, remote: 200 });
    let x = taken(walk.consider(&engine, false, Origin::Remote, "x"));
    let resolution = walk.decide(&engine, &x, file(100), rfile(300));
    assert_eq!(resolution, Resolution::Pull);
    let fresh = Baseline { local: 310, remote: 300 };
    assert_eq!(walk.settle(&mut engine, &x, resolution, Some(fresh)), Settlement::Recorded);
    assert_eq!(engine.catalog().find(&dir, "/a/x", "x"), Some(fresh));
    assert_eq!(walk.decide(&engine, &x, file(310), rfile(300)), Resolution::NoOp);
}

#[test]
fn second_pass_after_a_full_pass_is_idle() {
    let (mut engine, dir, mut walk) = setup("");
    let entries = [("x", 10u64, 20i64), ("sub/y", 30, 40), ("z", 50, 60)];
    for (relative, l, r) in entries {
        let local = format!("/a/{}", relative);
        let c = taken(walk.consider(&engine, false, Origin::Local, &local));
        let resolution = walk.decide(&engine, &c, file(l), None);
        assert_eq!(resolution, Resolution::Push);
        walk.settle(&mut engine, &c, resolution, Some(Baseline { local: l, remote: r }));
    }
    let mut second = Walk::begin(dir.clone(), IgnoreSet::empty());
    for (relative, l, r) in entries {
        let local = format!("/a/{}", relative);
        let c = taken(second.consider(&engine, false, Origin::Local, &local));
        let resolution = second.decide(&engine, &c, file(l), rfile(r));
        assert_eq!(resolution, Resolution::NoOp);
        assert!(plan(resolution, file(l), rfile(r)).is_empty());
        assert_eq!(second.settle(&mut engine, &c, resolution, None), Settlement::Nothing);
        assert_eq!(engine.catalog().find(&dir, &local, relative), Some(Baseline { local: l, remote: r }));
    }
    for (relative, _, _) in entries {
        assert_eq!(second.consider(&engine, false, Origin::Remote, relative), Admission::Visited);
    }
    assert_eq!(engine.board().pending_errors(), 0);
}

#[test]
fn changes_on_both_sides_raise_one_conflict_and_move_nothing() {
    let (mut engine, dir, mut walk) = setup("");
    engine.record_baseline(&dir, "/a/x", "x", Baseline { local: 100, remote: 200 });
    let x = taken(walk.consider(&engine, false, Origin::Local, "/a/x"));
    let resolution = walk.decide(&engine, &x, file(101), rfile(201));
    assert_eq!(resolution, Resolution::Conflict);
    assert!(plan(resolution, file(101), rfile(201)).is_empty());
    assert_eq!(walk.settle(&mut engine, &x, resolution, None), Settlement::Raised);
    assert_eq!(
        engine.board().errors_of(&dir),
        vec![SyncError::BothMoreCurrent("/a/x".to_string(), "x".to_string())]
    );
    assert_eq!(engine.catalog().find(&dir, "/a/x", "x"), Some(Baseline { local: 100, remote: 200 }));
    assert_eq!(walk.settle(&mut engine, &x, resolution, None), Settlement::Nothing);
    assert_eq!(engine.board().pending_errors(), 1);
    assert!(!engine.is_due(&dir));
}

#[test]
fn remote_deletion_drops_the_baseline_without_an_error() {
    let (mut engine, dir, mut walk) = setup("");
    engine.record_baseline(&dir, "/a/x", "x", Baseline { local: 100, remote: 200 });
    let x = taken(walk.consider(&engine, false, Origin::Local, "/a/x"));
    let resolution = walk.decide(&engine, &x, file(100), None);
    assert_eq!(resolution, Resolution::RemoveLocal);
    assert_eq!(plan(resolution, file(100), None), vec![Step::RemoveLocalFile]);
    assert_eq!(walk.settle(&mut engine, &x, resolution, None), Settlement::Dropped);
    assert_eq!(engine.catalog().find(&dir, "/a/x", "x"), None);
    assert_eq!(engine.board().pending_errors(), 0);
}

#[test]
fn local_deletion_drops_the_baseline_without_an_error() {
    let (mut engine, dir, mut walk) = setup("");
    engine.record_baseline(&dir, "/a/x", "x", Baseline { local: 100, remote: 200 });
    let x = taken(walk.consider(&engine, false, Origin::Remote, "x"));
    let resolution = walk.decide(&engine, &x, None, rfile(200));
    assert_eq!(resolution, Resolution::RemoveRemote);
    assert_eq!(walk.settle(&mut engine, &x, resolution, None), Settlement::Dropped);
    assert_eq!(engine.catalog().find(&dir, "/a/x", "x"), None);
    assert_eq!(engine.board().pending_errors(), 0);
}

#[test]
fn ignored_path_is_taken_up_from_neither_tree() {
    let (mut engine, dir, mut walk) = setup("*.tmp\nbuild/*");
    assert_eq!(walk.consider(&engine, false, Origin::Local, "/a/x.tmp"), Admission::Ignored);
    assert_eq!(walk.consider(&engine, false, Origin::Remote, "x.tmp"), Admission::Ignored);
    assert_eq!(walk.consider(&engine, false, Origin::Local, "/a/build/out"), Admission::Ignored);
    assert!(!walk.has_visited("x.tmp"));
    let forged = Candidate {
        local_path: "/a/x.tmp".to_string(),
        remote_path: "x.tmp".to_string(),
        relative: "x.tmp".to_string(),
    };
    let fresh = Some(Baseline { local: 1, remote: 1 });
    assert_eq!(walk.settle(&mut engine, &forged, Resolution::Push, fresh), Settlement::Refused);
    assert_eq!(walk.settle(&mut engine, &forged, Resolution::Conflict, None), Settlement::Refused);
    assert_eq!(engine.catalog().find(&dir, "/a/x.tmp", "x.tmp"), None);
    assert_eq!(engine.board().pending_errors(), 0);
    let kept = taken(walk.consider(&engine, false, Origin::Local, "/a/x.txt"));
    assert_eq!(kept.relative, "x.txt");
}

#[test]
fn rules_match_the_path_below_the_remote_root() {
    let mut engine = Engine::new();
    engine.add_remote("drive");
    let dir = SyncDir::new("drive", "/home/u/docs", "backup/docs");
    engine.add_dir(dir.clone());
    let mut walk = Walk::begin(dir, IgnoreSet::parse("secret\nbackup/*"));
    assert_eq!(
        walk.consider(&engine, false, Origin::Remote, "backup/docs/secret"),
        Admission::Ignored
    );
    assert_eq!(
        walk.consider(&engine, false, Origin::Local, "/home/u/docs/secret"),
        Admission::Ignored
    );
    let c = taken(walk.consider(&engine, false, Origin::Remote, "backup/docs/open"));
    assert_eq!(c.relative, "open");
    assert_eq!(c.local_path, "/home/u/docs/open");
    assert_eq!(c.remote_path, "backup/docs/open");
}

#[test]
fn walk_stops_when_asked_to() {
    let (engine, _, mut walk) = setup("");
    assert_eq!(walk.consider(&engine, true, Origin::Local, "/a/x"), Admission::Stop);
    assert_eq!(walk.consider(&engine, true, Origin::Remote, "x"), Admission::Stop);
    assert!(!walk.has_visited("x"));
}

#[test]
fn walk_stops_once_its_dir_is_removed() {
    let (mut engine, _, mut walk) = setup("");
    let x = taken(walk.consider(&engine, false, Origin::Local, "/a/x"));
    engine.enqueue_syncdir("drive", "/a", "");
    let y = taken(walk.consider(&engine, false, Origin::Local, "/a/y"));
    assert_eq!(y.relative, "y");
    engine.drain_and_process();
    assert_eq!(walk.consider(&engine, false, Origin::Local, "/a/z"), Admission::Stop);
    let fresh = Some(Baseline { local: 1, remote: 2 });
    assert_eq!(walk.settle(&mut engine, &x, Resolution::Push, fresh), Settlement::Nothing);
    assert_eq!(engine.catalog().find(walk.dir(), "/a/x", "x"), None);
}

#[test]
fn removal_of_a_sibling_dir_leaves_the_walk_alone() {
    let (mut engine, dir, mut walk) = setup("");
    let sibling = SyncDir::new("drive", "/b", "b");
    engine.add_dir(sibling.clone());
    engine.record_baseline(&sibling, "/b/k", "b/k", Baseline { local: 7, remote: 8 });
    let x = taken(walk.consider(&engine, false, Origin::Local, "/a/x"));
    engine.enqueue_syncdir("drive", "/b", "b");
    assert_eq!(engine.catalog().find(&sibling, "/b/k", "b/k"), Some(Baseline { local: 7, remote: 8 }));
    assert_eq!(walk.decide(&engine, &x, file(5), None), Resolution::Push);
    let fresh = Baseline { local: 5, remote: 6 };
    assert_eq!(walk.settle(&mut engine, &x, Resolution::Push, Some(fresh)), Settlement::Recorded);
    engine.drain_and_process();
    assert!(!engine.catalog().has_dir(&sibling));
    assert_eq!(engine.catalog().find(&sibling, "/b/k", "b/k"), None);
    assert_eq!(engine.catalog().find(&dir, "/a/x", "x"), Some(fresh));
    let y = taken(walk.consider(&engine, false, Origin::Local, "/a/y"));
    assert_eq!(y.remote_path, "y");
}

#[test]
fn path_outside_the_root_is_not_taken_up() {
    let (engine, _, mut walk) = setup("");
    assert_eq!(walk.consider(&engine, false, Origin::Local, "/b/x"), Admission::Outside);
    assert_eq!(walk.consider(&engine, false, Origin::Local, "/a"), Admission::Outside);
    assert_eq!(walk.consider(&engine, false, Origin::Local, "/a/"), Admission::Outside);
    assert_eq!(walk.consider(&engine, false, Origin::Remote, ""), Admission::Outside);
}

#[test]
fn remote_tree_leaves_out_what_the_local_tree_showed() {
    let (engine, _, mut walk) = setup("");
    taken(walk.consider(&engine, false, Origin::Local, "/a/x"));
    assert!(walk.has_visited("x"));
    assert_eq!(walk.consider(&engine, false, Origin::Remote, "x"), Admission::Visited);
    let y = taken(walk.consider(&engine, false, Origin::Remote, "y"));
    assert_eq!(y.local_path, "/a/y");
    assert_eq!(walk.consider(&engine, false, Origin::Remote, "y"), Admission::Visited);
    let again = taken(walk.consider(&engine, false, Origin::Local, "/a/y"));
    assert_eq!(again.relative, "y");
}

#[test]
fn transfer_without_fresh_timestamps_records_nothing() {
    let (mut engine, dir, mut walk) = setup("");
    let x = taken(walk.consider(&engine, false, Origin::Local, "/a/x"));
    assert_eq!(walk.settle(&mut engine, &x, Resolution::Push, None), Settlement::Nothing);
    assert_eq!(walk.settle(&mut engine, &x, Resolution::Violation, None), Settlement::Nothing);
    assert_eq!(walk.settle(&mut engine, &x, Resolution::Forget, None), Settlement::Nothing);
    assert_eq!(engine.catalog().find(&dir, "/a/x", "x"), None);
}

#[test]
fn failure_is_listed_as_a_general_error() {
    let (mut engine, dir, walk) = setup("");
    assert!(walk.report_failure(&mut engine, "x", "connection reset"));
    assert!(!walk.report_failure(&mut engine, "x", "connection reset"));
    assert_eq!(
        engine.board().errors_of(&dir),
        vec![SyncError::General("x".to_string(), "connection reset".to_string())]
    );
    assert!(!engine.is_due(&dir));
}

#[test]
fn walk_hands_out_its_dir_and_rules() {
    let (_, dir, walk) = setup("*.tmp");
    assert_eq!(walk.dir(), &dir);
    assert_eq!(walk.rules().len(), 1);
    assert!(walk.rules().matches("a.tmp"));
}
