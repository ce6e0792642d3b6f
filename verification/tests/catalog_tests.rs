use celeste::catalog::{Catalog, SyncDir, SyncItem};
use celeste::resolver::Baseline;

fn item(dir: &SyncDir, local: &str, remote: &str, l: u64, r: i64) -> SyncItem {
    SyncItem {
        dir: dir.clone(),
        local_path: local.to_string(),
        remote_path: remote.to_string(),
        last_local_timestamp: l,
        last_remote_timestamp: r,
    }
}

fn stocked() -> (Catalog, SyncDir, SyncDir, SyncDir) {
    let mut catalog = Catalog::new();
    assert!(catalog.add_remote("drive"));
    assert!(catalog.add_remote("box"));
    let docs = SyncDir::new("drive", "/home/u/docs", "docs");
    let pics = SyncDir::new("drive", "/home/u/pics", "");
    let misc = SyncDir::new("box", "/home/u/docs", "docs");
    assert!(catalog.add_dir(docs.clone()));
    assert!(catalog.add_dir(pics.clone()));
    assert!(catalog.add_dir(misc.clone()));
    assert!(catalog.upsert(item(&docs, "/home/u/docs/a", "docs/a", 1, 2)));
    assert!(catalog.upsert(item(&docs, "/home/u/docs/b", "docs/b", 3, 4)));
    assert!(catalog.upsert(item(&pics, "/home/u/pics/p", "p", 5, 6)));
    assert!(catalog.upsert(item(&misc, "/home/u/docs/a", "docs/a", 7, 8)));
    (catalog, docs, pics, misc)
}

#[test]
fn new_catalog_is_empty() {
    let catalog = Catalog::new();
    assert!(!catalog.has_remote("drive"));
    assert!(catalog.remote_names().is_empty());
    assert!(catalog.dirs_of("drive").is_empty());
    let dir = SyncDir::new("drive", "/a", "a");
    assert!(!catalog.has_dir(&dir));
    assert_eq!(catalog.find(&dir, "/a/x", "a/x"), None);
}

#[test]
fn sync_dir_keeps_its_parts() {
    let dir = SyncDir::new("drive", "/home/u/docs", "docs");
    assert_eq!(dir.remote, "drive");
    assert_eq!(dir.local_path, "/home/u/docs");
    assert_eq!(dir.remote_path, "docs");
    assert!(dir.same_as(&dir.clone()));
    assert!(!dir.same_as(&SyncDir::new("drive", "/home/u/docs", "")));
    assert!(!dir.same_as(&SyncDir::new("drive", "/home/u", "docs")));
    assert!(!dir.same_as(&SyncDir::new("box", "/home/u/docs", "docs")));
}

#[test]
fn remote_is_registered_once() {
    let mut catalog = Catalog::new();
    assert!(catalog.add_remote("drive"));
    assert!(!catalog.add_remote("drive"));
    assert!(catalog.has_remote("drive"));
    assert!(!catalog.has_remote("Drive"));
    assert_eq!(catalog.remote_names(), vec!["drive"]);
}

#[test]
fn remotes_are_listed_in_registration_order() {
    let mut catalog = Catalog::new();
    catalog.add_remote("b");
    catalog.add_remote("a");
    catalog.add_remote("c");
    assert_eq!(catalog.remote_names(), vec!["b", "a", "c"]);
}

#[test]
fn dir_needs_a_known_remote() {
    let mut catalog = Catalog::new();
    let dir = SyncDir::new("drive", "/a", "a");
    assert!(!catalog.add_dir(dir.clone()));
    assert!(!catalog.has_dir(&dir));
    catalog.add_remote("drive");
    assert!(catalog.add_dir(dir.clone()));
    assert!(catalog.has_dir(&dir));
}

#[test]
fn dir_pair_is_unique_per_remote() {
    let (mut catalog, docs, _, misc) = stocked();
    assert!(!catalog.add_dir(docs.clone()));
    assert_eq!(catalog.dirs_of("drive").len(), 2);
    assert!(catalog.has_dir(&misc));
    assert_eq!(catalog.dirs_of("box"), vec![misc]);
}

#[test]
fn dirs_of_lists_the_pairs_of_one_remote() {
    let (catalog, docs, pics, _) = stocked();
    assert_eq!(catalog.dirs_of("drive"), vec![docs, pics]);
    assert!(catalog.dirs_of("nowhere").is_empty());
}

#[test]
fn find_returns_the_recorded_timestamps() {
    let (catalog, docs, pics, misc) = stocked();
    assert_eq!(catalog.find(&docs, "/home/u/docs/a", "docs/a"), Some(Baseline { local: 1, remote: 2 }));
    assert_eq!(catalog.find(&docs, "/home/u/docs/b", "docs/b"), Some(Baseline { local: 3, remote: 4 }));
    assert_eq!(catalog.find(&pics, "/home/u/pics/p", "p"), Some(Baseline { local: 5, remote: 6 }));
    assert_eq!(catalog.find(&misc, "/home/u/docs/a", "docs/a"), Some(Baseline { local: 7, remote: 8 }));
}

#[test]
fn find_is_keyed_by_dir_and_both_paths() {
    let (catalog, docs, pics, _) = stocked();
    assert_eq!(catalog.find(&docs, "/home/u/docs/a", "docs/b"), None);
    assert_eq!(catalog.find(&docs, "/home/u/docs/b", "docs/a"), None);
    assert_eq!(catalog.find(&pics, "/home/u/docs/a", "docs/a"), None);
}

#[test]
fn upsert_replaces_an_earlier_baseline() {
    let (mut catalog, docs, _, misc) = stocked();
    assert!(catalog.upsert(item(&docs, "/home/u/docs/a", "docs/a", 10, -20)));
    assert_eq!(
        catalog.find(&docs, "/home/u/docs/a", "docs/a"),
        Some(Baseline { local: 10, remote: -20 })
    );
    assert_eq!(catalog.find(&docs, "/home/u/docs/b", "docs/b"), Some(Baseline { local: 3, remote: 4 }));
    assert_eq!(catalog.find(&misc, "/home/u/docs/a", "docs/a"), Some(Baseline { local: 7, remote: 8 }));
}

#[test]
fn upsert_needs_a_known_dir() {
    let (mut catalog, _, _, _) = stocked();
    let stray = SyncDir::new("drive", "/elsewhere", "x");
    assert!(!catalog.upsert(item(&stray, "/elsewhere/a", "x/a", 1, 1)));
    assert_eq!(catalog.find(&stray, "/elsewhere/a", "x/a"), None);
}

#[test]
fn delete_drops_one_baseline() {
    let (mut catalog, docs, _, misc) = stocked();
    assert!(catalog.delete(&docs, "/home/u/docs/a", "docs/a"));
    assert_eq!(catalog.find(&docs, "/home/u/docs/a", "docs/a"), None);
    assert!(!catalog.delete(&docs, "/home/u/docs/a", "docs/a"));
    assert_eq!(catalog.find(&docs, "/home/u/docs/b", "docs/b"), Some(Baseline { local: 3, remote: 4 }));
    assert_eq!(catalog.find(&misc, "/home/u/docs/a", "docs/a"), Some(Baseline { local: 7, remote: 8 }));
}

#[test]
fn removing_a_dir_removes_its_baselines() {
    let (mut catalog, docs, pics, misc) = stocked();
    assert!(catalog.remove_dir(&docs));
    assert!(!catalog.has_dir(&docs));
    assert_eq!(catalog.find(&docs, "/home/u/docs/a", "docs/a"), None);
    assert_eq!(catalog.find(&docs, "/home/u/docs/b", "docs/b"), None);
    assert!(catalog.has_dir(&pics));
    assert_eq!(catalog.find(&pics, "/home/u/pics/p", "p"), Some(Baseline { local: 5, remote: 6 }));
    assert_eq!(catalog.find(&misc, "/home/u/docs/a", "docs/a"), Some(Baseline { local: 7, remote: 8 }));
    assert!(catalog.has_remote("drive"));
    assert!(!catalog.remove_dir(&docs));
}

#[test]
fn removed_dir_that_comes_back_starts_without_baselines() {
    let (mut catalog, docs, _, _) = stocked();
    catalog.remove_dir(&docs);
    assert!(catalog.add_dir(docs.clone()));
    assert_eq!(catalog.find(&docs, "/home/u/docs/a", "docs/a"), None);
}

#[test]
fn removing_a_remote_removes_its_dirs_and_baselines() {
    let (mut catalog, docs, pics, misc) = stocked();
    assert!(catalog.remove_remote("drive"));
    assert!(!catalog.has_remote("drive"));
    assert!(!catalog.has_dir(&docs));
    assert!(!catalog.has_dir(&pics));
    assert_eq!(catalog.find(&docs, "/home/u/docs/a", "docs/a"), None);
    assert_eq!(catalog.find(&pics, "/home/u/pics/p", "p"), None);
    assert!(catalog.has_remote("box"));
    assert!(catalog.has_dir(&misc));
    assert_eq!(catalog.find(&misc, "/home/u/docs/a", "docs/a"), Some(Baseline { local: 7, remote: 8 }));
    assert_eq!(catalog.remote_names(), vec!["box"]);
    assert!(!catalog.remove_remote("drive"));
}

#[test]
fn timestamps_are_kept_to_their_limits() {
    let (mut catalog, docs, _, _) = stocked();
    catalog.upsert(item(&docs, "/home/u/docs/z", "docs/z", u64::MAX, i64::MIN));
    assert_eq!(
        catalog.find(&docs, "/home/u/docs/z", "docs/z"),
        Some(Baseline { local: u64::MAX, remote: i64::MIN })
    );
}

#[test]
fn items_of_lists_the_baselines_of_one_dir() {
    let (catalog, docs, pics, _) = stocked();
    assert_eq!(
        catalog.items_of(&docs),
        vec![
            item(&docs, "/home/u/docs/a", "docs/a", 1, 2),
            item(&docs, "/home/u/docs/b", "docs/b", 3, 4),
        ]
    );
    assert_eq!(catalog.items_of(&pics), vec![item(&pics, "/home/u/pics/p", "p", 5, 6)]);
    assert!(catalog.items_of(&SyncDir::new("drive", "/nowhere", "")).is_empty());
}

#[test]
fn catalog_without_remotes_says_so() {
    let mut catalog = Catalog::new();
    assert!(catalog.has_no_remote());
    catalog.add_remote("drive");
    assert!(!catalog.has_no_remote());
    catalog.remove_remote("drive");
    assert!(catalog.has_no_remote());
}
