use celeste::catalog::{Catalog, SyncDir};
use celeste::pairing::{check_pair, propose, strip_slashes, LocalProbe, PairError, RemoteProbe};

#[test]
fn strip_slashes_drops_the_outer_slashes() {
    assert_eq!(strip_slashes("/home/u/docs/"), "home/u/docs");
    assert_eq!(strip_slashes("home/u"), "home/u");
    assert_eq!(strip_slashes("//a//b//"), "a//b");
    assert_eq!(strip_slashes("/"), "");
    assert_eq!(strip_slashes("///"), "");
    assert_eq!(strip_slashes(""), "");
    assert_eq!(strip_slashes("/ü/"), "ü");
}

#[test]
fn proposed_local_root_starts_with_one_slash() {
    let dir = propose("drive", "/home/u/docs/", "/backup/docs/");
    assert_eq!(dir, SyncDir::new("drive", "/home/u/docs", "backup/docs"));
    let dir = propose("drive", "home/u", "");
    assert_eq!(dir, SyncDir::new("drive", "/home/u", ""));
    let dir = propose("drive", "//x", "/");
    assert_eq!(dir, SyncDir::new("drive", "/x", ""));
}

fn catalog_with(dir: &SyncDir) -> Catalog {
    let mut catalog = Catalog::new();
    catalog.add_remote("drive");
    catalog.add_dir(dir.clone());
    catalog
}

#[test]
fn pair_with_both_directories_can_be_added() {
    let dir = propose("drive", "/a", "a");
    let catalog = Catalog::new();
    assert_eq!(check_pair(&catalog, &dir, &RemoteProbe::Found, LocalProbe::Directory), Ok(()));
}

#[test]
fn unreachable_remote_is_reported_with_its_message() {
    let dir = propose("drive", "/a", "a");
    let catalog = catalog_with(&dir);
    let probe = RemoteProbe::Failed("no route".to_string());
    assert_eq!(
        check_pair(&catalog, &dir, &probe, LocalProbe::Missing),
        Err(PairError::RemoteUnreachable("no route".to_string()))
    );
}

#[test]
fn missing_remote_directory_is_reported_first() {
    let dir = propose("drive", "/a", "a");
    let catalog = catalog_with(&dir);
    assert_eq!(
        check_pair(&catalog, &dir, &RemoteProbe::Missing, LocalProbe::Missing),
        Err(PairError::RemoteMissing)
    );
}

#[test]
fn known_pair_is_reported_before_the_local_side() {
    let dir = propose("drive", "/a", "a");
    let catalog = catalog_with(&dir);
    assert_eq!(
        check_pair(&catalog, &dir, &RemoteProbe::Found, LocalProbe::Missing),
        Err(PairError::AlreadySynced)
    );
    assert_eq!(
        check_pair(&catalog, &dir, &RemoteProbe::Found, LocalProbe::Directory),
        Err(PairError::AlreadySynced)
    );
}

#[test]
fn same_roots_under_another_remote_are_another_pair() {
    let dir = propose("drive", "/a", "a");
    let catalog = catalog_with(&dir);
    let other = propose("box", "/a", "a");
    assert_eq!(check_pair(&catalog, &other, &RemoteProbe::Found, LocalProbe::Directory), Ok(()));
}

#[test]
fn local_side_must_be_a_directory() {
    let dir = propose("drive", "/a", "a");
    let catalog = Catalog::new();
    assert_eq!(
        check_pair(&catalog, &dir, &RemoteProbe::Found, LocalProbe::Missing),
        Err(PairError::LocalMissing)
    );
    assert_eq!(
        check_pair(&catalog, &dir, &RemoteProbe::Found, LocalProbe::File),
        Err(PairError::LocalNotDirectory)
    );
}
