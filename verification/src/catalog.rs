//! The records a sync pass works from: the remotes, the synchronized pairs
//! of each remote, and the baseline of every item that was reconciled.
//!
//! A pair belongs to a remote and an item to a pair. Removing a pair removes
//! its items, and removing a remote removes its pairs and their items.

use vstd::prelude::*;
use vstd::string::*;
use crate::resolver::Baseline;

verus! {

/// The identity of a synchronized pair.
pub struct DirKey {
    pub remote: Seq<char>,
    pub local_root: Seq<char>,
    pub remote_root: Seq<char>,
}

/// The identity of an item within a synchronized pair.
pub struct ItemKey {
    pub dir: DirKey,
    pub local_path: Seq<char>,
    pub remote_path: Seq<char>,
}

/// One synchronized pair: a local directory and a directory on a remote.
#[derive(Debug, PartialEq, Eq)]
pub struct SyncDir {
    /// The name of the remote the pair belongs to.
    pub remote: String,
    /// The absolute local path of the pair's root.
    pub local_path: String,
    /// The pair's root on the remote, empty for the top of the remote.
    pub remote_path: String,
}

impl View for SyncDir {
    type V = DirKey;

    open spec fn view(&self) -> DirKey {
        DirKey {
            remote: self.remote@,
            local_root: self.local_path@,
            remote_root: self.remote_path@,
        }
    }
}

impl Clone for SyncDir {
    fn clone(&self) -> (copy: Self)
        ensures
            copy@ == self@,
    {
        SyncDir {
            remote: self.remote.clone(),
            local_path: self.local_path.clone(),
            remote_path: self.remote_path.clone(),
        }
    }
}

impl SyncDir {
    /// Builds a pair from its three parts.
    pub fn new(remote: &str, local_path: &str, remote_path: &str) -> (dir: Self)
        ensures
            dir@ == (DirKey { remote: remote@, local_root: local_path@, remote_root: remote_path@ }),
    {
        SyncDir {
            remote: String::from_str(remote),
            local_path: String::from_str(local_path),
            remote_path: String::from_str(remote_path),
        }
    }

    /// Whether two pairs are the same pair.
    pub fn same_as(&self, other: &SyncDir) -> (same: bool)
        ensures
            same == (self@ == other@),
    {
        self.remote == other.remote && self.local_path == other.local_path && self.remote_path
            == other.remote_path
    }
}

/// The baseline of one item: where it lives on both sides and the
/// timestamps both sides had when they last agreed.
#[derive(Debug, PartialEq, Eq)]
pub struct SyncItem {
    pub dir: SyncDir,
    pub local_path: String,
    pub remote_path: String,
    pub last_local_timestamp: u64,
    pub last_remote_timestamp: i64,
}

impl SyncItem {
    pub open spec fn key(&self) -> ItemKey {
        ItemKey { dir: self.dir@, local_path: self.local_path@, remote_path: self.remote_path@ }
    }

    pub open spec fn baseline(&self) -> Baseline {
        Baseline { local: self.last_local_timestamp, remote: self.last_remote_timestamp }
    }
}

impl Clone for SyncItem {
    fn clone(&self) -> (copy: Self)
        ensures
            copy.key() == self.key(),
            copy.baseline() == self.baseline(),
    {
        SyncItem {
            dir: self.dir.clone(),
            local_path: self.local_path.clone(),
            remote_path: self.remote_path.clone(),
            last_local_timestamp: self.last_local_timestamp,
            last_remote_timestamp: self.last_remote_timestamp,
        }
    }
}

/// The item keys that do not belong to the pair `dir`.
pub open spec fn keys_outside_dir(dir: DirKey) -> Set<ItemKey> {
    Set::new(|k: ItemKey| k.dir != dir)
}

/// The item keys that do not belong to a pair of the remote `name`.
pub open spec fn keys_outside_remote(name: Seq<char>) -> Set<ItemKey> {
    Set::new(|k: ItemKey| k.dir.remote != name)
}

/// The pairs of `dirs` that do not belong to the remote `name`.
pub open spec fn dirs_outside_remote(dirs: Set<DirKey>, name: Seq<char>) -> Set<DirKey> {
    Set::new(|d: DirKey| dirs.contains(d) && d.remote != name)
}

/// The pairs of `dirs` that belong to the remote `name`.
pub open spec fn dirs_of_remote(dirs: Set<DirKey>, name: Seq<char>) -> Set<DirKey> {
    Set::new(|d: DirKey| dirs.contains(d) && d.remote == name)
}

/// What a catalog holds, as sets and a map.
pub struct CatalogView {
    /// The names of the remotes.
    pub remotes: Set<Seq<char>>,
    /// The synchronized pairs.
    pub dirs: Set<DirKey>,
    /// The baseline of every reconciled item.
    pub items: Map<ItemKey, Baseline>,
}

impl CatalogView {
    /// Every pair belongs to a known remote and every item to a known pair.
    pub open spec fn consistent(self) -> bool {
        &&& forall|d: DirKey| #[trigger] self.dirs.contains(d) ==> self.remotes.contains(d.remote)
        &&& forall|k: ItemKey| #[trigger] self.items.contains_key(k) ==> self.dirs.contains(k.dir)
    }

    pub open spec fn with_remote(self, name: Seq<char>) -> CatalogView {
        CatalogView { remotes: self.remotes.insert(name), ..self }
    }

    /// A pair is only taken for a remote that is known.
    pub open spec fn with_dir(self, dir: DirKey) -> CatalogView {
        if self.remotes.contains(dir.remote) {
            CatalogView { dirs: self.dirs.insert(dir), ..self }
        } else {
            self
        }
    }

    /// A baseline is only taken for a pair that is known.
    pub open spec fn with_item(self, key: ItemKey, baseline: Baseline) -> CatalogView {
        if self.dirs.contains(key.dir) {
            CatalogView { items: self.items.insert(key, baseline), ..self }
        } else {
            self
        }
    }

    pub open spec fn without_item(self, key: ItemKey) -> CatalogView {
        CatalogView { items: self.items.remove(key), ..self }
    }

    /// Removing a pair removes its items with it.
    pub open spec fn without_dir(self, dir: DirKey) -> CatalogView {
        CatalogView {
            remotes: self.remotes,
            dirs: self.dirs.remove(dir),
            items: self.items.restrict(keys_outside_dir(dir)),
        }
    }

    /// Removing a remote removes its pairs and their items with it.
    pub open spec fn without_remote(self, name: Seq<char>) -> CatalogView {
        CatalogView {
            remotes: self.remotes.remove(name),
            dirs: dirs_outside_remote(self.dirs, name),
            items: self.items.restrict(keys_outside_remote(name)),
        }
    }
}

/// Whether a list of names holds `name`.
pub open spec fn holds_name(names: Seq<String>, name: Seq<char>) -> bool {
    exists|i: int| 0 <= i < names.len() && (#[trigger] names[i])@ == name
}

/// Whether a list of pairs holds `dir`.
pub open spec fn holds_dir(dirs: Seq<SyncDir>, dir: DirKey) -> bool {
    exists|i: int| 0 <= i < dirs.len() && (#[trigger] dirs[i])@ == dir
}

/// Whether a list of items holds one with the key `key`.
pub open spec fn holds_item(items: Seq<SyncItem>, key: ItemKey) -> bool {
    exists|i: int| 0 <= i < items.len() && (#[trigger] items[i]).key() == key
}

spec fn slot_of(items: Seq<SyncItem>, key: ItemKey) -> int {
    choose|i: int| 0 <= i < items.len() && (#[trigger] items[i]).key() == key
}

pub open spec fn distinct_names(names: Seq<String>) -> bool {
    forall|i: int, j: int| 0 <= i < j < names.len() ==> (#[trigger] names[i])@ != (#[trigger] names[j])@
}

pub open spec fn distinct_dirs(dirs: Seq<SyncDir>) -> bool {
    forall|i: int, j: int| 0 <= i < j < dirs.len() ==> (#[trigger] dirs[i])@ != (#[trigger] dirs[j])@
}

pub open spec fn distinct_items(items: Seq<SyncItem>) -> bool {
    forall|i: int, j: int|
        0 <= i < j < items.len() ==> (#[trigger] items[i]).key() != (#[trigger] items[j]).key()
}

spec fn parts_wf(remotes: Seq<String>, dirs: Seq<SyncDir>, items: Seq<SyncItem>) -> bool {
    &&& distinct_names(remotes)
    &&& distinct_dirs(dirs)
    &&& distinct_items(items)
    &&& forall|i: int| 0 <= i < dirs.len() ==> holds_name(remotes, (#[trigger] dirs[i])@.remote)
    &&& forall|i: int| 0 <= i < items.len() ==> holds_dir(dirs, (#[trigger] items[i]).key().dir)
}

spec fn items_map(items: Seq<SyncItem>) -> Map<ItemKey, Baseline> {
    Map::new(
        |k: ItemKey| holds_item(items, k),
        |k: ItemKey| items[slot_of(items, k)].baseline(),
    )
}

spec fn parts_view(remotes: Seq<String>, dirs: Seq<SyncDir>, items: Seq<SyncItem>) -> CatalogView {
    CatalogView {
        remotes: Set::new(|n: Seq<char>| holds_name(remotes, n)),
        dirs: Set::new(|d: DirKey| holds_dir(dirs, d)),
        items: items_map(items),
    }
}

proof fn lemma_slot(items: Seq<SyncItem>, i: int)
    requires
        distinct_items(items),
        0 <= i < items.len(),
    ensures
        holds_item(items, items[i].key()),
        slot_of(items, items[i].key()) == i,
        items_map(items).contains_key(items[i].key()),
        items_map(items)[items[i].key()] == items[i].baseline(),
{
    let k = items[i].key();
    assert(holds_item(items, k));
    let s = slot_of(items, k);
    assert(0 <= s < items.len() && items[s].key() == k);
    if s < i {
        assert(items[s].key() != items[i].key());
    } else if i < s {
        assert(items[i].key() != items[s].key());
    }
}

fn find_name(names: &Vec<String>, name: &String) -> (at: Option<usize>)
    ensures
        at is Some == holds_name(names@, name@),
        at is Some ==> at->0 < names@.len() && names@[at->0 as int]@ == name@,
{
    let mut i: usize = 0;
    while i < names.len()
        invariant
            i <= names@.len(),
            forall|j: int| 0 <= j < i ==> (#[trigger] names@[j])@ != name@,
        decreases names.len() - i,
    {
        if names[i] == *name {
            return Some(i);
        }
        i += 1;
    }
    None
}

fn find_dir(dirs: &Vec<SyncDir>, dir: &SyncDir) -> (at: Option<usize>)
    ensures
        at is Some == holds_dir(dirs@, dir@),
        at is Some ==> at->0 < dirs@.len() && dirs@[at->0 as int]@ == dir@,
{
    let mut i: usize = 0;
    while i < dirs.len()
        invariant
            i <= dirs@.len(),
            forall|j: int| 0 <= j < i ==> (#[trigger] dirs@[j])@ != dir@,
        decreases dirs.len() - i,
    {
        if dirs[i].same_as(dir) {
            return Some(i);
        }
        i += 1;
    }
    None
}

fn find_item(items: &Vec<SyncItem>, dir: &SyncDir, local_path: &String, remote_path: &String) -> (at:
    Option<usize>)
    ensures
        at is Some == holds_item(
            items@,
            ItemKey { dir: dir@, local_path: local_path@, remote_path: remote_path@ },
        ),
        at is Some ==> at->0 < items@.len() && items@[at->0 as int].key() == (ItemKey {
            dir: dir@,
            local_path: local_path@,
            remote_path: remote_path@,
        }),
{
    let ghost key = ItemKey { dir: dir@, local_path: local_path@, remote_path: remote_path@ };
    let mut i: usize = 0;
    while i < items.len()
        invariant
            i <= items@.len(),
            key == (ItemKey { dir: dir@, local_path: local_path@, remote_path: remote_path@ }),
            forall|j: int| 0 <= j < i ==> (#[trigger] items@[j]).key() != key,
        decreases items.len() - i,
    {
        if items[i].local_path == *local_path && items[i].remote_path == *remote_path
            && items[i].dir.same_as(dir) {
            return Some(i);
        }
        i += 1;
    }
    None
}

proof fn lemma_names_push(names: Seq<String>, name: String)
    ensures
        forall|n: Seq<char>|
            holds_name(names.push(name), n) <==> (holds_name(names, n) || n == name@),
{
    let grown = names.push(name);
    assert forall|n: Seq<char>| holds_name(grown, n) <==> (holds_name(names, n) || n == name@) by {
        if holds_name(grown, n) {
            let i = choose|i: int| 0 <= i < grown.len() && (#[trigger] grown[i])@ == n;
            if i < names.len() {
                assert(names[i]@ == n);
            }
        }
        if holds_name(names, n) {
            let i = choose|i: int| 0 <= i < names.len() && (#[trigger] names[i])@ == n;
            assert(grown[i]@ == n);
        }
        if n == name@ {
            assert(grown[names.len() as int]@ == n);
        }
    }
}

proof fn lemma_names_remove(names: Seq<String>, at: int)
    requires
        distinct_names(names),
        0 <= at < names.len(),
    ensures
        distinct_names(names.remove(at)),
        forall|n: Seq<char>|
            holds_name(names.remove(at), n) <==> (holds_name(names, n) && n != names[at]@),
{
    let less = names.remove(at);
    assert forall|i: int, j: int| 0 <= i < j < less.len() implies (#[trigger] less[i])@ != (
    #[trigger] less[j])@ by {
        let a = if i < at { i } else { i + 1 };
        let b = if j < at { j } else { j + 1 };
        assert(names[a]@ != names[b]@);
    }
    assert forall|n: Seq<char>| holds_name(less, n) <==> (holds_name(names, n) && n != names[at]@) by {
        if holds_name(less, n) {
            let i = choose|i: int| 0 <= i < less.len() && (#[trigger] less[i])@ == n;
            let a = if i < at { i } else { i + 1 };
            assert(names[a]@ == n);
            if a < at {
                assert(names[a]@ != names[at]@);
            } else {
                assert(names[at]@ != names[a]@);
            }
        }
        if holds_name(names, n) && n != names[at]@ {
            let i = choose|i: int| 0 <= i < names.len() && (#[trigger] names[i])@ == n;
            let a = if i < at { i } else { i - 1 };
            assert(less[a]@ == n);
        }
    }
}

proof fn lemma_dirs_push(dirs: Seq<SyncDir>, dir: SyncDir)
    ensures
        forall|d: DirKey| holds_dir(dirs.push(dir), d) <==> (holds_dir(dirs, d) || d == dir@),
{
    let grown = dirs.push(dir);
    assert forall|d: DirKey| holds_dir(grown, d) <==> (holds_dir(dirs, d) || d == dir@) by {
        if holds_dir(grown, d) {
            let i = choose|i: int| 0 <= i < grown.len() && (#[trigger] grown[i])@ == d;
            if i < dirs.len() {
                assert(dirs[i]@ == d);
            }
        }
        if holds_dir(dirs, d) {
            let i = choose|i: int| 0 <= i < dirs.len() && (#[trigger] dirs[i])@ == d;
            assert(grown[i]@ == d);
        }
        if d == dir@ {
            assert(grown[dirs.len() as int]@ == d);
        }
    }
}

proof fn lemma_dirs_remove(dirs: Seq<SyncDir>, at: int)
    requires
        distinct_dirs(dirs),
        0 <= at < dirs.len(),
    ensures
        distinct_dirs(dirs.remove(at)),
        forall|d: DirKey| holds_dir(dirs.remove(at), d) <==> (holds_dir(dirs, d) && d != dirs[at]@),
{
    let less = dirs.remove(at);
    assert forall|i: int, j: int| 0 <= i < j < less.len() implies (#[trigger] less[i])@ != (
    #[trigger] less[j])@ by {
        let a = if i < at { i } else { i + 1 };
        let b = if j < at { j } else { j + 1 };
        assert(dirs[a]@ != dirs[b]@);
    }
    assert forall|d: DirKey| holds_dir(less, d) <==> (holds_dir(dirs, d) && d != dirs[at]@) by {
        if holds_dir(less, d) {
            let i = choose|i: int| 0 <= i < less.len() && (#[trigger] less[i])@ == d;
            let a = if i < at { i } else { i + 1 };
            assert(dirs[a]@ == d);
            if a < at {
                assert(dirs[a]@ != dirs[at]@);
            } else {
                assert(dirs[at]@ != dirs[a]@);
            }
        }
        if holds_dir(dirs, d) && d != dirs[at]@ {
            let i = choose|i: int| 0 <= i < dirs.len() && (#[trigger] dirs[i])@ == d;
            let a = if i < at { i } else { i - 1 };
            assert(less[a]@ == d);
        }
    }
}

proof fn lemma_items_push(items: Seq<SyncItem>, item: SyncItem)
    requires
        distinct_items(items),
        !holds_item(items, item.key()),
    ensures
        distinct_items(items.push(item)),
        items_map(items.push(item)) == items_map(items).insert(item.key(), item.baseline()),
{
    let grown = items.push(item);
    assert forall|i: int, j: int| 0 <= i < j < grown.len() implies (#[trigger] grown[i]).key() != (
    #[trigger] grown[j]).key() by {
        if j < items.len() {
            assert(items[i].key() != items[j].key());
        } else {
            assert(items[i].key() != item.key());
        }
    }
    let target = items_map(items).insert(item.key(), item.baseline());
    assert forall|k: ItemKey| items_map(grown).contains_key(k) <==> target.contains_key(k) by {
        if holds_item(grown, k) {
            let i = choose|i: int| 0 <= i < grown.len() && (#[trigger] grown[i]).key() == k;
            if i < items.len() {
                assert(items[i].key() == k);
            }
        }
        if holds_item(items, k) {
            let i = choose|i: int| 0 <= i < items.len() && (#[trigger] items[i]).key() == k;
            assert(grown[i].key() == k);
        }
        if k == item.key() {
            assert(grown[items.len() as int].key() == k);
        }
    }
    assert forall|k: ItemKey| items_map(grown).contains_key(k) implies items_map(grown)[k]
        == target[k] by {
        let i = slot_of(grown, k);
        lemma_slot(grown, i);
        if i < items.len() {
            lemma_slot(items, i);
        }
    }
    assert(items_map(grown) =~= target);
}

proof fn lemma_items_update(items: Seq<SyncItem>, at: int, item: SyncItem)
    requires
        distinct_items(items),
        0 <= at < items.len(),
        items[at].key() == item.key(),
    ensures
        distinct_items(items.update(at, item)),
        items_map(items.update(at, item)) == items_map(items).insert(item.key(), item.baseline()),
        forall|k: ItemKey| holds_item(items.update(at, item), k) <==> holds_item(items, k),
{
    let changed = items.update(at, item);
    assert forall|i: int, j: int| 0 <= i < j < changed.len() implies (#[trigger] changed[i]).key()
        != (#[trigger] changed[j]).key() by {
        assert(items[i].key() != items[j].key());
    }
    assert forall|k: ItemKey| holds_item(changed, k) <==> holds_item(items, k) by {
        if holds_item(changed, k) {
            let i = choose|i: int| 0 <= i < changed.len() && (#[trigger] changed[i]).key() == k;
            assert(items[i].key() == k);
        }
        if holds_item(items, k) {
            let i = choose|i: int| 0 <= i < items.len() && (#[trigger] items[i]).key() == k;
            assert(changed[i].key() == k);
        }
    }
    let target = items_map(items).insert(item.key(), item.baseline());
    lemma_slot(items, at);
    assert forall|k: ItemKey| items_map(changed).contains_key(k) <==> target.contains_key(k) by {
    }
    assert forall|k: ItemKey| items_map(changed).contains_key(k) implies items_map(changed)[k]
        == target[k] by {
        let i = slot_of(changed, k);
        lemma_slot(changed, i);
        lemma_slot(items, i);
    }
    assert(items_map(changed) =~= target);
}

proof fn lemma_items_remove(items: Seq<SyncItem>, at: int)
    requires
        distinct_items(items),
        0 <= at < items.len(),
    ensures
        distinct_items(items.remove(at)),
        items_map(items.remove(at)) == items_map(items).remove(items[at].key()),
        forall|k: ItemKey| holds_item(items.remove(at), k) ==> holds_item(items, k),
{
    let less = items.remove(at);
    assert forall|i: int, j: int| 0 <= i < j < less.len() implies (#[trigger] less[i]).key() != (
    #[trigger] less[j]).key() by {
        let a = if i < at { i } else { i + 1 };
        let b = if j < at { j } else { j + 1 };
        assert(items[a].key() != items[b].key());
    }
    let target = items_map(items).remove(items[at].key());
    assert forall|k: ItemKey| holds_item(less, k) <==> (holds_item(items, k) && k != items[at].key()) by {
        if holds_item(less, k) {
            let i = choose|i: int| 0 <= i < less.len() && (#[trigger] less[i]).key() == k;
            let a = if i < at { i } else { i + 1 };
            assert(items[a].key() == k);
            if a < at {
                assert(items[a].key() != items[at].key());
            } else {
                assert(items[at].key() != items[a].key());
            }
        }
        if holds_item(items, k) && k != items[at].key() {
            let i = choose|i: int| 0 <= i < items.len() && (#[trigger] items[i]).key() == k;
            let a = if i < at { i } else { i - 1 };
            assert(less[a].key() == k);
        }
    }
    assert forall|k: ItemKey| items_map(less).contains_key(k) implies items_map(less)[k]
        == target[k] by {
        let i = slot_of(less, k);
        lemma_slot(less, i);
        let a = if i < at { i } else { i + 1 };
        assert(items[a].key() == k);
        lemma_slot(items, a);
    }
    assert(items_map(less) =~= target);
}

/// Whether an item goes when a pair is removed (`dir` is that pair) or when
/// a whole remote is removed (`dir` is absent).
spec fn goes(key: ItemKey, remote: Seq<char>, dir: Option<DirKey>) -> bool {
    match dir {
        Some(d) => key.dir == d,
        None => key.dir.remote == remote,
    }
}

/// The keys that stay when `goes` takes the others.
spec fn staying(remote: Seq<char>, dir: Option<DirKey>) -> Set<ItemKey> {
    Set::new(|k: ItemKey| !goes(k, remote, dir))
}

spec fn which_dir(dir: Option<&SyncDir>) -> Option<DirKey> {
    match dir {
        Some(d) => Some(d@),
        None => None,
    }
}

fn drop_items(items: &Vec<SyncItem>, remote: &String, dir: Option<&SyncDir>) -> (kept: Vec<SyncItem>)
    requires
        distinct_items(items@),
    ensures
        distinct_items(kept@),
        items_map(kept@) == items_map(items@).restrict(staying(remote@, which_dir(dir))),
        forall|k: ItemKey| holds_item(kept@, k) ==> holds_item(items@, k),
{
    let ghost which: Option<DirKey> = which_dir(dir);
    let mut kept: Vec<SyncItem> = Vec::new();
    let mut i: usize = 0;
    while i < items.len()
        invariant
            i <= items@.len(),
            distinct_items(items@),
            distinct_items(kept@),
            which == which_dir(dir),
            forall|j: int|
                0 <= j < kept@.len() ==> exists|a: int|
                    0 <= a < i && (#[trigger] items@[a]).key() == (#[trigger] kept@[j]).key()
                        && items@[a].baseline() == kept@[j].baseline(),
            forall|j: int| 0 <= j < kept@.len() ==> !goes((#[trigger] kept@[j]).key(), remote@, which),
            forall|a: int|
                0 <= a < i && !goes((#[trigger] items@[a]).key(), remote@, which) ==> holds_item(
                    kept@,
                    items@[a].key(),
                ),
        decreases items.len() - i,
    {
        let gone = match dir {
            Some(d) => items[i].dir.same_as(d),
            None => items[i].dir.remote == *remote,
        };
        if !gone {
            let ghost before = kept@;
            let copy = items[i].clone();
            kept.push(copy);
            proof {
                assert forall|x: int, y: int| 0 <= x < y < kept@.len() implies (#[trigger] kept@[x]).key()
                    != (#[trigger] kept@[y]).key() by {
                    if y < before.len() {
                        assert(before[x].key() != before[y].key());
                    } else {
                        let a = choose|a: int|
                            0 <= a < i && (#[trigger] items@[a]).key() == before[x].key()
                                && items@[a].baseline() == before[x].baseline();
                        assert(items@[a].key() != items@[i as int].key());
                    }
                }
                assert forall|j: int| 0 <= j < kept@.len() implies exists|a: int|
                    0 <= a < i + 1 && (#[trigger] items@[a]).key() == (#[trigger] kept@[j]).key()
                        && items@[a].baseline() == kept@[j].baseline() by {
                    if j < before.len() {
                        let a = choose|a: int|
                            0 <= a < i && (#[trigger] items@[a]).key() == before[j].key()
                                && items@[a].baseline() == before[j].baseline();
                        assert(items@[a].key() == kept@[j].key());
                    } else {
                        assert(items@[i as int].key() == kept@[j].key());
                    }
                }
                assert forall|a: int|
                    0 <= a < i + 1 && !goes((#[trigger] items@[a]).key(), remote@, which) implies holds_item(
                    kept@,
                    items@[a].key(),
                ) by {
                    if a < i {
                        let j = choose|j: int|
                            0 <= j < before.len() && (#[trigger] before[j]).key() == items@[a].key();
                        assert(kept@[j].key() == items@[a].key());
                    } else {
                        assert(kept@[before.len() as int].key() == items@[a].key());
                    }
                }
            }
        }
        i += 1;
    }
    proof {
        let target = items_map(items@).restrict(staying(remote@, which));
        assert forall|k: ItemKey| holds_item(kept@, k) implies holds_item(items@, k) && !goes(
            k,
            remote@,
            which,
        ) by {
            let j = choose|j: int| 0 <= j < kept@.len() && (#[trigger] kept@[j]).key() == k;
            let a = choose|a: int|
                0 <= a < i && (#[trigger] items@[a]).key() == kept@[j].key() && items@[a].baseline()
                    == kept@[j].baseline();
            assert(items@[a].key() == k);
        }
        assert forall|k: ItemKey| items_map(kept@).contains_key(k) <==> target.contains_key(k) by {
            if holds_item(items@, k) && !goes(k, remote@, which) {
                let a = choose|a: int| 0 <= a < items@.len() && (#[trigger] items@[a]).key() == k;
                assert(holds_item(kept@, items@[a].key()));
            }
        }
        assert forall|k: ItemKey| items_map(kept@).contains_key(k) implies items_map(kept@)[k]
            == target[k] by {
            let j = slot_of(kept@, k);
            lemma_slot(kept@, j);
            let a = choose|a: int|
                0 <= a < i && (#[trigger] items@[a]).key() == kept@[j].key() && items@[a].baseline()
                    == kept@[j].baseline();
            lemma_slot(items@, a);
        }
        assert(items_map(kept@) =~= target);
    }
    kept
}

fn drop_dirs(dirs: &Vec<SyncDir>, remote: &String) -> (kept: Vec<SyncDir>)
    requires
        distinct_dirs(dirs@),
    ensures
        distinct_dirs(kept@),
        forall|d: DirKey| holds_dir(kept@, d) <==> (holds_dir(dirs@, d) && d.remote != remote@),
{
    let mut kept: Vec<SyncDir> = Vec::new();
    let mut i: usize = 0;
    while i < dirs.len()
        invariant
            i <= dirs@.len(),
            distinct_dirs(dirs@),
            distinct_dirs(kept@),
            forall|j: int|
                0 <= j < kept@.len() ==> (#[trigger] kept@[j])@.remote != remote@ && exists|a: int|
                    0 <= a < i && (#[trigger] dirs@[a])@ == kept@[j]@,
            forall|a: int|
                0 <= a < i && (#[trigger] dirs@[a])@.remote != remote@ ==> holds_dir(kept@, dirs@[a]@),
        decreases dirs.len() - i,
    {
        if dirs[i].remote != *remote {
            let ghost before = kept@;
            let copy = dirs[i].clone();
            kept.push(copy);
            proof {
                assert forall|x: int, y: int| 0 <= x < y < kept@.len() implies (#[trigger] kept@[x])@
                    != (#[trigger] kept@[y])@ by {
                    if y < before.len() {
                        assert(before[x]@ != before[y]@);
                    } else {
                        let a = choose|a: int| 0 <= a < i && (#[trigger] dirs@[a])@ == before[x]@;
                        assert(dirs@[a]@ != dirs@[i as int]@);
                    }
                }
                assert forall|j: int| 0 <= j < kept@.len() implies (#[trigger] kept@[j])@.remote
                    != remote@ && exists|a: int| 0 <= a < i + 1 && (#[trigger] dirs@[a])@ == kept@[j]@ by {
                    if j < before.len() {
                        let a = choose|a: int| 0 <= a < i && (#[trigger] dirs@[a])@ == before[j]@;
                        assert(dirs@[a]@ == kept@[j]@);
                    } else {
                        assert(dirs@[i as int]@ == kept@[j]@);
                    }
                }
                assert forall|a: int|
                    0 <= a < i + 1 && (#[trigger] dirs@[a])@.remote != remote@ implies holds_dir(
                    kept@,
                    dirs@[a]@,
                ) by {
                    if a < i {
                        let j = choose|j: int| 0 <= j < before.len() && (#[trigger] before[j])@ == dirs@[a]@;
                        assert(kept@[j]@ == dirs@[a]@);
                    } else {
                        assert(kept@[before.len() as int]@ == dirs@[a]@);
                    }
                }
            }
        }
        i += 1;
    }
    proof {
        assert forall|d: DirKey| holds_dir(kept@, d) <==> (holds_dir(dirs@, d) && d.remote != remote@) by {
            if holds_dir(kept@, d) {
                let j = choose|j: int| 0 <= j < kept@.len() && (#[trigger] kept@[j])@ == d;
                let a = choose|a: int| 0 <= a < i && (#[trigger] dirs@[a])@ == kept@[j]@;
                assert(dirs@[a]@ == d);
            }
            if holds_dir(dirs@, d) && d.remote != remote@ {
                let a = choose|a: int| 0 <= a < dirs@.len() && (#[trigger] dirs@[a])@ == d;
                assert(holds_dir(kept@, dirs@[a]@));
            }
        }
    }
    kept
}

/// The remotes, pairs and baselines of a running engine.
pub struct Catalog {
    remotes: Vec<String>,
    dirs: Vec<SyncDir>,
    items: Vec<SyncItem>,
}

impl View for Catalog {
    type V = CatalogView;

    closed spec fn view(&self) -> CatalogView {
        parts_view(self.remotes@, self.dirs@, self.items@)
    }
}

impl Catalog {
    #[verifier::type_invariant]
    spec fn well_formed(&self) -> bool {
        parts_wf(self.remotes@, self.dirs@, self.items@)
    }

    /// A catalog without remotes.
    pub fn new() -> (catalog: Self)
        ensures
            catalog@.remotes == Set::<Seq<char>>::empty(),
            catalog@.dirs == Set::<DirKey>::empty(),
            catalog@.items == Map::<ItemKey, Baseline>::empty(),
    {
        let catalog = Catalog { remotes: Vec::new(), dirs: Vec::new(), items: Vec::new() };
        assert(catalog@.remotes =~= Set::<Seq<char>>::empty());
        assert(catalog@.dirs =~= Set::<DirKey>::empty());
        assert(catalog@.items =~= Map::<ItemKey, Baseline>::empty());
        catalog
    }

    /// Whether no remote is known.
    pub fn has_no_remote(&self) -> (none: bool)
        ensures
            none == (self@.remotes =~= Set::<Seq<char>>::empty()),
    {
        let none = self.remotes.len() == 0;
        proof {
            if !none {
                assert(holds_name(self.remotes@, self.remotes@[0]@));
                assert(self@.remotes.contains(self.remotes@[0]@));
            }
        }
        none
    }

    /// Whether a remote of that name is known.
    pub fn has_remote(&self, name: &str) -> (known: bool)
        ensures
            known == self@.remotes.contains(name@),
    {
        let owned = String::from_str(name);
        find_name(&self.remotes, &owned).is_some()
    }

    /// Whether the pair is known.
    pub fn has_dir(&self, dir: &SyncDir) -> (known: bool)
        ensures
            known == self@.dirs.contains(dir@),
    {
        find_dir(&self.dirs, dir).is_some()
    }

    /// The baseline of an item, if it was ever reconciled.
    pub fn find(&self, dir: &SyncDir, local_path: &str, remote_path: &str) -> (found: Option<
        Baseline,
    >)
        ensures
            found == self@.items.get(
                ItemKey { dir: dir@, local_path: local_path@, remote_path: remote_path@ },
            ),
    {
        proof {
            use_type_invariant(self);
        }
        let local = String::from_str(local_path);
        let remote = String::from_str(remote_path);
        match find_item(&self.items, dir, &local, &remote) {
            Some(i) => {
                proof {
                    lemma_slot(self.items@, i as int);
                }
                Some(
                    Baseline {
                        local: self.items[i].last_local_timestamp,
                        remote: self.items[i].last_remote_timestamp,
                    },
                )
            },
            None => None,
        }
    }

    fn take_parts(&mut self) -> (parts: (Vec<String>, Vec<SyncDir>, Vec<SyncItem>))
        ensures
            parts.0@ == old(self).remotes@,
            parts.1@ == old(self).dirs@,
            parts.2@ == old(self).items@,
            parts_wf(parts.0@, parts.1@, parts.2@),
    {
        proof {
            use_type_invariant(&*self);
        }
        let mut items: Vec<SyncItem> = Vec::new();
        std::mem::swap(&mut items, &mut self.items);
        let mut dirs: Vec<SyncDir> = Vec::new();
        std::mem::swap(&mut dirs, &mut self.dirs);
        let mut remotes: Vec<String> = Vec::new();
        std::mem::swap(&mut remotes, &mut self.remotes);
        (remotes, dirs, items)
    }

    /// Registers a remote. Returns whether the name was new.
    pub fn add_remote(&mut self, name: &str) -> (added: bool)
        ensures
            final(self)@ == old(self)@.with_remote(name@),
            added == !old(self)@.remotes.contains(name@),
    {
        let (mut remotes, dirs, items) = self.take_parts();
        let ghost before = remotes@;
        let owned = String::from_str(name);
        let added = find_name(&remotes, &owned).is_none();
        if added {
            remotes.push(owned);
            proof {
                lemma_names_push(before, owned);
                assert forall|i: int, j: int| 0 <= i < j < remotes@.len() implies (
                #[trigger] remotes@[i])@ != (#[trigger] remotes@[j])@ by {
                    if j < before.len() {
                        assert(before[i]@ != before[j]@);
                    } else {
                        assert(before[i]@ != name@);
                    }
                }
            }
        }
        proof {
            assert(parts_view(remotes@, dirs@, items@).remotes =~= parts_view(
                before,
                dirs@,
                items@,
            ).remotes.insert(name@)) by {
                if added {
                    lemma_names_push(before, owned);
                }
            }
        }
        *self = Catalog { remotes, dirs, items };
        added
    }

    /// Registers a pair under its remote. Returns whether it was stored:
    /// the remote is known and the pair was not.
    pub fn add_dir(&mut self, dir: SyncDir) -> (added: bool)
        ensures
            final(self)@ == old(self)@.with_dir(dir@),
            added == (old(self)@.remotes.contains(dir@.remote) && !old(self)@.dirs.contains(dir@)),
    {
        let (remotes, mut dirs, items) = self.take_parts();
        let ghost before = dirs@;
        let known = find_name(&remotes, &dir.remote).is_some();
        let added = known && find_dir(&dirs, &dir).is_none();
        if added {
            dirs.push(dir);
            proof {
                lemma_dirs_push(before, dir);
                assert forall|i: int, j: int| 0 <= i < j < dirs@.len() implies (#[trigger] dirs@[i])@
                    != (#[trigger] dirs@[j])@ by {
                    if j < before.len() {
                        assert(before[i]@ != before[j]@);
                    } else {
                        assert(before[i]@ != dir@);
                    }
                }
                assert forall|i: int| 0 <= i < dirs@.len() implies holds_name(
                    remotes@,
                    (#[trigger] dirs@[i])@.remote,
                ) by {
                    if i < before.len() {
                        assert(holds_name(remotes@, before[i]@.remote));
                    }
                }
                assert forall|i: int| 0 <= i < items@.len() implies holds_dir(
                    dirs@,
                    (#[trigger] items@[i]).key().dir,
                ) by {
                    assert(holds_dir(before, items@[i].key().dir));
                }
            }
        }
        proof {
            if known {
                assert(parts_view(remotes@, dirs@, items@).dirs =~= parts_view(
                    remotes@,
                    before,
                    items@,
                ).dirs.insert(dir@)) by {
                    if added {
                        lemma_dirs_push(before, dir);
                    }
                }
            }
        }
        *self = Catalog { remotes, dirs, items };
        added
    }

    /// Records the baseline of an item, replacing an earlier one. Returns
    /// whether it was stored: the item's pair is known.
    pub fn upsert(&mut self, item: SyncItem) -> (stored: bool)
        ensures
            final(self)@ == old(self)@.with_item(item.key(), item.baseline()),
            stored == old(self)@.dirs.contains(item.key().dir),
    {
        let (remotes, dirs, mut items) = self.take_parts();
        let ghost before = items@;
        let stored = find_dir(&dirs, &item.dir).is_some();
        if stored {
            match find_item(&items, &item.dir, &item.local_path, &item.remote_path) {
                Some(at) => {
                    proof {
                        lemma_items_update(before, at as int, item);
                    }
                    items.set(at, item);
                    proof {
                        assert forall|i: int| 0 <= i < items@.len() implies holds_dir(
                            dirs@,
                            (#[trigger] items@[i]).key().dir,
                        ) by {
                            assert(holds_dir(dirs@, before[i].key().dir));
                        }
                    }
                },
                None => {
                    proof {
                        lemma_items_push(before, item);
                    }
                    items.push(item);
                    proof {
                        assert forall|i: int| 0 <= i < items@.len() implies holds_dir(
                            dirs@,
                            (#[trigger] items@[i]).key().dir,
                        ) by {
                            if i < before.len() {
                                assert(holds_dir(dirs@, before[i].key().dir));
                            }
                        }
                    }
                },
            }
        }
        *self = Catalog { remotes, dirs, items };
        stored
    }

    /// Drops the baseline of an item. Returns whether there was one.
    pub fn delete(&mut self, dir: &SyncDir, local_path: &str, remote_path: &str) -> (found: bool)
        ensures
            final(self)@ == old(self)@.without_item(
                ItemKey { dir: dir@, local_path: local_path@, remote_path: remote_path@ },
            ),
            found == old(self)@.items.contains_key(
                ItemKey { dir: dir@, local_path: local_path@, remote_path: remote_path@ },
            ),
    {
        let (remotes, dirs, mut items) = self.take_parts();
        let ghost before = items@;
        let ghost key = ItemKey { dir: dir@, local_path: local_path@, remote_path: remote_path@ };
        let local = String::from_str(local_path);
        let remote = String::from_str(remote_path);
        let found = match find_item(&items, dir, &local, &remote) {
            Some(at) => {
                proof {
                    lemma_items_remove(before, at as int);
                }
                items.remove(at);
                proof {
                    assert forall|i: int| 0 <= i < items@.len() implies holds_dir(
                        dirs@,
                        (#[trigger] items@[i]).key().dir,
                    ) by {
                        let a = if i < at { i } else { i + 1 };
                        assert(holds_dir(dirs@, before[a].key().dir));
                    }
                }
                true
            },
            None => {
                assert(items_map(before).remove(key) =~= items_map(before));
                false
            },
        };
        *self = Catalog { remotes, dirs, items };
        found
    }

    /// Removes a pair and, with it, the baselines of its items. Returns
    /// whether the pair was known.
    pub fn remove_dir(&mut self, dir: &SyncDir) -> (found: bool)
        ensures
            final(self)@ == old(self)@.without_dir(dir@),
            found == old(self)@.dirs.contains(dir@),
    {
        let (remotes, mut dirs, items) = self.take_parts();
        let ghost before = dirs@;
        let kept = drop_items(&items, &dir.remote, Some(dir));
        let found = match find_dir(&dirs, dir) {
            Some(at) => {
                proof {
                    lemma_dirs_remove(before, at as int);
                }
                dirs.remove(at);
                proof {
                    assert forall|i: int| 0 <= i < dirs@.len() implies holds_name(
                        remotes@,
                        (#[trigger] dirs@[i])@.remote,
                    ) by {
                        let a = if i < at { i } else { i + 1 };
                        assert(holds_name(remotes@, before[a]@.remote));
                    }
                }
                true
            },
            None => false,
        };
        proof {
            assert(staying(dir.remote@, which_dir(Some(dir))) =~= keys_outside_dir(dir@));
            assert(parts_view(remotes@, dirs@, kept@).dirs =~= parts_view(
                remotes@,
                before,
                items@,
            ).dirs.remove(dir@));
            assert forall|i: int| 0 <= i < kept@.len() implies holds_dir(
                dirs@,
                (#[trigger] kept@[i]).key().dir,
            ) by {
                let k = kept@[i].key();
                lemma_slot(kept@, i);
                assert(items_map(kept@).contains_key(k));
                assert(k.dir != dir@);
                assert(holds_item(items@, k));
                let a = choose|a: int| 0 <= a < items@.len() && (#[trigger] items@[a]).key() == k;
                assert(holds_dir(before, items@[a].key().dir));
            }
        }
        *self = Catalog { remotes, dirs, items: kept };
        found
    }

    /// Removes a remote and, with it, its pairs and their baselines.
    /// Returns whether the remote was known.
    pub fn remove_remote(&mut self, name: &str) -> (found: bool)
        ensures
            final(self)@ == old(self)@.without_remote(name@),
            found == old(self)@.remotes.contains(name@),
    {
        let (mut remotes, dirs, items) = self.take_parts();
        let ghost before = remotes@;
        let owned = String::from_str(name);
        let kept_items = drop_items(&items, &owned, None);
        let kept_dirs = drop_dirs(&dirs, &owned);
        let found = match find_name(&remotes, &owned) {
            Some(at) => {
                proof {
                    lemma_names_remove(before, at as int);
                }
                remotes.remove(at);
                true
            },
            None => false,
        };
        proof {
            assert(staying(name@, which_dir(None)) =~= keys_outside_remote(name@));
            assert(parts_view(remotes@, kept_dirs@, kept_items@).remotes =~= parts_view(
                before,
                dirs@,
                items@,
            ).remotes.remove(name@));
            assert(parts_view(remotes@, kept_dirs@, kept_items@).dirs =~= dirs_outside_remote(
                parts_view(before, dirs@, items@).dirs,
                name@,
            ));
            assert forall|i: int| 0 <= i < kept_dirs@.len() implies holds_name(
                remotes@,
                (#[trigger] kept_dirs@[i])@.remote,
            ) by {
                let d = kept_dirs@[i]@;
                assert(holds_dir(kept_dirs@, d));
                assert(holds_dir(dirs@, d));
                let a = choose|a: int| 0 <= a < dirs@.len() && (#[trigger] dirs@[a])@ == d;
                assert(holds_name(before, dirs@[a]@.remote));
            }
            assert forall|i: int| 0 <= i < kept_items@.len() implies holds_dir(
                kept_dirs@,
                (#[trigger] kept_items@[i]).key().dir,
            ) by {
                let k = kept_items@[i].key();
                lemma_slot(kept_items@, i);
                assert(items_map(kept_items@).contains_key(k));
                assert(k.dir.remote != name@);
                assert(holds_item(items@, k));
                let a = choose|a: int| 0 <= a < items@.len() && (#[trigger] items@[a]).key() == k;
                assert(holds_dir(dirs@, items@[a].key().dir));
            }
        }
        *self = Catalog { remotes, dirs: kept_dirs, items: kept_items };
        found
    }

    /// The baselines of one pair, each once.
    pub fn items_of(&self, dir: &SyncDir) -> (items: Vec<SyncItem>)
        ensures
            distinct_items(items@),
            forall|i: int| 0 <= i < items@.len() ==> (#[trigger] items@[i]).key().dir == dir@,
            forall|i: int|
                0 <= i < items@.len() ==> self@.items.get((#[trigger] items@[i]).key()) == Some(
                    items@[i].baseline(),
                ),
            forall|k: ItemKey|
                self@.items.contains_key(k) && k.dir == dir@ ==> holds_item(items@, k),
    {
        proof {
            use_type_invariant(self);
        }
        let mut out: Vec<SyncItem> = Vec::new();
        let mut i: usize = 0;
        while i < self.items.len()
            invariant
                i <= self.items@.len(),
                distinct_items(self.items@),
                distinct_items(out@),
                forall|j: int|
                    0 <= j < out@.len() ==> (#[trigger] out@[j]).key().dir == dir@ && exists|a: int|
                        0 <= a < i && (#[trigger] self.items@[a]).key() == out@[j].key()
                            && self.items@[a].baseline() == out@[j].baseline(),
                forall|a: int|
                    0 <= a < i && (#[trigger] self.items@[a]).key().dir == dir@ ==> holds_item(
                        out@,
                        self.items@[a].key(),
                    ),
            decreases self.items.len() - i,
        {
            if self.items[i].dir.same_as(dir) {
                let ghost before = out@;
                let copy = self.items[i].clone();
                out.push(copy);
                proof {
                    assert forall|x: int, y: int| 0 <= x < y < out@.len() implies (
                    #[trigger] out@[x]).key() != (#[trigger] out@[y]).key() by {
                        if y < before.len() {
                            assert(before[x].key() != before[y].key());
                        } else {
                            let a = choose|a: int|
                                0 <= a < i && (#[trigger] self.items@[a]).key() == before[x].key()
                                    && self.items@[a].baseline() == before[x].baseline();
                            assert(self.items@[a].key() != self.items@[i as int].key());
                        }
                    }
                    assert forall|j: int| 0 <= j < out@.len() implies (#[trigger] out@[j]).key().dir
                        == dir@ && exists|a: int|
                        0 <= a < i + 1 && (#[trigger] self.items@[a]).key() == out@[j].key()
                            && self.items@[a].baseline() == out@[j].baseline() by {
                        if j < before.len() {
                            let a = choose|a: int|
                                0 <= a < i && (#[trigger] self.items@[a]).key() == before[j].key()
                                    && self.items@[a].baseline() == before[j].baseline();
                            assert(self.items@[a].key() == out@[j].key());
                        } else {
                            assert(self.items@[i as int].key() == out@[j].key());
                        }
                    }
                    assert forall|a: int|
                        0 <= a < i + 1 && (#[trigger] self.items@[a]).key().dir == dir@ implies holds_item(
                        out@,
                        self.items@[a].key(),
                    ) by {
                        if a < i {
                            let j = choose|j: int|
                                0 <= j < before.len() && (#[trigger] before[j]).key()
                                    == self.items@[a].key();
                            assert(out@[j].key() == self.items@[a].key());
                        } else {
                            assert(out@[before.len() as int].key() == self.items@[a].key());
                        }
                    }
                }
            }
            i += 1;
        }
        proof {
            assert forall|j: int| 0 <= j < out@.len() implies self@.items.get(
                (#[trigger] out@[j]).key(),
            ) == Some(out@[j].baseline()) by {
                let a = choose|a: int|
                    0 <= a < i && (#[trigger] self.items@[a]).key() == out@[j].key()
                        && self.items@[a].baseline() == out@[j].baseline();
                lemma_slot(self.items@, a);
            }
            assert forall|k: ItemKey| self@.items.contains_key(k) && k.dir == dir@ implies holds_item(
                out@,
                k,
            ) by {
                let a = choose|a: int| 0 <= a < self.items@.len() && (#[trigger] self.items@[a]).key() == k;
                assert(holds_item(out@, self.items@[a].key()));
            }
        }
        out
    }

    /// The names of the remotes, each once.
    pub fn remote_names(&self) -> (names: Vec<String>)
        ensures
            distinct_names(names@),
            forall|n: Seq<char>| holds_name(names@, n) <==> self@.remotes.contains(n),
    {
        proof {
            use_type_invariant(self);
        }
        let names = self.remotes.clone();
        assert(names@ == self.remotes@);
        names
    }

    /// The pairs of one remote, each once.
    pub fn dirs_of(&self, remote: &str) -> (dirs: Vec<SyncDir>)
        ensures
            distinct_dirs(dirs@),
            forall|d: DirKey|
                holds_dir(dirs@, d) <==> (self@.dirs.contains(d) && d.remote == remote@),
    {
        proof {
            use_type_invariant(self);
        }
        let owned = String::from_str(remote);
        let mut out: Vec<SyncDir> = Vec::new();
        let mut i: usize = 0;
        while i < self.dirs.len()
            invariant
                i <= self.dirs@.len(),
                owned@ == remote@,
                distinct_dirs(self.dirs@),
                distinct_dirs(out@),
                forall|j: int|
                    0 <= j < out@.len() ==> (#[trigger] out@[j])@.remote == remote@ && exists|a: int|
                        0 <= a < i && (#[trigger] self.dirs@[a])@ == out@[j]@,
                forall|a: int|
                    0 <= a < i && (#[trigger] self.dirs@[a])@.remote == remote@ ==> holds_dir(
                        out@,
                        self.dirs@[a]@,
                    ),
            decreases self.dirs.len() - i,
        {
            if self.dirs[i].remote == owned {
                let ghost before = out@;
                let copy = self.dirs[i].clone();
                out.push(copy);
                proof {
                    assert forall|x: int, y: int| 0 <= x < y < out@.len() implies (#[trigger] out@[x])@
                        != (#[trigger] out@[y])@ by {
                        if y < before.len() {
                            assert(before[x]@ != before[y]@);
                        } else {
                            let a = choose|a: int|
                                0 <= a < i && (#[trigger] self.dirs@[a])@ == before[x]@;
                            assert(self.dirs@[a]@ != self.dirs@[i as int]@);
                        }
                    }
                    assert forall|j: int| 0 <= j < out@.len() implies (#[trigger] out@[j])@.remote
                        == remote@ && exists|a: int|
                        0 <= a < i + 1 && (#[trigger] self.dirs@[a])@ == out@[j]@ by {
                        if j < before.len() {
                            let a = choose|a: int|
                                0 <= a < i && (#[trigger] self.dirs@[a])@ == before[j]@;
                            assert(self.dirs@[a]@ == out@[j]@);
                        } else {
                            assert(self.dirs@[i as int]@ == out@[j]@);
                        }
                    }
                    assert forall|a: int|
                        0 <= a < i + 1 && (#[trigger] self.dirs@[a])@.remote == remote@ implies holds_dir(
                        out@,
                        self.dirs@[a]@,
                    ) by {
                        if a < i {
                            let j = choose|j: int|
                                0 <= j < before.len() && (#[trigger] before[j])@ == self.dirs@[a]@;
                            assert(out@[j]@ == self.dirs@[a]@);
                        } else {
                            assert(out@[before.len() as int]@ == self.dirs@[a]@);
                        }
                    }
                }
            }
            i += 1;
        }
        proof {
            assert forall|d: DirKey|
                holds_dir(out@, d) <==> (self@.dirs.contains(d) && d.remote == remote@) by {
                if holds_dir(out@, d) {
                    let j = choose|j: int| 0 <= j < out@.len() && (#[trigger] out@[j])@ == d;
                    let a = choose|a: int| 0 <= a < i && (#[trigger] self.dirs@[a])@ == out@[j]@;
                    assert(self.dirs@[a]@ == d);
                }
                if self@.dirs.contains(d) && d.remote == remote@ {
                    let a = choose|a: int| 0 <= a < self.dirs@.len() && (#[trigger] self.dirs@[a])@ == d;
                    assert(holds_dir(out@, self.dirs@[a]@));
                }
            }
        }
        out
    }
}

} // verus!
