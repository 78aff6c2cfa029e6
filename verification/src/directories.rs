//! Making the directories for the attributes of devices, where they are missing.
//!
//! The file system is asked and changed by the caller: a walk says which path to
//! look for or to create next.
use vstd::prelude::*;

use crate::sysfs::{device_dirs, sysfs_directories};
use crate::vfs::{dir_permission, texts};

verus! {

/// What a walk needs next.
#[derive(Debug)]
pub enum Need {
    /// Find out whether there is something at the path.
    Resolve { path: String },
    /// Create a directory at the path.
    Create { path: String, permission: u16 },
    /// Nothing.
    Done,
}

/// The value of a `Need`.
#[verifier::ext_equal]
pub enum NeedView {
    Resolve { path: Seq<char> },
    Create { path: Seq<char>, permission: u16 },
    Done,
}

impl View for Need {
    type V = NeedView;

    open spec fn view(&self) -> NeedView {
        match self {
            Need::Resolve { path } => NeedView::Resolve { path: path@ },
            Need::Create { path, permission } => NeedView::Create {
                path: path@,
                permission: *permission,
            },
            Need::Done => NeedView::Done,
        }
    }
}

/// The state of a walk.
#[verifier::ext_equal]
pub struct WalkView {
    /// The directories that must be there, each behind the one that holds it.
    pub dirs: Seq<Seq<char>>,
    /// How many of them are there for sure.
    pub ready: nat,
    /// The next one is known to be missing.
    pub missing: bool,
}

impl WalkView {
    /// There is a next one, if one is missing.
    pub open spec fn valid(self) -> bool {
        self.ready <= self.dirs.len() && (self.missing ==> self.ready < self.dirs.len())
    }

    /// A walk on which nothing was looked for yet.
    pub open spec fn along(dirs: Seq<Seq<char>>) -> WalkView {
        WalkView { dirs, ready: 0, missing: false }
    }

    /// What the walk needs next: each directory is looked for, and created if it
    /// was not found.
    pub open spec fn needs(self) -> NeedView {
        if self.ready >= self.dirs.len() {
            NeedView::Done
        } else if self.missing {
            NeedView::Create { path: self.dirs[self.ready as int], permission: 0o755 }
        } else {
            NeedView::Resolve { path: self.dirs[self.ready as int] }
        }
    }

    /// The walk after a look for the next directory.
    pub open spec fn after_look(self, found: bool) -> WalkView {
        if found {
            WalkView { ready: self.ready + 1, ..self }
        } else {
            WalkView { missing: true, ..self }
        }
    }

    /// The walk after the next directory was created.
    pub open spec fn after_create(self) -> WalkView {
        WalkView { ready: self.ready + 1, missing: false, ..self }
    }
}

/// A walk along the directories of a device.
pub struct DirectoryWalk {
    dirs: Vec<String>,
    ready: usize,
    missing: bool,
}

impl View for DirectoryWalk {
    type V = WalkView;

    closed spec fn view(&self) -> WalkView {
        WalkView { dirs: texts(self.dirs@), ready: self.ready as nat, missing: self.missing }
    }
}

impl DirectoryWalk {
    /// Starts a walk along the directories for the attributes of a device.
    pub fn new(index: u64) -> (r: DirectoryWalk)
        requires
            index < u64::MAX,
        ensures
            r@ == WalkView::along(device_dirs(index as nat)),
            r@.valid(),
    {
        DirectoryWalk { dirs: sysfs_directories(index), ready: 0, missing: false }
    }

    /// Finds what the walk needs next.
    pub fn need(&self) -> (r: Need)
        requires
            self@.valid(),
        ensures
            r@ == self@.needs(),
    {
        if self.ready >= self.dirs.len() {
            return Need::Done;
        }
        assert(self@.dirs[self.ready as int] == self.dirs@[self.ready as int]@);
        let path: String = self.dirs[self.ready].as_str().to_owned();
        if self.missing {
            Need::Create { path, permission: dir_permission() }
        } else {
            Need::Resolve { path }
        }
    }

    /// Goes on after a look for the next directory.
    pub fn looked(&mut self, found: bool)
        requires
            old(self)@.valid(),
            old(self)@.needs() is Resolve,
        ensures
            final(self)@ == old(self)@.after_look(found),
            final(self)@.valid(),
    {
        assert(self.ready < self.dirs.len());
        if found {
            self.ready = self.ready + 1;
        } else {
            self.missing = true;
        }
    }

    /// Goes on after the next directory was created.
    pub fn created(&mut self)
        requires
            old(self)@.valid(),
            old(self)@.needs() is Create,
        ensures
            final(self)@ == old(self)@.after_create(),
            final(self)@.valid(),
    {
        assert(self.ready < self.dirs.len());
        self.ready = self.ready + 1;
        self.missing = false;
    }
}

/// What a walk creates, in order, in a file system that has `existing`.
pub open spec fn creations(walk: WalkView, existing: Set<Seq<char>>) -> Seq<Seq<char>>
    decreases
            walk.dirs.len() - walk.ready,
            if walk.missing {
                0nat
            } else {
                1nat
            },
{
    match walk.needs() {
        NeedView::Done => Seq::empty(),
        NeedView::Resolve { path } => creations(
            walk.after_look(existing.contains(path)),
            existing,
        ),
        NeedView::Create { path, permission } => seq![path] + creations(
            walk.after_create(),
            existing.insert(path),
        ),
    }
}

/// The paths of `dirs` that are not among `existing`.
pub open spec fn missing(dirs: Seq<Seq<char>>, existing: Set<Seq<char>>) -> Seq<Seq<char>> {
    dirs.filter(|path: Seq<char>| !existing.contains(path))
}

/// What a walk creates from `ready` on.
proof fn lemma_creations(dirs: Seq<Seq<char>>, ready: nat, existing: Set<Seq<char>>)
    requires
        ready <= dirs.len(),
        dirs.no_duplicates(),
    ensures
        creations(WalkView { dirs, ready, missing: false }, existing) == missing(
            dirs.skip(ready as int),
            existing,
        ),
    decreases dirs.len() - ready,
{
    let rest = dirs.skip(ready as int);
    if ready == dirs.len() {
        assert(rest =~= Seq::empty());
        reveal(Seq::filter);
    } else {
        let walk = WalkView { dirs, ready, missing: false };
        let path = dirs[ready as int];
        let tail = dirs.skip((ready + 1) as int);
        assert(rest =~= seq![path] + tail);
        let absent = |p: Seq<char>| !existing.contains(p);
        Seq::filter_distributes_over_add(seq![path], tail, absent);
        assert(seq![path].filter(absent) =~= if absent(path) {
            seq![path]
        } else {
            Seq::empty()
        }) by {
            reveal_with_fuel(Seq::filter, 2);
            assert(seq![path].drop_last() =~= Seq::empty());
        }
        if existing.contains(path) {
            lemma_creations(dirs, ready + 1, existing);
            assert(creations(walk, existing) == creations(
                WalkView { dirs, ready: ready + 1, missing: false },
                existing,
            ));
        } else {
            let with = existing.insert(path);
            lemma_creations(dirs, ready + 1, with);
            let looked = WalkView { dirs, ready, missing: true };
            assert(creations(walk, existing) == creations(looked, existing));
            assert(creations(looked, existing) == seq![path] + creations(
                WalkView { dirs, ready: ready + 1, missing: false },
                with,
            ));
            assert(missing(tail, with) == missing(tail, existing)) by {
                assert forall|i: int| 0 <= i < tail.len() implies tail[i] != path by {
                    assert(tail[i] == dirs[ready + 1 + i]);
                }
                lemma_filter_same(
                    tail,
                    |p: Seq<char>| !with.contains(p),
                    |p: Seq<char>| !existing.contains(p),
                );
            }
        }
    }
}

/// Two filters that agree on all that is there do the same.
proof fn lemma_filter_same(
    all: Seq<Seq<char>>,
    first: spec_fn(Seq<char>) -> bool,
    second: spec_fn(Seq<char>) -> bool,
)
    requires
        forall|i: int| 0 <= i < all.len() ==> first(#[trigger] all[i]) == second(all[i]),
    ensures
        all.filter(first) == all.filter(second),
    decreases all.len(),
{
    reveal(Seq::filter);
    if all.len() > 0 {
        lemma_filter_same(all.drop_last(), first, second);
    }
}

/// The directories of a device differ in length, but for those of the same place
/// on the way.
proof fn lemma_dir_lengths(index: nat)
    ensures
        device_dirs(index).len() == 6,
        device_dirs(index)[0].len() == 1,
        device_dirs(index)[1].len() == 4,
        device_dirs(index)[2].len() == 8,
        device_dirs(index)[3].len() == 12,
        device_dirs(index)[4].len() == 20,
        device_dirs(index)[5].len() > 20,
{
    reveal_strlit("/");
    reveal_strlit("/sys");
    reveal_strlit("/sys/bus");
    reveal_strlit("/sys/bus/usb");
    reveal_strlit("/sys/bus/usb/devices");
    reveal_strlit("/sys/bus/usb/devices/");
}

/// No directory of a device occurs twice on the way to its attributes.
proof fn lemma_dirs_differ(index: nat)
    ensures
        device_dirs(index).no_duplicates(),
{
    lemma_dir_lengths(index);
    let dirs = device_dirs(index);
    assert forall|i: int, j: int| 0 <= i < j < 6 implies dirs[i] != dirs[j] by {
        assert(dirs[i].len() < dirs[j].len());
    }
}

/// For each device, exactly those directories are created that are not there, in
/// the order in which they lead to its attributes.
pub proof fn law_missing_directories_are_created(index: nat, existing: Set<Seq<char>>)
    ensures
        creations(WalkView::along(device_dirs(index)), existing) == missing(
            device_dirs(index),
            existing,
        ),
{
    lemma_dirs_differ(index);
    lemma_creations(device_dirs(index), 0, existing);
    assert(device_dirs(index).skip(0) =~= device_dirs(index));
}

/// What is created for the first `count` devices, one after the other.
pub open spec fn all_creations(count: nat, existing: Set<Seq<char>>) -> Seq<Seq<char>>
    decreases count,
{
    if count == 0 {
        Seq::empty()
    } else {
        let n = (count - 1) as nat;
        let before = all_creations(n, existing);
        before + creations(
            WalkView::along(device_dirs(n)),
            existing.union(before.to_set()),
        )
    }
}

/// Whether `path` is on the way to the attributes of one of the first `count`
/// devices.
pub open spec fn is_needed(count: nat, path: Seq<char>) -> bool {
    exists|i: nat| i < count && (#[trigger] device_dirs(i)).contains(path)
}

/// Whether the directory that holds the `j`-th creation is there or was created
/// before.
pub open spec fn parent_is_ready(
    created: Seq<Seq<char>>,
    existing: Set<Seq<char>>,
    j: int,
) -> bool {
    forall|i: nat, k: int|
        1 <= k < 6 && created[j] == #[trigger] device_dirs(i)[k] ==> existing.contains(
            device_dirs(i)[k - 1],
        ) || created.take(j).contains(device_dirs(i)[k - 1])
}

/// For all devices together, exactly those directories are created that are needed
/// and were not there, each once, and each after the directory that holds it.
pub proof fn law_directories_are_created_once(count: nat, existing: Set<Seq<char>>)
    ensures
        all_creations(count, existing).no_duplicates(),
        forall|path: Seq<char>| #[trigger]
            all_creations(count, existing).contains(path) <==> is_needed(count, path)
                && !existing.contains(path),
        forall|j: int|
            0 <= j < all_creations(count, existing).len() ==> #[trigger] parent_is_ready(
                all_creations(count, existing),
                existing,
                j,
            ),
    decreases count,
{
    if count > 0 {
        let n = (count - 1) as nat;
        let before = all_creations(n, existing);
        let there = existing.union(before.to_set());
        let dirs = device_dirs(n);
        let new = creations(WalkView::along(dirs), there);
        let all = all_creations(count, existing);
        law_directories_are_created_once(n, existing);
        law_missing_directories_are_created(n, there);
        lemma_dirs_differ(n);
        lemma_missing(dirs, there);
        lemma_parents(dirs, 0, there);
        assert(all == before + new);
        assert forall|path: Seq<char>| #[trigger] all.contains(path) <==> is_needed(count, path)
            && !existing.contains(path) by {
            lemma_contains(before, new, path);
            if is_needed(count, path) {
                let i = choose|i: nat| i < count && (#[trigger] device_dirs(i)).contains(path);
                if i < n {
                    assert(is_needed(n, path));
                }
            }
            if is_needed(n, path) {
                let i = choose|i: nat| i < n && (#[trigger] device_dirs(i)).contains(path);
                assert(device_dirs(i).contains(path));
            }
            if dirs.contains(path) {
                assert(is_needed(count, path));
            }
        }
        assert(all.no_duplicates()) by {
            assert forall|a: int, b: int| 0 <= a < b < all.len() implies all[a] != all[b] by {
                if a < before.len() && b >= before.len() {
                    assert(new.contains(new[b - before.len()]));
                    assert(before.to_set().contains(before[a]));
                }
            }
        }
        assert forall|j: int| 0 <= j < all.len() implies #[trigger] parent_is_ready(
            all,
            existing,
            j,
        ) by {
            if j < before.len() {
                assert(parent_is_ready(before, existing, j));
                assert(all.take(j) =~= before.take(j));
            } else {
                lemma_new_parent(before, new, n, existing, j - before.len());
            }
        }
    }
}

/// What two rows hold together.
proof fn lemma_contains(first: Seq<Seq<char>>, second: Seq<Seq<char>>, path: Seq<char>)
    ensures
        (first + second).contains(path) <==> first.contains(path) || second.contains(path),
{
    let both = first + second;
    if first.contains(path) {
        let i = choose|i: int| 0 <= i < first.len() && first[i] == path;
        assert(both[i] == path);
    }
    if second.contains(path) {
        let i = choose|i: int| 0 <= i < second.len() && second[i] == path;
        assert(both[first.len() + i] == path);
    }
}

/// What is missing is in the row and not there, and occurs once.
proof fn lemma_missing(dirs: Seq<Seq<char>>, existing: Set<Seq<char>>)
    requires
        dirs.no_duplicates(),
    ensures
        missing(dirs, existing).no_duplicates(),
        forall|path: Seq<char>| #[trigger]
            missing(dirs, existing).contains(path) <==> dirs.contains(path) && !existing.contains(
                path,
            ),
    decreases dirs.len(),
{
    reveal(Seq::filter);
    if dirs.len() > 0 {
        let front = dirs.drop_last();
        let last = dirs.last();
        lemma_missing(front, existing);
        assert(dirs =~= front + seq![last]);
        assert forall|path: Seq<char>| #[trigger]
            missing(dirs, existing).contains(path) <==> dirs.contains(path) && !existing.contains(
            path,
        ) by {
            lemma_contains(front, seq![last], path);
            assert(seq![last].contains(path) <==> path == last) by {
                assert(seq![last][0] == last);
            }
            lemma_contains(missing(front, existing), seq![last], path);
            assert(missing(front, existing) + seq![last] =~= missing(front, existing).push(last));
        }
        if !existing.contains(last) {
            assert(!front.contains(last)) by {
                if front.contains(last) {
                    let i = choose|i: int| 0 <= i < front.len() && front[i] == last;
                    assert(dirs[i] == dirs[dirs.len() - 1]);
                }
            }
            let kept = missing(front, existing);
            assert forall|a: int, b: int|
                0 <= a < b < kept.push(last).len() implies kept.push(last)[a] != kept.push(
                last,
            )[b] by {
                if b == kept.len() {
                    assert(kept.contains(kept[a]));
                }
            }
        }
    }
}

/// Where the `j`-th creation of a walk stands on the way, and that the directory
/// before it is there.
spec fn stands_behind_parent(
    dirs: Seq<Seq<char>>,
    created: Seq<Seq<char>>,
    existing: Set<Seq<char>>,
    j: int,
) -> bool {
    exists|k: int|
        0 <= k < dirs.len() && created[j] == #[trigger] dirs[k] && (k == 0 || existing.contains(
            dirs[k - 1],
        ) || created.take(j).contains(dirs[k - 1]))
}

/// Each creation of a walk stands behind the directory that holds it.
proof fn lemma_parents(dirs: Seq<Seq<char>>, ready: nat, existing: Set<Seq<char>>)
    requires
        ready <= dirs.len(),
        ready > 0 ==> existing.contains(dirs[ready - 1]),
    ensures
        ({
            let created = creations(WalkView { dirs, ready, missing: false }, existing);
            forall|j: int|
                0 <= j < created.len() ==> #[trigger] stands_behind_parent(
                    dirs,
                    created,
                    existing,
                    j,
                )
        }),
    decreases dirs.len() - ready,
{
    let walk = WalkView { dirs, ready, missing: false };
    let created = creations(walk, existing);
    if ready < dirs.len() {
        let path = dirs[ready as int];
        let next = WalkView { dirs, ready: ready + 1, missing: false };
        if existing.contains(path) {
            lemma_parents(dirs, ready + 1, existing);
            assert(created == creations(next, existing));
        } else {
            let with = existing.insert(path);
            let rest = creations(next, with);
            lemma_parents(dirs, ready + 1, with);
            let looked = WalkView { dirs, ready, missing: true };
            assert(created == creations(looked, existing));
            assert(created == seq![path] + rest);
            assert forall|j: int| 0 <= j < created.len() implies #[trigger] stands_behind_parent(
                dirs,
                created,
                existing,
                j,
            ) by {
                if j == 0 {
                    assert(created[0] == dirs[ready as int]);
                } else {
                    assert(stands_behind_parent(dirs, rest, with, j - 1));
                    let k = choose|k: int|
                        0 <= k < dirs.len() && rest[j - 1] == #[trigger] dirs[k] && (k == 0
                            || with.contains(dirs[k - 1]) || rest.take(j - 1).contains(
                            dirs[k - 1],
                        ));
                    assert(created[j] == dirs[k]);
                    assert(created.take(j) =~= seq![path] + rest.take(j - 1));
                    if k > 0 {
                        lemma_contains(seq![path], rest.take(j - 1), dirs[k - 1]);
                        assert(seq![path][0] == path);
                    }
                }
            }
        }
    }
}

/// A creation for the next device stands behind the directory that holds it.
proof fn lemma_new_parent(
    before: Seq<Seq<char>>,
    new: Seq<Seq<char>>,
    index: nat,
    existing: Set<Seq<char>>,
    j: int,
)
    requires
        0 <= j < new.len(),
        stands_behind_parent(device_dirs(index), new, existing.union(before.to_set()), j),
    ensures
        parent_is_ready(before + new, existing, before.len() + j),
{
    let dirs = device_dirs(index);
    let there = existing.union(before.to_set());
    let all = before + new;
    let at = before.len() + j;
    let place = choose|k: int|
        0 <= k < dirs.len() && new[j] == #[trigger] dirs[k] && (k == 0 || there.contains(
            dirs[k - 1],
        ) || new.take(j).contains(dirs[k - 1]));
    lemma_dir_lengths(index);
    assert forall|i: nat, k: int|
        1 <= k < 6 && all[at] == #[trigger] device_dirs(i)[k] implies existing.contains(
        device_dirs(i)[k - 1],
    ) || all.take(at).contains(device_dirs(i)[k - 1]) by {
        lemma_dir_lengths(i);
        assert(all[at] == new[j]);
        assert(k == place);
        let parent = dirs[k - 1];
        assert(parent == device_dirs(i)[k - 1]);
        assert(all.take(at) =~= before + new.take(j));
        lemma_contains(before, new.take(j), parent);
        if before.to_set().contains(parent) {
            assert(before.contains(parent));
        }
    }
}

/// A directory is looked for before it is created, and created only if it was not
/// found; its owner may do everything, all others may list and enter it.
pub proof fn law_looks_before_it_creates(walk: WalkView)
    requires
        walk.ready < walk.dirs.len(),
    ensures
        ({
            let path = walk.dirs[walk.ready as int];
            let fresh = WalkView { missing: false, ..walk };
            &&& fresh.needs() == (NeedView::Resolve { path })
            &&& fresh.after_look(false).needs() == (NeedView::Create { path, permission: 0o755 })
            &&& fresh.after_look(true) == fresh.after_look(false).after_create()
            &&& fresh.after_look(true) == (WalkView { ready: walk.ready + 1, ..fresh })
        }),
{
}

} // verus!
