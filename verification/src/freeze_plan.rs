//! The freeze plan: which mounted filesystems `guest-fsfreeze-*` and
//! `guest-fstrim` operate on, and in what order.
//!
//! From the mount table the plan keeps only local, device-backed filesystems
//! of a type in [`FREEZABLE_FS_TYPES`]. Bind mounts and subvolumes of the same
//! superblock are de-duplicated by `(major, minor)`: the first mount in mount
//! order names the target and the others are kept as its aliases. Freeze
//! traverses the plan in reverse mount order (deepest first), thaw forward.
//!
//! Pathnames are byte strings.

use std::collections::hash_map::DefaultHasher;
use std::collections::{HashMap, HashSet};
use std::hash::Hasher;
use vstd::prelude::*;
use vstd::std_specs::hash::*;
use vstd::string::*;

use crate::mountinfo::MountEntry;
use crate::mountinfo;
use crate::text::{has_prefix, same_bytes, same_text};

verus! {

/// Filesystem types eligible for the plan: only those whose freeze behaviour
/// is covered by a test on a real filesystem.
pub const FREEZABLE_FS_TYPES: [&'static str; 2] = ["ext4", "xfs"];

/// The directory separator.
pub const SLASH: u8 = 0x2F;

/// A filesystem in the plan.
#[derive(Debug, PartialEq, Eq)]
pub struct Target {
    /// The (first, in mount order) mount point of the superblock: the name
    /// the target goes by in replies and audit records.
    pub mountpoint: Vec<u8>,
    /// Its other mount points (bind mounts, subvolumes), in mount order.
    pub aliases: Vec<Vec<u8>>,
    /// `(major, minor)` of the superblock.
    pub dev: (u32, u32),
    /// Filesystem type.
    pub fs_type: String,
    /// The requested mount point that selected this target
    /// ([`FreezePlan::restrict_to`]), if any: the freeze opens the target on
    /// that name and on nothing else.
    pub requested: Option<Vec<u8>>,
}

/// A target as a mathematical value.
#[verifier::ext_equal]
pub ghost struct TargetView {
    pub mountpoint: Seq<u8>,
    pub aliases: Seq<Seq<u8>>,
    pub dev: (u32, u32),
    pub fs_type: Seq<char>,
    pub requested: Option<Seq<u8>>,
}

/// A list of pathnames, each taken by its view.
pub open spec fn paths_view(paths: Seq<Vec<u8>>) -> Seq<Seq<u8>> {
    Seq::new(paths.len(), |i: int| paths[i]@)
}

impl View for Target {
    type V = TargetView;

    open spec fn view(&self) -> TargetView {
        TargetView {
            mountpoint: self.mountpoint@,
            aliases: paths_view(self.aliases@),
            dev: self.dev,
            fs_type: self.fs_type@,
            requested: match self.requested {
                Some(name) => Some(name@),
                None => None,
            },
        }
    }
}

/// A list of targets, each taken by its view.
pub open spec fn targets_view(targets: Seq<Target>) -> Seq<TargetView> {
    Seq::new(targets.len(), |i: int| targets[i]@)
}

impl TargetView {
    /// Every pathname of the superblock, `mountpoint` first.
    pub open spec fn mountpoints(self) -> Seq<Seq<u8>> {
        seq![self.mountpoint] + self.aliases
    }
}

impl Target {
    /// Every pathname of the superblock, `mountpoint` first.
    pub fn mountpoints(&self) -> (names: Vec<&Vec<u8>>)
        ensures
            Seq::new(names@.len(), |i: int| names@[i]@) == self@.mountpoints(),
    {
        let mut names: Vec<&Vec<u8>> = Vec::new();
        names.push(&self.mountpoint);
        for i in 0..self.aliases.len()
            invariant
                names@.len() == i + 1,
                names@[0]@ == self.mountpoint@,
                forall|j: int| 0 < j < names@.len() ==> #[trigger] names@[j]@ == self.aliases@[j - 1]@,
        {
            names.push(&self.aliases[i]);
        }
        proof {
            assert(Seq::new(names@.len(), |i: int| names@[i]@) =~= self@.mountpoints());
        }
        names
    }
}

impl Clone for Target {
    fn clone(&self) -> (copy: Self)
        ensures
            copy@ == self@,
    {
        let mut aliases: Vec<Vec<u8>> = Vec::new();
        for i in 0..self.aliases.len()
            invariant
                aliases@.len() == i,
                forall|j: int| 0 <= j < i ==> #[trigger] aliases@[j]@ == self.aliases@[j]@,
        {
            aliases.push(clone_path(&self.aliases[i]));
        }
        let copy = Target {
            mountpoint: clone_path(&self.mountpoint),
            aliases,
            dev: self.dev,
            fs_type: self.fs_type.clone(),
            requested: match &self.requested {
                Some(name) => Some(clone_path(name)),
                None => None,
            },
        };
        proof {
            assert(copy@.aliases =~= self@.aliases);
        }
        copy
    }
}

/// A pathname of its own.
pub(crate) fn clone_path(path: &Vec<u8>) -> (copy: Vec<u8>)
    ensures
        copy@ == path@,
{
    vstd::slice::slice_to_vec(path.as_slice())
}

/// One row of the mount table: its identity and its parent (the mount graph,
/// which decides what a pathname leads to), its mount point and its
/// superblock.
#[derive(Debug, PartialEq, Eq)]
pub struct MountRow {
    pub id: u32,
    pub parent: u32,
    pub mount_point: Vec<u8>,
    pub dev: (u32, u32),
}

/// A row as a mathematical value.
#[verifier::ext_equal]
pub ghost struct RowView {
    pub id: u32,
    pub parent: u32,
    pub mount_point: Seq<u8>,
    pub dev: (u32, u32),
}

impl View for MountRow {
    type V = RowView;

    open spec fn view(&self) -> RowView {
        RowView {
            id: self.id,
            parent: self.parent,
            mount_point: self.mount_point@,
            dev: self.dev,
        }
    }
}

impl Clone for MountRow {
    fn clone(&self) -> (copy: Self)
        ensures
            copy@ == self@,
    {
        MountRow {
            id: self.id,
            parent: self.parent,
            mount_point: clone_path(&self.mount_point),
            dev: self.dev,
        }
    }
}

/// A mount table, each row taken by its view.
pub open spec fn rows_view(rows: Seq<MountRow>) -> Seq<RowView> {
    Seq::new(rows.len(), |i: int| rows[i]@)
}

// ---------------------------------------------------------------------------
// What a pathname leads to
// ---------------------------------------------------------------------------

/// Row `i` is attached under mount `id` at the pathname `point`. A
/// self-parented row is the root of the namespace, never its own child.
pub open spec fn attached(rows: Seq<RowView>, id: u32, point: Seq<u8>, i: int) -> bool {
    &&& 0 <= i < rows.len()
    &&& rows[i].parent == id
    &&& rows[i].parent != rows[i].id
    &&& rows[i].mount_point == point
}

/// Something is attached under mount `id` at `point`.
pub open spec fn has_child(rows: Seq<RowView>, id: u32, point: Seq<u8>) -> bool {
    exists|i: int| attached(rows, id, point, i)
}

/// Row `i` is what is attached under mount `id` at `point`, and it alone.
pub open spec fn only_child(rows: Seq<RowView>, id: u32, point: Seq<u8>, i: int) -> bool {
    &&& attached(rows, id, point, i)
    &&& forall|j: int| attached(rows, id, point, j) ==> j == i
}

/// Row `i` could be the root of the namespace: mounted at `/`, its parent not
/// in the table or itself.
pub open spec fn rootlike(rows: Seq<RowView>, i: int) -> bool {
    &&& 0 <= i < rows.len()
    &&& rows[i].mount_point == seq![SLASH]
    &&& (rows[i].parent == rows[i].id || forall|j: int|
        0 <= j < rows.len() ==> #[trigger] rows[j].id != rows[i].parent)
}

/// The root of the namespace: the first row that could be it.
pub open spec fn is_root(rows: Seq<RowView>, i: int) -> bool {
    &&& rootlike(rows, i)
    &&& forall|j: int| 0 <= j < i ==> !#[trigger] rootlike(rows, j)
}

/// The first `n` bytes of `path` are a prefix at which a mount point could be:
/// `/`, `path` cut at a later `/`, or `path` itself.
pub open spec fn is_cut(path: Seq<u8>, n: int) -> bool {
    &&& 1 <= n <= path.len()
    &&& (n == 1 || n == path.len() || path[n] == SLASH)
}

/// On the way along `path`, mount `cur` is left at the prefix of `n` bytes.
pub open spec fn crosses(rows: Seq<RowView>, cur: int, path: Seq<u8>, n: int) -> bool {
    &&& is_cut(path, n)
    &&& n >= rows[cur].mount_point.len()
    &&& has_child(rows, rows[cur].id, path.take(n))
}

/// The shortest prefix, of `n` bytes or more, at which `cur` is left.
pub open spec fn next_crossing(rows: Seq<RowView>, cur: int, path: Seq<u8>, n: int) -> Option<int>
    decreases path.len() + 1 - n,
{
    if n > path.len() {
        None
    } else if crosses(rows, cur, path, n) {
        Some(n)
    } else {
        next_crossing(rows, cur, path, n + 1)
    }
}

/// The mount in which a walk along `path` that stands in `cur` ends: it crosses
/// into the child at the shortest prefix at or below the mount point of `cur`,
/// and ends where there is none. `None` when two mounts are attached at one
/// point under one parent, or after `steps` steps.
pub open spec fn walk(rows: Seq<RowView>, cur: int, path: Seq<u8>, steps: nat) -> Option<int>
    decreases steps,
{
    if steps == 0 {
        None
    } else {
        match next_crossing(rows, cur, path, 1) {
            None => Some(cur),
            Some(n) => {
                let point = path.take(n);
                if exists|i: int| only_child(rows, rows[cur].id, point, i) {
                    let child = choose|i: int| only_child(rows, rows[cur].id, point, i);
                    walk(rows, child, path, (steps - 1) as nat)
                } else {
                    None
                }
            },
        }
    }
}

/// The superblock mounted at exactly `path` now: from the root mount along the
/// pathname, as the kernel resolves it. The walk is bounded by the size of the
/// table, so a malformed table (a cycle) resolves nothing.
pub open spec fn resolved(rows: Seq<RowView>, path: Seq<u8>) -> Option<(u32, u32)> {
    if path.len() == 0 || path[0] != SLASH {
        None
    } else if exists|root: int| is_root(rows, root) {
        let root = choose|root: int| is_root(rows, root);
        match walk(rows, root, path, rows.len() + 1) {
            Some(end) => if rows[end].mount_point == path {
                Some(rows[end].dev)
            } else {
                None
            },
            None => None,
        }
    } else {
        None
    }
}

/// What is attached at one point under one mount.
enum Children {
    Nothing,
    One(usize),
    Many,
}

/// The mount table as the tree the kernel walks when it resolves a path:
/// every mount's children by the pathname they are attached at. Indexed once
/// per request, in one pass over the table.
struct MountTree<'a> {
    rows: &'a Vec<MountRow>,
    /// Rows that are some mount's child, by a digest of the parent and the
    /// pathname; what shares a digest is told apart by comparing.
    children: HashMap<u64, Vec<usize>>,
    root: Option<usize>,
}

/// The digest under which a child is found.
spec fn digest(parent: u32, point: Seq<u8>) -> u64 {
    DefaultHasher::spec_finish(seq![le_bytes(parent), point])
}

/// The bytes of a number, lowest first.
spec fn le_bytes(n: u32) -> Seq<u8> {
    seq![
        (n % 256) as u8,
        (n / 256 % 256) as u8,
        (n / 65536 % 256) as u8,
        (n / 16777216 % 256) as u8,
    ]
}

fn digest_of(parent: u32, point: &[u8]) -> (key: u64)
    ensures
        key == digest(parent, point@),
{
    let mut number: Vec<u8> = Vec::new();
    number.push((parent % 256) as u8);
    number.push((parent / 256 % 256) as u8);
    number.push((parent / 65536 % 256) as u8);
    number.push((parent / 16777216 % 256) as u8);
    let mut hasher = DefaultHasher::new();
    hasher.write(number.as_slice());
    hasher.write(point);
    proof {
        assert(number@ =~= le_bytes(parent));
        assert(hasher@ =~= seq![le_bytes(parent), point@]);
    }
    hasher.finish()
}

/// Every row below `n` that is a child stands in the bucket of its digest, and
/// the buckets hold nothing else, in order.
spec fn indexed(rows: Seq<MountRow>, children: Map<u64, Vec<usize>>, n: int) -> bool {
    &&& forall|key: u64, k: int|
        #![trigger children[key]@[k]]
        children.contains_key(key) && 0 <= k < children[key]@.len() ==> {
            &&& children[key]@[k] < n
            &&& rows[children[key]@[k] as int].parent != rows[children[key]@[k] as int].id
        }
    &&& forall|key: u64, k: int, l: int|
        #![trigger children[key]@[k], children[key]@[l]]
        children.contains_key(key) && 0 <= k < l < children[key]@.len() ==> children[key]@[k]
            < children[key]@[l]
    &&& forall|i: int|
        0 <= i < n && (#[trigger] rows[i]).parent != rows[i].id ==> in_bucket(rows, children, i)
}

spec fn in_bucket(rows: Seq<MountRow>, children: Map<u64, Vec<usize>>, i: int) -> bool {
    let key = digest(rows[i].parent, rows[i].mount_point@);
    &&& children.contains_key(key)
    &&& exists|k: int| 0 <= k < children[key]@.len() && children[key]@[k] == i
}

impl<'a> MountTree<'a> {
    spec fn wf(&self) -> bool {
        let rows = rows_view(self.rows@);
        &&& indexed(self.rows@, self.children@, self.rows@.len() as int)
        &&& match self.root {
            Some(root) => is_root(rows, root as int),
            None => forall|i: int| !is_root(rows, i),
        }
    }

    fn index(rows: &'a Vec<MountRow>) -> (tree: MountTree<'a>)
        ensures
            tree.rows == rows,
            tree.wf(),
    {
        let mut ids: HashSet<u32> = HashSet::new();
        for i in 0..rows.len()
            invariant
                forall|id: u32|
                    ids@.contains(id) <==> exists|j: int| 0 <= j < i && (#[trigger] rows@[j]).id == id,
        {
            let ghost before = ids@;
            ids.insert(rows[i].id);
            proof {
                assert forall|id: u32|
                    ids@.contains(id) <==> exists|j: int|
                        0 <= j < i + 1 && (#[trigger] rows@[j]).id == id by {
                    if before.contains(id) {
                        let j = choose|j: int| 0 <= j < i && (#[trigger] rows@[j]).id == id;
                        assert(rows@[j].id == id);
                    }
                    if id == rows@[i as int].id {
                        assert(rows@[i as int].id == id);
                    }
                }
            }
        }
        let mut children: HashMap<u64, Vec<usize>> = HashMap::new();
        for i in 0..rows.len()
            invariant
                indexed(rows@, children@, i as int),
        {
            if rows[i].parent != rows[i].id {
                let key = digest_of(rows[i].parent, rows[i].mount_point.as_slice());
                let ghost before = children@;
                let mut bucket: Vec<usize> = match children.remove(&key) {
                    Some(bucket) => bucket,
                    None => Vec::new(),
                };
                let ghost held = bucket@;
                bucket.push(i);
                children.insert(key, bucket);
                proof {
                    assert(children@[key]@ == held.push(i));
                    assert(before.contains_key(key) ==> held == before[key]@);
                    assert(forall|other: u64| other != key ==> (children@.contains_key(other)
                        <==> before.contains_key(other)));
                    assert(forall|other: u64| other != key && before.contains_key(other)
                        ==> children@[other] == before[other]);
                    assert(children@[key]@[held.len() as int] == i);
                    assert forall|j: int|
                        0 <= j < i + 1 && (#[trigger] rows@[j]).parent
                            != rows@[j].id implies in_bucket(rows@, children@, j) by {
                        if j < i {
                            assert(in_bucket(rows@, before, j));
                            let at = digest(rows@[j].parent, rows@[j].mount_point@);
                            let k = choose|k: int|
                                0 <= k < before[at]@.len() && before[at]@[k] == j;
                            assert(children@[at]@[k] == j);
                        }
                    }
                }
            }
        }
        let mut root: Option<usize> = None;
        let mut at: usize = 0;
        while at < rows.len() && root.is_none()
            invariant
                at <= rows@.len(),
                forall|id: u32|
                    ids@.contains(id) <==> exists|j: int|
                        0 <= j < rows@.len() && (#[trigger] rows@[j]).id == id,
                match root {
                    Some(r) => is_root(rows_view(rows@), r as int),
                    None => forall|j: int| 0 <= j < at ==> !#[trigger] rootlike(rows_view(rows@), j),
                },
            decreases rows@.len() - at,
        {
            let row = &rows[at];
            let top = row.mount_point.len() == 1 && row.mount_point[0] == SLASH;
            let orphan = row.parent == row.id || !ids.contains(&row.parent);
            proof {
                let view = rows_view(rows@);
                if top {
                    assert(row.mount_point@ =~= seq![SLASH]);
                }
                if ids@.contains(row.parent) {
                    let j = choose|j: int|
                        0 <= j < rows@.len() && (#[trigger] rows@[j]).id == row.parent;
                    assert(view[j].id == row.parent);
                } else {
                    assert forall|j: int| 0 <= j < view.len() implies #[trigger] view[j].id
                        != row.parent by {
                        assert(rows@[j].id == view[j].id);
                    }
                }
                assert(rootlike(view, at as int) <==> top && orphan);
            }
            if top && orphan {
                root = Some(at);
            }
            at = at + 1;
        }
        proof {
            let view = rows_view(rows@);
            if root.is_none() {
                assert(at == rows@.len());
                assert forall|i: int| !is_root(view, i) by {
                    if is_root(view, i) {
                        assert(rootlike(view, i));
                    }
                }
            }
        }
        MountTree { rows, children, root }
    }

    /// What is attached under mount `id` at `point`.
    fn lookup(&self, id: u32, point: &[u8]) -> (found: Children)
        requires
            self.wf(),
        ensures
            match found {
                Children::Nothing => !has_child(rows_view(self.rows@), id, point@),
                Children::One(i) => only_child(rows_view(self.rows@), id, point@, i as int),
                Children::Many => has_child(rows_view(self.rows@), id, point@) && forall|i: int|
                    !only_child(rows_view(self.rows@), id, point@, i),
            },
    {
        let ghost view = rows_view(self.rows@);
        let key = digest_of(id, point);
        let mut found: Option<usize> = None;
        match self.children.get(&key) {
            Some(bucket) => {
                for k in 0..bucket.len()
                    invariant
                        self.wf(),
                        view == rows_view(self.rows@),
                        key == digest(id, point@),
                        self.children@.contains_key(key),
                        *bucket == self.children@[key],
                        match found {
                            Some(i) => {
                                &&& attached(view, id, point@, i as int)
                                &&& exists|l: int| 0 <= l < k && bucket@[l] == i
                                &&& forall|l: int|
                                    0 <= l < k && attached(view, id, point@, bucket@[l] as int)
                                        ==> bucket@[l] == i
                            },
                            None => forall|l: int|
                                0 <= l < k ==> !attached(view, id, point@, #[trigger] bucket@[l] as int),
                        },
                {
                    let i = bucket[k];
                    let row = &self.rows[i];
                    let same = same_bytes(row.mount_point.as_slice(), point);
                    if row.parent == id && same {
                        proof {
                            assert(attached(view, id, point@, i as int));
                        }
                        if let Some(first) = found {
                            proof {
                                let l = choose|l: int| 0 <= l < k && bucket@[l] == first;
                                assert(bucket@[l] < bucket@[k as int]);
                                assert forall|j: int| !only_child(view, id, point@, j) by {
                                    if only_child(view, id, point@, j) {
                                        assert(first == j);
                                        assert(i == j);
                                    }
                                }
                            }
                            return Children::Many;
                        }
                        found = Some(i);
                        proof {
                            assert(bucket@[k as int] == i);
                        }
                    } else {
                        proof {
                            assert(!attached(view, id, point@, i as int));
                        }
                    }
                }
                proof {
                    assert forall|j: int| attached(view, id, point@, j) implies found == Some(
                        j as usize,
                    ) by {
                        assert(self.rows@[j].parent == id);
                        assert(in_bucket(self.rows@, self.children@, j));
                        let l = choose|l: int| 0 <= l < bucket@.len() && bucket@[l] == j;
                        assert(attached(view, id, point@, bucket@[l] as int));
                    }
                }
            },
            None => {
                proof {
                    assert forall|j: int| !attached(view, id, point@, j) by {
                        if attached(view, id, point@, j) {
                            assert(self.rows@[j].parent == id);
                            assert(in_bucket(self.rows@, self.children@, j));
                        }
                    }
                }
            },
        }
        match found {
            Some(i) => Children::One(i),
            None => Children::Nothing,
        }
    }

    /// The superblock mounted at exactly `path` now. From the root mount, the
    /// walk crosses into the child attached at the shortest prefix of `path`
    /// at or below the current mount's own mount point (the first mount point
    /// the kernel meets on the way), and stops where there is none.
    fn resolve(&self, path: &[u8]) -> (dev: Option<(u32, u32)>)
        requires
            self.wf(),
        ensures
            dev == resolved(rows_view(self.rows@), path@),
    {
        let ghost view = rows_view(self.rows@);
        if path.len() == 0 || path[0] != SLASH {
            return None;
        }
        let root = match self.root {
            Some(root) => root,
            None => {
                return None;
            },
        };
        proof {
            let chosen = choose|r: int| is_root(view, r);
            assert(is_root(view, root as int));
            assert(rootlike(view, chosen) && rootlike(view, root as int));
            assert(chosen == root as int);
        }
        let mut current: usize = root;
        let mut left: usize = self.rows.len();
        loop
            invariant
                self.wf(),
                view == rows_view(self.rows@),
                current < self.rows@.len(),
                left <= self.rows@.len(),
                path@.len() > 0,
                path@[0] == SLASH,
                exists|r: int| is_root(view, r),
                walk(view, choose|r: int| is_root(view, r), path@, view.len() + 1) == walk(
                    view,
                    current as int,
                    path@,
                    left as nat + 1,
                ),
            decreases left,
        {
            let row = &self.rows[current];
            let mut n: usize = 0;
            let mut child: Children = Children::Nothing;
            let mut crossed = false;
            while n < path.len() && !crossed
                invariant
                    self.wf(),
                    view == rows_view(self.rows@),
                    current < self.rows@.len(),
                    *row == self.rows@[current as int],
                    n <= path@.len(),
                    crossed ==> {
                        &&& next_crossing(view, current as int, path@, 1) == Some(n as int)
                        &&& match child {
                            Children::Nothing => false,
                            Children::One(i) => only_child(
                                view,
                                view[current as int].id,
                                path@.take(n as int),
                                i as int,
                            ),
                            Children::Many => forall|i: int|
                                !only_child(
                                    view,
                                    view[current as int].id,
                                    path@.take(n as int),
                                    i,
                                ),
                        }
                    },
                    !crossed ==> next_crossing(view, current as int, path@, 1) == next_crossing(
                        view,
                        current as int,
                        path@,
                        n + 1,
                    ),
                decreases path@.len() - n,
            {
                n = n + 1;
                let cut = n == 1 || n == path.len() || path[n] == SLASH;
                if cut && n >= row.mount_point.len() {
                    let prefix = vstd::slice::slice_subrange(path, 0, n);
                    proof {
                        assert(prefix@ =~= path@.take(n as int));
                    }
                    child = self.lookup(row.id, prefix);
                    match child {
                        Children::Nothing => {},
                        _ => {
                            crossed = true;
                        },
                    }
                }
            }
            if !crossed {
                let here = same_bytes(row.mount_point.as_slice(), path);
                return if here {
                    Some(row.dev)
                } else {
                    None
                };
            }
            match child {
                Children::One(i) => {
                    proof {
                        let point = path@.take(n as int);
                        let chosen = choose|j: int|
                            only_child(view, view[current as int].id, point, j);
                        assert(only_child(view, view[current as int].id, point, i as int));
                        assert(chosen == i);
                    }
                    if left == 0 {
                        proof {
                            assert(walk(view, i as int, path@, 0) is None);
                        }
                        return None;
                    }
                    current = i;
                    left = left - 1;
                },
                _ => {
                    return None;
                },
            }
        }
    }
}

// ---------------------------------------------------------------------------
// The plan
// ---------------------------------------------------------------------------

/// The entry is a local, device-backed filesystem of an eligible type.
pub open spec fn eligible(entry: MountEntry) -> bool {
    &&& (entry.fs_type@ == FREEZABLE_FS_TYPES@[0]@ || entry.fs_type@ == FREEZABLE_FS_TYPES@[1]@)
    &&& "/dev/"@.is_prefix_of(entry.source@)
}

/// `true` when the entry is a local, device-backed filesystem of an eligible
/// type.
pub fn is_eligible(entry: &MountEntry) -> (is: bool)
    ensures
        is == eligible(*entry),
{
    (same_text(entry.fs_type.as_str(), FREEZABLE_FS_TYPES[0]) || same_text(
        entry.fs_type.as_str(),
        FREEZABLE_FS_TYPES[1],
    )) && has_prefix(entry.source.as_str(), "/dev/")
}

/// Some target is the superblock `dev`.
pub open spec fn has_dev(targets: Seq<TargetView>, dev: (u32, u32)) -> bool {
    exists|i: int| 0 <= i < targets.len() && (#[trigger] targets[i]).dev == dev
}

/// Where the superblock `dev` stands among the targets.
pub open spec fn dev_index(targets: Seq<TargetView>, dev: (u32, u32)) -> int {
    choose|i: int| 0 <= i < targets.len() && (#[trigger] targets[i]).dev == dev
}

/// The targets of a mount table: each eligible superblock once, named by the
/// first of its mount points, the later ones as its aliases.
pub open spec fn planned(mounts: Seq<MountEntry>) -> Seq<TargetView>
    decreases mounts.len(),
{
    if mounts.len() == 0 {
        Seq::empty()
    } else {
        let before = planned(mounts.drop_last());
        let entry = mounts.last();
        let dev = entry.spec_dev();
        if !eligible(entry) {
            before
        } else if has_dev(before, dev) {
            let i = dev_index(before, dev);
            before.update(
                i,
                TargetView { aliases: before[i].aliases.push(entry.mount_point@), ..before[i] },
            )
        } else {
            before.push(
                TargetView {
                    mountpoint: entry.mount_point@,
                    aliases: Seq::empty(),
                    dev,
                    fs_type: entry.fs_type@,
                    requested: None,
                },
            )
        }
    }
}

/// No superblock occurs twice.
pub open spec fn distinct_devs(targets: Seq<TargetView>) -> bool {
    forall|i: int, j: int|
        0 <= i < j < targets.len() ==> (#[trigger] targets[i]).dev != (#[trigger] targets[j]).dev
}

/// The row of the table that an entry is.
pub open spec fn row_of(entry: MountEntry) -> RowView {
    RowView {
        id: entry.mount_id,
        parent: entry.parent_id,
        mount_point: entry.mount_point@,
        dev: entry.spec_dev(),
    }
}

/// The whole table.
pub open spec fn rows_of(mounts: Seq<MountEntry>) -> Seq<RowView> {
    Seq::new(mounts.len(), |i: int| row_of(mounts[i]))
}

/// The first of the names that leads to the superblock `dev`.
pub open spec fn selecting(
    rows: Seq<RowView>,
    names: Seq<Seq<u8>>,
    dev: (u32, u32),
) -> Option<Seq<u8>>
    decreases names.len(),
{
    if names.len() == 0 {
        None
    } else {
        let before = selecting(rows, names.drop_last(), dev);
        if before is Some {
            before
        } else if resolved(rows, names.last()) == Some(dev) {
            Some(names.last())
        } else {
            None
        }
    }
}

/// The targets that the requested names lead to, in order, each with the first
/// name that does.
pub open spec fn restricted(
    targets: Seq<TargetView>,
    rows: Seq<RowView>,
    names: Seq<Seq<u8>>,
) -> Seq<TargetView>
    decreases targets.len(),
{
    if targets.len() == 0 {
        Seq::empty()
    } else {
        let before = restricted(targets.drop_last(), rows, names);
        let target = targets.last();
        match selecting(rows, names, target.dev) {
            Some(name) => before.push(TargetView { requested: Some(name), ..target }),
            None => before,
        }
    }
}

/// The requested names as pathnames.
pub open spec fn names_view(names: Seq<String>) -> Seq<Seq<u8>> {
    Seq::new(names.len(), |i: int| vstd::utf8::encode_utf8(names[i]@))
}

/// A device pair as one number.
spec fn dev_key(dev: (u32, u32)) -> u64 {
    (dev.0 * 0x1_0000_0000 + dev.1) as u64
}

fn dev_key_of(dev: (u32, u32)) -> (key: u64)
    ensures
        key == dev_key(dev),
{
    dev.0 as u64 * 0x1_0000_0000 + dev.1 as u64
}

/// The ordered set of filesystems to freeze, thaw or trim.
#[derive(Debug, PartialEq, Eq)]
pub struct FreezePlan {
    /// Targets in mount order.
    pub targets: Vec<Target>,
    /// The whole mount table, as far as the plan needs it.
    pub mounts: Vec<MountRow>,
}

impl Default for FreezePlan {
    fn default() -> (plan: Self)
        ensures
            plan.targets@.len() == 0,
            plan.mounts@.len() == 0,
    {
        FreezePlan { targets: Vec::new(), mounts: Vec::new() }
    }
}

impl FreezePlan {
    /// The targets, by their views.
    pub open spec fn target_list(&self) -> Seq<TargetView> {
        targets_view(self.targets@)
    }

    /// The mount table, by its view.
    pub open spec fn table(&self) -> Seq<RowView> {
        rows_view(self.mounts@)
    }

    /// Builds the plan from a mount table in mount order.
    pub fn build(mounts: &[MountEntry]) -> (plan: FreezePlan)
        ensures
            plan.target_list() == planned(mounts@),
            plan.table() == rows_of(mounts@),
    {
        let mut seen: HashMap<u64, usize> = HashMap::new();
        let mut targets: Vec<Target> = Vec::new();
        let mut rows: Vec<MountRow> = Vec::new();
        for i in 0..mounts.len()
            invariant
                targets_view(targets@) =~= planned(mounts@.take(i as int)),
                rows_view(rows@) =~= rows_of(mounts@.take(i as int)),
                forall|k: int|
                    0 <= k < targets@.len() ==> seen@.contains_key(
                        dev_key((#[trigger] targets@[k]).dev),
                    ) && seen@[dev_key(targets@[k].dev)] == k,
                forall|key: u64|
                    #[trigger] seen@.contains_key(key) ==> seen@[key] < targets@.len() && dev_key(
                        targets@[seen@[key] as int].dev,
                    ) == key,
        {
            let entry = &mounts[i];
            let ghost before = targets@;
            let ghost rows_before = rows@;
            proof {
                assert(rows_view(rows@).len() == i);
                assert(mounts@.take(i + 1).drop_last() =~= mounts@.take(i as int));
                assert(mounts@.take(i + 1).last() == mounts@[i as int]);
            }
            if is_eligible(entry) {
                let dev = entry.dev();
                let key = dev_key_of(dev);
                let found: Option<usize> = match seen.get(&key) {
                    Some(index) => Some(*index),
                    None => None,
                };
                match found {
                    Some(index) => {
                        proof {
                            let view = targets_view(before);
                            assert(dev_key(before[index as int].dev) == key);
                            assert(view[index as int].dev == dev);
                            let chosen = dev_index(view, dev);
                            assert(before[chosen].dev == dev);
                            assert(seen@[dev_key(before[chosen].dev)] == chosen);
                            assert(chosen == index);
                        }
                        let name = clone_path(&entry.mount_point);
                        let target = &mut targets[index];
                        target.aliases.push(name);
                        proof {
                            assert(targets@[index as int]@.aliases =~= before[index as int]@.aliases.push(
                                entry.mount_point@,
                            ));
                            assert(targets_view(targets@) =~= planned(mounts@.take(i + 1)));
                        }
                    },
                    None => {
                        proof {
                            let view = targets_view(before);
                            assert forall|k: int| 0 <= k < view.len() implies (
                            #[trigger] view[k]).dev != dev by {
                                assert(seen@.contains_key(dev_key(before[k].dev)));
                            }
                        }
                        seen.insert(key, targets.len());
                        targets.push(
                            Target {
                                mountpoint: clone_path(&entry.mount_point),
                                aliases: Vec::new(),
                                dev,
                                fs_type: entry.fs_type.clone(),
                                requested: None,
                            },
                        );
                        proof {
                            assert(targets@.last()@.aliases =~= Seq::<Seq<u8>>::empty());
                            assert(targets_view(targets@) =~= planned(mounts@.take(i + 1)));
                        }
                    },
                }
            }
            let row = MountRow {
                id: entry.mount_id,
                parent: entry.parent_id,
                mount_point: clone_path(&entry.mount_point),
                dev: entry.dev(),
            };
            rows.push(row);
            proof {
                assert(rows@ == rows_before.push(row));
                let table = rows_of(mounts@.take(i + 1));
                assert forall|j: int| 0 <= j < table.len() implies rows_view(rows@)[j]
                    == table[j] by {
                    if j < i {
                        assert(table[j] == rows_of(mounts@.take(i as int))[j]);
                    } else {
                        assert(rows@[j]@ == row_of(*entry));
                    }
                }
                assert(rows_view(rows@) =~= table);
            }
        }
        proof {
            assert(mounts@.take(mounts@.len() as int) =~= mounts@);
        }
        FreezePlan { targets, mounts: rows }
    }

    /// Targets in mount order.
    pub fn targets(&self) -> (targets: &[Target])
        ensures
            targets@ == self.targets@,
    {
        self.targets.as_slice()
    }

    /// `true` when nothing is eligible; freezing zero filesystems is valid.
    pub fn is_empty(&self) -> (empty: bool)
        ensures
            empty == (self.target_list().len() == 0),
    {
        self.targets.is_empty()
    }

    /// Number of targets.
    pub fn len(&self) -> (len: usize)
        ensures
            len == self.target_list().len(),
    {
        self.targets.len()
    }

    /// Reverse mount order: nested mounts first.
    pub fn freeze_order(&self) -> (order: Vec<&Target>)
        ensures
            order@.len() == self.targets@.len(),
            forall|i: int|
                0 <= i < order@.len() ==> *#[trigger] order@[i] == self.targets@[order@.len() - 1
                    - i],
    {
        let mut order: Vec<&Target> = Vec::new();
        let mut left: usize = self.targets.len();
        while left > 0
            invariant
                left <= self.targets@.len(),
                order@.len() == self.targets@.len() - left,
                forall|i: int|
                    0 <= i < order@.len() ==> *#[trigger] order@[i]
                        == self.targets@[self.targets@.len() - 1 - i],
            decreases left,
        {
            left = left - 1;
            order.push(&self.targets[left]);
        }
        order
    }

    /// Forward mount order.
    pub fn thaw_order(&self) -> (order: Vec<&Target>)
        ensures
            order@.len() == self.targets@.len(),
            forall|i: int| 0 <= i < order@.len() ==> *#[trigger] order@[i] == self.targets@[i],
    {
        let mut order: Vec<&Target> = Vec::new();
        for i in 0..self.targets.len()
            invariant
                order@.len() == i,
                forall|j: int| 0 <= j < i ==> *#[trigger] order@[j] == self.targets@[j],
        {
            order.push(&self.targets[i]);
        }
        order
    }

    /// The intersection with the requested mount points. A requested name
    /// selects the superblock the pathname leads to now, resolved as the
    /// kernel resolves a path (byte-exact, no normalisation), whatever the
    /// plan calls the superblock. The table is indexed once and each distinct
    /// name is resolved once. The selected target records the name that
    /// selected it ([`Target::requested`]); it keeps all its mount points for
    /// the thaw. Unknown paths are ignored, not errors. Order and the mount
    /// table are preserved.
    pub fn restrict_to(&self, mountpoints: &[String]) -> (plan: FreezePlan)
        ensures
            plan.target_list() == restricted(
                self.target_list(),
                self.table(),
                names_view(mountpoints@),
            ),
            plan.table() == self.table(),
    {
        let tree = MountTree::index(&self.mounts);
        let ghost names = names_view(mountpoints@);
        // Each distinct name once; the first name that leads to a superblock
        // is the one it is opened on.
        let mut known: HashMap<u64, Vec<(usize, Option<(u32, u32)>)>> = HashMap::new();
        let mut first: HashMap<u64, usize> = HashMap::new();
        for i in 0..mountpoints.len()
            invariant
                tree.wf(),
                tree.rows == &self.mounts,
                names == names_view(mountpoints@),
                answers(known@, names, self.table(), i as int),
                forall|dev: (u32, u32)|
                    #![trigger dev_key(dev)]
                    match selecting(self.table(), names.take(i as int), dev) {
                        Some(name) => first@.contains_key(dev_key(dev)) && first@[dev_key(dev)] < i
                            && names[first@[dev_key(dev)] as int] == name,
                        None => !first@.contains_key(dev_key(dev)),
                    },
        {
            let name = mountpoints[i].as_str().as_bytes();
            proof {
                assert(name@ == names[i as int]);
            }
            let key = digest_of(0, name);
            let mut bucket: Vec<(usize, Option<(u32, u32)>)> = match known.remove(&key) {
                Some(bucket) => bucket,
                None => Vec::new(),
            };
            let mut answer: Option<Option<(u32, u32)>> = None;
            for k in 0..bucket.len()
                invariant
                    i < mountpoints@.len(),
                    names == names_view(mountpoints@),
                    name@ == names[i as int],
                    forall|l: int|
                        0 <= l < bucket@.len() ==> (#[trigger] bucket@[l]).0 < i && bucket@[l].1
                            == resolved(self.table(), names[bucket@[l].0 as int]),
                    answer matches Some(dev) ==> dev == resolved(self.table(), name@),
            {
                let entry = bucket[k];
                if answer.is_none() {
                    let same = same_bytes(mountpoints[entry.0].as_str().as_bytes(), name);
                    if same {
                        answer = Some(entry.1);
                    }
                }
            }
            let dev = match answer {
                Some(dev) => dev,
                None => {
                    let dev = tree.resolve(name);
                    bucket.push((i, dev));
                    dev
                },
            };
            known.insert(key, bucket);
            let ghost before = first@;
            if let Some(dev) = dev {
                let at = dev_key_of(dev);
                if !first.contains_key(&at) {
                    first.insert(at, i);
                }
            }
            proof {
                assert(names.take(i + 1).drop_last() =~= names.take(i as int));
                assert(names.take(i + 1).last() == names[i as int]);
                assert forall|other: (u32, u32)|
                    #![trigger dev_key(other)]
                    match selecting(self.table(), names.take(i + 1), other) {
                        Some(name) => first@.contains_key(dev_key(other)) && first@[dev_key(other)]
                            < i + 1 && names[first@[dev_key(other)] as int] == name,
                        None => !first@.contains_key(dev_key(other)),
                    } by {
                    let _ = selecting(self.table(), names.take(i as int), other);
                    if dev is Some && dev->0 != other {
                        assert(dev_key(dev->0) != dev_key(other));
                    }
                }
            }
        }
        proof {
            assert(names.take(names.len() as int) =~= names);
        }
        let mut targets: Vec<Target> = Vec::new();
        for i in 0..self.targets.len()
            invariant
                names == names_view(mountpoints@),
                forall|dev: (u32, u32)|
                    #![trigger dev_key(dev)]
                    match selecting(self.table(), names, dev) {
                        Some(name) => first@.contains_key(dev_key(dev)) && first@[dev_key(dev)]
                            < mountpoints@.len() && names[first@[dev_key(dev)] as int] == name,
                        None => !first@.contains_key(dev_key(dev)),
                    },
                targets_view(targets@) =~= restricted(
                    self.target_list().take(i as int),
                    self.table(),
                    names,
                ),
        {
            let ghost before = targets@;
            let ghost list = self.target_list();
            proof {
                assert(list.take(i + 1).drop_last() =~= list.take(i as int));
                assert(list.take(i + 1).last() == self.targets@[i as int]@);
            }
            let key = dev_key_of(self.targets[i].dev);
            if let Some(at) = first.get(&key) {
                let mut target = self.targets[i].clone();
                target.requested = Some(
                    vstd::slice::slice_to_vec(mountpoints[*at].as_str().as_bytes()),
                );
                targets.push(target);
            }
            proof {
                assert(targets_view(targets@) =~= restricted(
                    list.take(i + 1),
                    self.table(),
                    names,
                ));
            }
        }
        proof {
            assert(self.target_list().take(self.targets@.len() as int) =~= self.target_list());
        }
        let mut mounts: Vec<MountRow> = Vec::new();
        for i in 0..self.mounts.len()
            invariant
                mounts@.len() == i,
                forall|j: int| 0 <= j < i ==> #[trigger] mounts@[j]@ == self.mounts@[j]@,
        {
            mounts.push(self.mounts[i].clone());
        }
        proof {
            assert(rows_view(mounts@) =~= self.table());
        }
        FreezePlan { targets, mounts }
    }

    /// The superblock that `path` leads to now.
    pub fn visible_at(&self, path: &str) -> (dev: Option<(u32, u32)>)
        ensures
            dev == resolved(self.table(), vstd::utf8::encode_utf8(path@)),
    {
        MountTree::index(&self.mounts).resolve(path.as_bytes())
    }

    /// `true` when the superblock `dev` is in the plan, i.e. a freeze would
    /// freeze whatever is on it.
    pub fn covers_device(&self, dev: (u32, u32)) -> (covers: bool)
        ensures
            covers == has_dev(self.target_list(), dev),
    {
        for i in 0..self.targets.len()
            invariant
                forall|j: int| 0 <= j < i ==> (#[trigger] self.target_list()[j]).dev != dev,
        {
            if self.targets[i].dev.0 == dev.0 && self.targets[i].dev.1 == dev.1 {
                proof {
                    assert(self.target_list()[i as int].dev == dev);
                }
                return true;
            }
        }
        false
    }
}

/// What is remembered of the names below `n`: each answer is right.
spec fn answers(
    known: Map<u64, Vec<(usize, Option<(u32, u32)>)>>,
    names: Seq<Seq<u8>>,
    rows: Seq<RowView>,
    n: int,
) -> bool {
    forall|key: u64, k: int|
        #![trigger known[key]@[k]]
        known.contains_key(key) && 0 <= k < known[key]@.len() ==> known[key]@[k].0 < n
            && known[key]@[k].1 == resolved(rows, names[known[key]@[k].0 as int])
}

// ---------------------------------------------------------------------------
// The mount that holds a pathname
// ---------------------------------------------------------------------------

/// A pathname cut at every separator.
pub open spec fn split_path(path: Seq<u8>) -> Seq<Seq<u8>>
    decreases path.len(),
{
    if path.len() == 0 {
        seq![Seq::empty()]
    } else {
        let before = split_path(path.drop_last());
        if path.last() == SLASH {
            before.push(Seq::empty())
        } else {
            before.update(before.len() - 1, before.last().push(path.last()))
        }
    }
}

/// Part `i` of a pathname counts as a component: empty parts never do, and `.`
/// only at the start of a relative pathname.
pub open spec fn is_component(absolute: bool, part: Seq<u8>, i: int) -> bool {
    part.len() > 0 && (part != seq![0x2Eu8] || (i == 0 && !absolute))
}

/// The parts that count, in order.
pub open spec fn counting_parts(absolute: bool, parts: Seq<Seq<u8>>) -> Seq<Seq<u8>>
    decreases parts.len(),
{
    if parts.len() == 0 {
        Seq::empty()
    } else {
        let before = counting_parts(absolute, parts.drop_last());
        if is_component(absolute, parts.last(), parts.len() - 1) {
            before.push(parts.last())
        } else {
            before
        }
    }
}

/// The components of a pathname; the root of an absolute one is the component
/// `/`.
pub open spec fn components(path: Seq<u8>) -> Seq<Seq<u8>> {
    let absolute = path.len() > 0 && path[0] == SLASH;
    let parts = counting_parts(absolute, split_path(path));
    if absolute {
        seq![seq![SLASH]] + parts
    } else {
        parts
    }
}

/// Row `i` is mounted at `path` or above it.
pub open spec fn holds(rows: Seq<RowView>, path: Seq<u8>, i: int) -> bool {
    components(rows[i].mount_point).is_prefix_of(components(path))
}

/// Of the first `n` rows, the one mounted deepest at or above `path`; of
/// several at that depth, the last.
pub open spec fn holding(rows: Seq<RowView>, path: Seq<u8>, n: int) -> Option<int>
    decreases n,
{
    if n <= 0 {
        None
    } else {
        let before = holding(rows, path, n - 1);
        if holds(rows, path, n - 1) && (before matches Some(b) ==> components(
            rows[b].mount_point,
        ).len() <= components(rows[n - 1].mount_point).len()) {
            Some(n - 1)
        } else {
            before
        }
    }
}

/// The components of a pathname.
fn components_of(path: &[u8]) -> (list: Vec<Vec<u8>>)
    ensures
        paths_view(list@) == components(path@),
{
    let absolute = path.len() > 0 && path[0] == SLASH;
    let mut list: Vec<Vec<u8>> = Vec::new();
    if absolute {
        let mut root: Vec<u8> = Vec::new();
        root.push(SLASH);
        proof {
            assert(root@ =~= seq![SLASH]);
        }
        list.push(root);
    }
    let ghost prefix = if absolute {
        seq![seq![SLASH]]
    } else {
        Seq::<Seq<u8>>::empty()
    };
    let mut part: Vec<u8> = Vec::new();
    let mut first = true;
    proof {
        assert(split_path(path@.take(0)).drop_last() =~= Seq::<Seq<u8>>::empty());
        assert(paths_view(list@) =~= prefix + counting_parts(
            absolute,
            split_path(path@.take(0)).drop_last(),
        ));
    }
    for i in 0..path.len()
        invariant
            absolute == (path@.len() > 0 && path@[0] == SLASH),
            split_path(path@.take(i as int)).len() > 0,
            part@ == split_path(path@.take(i as int)).last(),
            first == (split_path(path@.take(i as int)).len() == 1),
            paths_view(list@) == prefix + counting_parts(
                absolute,
                split_path(path@.take(i as int)).drop_last(),
            ),
    {
        let ghost before = split_path(path@.take(i as int));
        let ghost after = split_path(path@.take(i + 1));
        proof {
            assert(path@.take(i + 1).drop_last() =~= path@.take(i as int));
            assert(path@.take(i + 1).last() == path@[i as int]);
        }
        if path[i] == SLASH {
            proof {
                assert(after.drop_last() =~= before);
            }
            push_component(&mut list, part, absolute, first, Ghost(prefix), Ghost(before));
            part = Vec::new();
            first = false;
        } else {
            part.push(path[i]);
            proof {
                assert(after.drop_last() =~= before.drop_last());
            }
        }
    }
    proof {
        assert(path@.take(path@.len() as int) =~= path@);
    }
    push_component(&mut list, part, absolute, first, Ghost(prefix), Ghost(split_path(path@)));
    proof {
        assert(paths_view(list@) =~= components(path@));
    }
    list
}

/// Adds the last of `parts` if it counts.
fn push_component(
    list: &mut Vec<Vec<u8>>,
    part: Vec<u8>,
    absolute: bool,
    first: bool,
    Ghost(prefix): Ghost<Seq<Seq<u8>>>,
    Ghost(parts): Ghost<Seq<Seq<u8>>>,
)
    requires
        parts.len() > 0,
        part@ == parts.last(),
        first == (parts.len() == 1),
        paths_view(old(list)@) == prefix + counting_parts(absolute, parts.drop_last()),
    ensures
        paths_view(final(list)@) == prefix + counting_parts(absolute, parts),
{
    let dot = part.len() == 1 && part[0] == 0x2E;
    proof {
        assert(dot == (part@ == seq![0x2Eu8])) by {
            if dot {
                assert(part@ =~= seq![0x2Eu8]);
            }
        }
    }
    if part.len() > 0 && (!dot || (first && !absolute)) {
        proof {
            assert(is_component(absolute, parts.last(), parts.len() - 1));
        }
        list.push(part);
        proof {
            assert(paths_view(list@) =~= paths_view(old(list)@).push(part@));
            assert(paths_view(list@) =~= prefix + counting_parts(absolute, parts));
        }
    } else {
        proof {
            assert(!is_component(absolute, parts.last(), parts.len() - 1));
        }
    }
}

/// Whether `a` is the start of `b`.
fn starts_with(b: &Vec<Vec<u8>>, a: &Vec<Vec<u8>>) -> (does: bool)
    ensures
        does == paths_view(a@).is_prefix_of(paths_view(b@)),
{
    if a.len() > b.len() {
        return false;
    }
    for i in 0..a.len()
        invariant
            a@.len() <= b@.len(),
            forall|j: int| 0 <= j < i ==> #[trigger] a@[j]@ == b@[j]@,
    {
        let same = same_bytes(a[i].as_slice(), b[i].as_slice());
        if !same {
            proof {
                assert(paths_view(a@)[i as int] != paths_view(b@)[i as int]);
            }
            return false;
        }
    }
    proof {
        assert(paths_view(a@) =~= paths_view(b@).subrange(0, a@.len() as int));
    }
    true
}

impl FreezePlan {
    /// The mount point that holds `path` (longest matching prefix, by path
    /// components), with its device.
    pub fn mount_of(&self, path: &[u8]) -> (found: Option<(&Vec<u8>, (u32, u32))>)
        ensures
            match holding(self.table(), path@, self.table().len() as int) {
                Some(i) => found matches Some(f) && f.0@ == self.table()[i].mount_point && f.1
                    == self.table()[i].dev,
                None => found is None,
            },
    {
        let wanted = components_of(path);
        let mut best: Option<(usize, usize)> = None;
        for i in 0..self.mounts.len()
            invariant
                paths_view(wanted@) == components(path@),
                match best {
                    Some((b, depth)) => {
                        &&& holding(self.table(), path@, i as int) == Some(b as int)
                        &&& b < i
                        &&& depth == components(self.table()[b as int].mount_point).len()
                    },
                    None => holding(self.table(), path@, i as int) is None,
                },
        {
            let point = components_of(self.mounts[i].mount_point.as_slice());
            proof {
                assert(self.table()[i as int].mount_point == self.mounts@[i as int].mount_point@);
                assert(point@.len() == paths_view(point@).len());
            }
            let above = starts_with(&wanted, &point);
            let deeper = match best {
                Some((_, depth)) => depth <= point.len(),
                None => true,
            };
            if above && deeper {
                best = Some((i, point.len()));
            }
        }
        match best {
            Some((i, _)) => Some((&self.mounts[i].mount_point, self.mounts[i].dev)),
            None => None,
        }
    }

    /// `true` when the filesystem holding `path` is in the plan, going by the
    /// mount table's pathnames (longest prefix).
    pub fn covers(&self, path: &[u8]) -> (covers: bool)
        ensures
            covers == (holding(self.table(), path@, self.table().len() as int) matches Some(i)
                && has_dev(self.target_list(), self.table()[i].dev)),
    {
        match self.mount_of(path) {
            Some((_, dev)) => self.covers_device(dev),
            None => false,
        }
    }
}

// ---------------------------------------------------------------------------
// Laws
// ---------------------------------------------------------------------------

/// A plan names each superblock once.
pub proof fn law_plan_has_no_duplicates(mounts: Seq<MountEntry>)
    ensures
        distinct_devs(planned(mounts)),
    decreases mounts.len(),
{
    if mounts.len() > 0 {
        law_plan_has_no_duplicates(mounts.drop_last());
        let before = planned(mounts.drop_last());
        let after = planned(mounts);
        assert(forall|i: int| 0 <= i < before.len() ==> (#[trigger] after[i]).dev == before[i].dev);
    }
}

/// A plan holds exactly the superblocks of the eligible mounts, whatever else
/// is mounted, and every target is of an eligible type.
pub proof fn law_plan_is_the_eligible_mounts(mounts: Seq<MountEntry>, dev: (u32, u32))
    ensures
        has_dev(planned(mounts), dev) <==> exists|i: int|
            0 <= i < mounts.len() && eligible(#[trigger] mounts[i]) && mounts[i].spec_dev() == dev,
        forall|i: int|
            0 <= i < planned(mounts).len() ==> {
                ||| (#[trigger] planned(mounts)[i]).fs_type == FREEZABLE_FS_TYPES@[0]@
                ||| planned(mounts)[i].fs_type == FREEZABLE_FS_TYPES@[1]@
            },
    decreases mounts.len(),
{
    if mounts.len() > 0 {
        let front = mounts.drop_last();
        let before = planned(front);
        let after = planned(mounts);
        law_plan_is_the_eligible_mounts(front, dev);
        assert(forall|i: int|
            0 <= i < before.len() ==> (#[trigger] after[i]).dev == before[i].dev && after[i].fs_type
                == before[i].fs_type);
        if has_dev(before, dev) {
            let i = dev_index(before, dev);
            assert(after[i].dev == dev);
            let k = choose|k: int|
                0 <= k < front.len() && eligible(#[trigger] front[k]) && front[k].spec_dev() == dev;
            assert(eligible(mounts[k]) && mounts[k].spec_dev() == dev);
        }
        let last = mounts.last();
        if eligible(last) && last.spec_dev() == dev {
            assert(eligible(mounts[mounts.len() - 1]));
            if !has_dev(before, dev) {
                assert(after[before.len() as int].dev == dev);
            }
        }
        if has_dev(after, dev) && !has_dev(before, dev) {
            let i = dev_index(after, dev);
            assert(i == before.len());
            assert(eligible(mounts[mounts.len() - 1]) && mounts[mounts.len() - 1].spec_dev() == dev);
        }
        if exists|i: int|
            0 <= i < mounts.len() && eligible(#[trigger] mounts[i]) && mounts[i].spec_dev()
                == dev {
            let k = choose|k: int|
                0 <= k < mounts.len() && eligible(#[trigger] mounts[k]) && mounts[k].spec_dev()
                    == dev;
            if k < front.len() {
                assert(eligible(front[k]) && front[k].spec_dev() == dev);
            }
        }
    }
}

/// The mount points of the eligible mounts of a superblock, in mount order.
pub open spec fn names_on(mounts: Seq<MountEntry>, dev: (u32, u32)) -> Seq<Seq<u8>>
    decreases mounts.len(),
{
    if mounts.len() == 0 {
        Seq::empty()
    } else {
        let before = names_on(mounts.drop_last(), dev);
        let entry = mounts.last();
        if eligible(entry) && entry.spec_dev() == dev {
            before.push(entry.mount_point@)
        } else {
            before
        }
    }
}

/// Where the first eligible mount of a superblock stands; behind the last mount
/// if there is none.
pub open spec fn first_on(mounts: Seq<MountEntry>, dev: (u32, u32)) -> int
    decreases mounts.len(),
{
    if mounts.len() == 0 {
        0
    } else {
        let front = mounts.drop_last();
        if first_on(front, dev) < front.len() {
            first_on(front, dev)
        } else if eligible(mounts.last()) && mounts.last().spec_dev() == dev {
            front.len() as int
        } else {
            mounts.len() as int
        }
    }
}

proof fn lemma_first_on(mounts: Seq<MountEntry>, dev: (u32, u32))
    ensures
        0 <= first_on(mounts, dev) <= mounts.len(),
        has_dev(planned(mounts), dev) <==> first_on(mounts, dev) < mounts.len(),
        !has_dev(planned(mounts), dev) ==> names_on(mounts, dev) == Seq::<Seq<u8>>::empty(),
    decreases mounts.len(),
{
    if mounts.len() > 0 {
        let front = mounts.drop_last();
        let before = planned(front);
        let after = planned(mounts);
        lemma_first_on(front, dev);
        assert(forall|i: int| 0 <= i < before.len() ==> (#[trigger] after[i]).dev == before[i].dev);
        if has_dev(before, dev) {
            assert(after[dev_index(before, dev)].dev == dev);
        } else if eligible(mounts.last()) && mounts.last().spec_dev() == dev {
            assert(after[before.len() as int].dev == dev);
        } else if has_dev(after, dev) {
            let i = dev_index(after, dev);
            assert(i < before.len() || after[i].dev == mounts.last().spec_dev());
        }
    }
}

/// The plan is in mount order: the first mount of a superblock decides where it
/// stands and names it, and the others, in mount order, are its aliases.
pub proof fn law_plan_is_in_mount_order(mounts: Seq<MountEntry>)
    ensures
        forall|i: int|
            0 <= i < planned(mounts).len() ==> (#[trigger] planned(mounts)[i]).mountpoints()
                == names_on(mounts, planned(mounts)[i].dev),
        forall|i: int, j: int|
            0 <= i < j < planned(mounts).len() ==> first_on(
                mounts,
                (#[trigger] planned(mounts)[i]).dev,
            ) < first_on(mounts, (#[trigger] planned(mounts)[j]).dev),
    decreases mounts.len(),
{
    if mounts.len() > 0 {
        let front = mounts.drop_last();
        let before = planned(front);
        let after = planned(mounts);
        let last = mounts.last();
        law_plan_is_in_mount_order(front);
        law_plan_has_no_duplicates(front);
        lemma_first_on(front, last.spec_dev());
        assert forall|i: int| 0 <= i < before.len() implies first_on(front, (#[trigger] before[i]).dev)
            < front.len() && after[i].dev == before[i].dev by {
            lemma_first_on(front, before[i].dev);
        }
        assert forall|i: int| 0 <= i < after.len() implies (#[trigger] after[i]).mountpoints()
            == names_on(mounts, after[i].dev) by {
            if i < before.len() {
                assert(before[i].mountpoints() == names_on(front, before[i].dev));
                if eligible(last) && last.spec_dev() == before[i].dev {
                    assert(has_dev(before, last.spec_dev()));
                    assert(dev_index(before, last.spec_dev()) == i);
                    assert(after[i].mountpoints() =~= before[i].mountpoints().push(
                        last.mount_point@,
                    ));
                } else {
                    assert(after[i] == before[i]);
                }
            } else {
                assert(after[i].mountpoints() =~= names_on(front, last.spec_dev()).push(
                    last.mount_point@,
                ));
            }
        }
    }
}

/// Every target of a restricted plan is one of the plan's, selected by a
/// requested name that leads to it now; the plan's order is kept.
pub proof fn law_restriction_selects_what_names_lead_to(
    targets: Seq<TargetView>,
    rows: Seq<RowView>,
    names: Seq<Seq<u8>>,
    i: int,
)
    requires
        0 <= i < restricted(targets, rows, names).len(),
    ensures
        ({
            let t = restricted(targets, rows, names)[i];
            &&& t.requested is Some
            &&& names.contains(t.requested->0)
            &&& resolved(rows, t.requested->0) == Some(t.dev)
            &&& exists|k: int|
                i <= k < targets.len() && t == (TargetView {
                    requested: t.requested,
                    ..#[trigger] targets[k]
                })
        }),
    decreases targets.len(),
{
    let front = targets.drop_last();
    let before = restricted(front, rows, names);
    let t = restricted(targets, rows, names)[i];
    if i < before.len() {
        law_restriction_selects_what_names_lead_to(front, rows, names, i);
        let k = choose|k: int|
            i <= k < front.len() && t == (TargetView {
                requested: t.requested,
                ..#[trigger] front[k]
            });
        assert(targets[k] == front[k]);
    } else {
        lemma_selecting(rows, names, targets.last().dev);
        lemma_restricted_len(front, rows, names);
        assert(targets[targets.len() - 1] == targets.last());
    }
}

/// A name that leads to a target of the plan selects it.
pub proof fn law_restriction_keeps_what_names_lead_to(
    targets: Seq<TargetView>,
    rows: Seq<RowView>,
    names: Seq<Seq<u8>>,
    k: int,
    n: int,
)
    requires
        0 <= k < targets.len(),
        0 <= n < names.len(),
        resolved(rows, names[n]) == Some(targets[k].dev),
    ensures
        has_dev(restricted(targets, rows, names), targets[k].dev),
    decreases targets.len(),
{
    let front = targets.drop_last();
    let before = restricted(front, rows, names);
    let after = restricted(targets, rows, names);
    if k < front.len() {
        law_restriction_keeps_what_names_lead_to(front, rows, names, k, n);
        let i = dev_index(before, targets[k].dev);
        assert(after[i].dev == targets[k].dev);
    } else {
        lemma_selecting_found(rows, names, targets[k].dev, n);
        assert(after[before.len() as int].dev == targets[k].dev);
    }
}

/// The count of a restricted plan is coverage: it never exceeds the number of
/// distinct names requested, for one name selects at most one superblock.
pub proof fn law_restriction_count_is_coverage(
    targets: Seq<TargetView>,
    rows: Seq<RowView>,
    names: Seq<Seq<u8>>,
)
    requires
        distinct_devs(targets),
    ensures
        restricted(targets, rows, names).len() <= names.to_set().len(),
        names.to_set().len() <= names.len(),
        distinct_devs(restricted(targets, rows, names)),
{
    let selected = restricted(targets, rows, names);
    lemma_restricted_distinct(targets, rows, names);
    let used = Seq::new(selected.len(), |i: int| selected[i].requested->0);
    assert forall|i: int, j: int| 0 <= i < used.len() && 0 <= j < used.len() && i != j implies used[i]
        != used[j] by {
        law_restriction_selects_what_names_lead_to(targets, rows, names, i);
        law_restriction_selects_what_names_lead_to(targets, rows, names, j);
    }
    assert forall|name: Seq<u8>| used.to_set().contains(name) implies names.to_set().contains(
        name,
    ) by {
        let i = choose|i: int| 0 <= i < used.len() && used[i] == name;
        law_restriction_selects_what_names_lead_to(targets, rows, names, i);
    }
    used.unique_seq_to_set();
    names.lemma_cardinality_of_set();
    vstd::set_lib::lemma_len_subset(used.to_set(), names.to_set());
}

proof fn lemma_restricted_len(targets: Seq<TargetView>, rows: Seq<RowView>, names: Seq<Seq<u8>>)
    ensures
        restricted(targets, rows, names).len() <= targets.len(),
    decreases targets.len(),
{
    if targets.len() > 0 {
        lemma_restricted_len(targets.drop_last(), rows, names);
    }
}

proof fn lemma_restricted_distinct(
    targets: Seq<TargetView>,
    rows: Seq<RowView>,
    names: Seq<Seq<u8>>,
)
    requires
        distinct_devs(targets),
    ensures
        distinct_devs(restricted(targets, rows, names)),
        forall|i: int|
            0 <= i < restricted(targets, rows, names).len() ==> has_dev(
                targets,
                (#[trigger] restricted(targets, rows, names)[i]).dev,
            ),
    decreases targets.len(),
{
    if targets.len() > 0 {
        let front = targets.drop_last();
        let before = restricted(front, rows, names);
        assert(distinct_devs(front));
        lemma_restricted_distinct(front, rows, names);
        assert forall|i: int| 0 <= i < before.len() implies has_dev(targets, #[trigger] before[i].dev)
            && before[i].dev != targets.last().dev by {
            let k = dev_index(front, before[i].dev);
            assert(targets[k].dev == before[i].dev);
        }
        assert(targets[targets.len() - 1].dev == targets.last().dev);
    }
}

proof fn lemma_selecting(rows: Seq<RowView>, names: Seq<Seq<u8>>, dev: (u32, u32))
    ensures
        selecting(rows, names, dev) matches Some(name) ==> names.contains(name) && resolved(
            rows,
            name,
        ) == Some(dev),
    decreases names.len(),
{
    if names.len() > 0 {
        let front = names.drop_last();
        lemma_selecting(rows, front, dev);
        if let Some(name) = selecting(rows, front, dev) {
            let i = choose|i: int| 0 <= i < front.len() && front[i] == name;
            assert(names[i] == name);
        } else {
            assert(names[names.len() - 1] == names.last());
        }
    }
}

proof fn lemma_selecting_found(rows: Seq<RowView>, names: Seq<Seq<u8>>, dev: (u32, u32), n: int)
    requires
        0 <= n < names.len(),
        resolved(rows, names[n]) == Some(dev),
    ensures
        selecting(rows, names, dev) is Some,
    decreases names.len(),
{
    if n < names.len() - 1 {
        lemma_selecting_found(rows, names.drop_last(), dev, n);
    }
}

/// A plan that is restricted again by the same names stays as it is.
pub proof fn law_restriction_is_idempotent(
    targets: Seq<TargetView>,
    rows: Seq<RowView>,
    names: Seq<Seq<u8>>,
)
    ensures
        restricted(restricted(targets, rows, names), rows, names) == restricted(
            targets,
            rows,
            names,
        ),
    decreases targets.len(),
{
    if targets.len() > 0 {
        let front = targets.drop_last();
        let before = restricted(front, rows, names);
        let after = restricted(targets, rows, names);
        law_restriction_is_idempotent(front, rows, names);
        if selecting(rows, names, targets.last().dev) is Some {
            assert(after.drop_last() =~= before);
        }
    }
}

/// The plan freezes every local ext4 and xfs filesystem, and nothing else: a
/// superblock is in it exactly when some mount of it has one of the two types
/// and a source under `/dev/`, whatever the source is called beyond that.
pub proof fn law_every_local_ext4_and_xfs_is_planned(mounts: Seq<MountEntry>, dev: (u32, u32))
    ensures
        (exists|i: int| 0 <= i < planned(mounts).len() && (#[trigger] planned(mounts)[i]).dev == dev)
            <==> exists|k: int|
            {
                &&& 0 <= k < mounts.len()
                &&& (#[trigger] mounts[k]).major == dev.0
                &&& mounts[k].minor == dev.1
                &&& mounts[k].fs_type@ == "ext4"@ || mounts[k].fs_type@ == "xfs"@
                &&& "/dev/"@.is_prefix_of(mounts[k].source@)
            },
{
    law_plan_is_the_eligible_mounts(mounts, dev);
    assert(FREEZABLE_FS_TYPES@[0]@ == "ext4"@);
    assert(FREEZABLE_FS_TYPES@[1]@ == "xfs"@);
    if has_dev(planned(mounts), dev) {
        let k = choose|k: int|
            0 <= k < mounts.len() && eligible(#[trigger] mounts[k]) && mounts[k].spec_dev() == dev;
        assert(mounts[k].major == dev.0);
    }
    if exists|k: int|
        {
            &&& 0 <= k < mounts.len()
            &&& (#[trigger] mounts[k]).major == dev.0
            &&& mounts[k].minor == dev.1
            &&& mounts[k].fs_type@ == "ext4"@ || mounts[k].fs_type@ == "xfs"@
            &&& "/dev/"@.is_prefix_of(mounts[k].source@)
        } {
        let k = choose|k: int|
            {
                &&& 0 <= k < mounts.len()
                &&& (#[trigger] mounts[k]).major == dev.0
                &&& mounts[k].minor == dev.1
                &&& mounts[k].fs_type@ == "ext4"@ || mounts[k].fs_type@ == "xfs"@
                &&& "/dev/"@.is_prefix_of(mounts[k].source@)
            };
        assert(eligible(mounts[k]) && mounts[k].spec_dev() == dev);
        let i = dev_index(planned(mounts), dev);
        assert(planned(mounts)[i].dev == dev);
    }
}

/// The mounts of a superblock that a plan goes by, in mount order.
pub open spec fn freezable_on(mounts: Seq<MountEntry>, dev: (u32, u32)) -> Seq<MountEntry> {
    mounts.filter(
        |m: MountEntry|
            m.major == dev.0 && m.minor == dev.1 && (m.fs_type@ == "ext4"@ || m.fs_type@ == "xfs"@)
                && "/dev/"@.is_prefix_of(m.source@),
    )
}

proof fn lemma_freezable_on(mounts: Seq<MountEntry>, dev: (u32, u32))
    ensures
        freezable_on(mounts, dev).map_values(|m: MountEntry| m.mount_point@) == names_on(
            mounts,
            dev,
        ),
        freezable_on(mounts, dev).len() == names_on(mounts, dev).len(),
    decreases mounts.len(),
{
    reveal(Seq::filter);
    let on = freezable_on(mounts, dev);
    let name = |m: MountEntry| m.mount_point@;
    if mounts.len() > 0 {
        lemma_freezable_on(mounts.drop_last(), dev);
        let before = freezable_on(mounts.drop_last(), dev);
        if eligible(mounts.last()) && mounts.last().spec_dev() == dev {
            assert(on == before.push(mounts.last()));
            assert(on.map_values(name) =~= before.map_values(name).push(
                mounts.last().mount_point@,
            ));
        } else {
            assert(on == before);
        }
    } else {
        assert(on.map_values(name) =~= Seq::<Seq<u8>>::empty());
    }
}

/// Each target is its superblock's mounts: the first of them gives its name and
/// its type, the others are its aliases in mount order, and no name was asked
/// for. No superblock stands twice.
pub proof fn law_a_target_is_its_mounts(mounts: Seq<MountEntry>, i: int)
    requires
        0 <= i < planned(mounts).len(),
    ensures
        ({
            let t = planned(mounts)[i];
            let on = freezable_on(mounts, t.dev);
            &&& on.len() > 0
            &&& t.mountpoint == on[0].mount_point@
            &&& t.aliases == on.skip(1).map_values(|m: MountEntry| m.mount_point@)
            &&& t.fs_type == on[0].fs_type@
            &&& t.requested is None
            &&& forall|j: int|
                0 <= j < planned(mounts).len() && j != i ==> (#[trigger] planned(mounts)[j]).dev
                    != t.dev
        }),
{
    let t = planned(mounts)[i];
    let on = freezable_on(mounts, t.dev);
    let name = |m: MountEntry| m.mount_point@;
    law_plan_is_in_mount_order(mounts);
    law_plan_has_no_duplicates(mounts);
    lemma_freezable_on(mounts, t.dev);
    lemma_target_type(mounts, i);
    assert(t.mountpoints() == on.map_values(name));
    assert(t.mountpoints()[0] == t.mountpoint);
    assert(on.map_values(name)[0] == on[0].mount_point@);
    assert(t.aliases =~= t.mountpoints().skip(1));
    assert(on.skip(1).map_values(name) =~= on.map_values(name).skip(1));
}

proof fn lemma_target_type(mounts: Seq<MountEntry>, i: int)
    requires
        0 <= i < planned(mounts).len(),
    ensures
        freezable_on(mounts, planned(mounts)[i].dev).len() > 0,
        planned(mounts)[i].fs_type == freezable_on(mounts, planned(mounts)[i].dev)[0].fs_type@,
        planned(mounts)[i].requested is None,
    decreases mounts.len(),
{
    reveal(Seq::filter);
    let front = mounts.drop_last();
    let before = planned(front);
    let last = mounts.last();
    let dev = planned(mounts)[i].dev;
    if i < before.len() {
        lemma_target_type(front, i);
        assert(before[i].dev == dev);
        if eligible(last) && last.spec_dev() == dev {
            assert(freezable_on(mounts, dev) == freezable_on(front, dev).push(last));
        } else {
            assert(freezable_on(mounts, dev) == freezable_on(front, dev));
        }
    } else {
        lemma_first_on(front, dev);
        lemma_freezable_on(front, dev);
        assert(!has_dev(before, dev));
        assert(freezable_on(mounts, dev) == freezable_on(front, dev).push(last));
    }
}

/// Targets stand in the order in which their superblocks were first mounted.
pub proof fn law_targets_stand_in_mount_order(mounts: Seq<MountEntry>, i: int, j: int)
    requires
        0 <= i < j < planned(mounts).len(),
    ensures
        exists|k: int|
            {
                &&& 0 <= k < mounts.len()
                &&& (#[trigger] mounts[k]).mount_point@ == planned(mounts)[i].mountpoint
                &&& (mounts[k].major, mounts[k].minor) == planned(mounts)[i].dev
                &&& freezable_on(mounts.take(k), planned(mounts)[j].dev).len() == 0
            },
{
    law_plan_is_in_mount_order(mounts);
    let a = planned(mounts)[i].dev;
    let b = planned(mounts)[j].dev;
    let k = first_on(mounts, a);
    lemma_first_on(mounts, a);
    assert(has_dev(planned(mounts), a));
    assert(first_on(mounts, a) < first_on(mounts, b));
    lemma_first_at(mounts, a);
    law_a_target_is_its_mounts(mounts, i);
    lemma_none_before(mounts, b, k);
}

proof fn lemma_first_at(mounts: Seq<MountEntry>, dev: (u32, u32))
    requires
        first_on(mounts, dev) < mounts.len(),
    ensures
        0 <= first_on(mounts, dev),
        freezable_on(mounts, dev).len() > 0,
        mounts[first_on(mounts, dev)] == freezable_on(mounts, dev)[0],
        mounts[first_on(mounts, dev)].spec_dev() == dev,
    decreases mounts.len(),
{
    reveal(Seq::filter);
    let front = mounts.drop_last();
    lemma_first_on(mounts, dev);
    lemma_first_on(front, dev);
    if first_on(front, dev) < front.len() {
        lemma_first_at(front, dev);
    } else {
        lemma_freezable_on(front, dev);
        assert(freezable_on(mounts, dev) == freezable_on(front, dev).push(mounts.last()));
    }
}

proof fn lemma_none_before(mounts: Seq<MountEntry>, dev: (u32, u32), k: int)
    requires
        0 <= k <= first_on(mounts, dev),
        k <= mounts.len(),
    ensures
        freezable_on(mounts.take(k), dev).len() == 0,
    decreases mounts.len(),
{
    if k == mounts.len() {
        assert(mounts.take(k) =~= mounts);
        lemma_first_on(mounts, dev);
        lemma_freezable_on(mounts, dev);
    } else {
        let front = mounts.drop_last();
        lemma_first_on(front, dev);
        lemma_none_before(front, dev, k);
        assert(front.take(k) =~= mounts.take(k));
    }
}

/// Mount `to` hangs at `point` in the mount `from`.
pub open spec fn hangs(rows: Seq<RowView>, from: int, point: Seq<u8>, to: int) -> bool {
    &&& 0 <= to < rows.len()
    &&& rows[to].parent == rows[from].id
    &&& rows[to].id != rows[to].parent
    &&& rows[to].mount_point == point
}

/// Somebody who walks along `path` in the mount `from` meets a mount after `n`
/// bytes: at the first slash, before a later one, or at the end, and not above
/// where `from` itself is mounted.
pub open spec fn meets(rows: Seq<RowView>, from: int, path: Seq<u8>, n: int) -> bool {
    &&& 0 < n <= path.len()
    &&& n == 1 || n == path.len() || path[n] == '/' as u8
    &&& rows[from].mount_point.len() <= n
    &&& exists|to: int| hangs(rows, from, path.subrange(0, n), to)
}

/// The way along `path` leads from one mount into another: the only one that
/// hangs where it first meets any.
pub open spec fn goes_on(rows: Seq<RowView>, path: Seq<u8>, from: int, to: int) -> bool {
    exists|n: int|
        {
            &&& #[trigger] meets(rows, from, path, n)
            &&& forall|m: int| 0 < m < n ==> !#[trigger] meets(rows, from, path, m)
            &&& hangs(rows, from, path.subrange(0, n), to)
            &&& forall|other: int| hangs(rows, from, path.subrange(0, n), other) ==> other == to
        }
}

/// The mounts on the way along `path`, from the root of the namespace to where
/// no more is met.
pub open spec fn is_way(rows: Seq<RowView>, path: Seq<u8>, way: Seq<int>) -> bool {
    &&& 0 < way.len() <= rows.len() + 1
    &&& forall|k: int| 0 <= k < way.len() ==> 0 <= #[trigger] way[k] < rows.len()
    &&& rows[way[0]].mount_point == seq!['/' as u8]
    &&& rows[way[0]].parent == rows[way[0]].id || forall|j: int|
        0 <= j < rows.len() ==> (#[trigger] rows[j]).id != rows[way[0]].parent
    &&& forall|i: int|
        0 <= i < way[0] && #[trigger] rows[i].mount_point == seq!['/' as u8] ==> rows[i].parent
            != rows[i].id && exists|j: int|
            0 <= j < rows.len() && (#[trigger] rows[j]).id == rows[i].parent
    &&& forall|k: int| 0 <= k < way.len() - 1 ==> goes_on(rows, path, #[trigger] way[k], way[k + 1])
    &&& forall|n: int| !#[trigger] meets(rows, way.last(), path, n)
}

proof fn lemma_meets(rows: Seq<RowView>, cur: int, path: Seq<u8>, n: int)
    ensures
        meets(rows, cur, path, n) == crosses(rows, cur, path, n),
        0 <= n <= path.len() ==> forall|i: int|
            hangs(rows, cur, path.subrange(0, n), i) == attached(
                rows,
                rows[cur].id,
                path.take(n),
                i,
            ),
{
    if 0 <= n <= path.len() {
        assert(path.subrange(0, n) =~= path.take(n));
        if meets(rows, cur, path, n) {
            let to = choose|to: int| hangs(rows, cur, path.subrange(0, n), to);
            assert(attached(rows, rows[cur].id, path.take(n), to));
        }
        if crosses(rows, cur, path, n) {
            let to = choose|to: int| attached(rows, rows[cur].id, path.take(n), to);
            assert(hangs(rows, cur, path.subrange(0, n), to));
        }
    }
}

/// The next crossing is the first place where a mount is met.
proof fn lemma_next_met(rows: Seq<RowView>, cur: int, path: Seq<u8>, from: int)
    requires
        0 < from,
        forall|m: int| 0 < m < from ==> !#[trigger] meets(rows, cur, path, m),
    ensures
        match next_crossing(rows, cur, path, from) {
            Some(n) => meets(rows, cur, path, n) && forall|m: int|
                0 < m < n ==> !#[trigger] meets(rows, cur, path, m),
            None => forall|m: int| !#[trigger] meets(rows, cur, path, m),
        },
    decreases path.len() + 1 - from,
{
    lemma_meets(rows, cur, path, from);
    if from <= path.len() && !crosses(rows, cur, path, from) {
        lemma_next_met(rows, cur, path, from + 1);
    }
}

proof fn lemma_way_walked(
    rows: Seq<RowView>,
    path: Seq<u8>,
    way: Seq<int>,
    steps: nat,
)
    requires
        0 < way.len() <= steps,
        forall|k: int| 0 <= k < way.len() - 1 ==> goes_on(rows, path, #[trigger] way[k], way[k + 1]),
        forall|n: int| !#[trigger] meets(rows, way.last(), path, n),
    ensures
        walk(rows, way[0], path, steps) == Some(way.last()),
    decreases way.len(),
{
    let cur = way[0];
    lemma_next_met(rows, cur, path, 1);
    if way.len() > 1 {
        let rest = way.skip(1);
        assert(goes_on(rows, path, way[0], way[1]));
        let n = choose|n: int|
            {
                &&& #[trigger] meets(rows, cur, path, n)
                &&& forall|m: int| 0 < m < n ==> !#[trigger] meets(rows, cur, path, m)
                &&& hangs(rows, cur, path.subrange(0, n), way[1])
                &&& forall|other: int|
                    hangs(rows, cur, path.subrange(0, n), other) ==> other == way[1]
            };
        let found = next_crossing(rows, cur, path, 1)->0;
        assert(next_crossing(rows, cur, path, 1) == Some(n)) by {
            assert(meets(rows, cur, path, n));
            if found < n {
                assert(!meets(rows, cur, path, found));
            }
            if n < found {
                assert(!meets(rows, cur, path, n));
            }
        }
        lemma_meets(rows, cur, path, n);
        assert(only_child(rows, rows[cur].id, path.take(n), way[1])) by {
            assert forall|j: int| attached(rows, rows[cur].id, path.take(n), j) implies j
                == way[1] by {
                assert(hangs(rows, cur, path.subrange(0, n), j));
            }
        }
        let child = choose|i: int| only_child(rows, rows[cur].id, path.take(n), i);
        assert(child == way[1]);
        assert forall|k: int| 0 <= k < rest.len() - 1 implies goes_on(
            rows,
            path,
            #[trigger] rest[k],
            rest[k + 1],
        ) by {
            assert(goes_on(rows, path, way[k + 1], way[k + 2]));
        }
        assert(rest.last() == way.last());
        lemma_way_walked(rows, path, rest, (steps - 1) as nat);
    }
}

proof fn lemma_walked_way(rows: Seq<RowView>, path: Seq<u8>, cur: int, steps: nat) -> (way: Seq<
    int,
>)
    requires
        0 <= cur < rows.len(),
        walk(rows, cur, path, steps) is Some,
    ensures
        0 < way.len() <= steps,
        way[0] == cur,
        walk(rows, cur, path, steps) == Some(way.last()),
        forall|k: int| 0 <= k < way.len() ==> 0 <= #[trigger] way[k] < rows.len(),
        forall|k: int| 0 <= k < way.len() - 1 ==> goes_on(rows, path, #[trigger] way[k], way[k + 1]),
        forall|n: int| !#[trigger] meets(rows, way.last(), path, n),
    decreases steps,
{
    lemma_next_met(rows, cur, path, 1);
    match next_crossing(rows, cur, path, 1) {
        None => seq![cur],
        Some(n) => {
            let point = path.take(n);
            let child = choose|i: int| only_child(rows, rows[cur].id, point, i);
            assert(only_child(rows, rows[cur].id, point, child));
            lemma_meets(rows, cur, path, n);
            let rest = lemma_walked_way(rows, path, child, (steps - 1) as nat);
            let way = seq![cur] + rest;
            assert(goes_on(rows, path, cur, child)) by {
                assert(meets(rows, cur, path, n));
                assert forall|other: int|
                    hangs(rows, cur, path.subrange(0, n), other) implies other == child by {
                    assert(attached(rows, rows[cur].id, point, other));
                }
                assert(attached(rows, rows[cur].id, point, child));
                assert(hangs(rows, cur, path.subrange(0, n), child));
            }
            assert forall|k: int| 0 <= k < way.len() - 1 implies goes_on(
                rows,
                path,
                #[trigger] way[k],
                way[k + 1],
            ) by {
                if k > 0 {
                    assert(goes_on(rows, path, rest[k - 1], rest[k]));
                }
            }
            assert forall|k: int| 0 <= k < way.len() implies 0 <= #[trigger] way[k]
                < rows.len() by {
                if k > 0 {
                    assert(0 <= rest[k - 1] < rows.len());
                }
            }
            assert(way.last() == rest.last());
            way
        },
    }
}

proof fn lemma_way_root(rows: Seq<RowView>, root: int)
    requires
        0 <= root < rows.len(),
    ensures
        is_root(rows, root) <==> {
            &&& rows[root].mount_point == seq!['/' as u8]
            &&& rows[root].parent == rows[root].id || forall|j: int|
                0 <= j < rows.len() ==> (#[trigger] rows[j]).id != rows[root].parent
            &&& forall|i: int|
                0 <= i < root && #[trigger] rows[i].mount_point == seq!['/' as u8]
                    ==> rows[i].parent != rows[i].id && exists|j: int|
                    0 <= j < rows.len() && (#[trigger] rows[j]).id == rows[i].parent
        },
{
    assert(seq![SLASH] =~= seq!['/' as u8]);
    if rootlike(rows, root) && (forall|i: int|
        0 <= i < root && #[trigger] rows[i].mount_point == seq!['/' as u8] ==> rows[i].parent
            != rows[i].id && exists|j: int|
            0 <= j < rows.len() && (#[trigger] rows[j]).id == rows[i].parent) {
        assert forall|i: int| 0 <= i < root implies !#[trigger] rootlike(rows, i) by {
            if rootlike(rows, i) {
                assert(rows[i].mount_point == seq!['/' as u8]);
            }
        }
    }
    if is_root(rows, root) {
        assert forall|i: int|
            0 <= i < root && #[trigger] rows[i].mount_point == seq!['/' as u8] implies rows[i].parent
            != rows[i].id && exists|j: int|
            0 <= j < rows.len() && (#[trigger] rows[j]).id == rows[i].parent by {
            assert(!rootlike(rows, i));
        }
    }
}

/// A requested name leads where the kernel would walk: a pathname selects a
/// superblock exactly when it is absolute and the way along it, from mount to
/// mount, ends in a mount of that superblock mounted at that very pathname.
pub proof fn law_a_pathname_leads_where_its_way_ends(
    rows: Seq<RowView>,
    path: Seq<u8>,
    dev: (u32, u32),
)
    ensures
        resolved(rows, path) == Some(dev) <==> {
            &&& path.len() > 0 && path[0] == '/' as u8
            &&& exists|way: Seq<int>|
                #[trigger] is_way(rows, path, way) && rows[way.last()].mount_point == path
                    && rows[way.last()].dev == dev
        },
{
    if resolved(rows, path) == Some(dev) {
        let root = choose|root: int| is_root(rows, root);
        assert(is_root(rows, root));
        let way = lemma_walked_way(rows, path, root, rows.len() + 1);
        lemma_way_root(rows, root);
        assert(is_way(rows, path, way));
    }
    if path.len() > 0 && path[0] == '/' as u8 && exists|way: Seq<int>|
        #[trigger] is_way(rows, path, way) && rows[way.last()].mount_point == path
            && rows[way.last()].dev == dev {
        let way = choose|way: Seq<int>|
            #[trigger] is_way(rows, path, way) && rows[way.last()].mount_point == path
                && rows[way.last()].dev == dev;
        lemma_way_root(rows, way[0]);
        assert(is_root(rows, way[0]));
        let root = choose|root: int| is_root(rows, root);
        assert(root == way[0]) by {
            if root < way[0] {
                assert(!rootlike(rows, root));
            }
            if way[0] < root {
                assert(!rootlike(rows, way[0]));
            }
        }
        lemma_way_walked(rows, path, way, rows.len() + 1);
    }
}

/// A restricted plan is the targets that the names lead to, in the plan's
/// order: each as it is in the plan but for the name that was asked for, which
/// is the first of the names that leads to it.
pub proof fn law_a_restriction_is_what_the_names_lead_to(
    targets: Seq<TargetView>,
    rows: Seq<RowView>,
    names: Seq<Seq<u8>>,
)
    ensures
        restricted(targets, rows, names).len() == targets.filter(
            |t: TargetView|
                exists|n: int| 0 <= n < names.len() && resolved(rows, #[trigger] names[n]) == Some(t.dev),
        ).len(),
        forall|i: int|
            0 <= i < restricted(targets, rows, names).len() ==> {
                let t = #[trigger] restricted(targets, rows, names)[i];
                let kept = targets.filter(
                    |t: TargetView|
                        exists|n: int|
                            0 <= n < names.len() && resolved(rows, #[trigger] names[n]) == Some(
                                t.dev,
                            ),
                )[i];
                &&& t.mountpoint == kept.mountpoint
                &&& t.aliases == kept.aliases
                &&& t.dev == kept.dev
                &&& t.fs_type == kept.fs_type
                &&& exists|n: int|
                    {
                        &&& 0 <= n < names.len()
                        &&& t.requested == Some(#[trigger] names[n])
                        &&& resolved(rows, names[n]) == Some(t.dev)
                        &&& forall|m: int|
                            0 <= m < n ==> resolved(rows, #[trigger] names[m]) != Some(t.dev)
                    }
            },
    decreases targets.len(),
{
    reveal(Seq::filter);
    if targets.len() > 0 {
        law_a_restriction_is_what_the_names_lead_to(targets.drop_last(), rows, names);
        lemma_first_selecting(rows, names, targets.last().dev);
    }
}

proof fn lemma_first_selecting(rows: Seq<RowView>, names: Seq<Seq<u8>>, dev: (u32, u32))
    ensures
        match selecting(rows, names, dev) {
            Some(name) => exists|n: int|
                {
                    &&& 0 <= n < names.len()
                    &&& name == #[trigger] names[n]
                    &&& resolved(rows, names[n]) == Some(dev)
                    &&& forall|m: int|
                        0 <= m < n ==> resolved(rows, #[trigger] names[m]) != Some(dev)
                },
            None => forall|n: int|
                0 <= n < names.len() ==> resolved(rows, #[trigger] names[n]) != Some(dev),
        },
    decreases names.len(),
{
    if names.len() > 0 {
        let front = names.drop_last();
        lemma_first_selecting(rows, front, dev);
        match selecting(rows, front, dev) {
            Some(name) => {
                let n = choose|n: int|
                    {
                        &&& 0 <= n < front.len()
                        &&& name == #[trigger] front[n]
                        &&& resolved(rows, front[n]) == Some(dev)
                        &&& forall|m: int|
                            0 <= m < n ==> resolved(rows, #[trigger] front[m]) != Some(dev)
                    };
                assert(names[n] == front[n]);
                assert forall|m: int| 0 <= m < n implies resolved(rows, #[trigger] names[m])
                    != Some(dev) by {
                    assert(front[m] == names[m]);
                }
            },
            None => {
                assert forall|m: int| 0 <= m < front.len() implies resolved(
                    rows,
                    #[trigger] names[m],
                ) != Some(dev) by {
                    assert(front[m] == names[m]);
                }
                assert(names[names.len() - 1] == names.last());
            },
        }
    }
}

/// The table that a plan resolves names in is the mount table, mount by mount.
pub proof fn law_the_table_is_the_mounts(mounts: Seq<MountEntry>, i: int)
    requires
        0 <= i < mounts.len(),
    ensures
        rows_of(mounts).len() == mounts.len(),
        rows_of(mounts)[i] == (RowView {
            id: mounts[i].mount_id,
            parent: mounts[i].parent_id,
            mount_point: mounts[i].mount_point@,
            dev: (mounts[i].major, mounts[i].minor),
        }),
{
}

proof fn lemma_split_path(path: Seq<u8>)
    ensures
        split_path(path) == mountinfo::split(path, '/' as u8),
    decreases path.len(),
{
    if path.len() > 0 {
        lemma_split_path(path.drop_last());
    }
}

/// The components of an absolute pathname are the root and the names between
/// its slashes, without the empty ones and the dots.
pub proof fn law_components_are_the_names_between_slashes(names: Seq<Seq<u8>>)
    requires
        forall|i: int| 0 <= i < names.len() ==> !(#[trigger] names[i]).contains('/' as u8),
    ensures
        components(mountinfo::in_a_row(seq![Seq::<u8>::empty(), Seq::empty()] + names, '/' as u8))
            == seq![seq!['/' as u8]] + names.filter(
            |name: Seq<u8>| name.len() > 0 && name != seq!['.' as u8],
        ),
        names.len() > 0 && names[0].len() > 0 ==> components(
            mountinfo::in_a_row(seq![Seq::<u8>::empty()] + names, '/' as u8),
        ) == seq![seq!['/' as u8]] + names.filter(
            |name: Seq<u8>| name.len() > 0 && name != seq!['.' as u8],
        ),
{
    let slash = '/' as u8;
    let none = Seq::<u8>::empty();
    let once = seq![none] + names;
    let twice = seq![none, none] + names;
    assert forall|i: int| 0 <= i < twice.len() implies !(#[trigger] twice[i]).contains(slash) by {
        if i >= 2 {
            assert(!names[i - 2].contains(slash));
        }
    }
    assert forall|i: int| 0 <= i < once.len() implies !(#[trigger] once[i]).contains(slash) by {
        if i >= 1 {
            assert(!names[i - 1].contains(slash));
        }
    }
    let path = mountinfo::in_a_row(twice, slash);
    mountinfo::law_cutting_undoes_joining(twice, none, slash);
    lemma_split_path(path);
    lemma_counting(names, 2);
    lemma_begins_with_slash(seq![none] + names);
    assert(seq![none] + (seq![none] + names) =~= twice);
    assert(seq![SLASH] =~= seq![slash]);
    if names.len() > 0 && names[0].len() > 0 {
        let path = mountinfo::in_a_row(once, slash);
        mountinfo::law_cutting_undoes_joining(once, none, slash);
        lemma_split_path(path);
        lemma_counting(names, 1);
        lemma_begins_with_slash(names);
    }
}

proof fn lemma_begins_with_slash(names: Seq<Seq<u8>>)
    requires
        names.len() > 0,
    ensures
        ({
            let path = mountinfo::in_a_row(seq![Seq::<u8>::empty()] + names, '/' as u8);
            path.len() > 0 && path[0] == '/' as u8
        }),
    decreases names.len(),
{
    let all = seq![Seq::<u8>::empty()] + names;
    if names.len() == 1 {
        assert(all.drop_last() =~= seq![Seq::<u8>::empty()]);
        reveal_with_fuel(mountinfo::in_a_row, 2);
    } else {
        assert(all.drop_last() =~= seq![Seq::<u8>::empty()] + names.drop_last());
        lemma_begins_with_slash(names.drop_last());
    }
}

/// Of an absolute pathname, all but the empty parts and the dots count.
proof fn lemma_counting(names: Seq<Seq<u8>>, empty: int)
    requires
        empty == 1 || empty == 2,
    ensures
        counting_parts(true, Seq::new(empty as nat, |i: int| Seq::<u8>::empty()) + names)
            == names.filter(|name: Seq<u8>| name.len() > 0 && name != seq!['.' as u8]),
        empty == 1 ==> Seq::new(1, |i: int| Seq::<u8>::empty()) + names == seq![Seq::<u8>::empty()]
            + names,
        empty == 2 ==> Seq::new(2, |i: int| Seq::<u8>::empty()) + names == seq![
            Seq::<u8>::empty(),
            Seq::empty(),
        ] + names,
    decreases names.len(),
{
    reveal(Seq::filter);
    let none = Seq::<u8>::empty();
    let front = Seq::new(empty as nat, |i: int| none);
    let all = front + names;
    assert(empty == 1 ==> all =~= seq![none] + names);
    assert(empty == 2 ==> all =~= seq![none, none] + names);
    if names.len() == 0 {
        assert(all =~= front);
        reveal_with_fuel(counting_parts, 3);
        assert(counting_parts(true, front) =~= Seq::<Seq<u8>>::empty());
    } else {
        assert(all.drop_last() =~= front + names.drop_last());
        assert(all.last() == names.last());
        assert(seq!['.' as u8] =~= seq![0x2Eu8]);
        lemma_counting(names.drop_last(), empty);
    }
}

/// The mount that holds a pathname is mounted at it or above it, by components,
/// and none that is holds it deeper; of several at one depth it is the last
/// mounted. Nothing holds it only when none is mounted at or above it.
pub proof fn law_the_deepest_mount_holds_a_pathname(rows: Seq<RowView>, path: Seq<u8>, n: int)
    requires
        0 <= n <= rows.len(),
    ensures
        match holding(rows, path, n) {
            Some(i) => {
                &&& 0 <= i < n
                &&& components(rows[i].mount_point).is_prefix_of(components(path))
                &&& forall|j: int|
                    0 <= j < n && components((#[trigger] rows[j]).mount_point).is_prefix_of(
                        components(path),
                    ) ==> {
                        let a = components(rows[j].mount_point).len();
                        let b = components(rows[i].mount_point).len();
                        a < b || (a == b && j <= i)
                    }
            },
            None => forall|j: int|
                0 <= j < n ==> !components((#[trigger] rows[j]).mount_point).is_prefix_of(
                    components(path),
                ),
        },
    decreases n,
{
    if n > 0 {
        law_the_deepest_mount_holds_a_pathname(rows, path, n - 1);
    }
}

/// A plan is frozen in one order and thawed in the other: every target once,
/// the last mounted frozen first and thawed last.
pub proof fn law_freezing_goes_against_thawing(
    plan: FreezePlan,
    freezing: Vec<&Target>,
    thawing: Vec<&Target>,
    i: int,
)
    requires
        call_ensures(FreezePlan::freeze_order, (&plan,), freezing),
        call_ensures(FreezePlan::thaw_order, (&plan,), thawing),
        0 <= i < plan.targets@.len(),
    ensures
        freezing@.len() == plan.targets@.len(),
        thawing@.len() == plan.targets@.len(),
        *thawing@[i] == plan.targets@[i],
        *freezing@[i] == *thawing@[plan.targets@.len() - 1 - i],
{
}

/// A plan that was built from a mount table covers a device if and only if some
/// mount of the table is on it, is of ext4 or xfs, and has a source under
/// `/dev/`; and then one of its targets is that device.
pub proof fn law_a_built_plan_covers_the_local_filesystems(
    mounts: &[MountEntry],
    plan: FreezePlan,
    dev: (u32, u32),
    covers: bool,
)
    requires
        call_ensures(FreezePlan::build, (mounts,), plan),
        call_ensures(FreezePlan::covers_device, (&plan, dev), covers),
    ensures
        covers <==> exists|k: int|
            {
                &&& 0 <= k < mounts@.len()
                &&& (#[trigger] mounts@[k]).major == dev.0
                &&& mounts@[k].minor == dev.1
                &&& mounts@[k].fs_type@ == "ext4"@ || mounts@[k].fs_type@ == "xfs"@
                &&& "/dev/"@.is_prefix_of(mounts@[k].source@)
            },
        covers <==> exists|i: int|
            0 <= i < plan.targets@.len() && (#[trigger] plan.targets@[i]).dev == dev,
{
    law_every_local_ext4_and_xfs_is_planned(mounts@, dev);
    assert(plan.target_list().len() == plan.targets@.len());
    if has_dev(plan.target_list(), dev) {
        let i = dev_index(plan.target_list(), dev);
        assert(plan.target_list()[i] == plan.targets@[i]@);
        assert(plan.targets@[i].dev == dev);
    }
    if exists|i: int| 0 <= i < plan.targets@.len() && (#[trigger] plan.targets@[i]).dev == dev {
        let i = choose|i: int|
            0 <= i < plan.targets@.len() && (#[trigger] plan.targets@[i]).dev == dev;
        assert(plan.target_list()[i].dev == dev);
    }
}

/// Names are taken as they were given, byte for byte: a target whose device one
/// of them leads to is kept, and every target that is kept carries one of them.
pub proof fn law_names_are_taken_as_given(
    plan: FreezePlan,
    names: &[String],
    part: FreezePlan,
    name: &str,
    leads: Option<(u32, u32)>,
    k: int,
    n: int,
)
    requires
        call_ensures(FreezePlan::restrict_to, (&plan, names), part),
        call_ensures(FreezePlan::visible_at, (&plan, name), leads),
        0 <= n < names@.len(),
        names@[n]@ == name@,
        0 <= k < plan.targets@.len(),
    ensures
        leads == Some(plan.targets@[k].dev) ==> exists|i: int|
            0 <= i < part.targets@.len() && (#[trigger] part.targets@[i]).dev
                == plan.targets@[k].dev,
        forall|i: int|
            0 <= i < part.targets@.len() ==> (#[trigger] part.targets@[i]).requested is Some
                && exists|m: int|
                0 <= m < names@.len() && vstd::utf8::encode_utf8((#[trigger] names@[m])@)
                    == part.targets@[i].requested->0@,
{
    let list = plan.target_list();
    let asked = names_view(names@);
    let kept = part.target_list();
    assert(list[k] == plan.targets@[k]@);
    assert(asked[n] == vstd::utf8::encode_utf8(name@));
    if leads == Some(plan.targets@[k].dev) {
        law_restriction_keeps_what_names_lead_to(list, plan.table(), asked, k, n);
        let i = dev_index(kept, list[k].dev);
        assert(kept[i] == part.targets@[i]@);
        assert(part.targets@[i].dev == plan.targets@[k].dev);
    }
    assert forall|i: int| 0 <= i < part.targets@.len() implies (
    #[trigger] part.targets@[i]).requested is Some && exists|m: int|
        0 <= m < names@.len() && vstd::utf8::encode_utf8((#[trigger] names@[m])@)
            == part.targets@[i].requested->0@ by {
        law_restriction_selects_what_names_lead_to(list, plan.table(), asked, i);
        assert(kept[i] == part.targets@[i]@);
        let m = choose|m: int| 0 <= m < asked.len() && asked[m] == kept[i].requested->0;
        assert(asked[m] == vstd::utf8::encode_utf8(names@[m]@));
    }
}

} // verus!
