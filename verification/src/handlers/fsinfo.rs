//! `guest-get-fsinfo`.
//!
//! Lists every mounted filesystem (pseudo filesystems as well) with its source,
//! type, mount point and sizes. A filesystem whose sizes could not be read is
//! listed without them. `disk` is always an empty list.

use vstd::prelude::*;
use vstd::string::*;

use crate::json::{list, member, object, string, Json, Member};
use crate::json;
use crate::mountinfo::MountEntry;
use crate::text::lossy_text;
use crate::text;

verus! {

/// The `statfs(2)` fields used for sizes.
#[derive(Debug, Clone, Copy, PartialEq, Eq, Structural)]
pub struct Statfs {
    /// Total data blocks.
    pub blocks: u64,
    /// Free blocks.
    pub bfree: u64,
    /// Block size in bytes.
    pub bsize: u64,
}

/// The least of a size and the largest number.
pub open spec fn saturated(n: int) -> u64 {
    if n > u64::MAX {
        u64::MAX
    } else {
        n as u64
    }
}

fn saturating_product(a: u64, b: u64) -> (product: u64)
    ensures
        product == saturated(a * b),
{
    match a.checked_mul(b) {
        Some(product) => product,
        None => u64::MAX,
    }
}

impl Statfs {
    /// `blocks * bsize`, saturating.
    pub open spec fn total(self) -> u64 {
        saturated(self.blocks * self.bsize)
    }

    /// `(blocks - bfree) * bsize`, saturating.
    pub open spec fn used(self) -> u64 {
        if self.bfree >= self.blocks {
            0
        } else {
            saturated((self.blocks - self.bfree) * self.bsize)
        }
    }

    /// `blocks * bsize`, saturating.
    pub fn total_bytes(&self) -> (bytes: u64)
        ensures
            bytes == self.total(),
    {
        saturating_product(self.blocks, self.bsize)
    }

    /// `(blocks - bfree) * bsize`, saturating.
    pub fn used_bytes(&self) -> (bytes: u64)
        ensures
            bytes == self.used(),
    {
        if self.bfree >= self.blocks {
            0
        } else {
            saturating_product(self.blocks - self.bfree, self.bsize)
        }
    }
}

/// What is in use never exceeds the whole.
pub proof fn law_used_is_at_most_the_total(sizes: Statfs)
    ensures
        sizes.used() <= sizes.total(),
{
    let blocks = sizes.blocks as int;
    let free = sizes.bfree as int;
    let size = sizes.bsize as int;
    assert((blocks - free) * size <= blocks * size) by (nonlinear_arith)
        requires
            free >= 0,
            size >= 0,
    ;
    assert(blocks * size >= 0) by (nonlinear_arith)
        requires
            blocks >= 0,
            size >= 0,
    ;
    if free < blocks {
        assert((blocks - free) * size >= 0) by (nonlinear_arith)
            requires
                blocks > free,
                size >= 0,
        ;
    }
}

/// One `GuestFilesystemInfo`.
#[derive(Debug, Clone, PartialEq, Eq)]
pub struct FilesystemInfo {
    /// Mount source (`/dev/sda1`, `tmpfs`, ...).
    pub name: String,
    /// Mount point, unescaped.
    pub mountpoint: String,
    /// Filesystem type.
    pub fs_type: String,
    /// Bytes in use; absent when the sizes could not be read.
    pub used_bytes: Option<u64>,
    /// Bytes in all; absent when the sizes could not be read.
    pub total_bytes: Option<u64>,
    /// The disks behind it: none is ever looked for.
    pub disk: Vec<Json>,
}

/// An entry is what a mount and its sizes say.
pub open spec fn describes(
    info: FilesystemInfo,
    mount: MountEntry,
    sizes: Option<Statfs>,
) -> bool {
    &&& info.name@ == mount.source@
    &&& info.mountpoint@ == text::lossy(mount.mount_point@)
    &&& info.fs_type@ == mount.fs_type@
    &&& info.used_bytes == match sizes {
        Some(sizes) => Some(sizes.used()),
        None => None,
    }
    &&& info.total_bytes == match sizes {
        Some(sizes) => Some(sizes.total()),
        None => None,
    }
    &&& info.disk@.len() == 0
}

/// Builds the reply for a mount table: `sizes` holds the sizes of each mount,
/// or nothing where they could not be read.
pub fn fs_info(mounts: &[MountEntry], sizes: &[Option<Statfs>]) -> (infos: Vec<FilesystemInfo>)
    requires
        sizes@.len() == mounts@.len(),
    ensures
        infos@.len() == mounts@.len(),
        forall|i: int|
            0 <= i < mounts@.len() ==> describes(#[trigger] infos@[i], mounts@[i], sizes@[i]),
{
    let mut infos: Vec<FilesystemInfo> = Vec::new();
    for i in 0..mounts.len()
        invariant
            sizes@.len() == mounts@.len(),
            infos@.len() == i,
            forall|j: int|
                0 <= j < i ==> describes(#[trigger] infos@[j], mounts@[j], sizes@[j]),
    {
        let mount = &mounts[i];
        let (used_bytes, total_bytes) = match sizes[i] {
            Some(sizes) => (Some(sizes.used_bytes()), Some(sizes.total_bytes())),
            None => (None, None),
        };
        infos.push(
            FilesystemInfo {
                name: mount.source.clone(),
                mountpoint: lossy_text(&mount.mount_point),
                fs_type: mount.fs_type.clone(),
                used_bytes,
                total_bytes,
                disk: Vec::new(),
            },
        );
    }
    infos
}

/// A member for a size that is known.
pub open spec fn size_member(name: Seq<char>, size: Option<u64>) -> Seq<json::MemberView> {
    match size {
        Some(n) => seq![json::MemberView { name, value: json::JsonView::Int(n as int) }],
        None => Seq::empty(),
    }
}

/// An entry of the reply, its members ordered by name.
pub open spec fn info_json(info: FilesystemInfo) -> json::JsonView {
    json::JsonView::Object(
        seq![
            json::MemberView {
                name: "disk"@,
                value: json::JsonView::List(json::items_view(info.disk@)),
            },
            json::MemberView {
                name: "mountpoint"@,
                value: json::JsonView::Text(info.mountpoint@),
            },
            json::MemberView { name: "name"@, value: json::JsonView::Text(info.name@) },
        ] + size_member("total-bytes"@, info.total_bytes) + seq![
            json::MemberView { name: "type"@, value: json::JsonView::Text(info.fs_type@) },
        ] + size_member("used-bytes"@, info.used_bytes),
    )
}

impl FilesystemInfo {
    /// The entry as the reply shows it.
    pub fn to_json(&self) -> (value: Json)
        ensures
            value@ == info_json(*self),
    {
        let mut disks: Vec<Json> = Vec::new();
        for i in 0..self.disk.len()
            invariant
                disks@.len() == i,
                forall|j: int| 0 <= j < i ==> (#[trigger] disks@[j])@ == self.disk@[j]@,
        {
            disks.push(self.disk[i].clone());
        }
        proof {
            assert(json::items_view(disks@) =~= json::items_view(self.disk@));
        }
        let mut members: Vec<Member> = Vec::new();
        members.push(member("disk", list(disks)));
        members.push(member("mountpoint", string(self.mountpoint.as_str())));
        members.push(member("name", string(self.name.as_str())));
        if let Some(n) = self.total_bytes {
            members.push(member("total-bytes", Json::Uint(n)));
        }
        members.push(member("type", string(self.fs_type.as_str())));
        if let Some(n) = self.used_bytes {
            members.push(member("used-bytes", Json::Uint(n)));
        }
        proof {
            assert(json::members_view(members@) =~= info_json(*self)->Object_0);
        }
        object(members)
    }
}

/// `guest-get-fsinfo`: the reply.
pub fn handle(infos: &[FilesystemInfo]) -> (reply: Json)
    ensures
        reply@ == json::JsonView::List(
            Seq::new(infos@.len(), |i: int| info_json(infos@[i])),
        ),
{
    let mut items: Vec<Json> = Vec::new();
    for i in 0..infos.len()
        invariant
            items@.len() == i,
            forall|j: int| 0 <= j < i ==> (#[trigger] items@[j])@ == info_json(infos@[j]),
    {
        items.push(infos[i].to_json());
    }
    proof {
        assert(json::items_view(items@) =~= Seq::new(
            infos@.len(),
            |i: int| info_json(infos@[i]),
        ));
    }
    list(items)
}

/// The sizes are the blocks times the block size: all of them for the total,
/// those that are not free for what is in use; the largest number where that
/// does not fit.
pub proof fn law_sizes_are_blocks_times_block_size(
    sizes: Statfs,
    total: u64,
    used: u64,
)
    requires
        call_ensures(Statfs::total_bytes, (&sizes,), total),
        call_ensures(Statfs::used_bytes, (&sizes,), used),
    ensures
        sizes.blocks * sizes.bsize <= u64::MAX ==> total == sizes.blocks * sizes.bsize,
        sizes.blocks * sizes.bsize > u64::MAX ==> total == u64::MAX,
        sizes.bfree >= sizes.blocks ==> used == 0,
        sizes.bfree < sizes.blocks && (sizes.blocks - sizes.bfree) * sizes.bsize <= u64::MAX ==> used
            == (sizes.blocks - sizes.bfree) * sizes.bsize,
        sizes.bfree < sizes.blocks && (sizes.blocks - sizes.bfree) * sizes.bsize > u64::MAX ==> used
            == u64::MAX,
{
    let blocks = sizes.blocks as int;
    let free = sizes.bfree as int;
    let size = sizes.bsize as int;
    assert(blocks * size >= 0) by (nonlinear_arith)
        requires
            blocks >= 0,
            size >= 0,
    ;
    if free < blocks {
        assert((blocks - free) * size >= 0) by (nonlinear_arith)
            requires
                blocks > free,
                size >= 0,
        ;
    }
}

/// Every mount is listed, in mount order: with its source, its mount point, its
/// type, and its sizes where they were read. No disk is ever named.
pub proof fn law_every_mount_is_listed(
    mounts: &[MountEntry],
    sizes: &[Option<Statfs>],
    infos: Vec<FilesystemInfo>,
    i: int,
)
    requires
        sizes@.len() == mounts@.len(),
        call_ensures(fs_info, (mounts, sizes), infos),
        0 <= i < mounts@.len(),
    ensures
        infos@.len() == mounts@.len(),
        infos@[i].name@ == mounts@[i].source@,
        infos@[i].mountpoint@ == text::lossy(mounts@[i].mount_point@),
        infos@[i].fs_type@ == mounts@[i].fs_type@,
        infos@[i].total_bytes is Some <==> sizes@[i] is Some,
        infos@[i].used_bytes is Some <==> sizes@[i] is Some,
        sizes@[i] matches Some(read) ==> infos@[i].total_bytes == Some(read.total())
            && infos@[i].used_bytes == Some(read.used()),
        infos@[i].disk@.len() == 0,
{
    assert(describes(infos@[i], mounts@[i], sizes@[i]));
}

/// An entry of the reply says what the entry holds, each under its name, and
/// nothing else.
pub proof fn law_an_entry_says_its_fields(
    info: FilesystemInfo,
    name: Seq<char>,
    value: json::JsonView,
)
    ensures
        info_json(info) is Object,
        json::says(info_json(info)->Object_0, name, value) <==> {
            ||| name == "name"@ && value == json::JsonView::Text(info.name@)
            ||| name == "mountpoint"@ && value == json::JsonView::Text(info.mountpoint@)
            ||| name == "type"@ && value == json::JsonView::Text(info.fs_type@)
            ||| name == "used-bytes"@ && info.used_bytes is Some && value == json::JsonView::Int(
                info.used_bytes->0 as int,
            )
            ||| name == "total-bytes"@ && info.total_bytes is Some && value == json::JsonView::Int(
                info.total_bytes->0 as int,
            )
            ||| name == "disk"@ && value == json::JsonView::List(json::items_view(info.disk@))
        },
{
    let head = seq![
        json::MemberView {
            name: "disk"@,
            value: json::JsonView::List(json::items_view(info.disk@)),
        },
        json::MemberView { name: "mountpoint"@, value: json::JsonView::Text(info.mountpoint@) },
        json::MemberView { name: "name"@, value: json::JsonView::Text(info.name@) },
    ];
    let total = size_member("total-bytes"@, info.total_bytes);
    let kind = seq![json::MemberView { name: "type"@, value: json::JsonView::Text(info.fs_type@) }];
    let used = size_member("used-bytes"@, info.used_bytes);
    json::lemma_says_concat(head, total, name, value);
    json::lemma_says_concat(head + total, kind, name, value);
    json::lemma_says_concat(head + total + kind, used, name, value);
    assert(head[0].name == "disk"@ && head[1].name == "mountpoint"@ && head[2].name == "name"@);
    assert(kind[0].name == "type"@);
    if info.total_bytes is Some {
        assert(total[0].name == "total-bytes"@);
    }
    if info.used_bytes is Some {
        assert(used[0].name == "used-bytes"@);
    }
}

/// The reply lists every entry, in order.
pub proof fn law_the_reply_lists_every_entry(infos: &[FilesystemInfo], reply: Json, i: int)
    requires
        call_ensures(handle, (infos,), reply),
        0 <= i < infos@.len(),
    ensures
        reply@ is List,
        reply@->List_0.len() == infos@.len(),
        reply@->List_0[i] == info_json(infos@[i]),
{
}

} // verus!
