use qeminga::freeze_plan::{FreezePlan, Target, FREEZABLE_FS_TYPES};
use qeminga::mountinfo::parse_mountinfo;
use std::time::{Duration, Instant};

const SIMPLE: &str = "27 1 8:1 / / rw,relatime shared:1 - ext4 /dev/sda1 rw\n\
    28 27 0:5 / /proc rw - proc proc rw\n\
    29 27 8:2 / /home rw - xfs /dev/sda2 rw\n";

const TMPFS_AND_NFS: &str = "27 1 8:1 / / rw - ext4 /dev/sda1 rw\n\
    28 27 0:30 / /run rw - tmpfs tmpfs rw\n\
    29 27 0:31 / /dev/shm rw - tmpfs tmpfs rw\n\
    30 27 0:45 / /mnt/nfs rw - nfs4 server:/export rw\n\
    31 27 8:17 / /mnt/usb rw - vfat /dev/sdb1 rw\n";

const BIND_MOUNTS: &str = "27 1 8:1 / / rw - ext4 /dev/sda1 rw\n\
    28 27 8:2 / /data rw - xfs /dev/sda2 rw\n\
    29 27 8:1 /srv/www /var/www rw - ext4 /dev/sda1 rw\n\
    30 27 8:2 /exports /srv/exports rw - xfs /dev/sda2 rw\n\
    31 27 8:1 / /mnt/rootbind rw - ext4 /dev/sda1 rw\n";

const HIDDEN_MOUNT: &str = "27 1 8:1 / / rw - ext4 /dev/sda1 rw\n\
    40 27 8:2 / /data rw - ext4 /dev/sda2 rw\n\
    41 27 8:2 / /data-alias rw - ext4 /dev/sda2 rw\n\
    42 40 8:3 / /data rw - xfs /dev/sda3 rw\n";

const MOVED_MOUNT: &str = "27 1 8:1 / / rw - ext4 /dev/sda1 rw\n\
    40 41 8:5 / /data rw - ext4 /dev/sda5 rw\n\
    41 27 8:2 / /data rw - ext4 /dev/sda2 rw\n\
    42 27 8:2 / /b-alias rw - ext4 /dev/sda2 rw\n";

const HIDDEN_NESTED: &str = "27 1 8:1 / / rw - ext4 /dev/sda1 rw\n\
    40 27 8:2 / /data rw - ext4 /dev/sda2 rw\n\
    41 40 8:3 / /data/nested rw - ext4 /dev/sda3 rw\n\
    42 40 8:4 / /data rw - ext4 /dev/sda4 rw\n";

const DIRECTORY_OVERMOUNT: &str = "27 1 8:1 / / rw - ext4 /dev/sda1 rw\n\
    40 27 8:2 / /data/nested rw - ext4 /dev/sda2 rw\n\
    41 27 8:3 / /data rw - ext4 /dev/sda3 rw\n\
    42 41 8:4 / /data/nested rw - ext4 /dev/sda4 rw\n";

const SELF_PARENTED_ROOT: &str = "1 1 0:1 / / rw - rootfs rootfs rw\n\
    2 1 8:1 / /data rw - ext4 /dev/vda1 rw\n";

const NESTED: &str = "27 1 8:1 / / rw - ext4 /dev/sda1 rw\n\
    28 27 0:5 / /proc rw - proc proc rw\n\
    29 27 8:2 / /home rw - ext4 /dev/sda2 rw\n\
    30 29 8:3 / /home/data rw - xfs /dev/sda3 rw\n\
    31 30 8:4 / /home/data/deep rw - ext4 /dev/sda4 rw\n";

const ESCAPED_PATHS: &str = "27 1 8:1 / / rw - ext4 /dev/sda1 rw\n\
    28 27 8:2 / /mnt/with\\040space rw - ext4 /dev/sda2 rw\n";

const BTRFS_SUBVOLS: &str = "27 1 0:40 /root / rw - btrfs /dev/sda3 rw\n\
    28 27 0:40 /home /home rw - btrfs /dev/sda3 rw\n\
    29 27 8:2 / /boot rw - ext4 /dev/sda2 rw\n";

fn plan_from(table: &str) -> FreezePlan {
    FreezePlan::build(&parse_mountinfo(table.as_bytes()))
}

fn name(target: &Target) -> &str {
    std::str::from_utf8(&target.mountpoint).unwrap()
}

fn mountpoints(plan: &FreezePlan) -> Vec<&str> {
    plan.targets().iter().map(name).collect()
}

fn devs(plan: &FreezePlan) -> Vec<(u32, u32)> {
    plan.targets().iter().map(|t| t.dev).collect()
}

fn paths(list: &[&str]) -> Vec<Vec<u8>> {
    list.iter().map(|path| path.as_bytes().to_vec()).collect()
}

fn names(list: &[&str]) -> Vec<String> {
    list.iter().map(|name| (*name).to_owned()).collect()
}

#[test]
fn includes_only_freezable_local_device_backed_types() {
    let plan = plan_from(TMPFS_AND_NFS);
    assert_eq!(mountpoints(&plan), ["/"]);
    let plan = plan_from(SIMPLE);
    assert_eq!(mountpoints(&plan), ["/", "/home"]);
    assert_eq!(plan.targets()[1].fs_type, "xfs");
    assert_eq!(plan.targets()[1].dev, (8, 2));
    // ext4 not backed by /dev is excluded; xfs on /dev is in.
    let text = "1 0 8:1 / / rw - ext4 rootfs rw\n\
                2 1 8:2 / /a rw - xfs /dev/sda2 rw\n\
                3 1 0:40 / /b rw - btrfs /dev/sda3 rw\n\
                4 1 8:4 / /c rw - vfat /dev/sda4 rw\n\
                5 1 8:5 / /d rw - ext4 /dev/mapper/vg-lv rw\n\
                6 1 7:0 / /e rw - ext4 /dev/loop0 rw\n";
    let plan = plan_from(text);
    assert_eq!(mountpoints(&plan), ["/a", "/d", "/e"]);
    assert_eq!(FREEZABLE_FS_TYPES, ["ext4", "xfs"]);
}

#[test]
fn dedupes_bind_mounts_by_device_identity() {
    let plan = plan_from(BIND_MOUNTS);
    // /var/www and /mnt/rootbind share 8:1 with /; /srv/exports shares 8:2
    // with /data. First in mount order wins regardless of `root`.
    assert_eq!(mountpoints(&plan), ["/", "/data"]);
    // The other mount points of the superblock are kept as aliases, in mount
    // order: the ioctls fall back to them when the first pathname no longer
    // leads to the superblock.
    assert_eq!(
        plan.targets()[0].aliases,
        paths(&["/var/www", "/mnt/rootbind"])
    );
    assert_eq!(plan.targets()[1].aliases, paths(&["/srv/exports"]));
    // The bind mount appearing *first* is what gets kept as the name.
    let text = "1 0 8:1 /srv/www /var/www rw - ext4 /dev/sda1 rw\n\
                2 0 8:1 / / rw - ext4 /dev/sda1 rw\n";
    let plan = plan_from(text);
    assert_eq!(mountpoints(&plan), ["/var/www"]);
    assert_eq!(plan.targets()[0].aliases, paths(&["/"]));
    assert_eq!(plan.len(), 1);
}

#[test]
fn a_hidden_first_mount_keeps_its_accessible_alias() {
    // /data (8:2) has a bind alias /data-alias; a later mount (8:3) was placed
    // over /data, so the pathname /data now leads to 8:3. The plan must keep
    // /data-alias for 8:2 rather than discard it as a duplicate: the alias is
    // how 8:2 is still reached.
    let plan = plan_from(HIDDEN_MOUNT);
    assert_eq!(mountpoints(&plan), ["/", "/data", "/data"]);
    let data = plan.targets().iter().find(|t| t.dev == (8, 2)).unwrap();
    let known: Vec<&[u8]> = data.mountpoints().iter().map(|p| p.as_slice()).collect();
    assert_eq!(known, [b"/data".as_slice(), b"/data-alias".as_slice()]);
    assert_eq!(data.aliases, paths(&["/data-alias"]));
    let over = plan.targets().iter().find(|t| t.dev == (8, 3)).unwrap();
    assert!(over.aliases.is_empty());
    assert_eq!(over.mountpoints().len(), 1);
    // Both superblocks stay in the plan (each may be frozen), and the device
    // check knows both.
    assert!(plan.covers_device((8, 2)));
    assert!(plan.covers_device((8, 3)));
    assert!(!plan.covers_device((8, 4)));
    // A freeze-list naming the alias selects the hidden superblock.
    let restricted = plan.restrict_to(&names(&["/data-alias"]));
    assert_eq!(restricted.len(), 1);
    assert_eq!(restricted.targets()[0].dev, (8, 2));
    // Naming /data selects what is mounted there now (8:3), not the superblock
    // whose hidden first name it also is.
    assert_eq!(devs(&plan.restrict_to(&names(&["/data"]))), [(8, 3)]);
}

#[test]
fn a_mount_moved_over_a_newer_one_is_what_the_pathname_leads_to() {
    // A was mounted first (row 40), B at /data after it, B bound at /b-alias,
    // then A moved over /data. The table keeps A's earlier row, so "the last
    // row at /data" is B, while what /data leads to is A (row 40's parent is
    // row 41). Selection follows the graph.
    let plan = plan_from(MOVED_MOUNT);
    assert_eq!(plan.visible_at("/data"), Some((8, 5)));
    assert_eq!(plan.visible_at("/b-alias"), Some((8, 2)));
    let restricted = plan.restrict_to(&names(&["/data"]));
    assert_eq!(devs(&restricted), [(8, 5)]);
    assert_eq!(
        restricted.targets()[0].requested.as_deref(),
        Some(b"/data".as_slice())
    );
    // B is still selectable by the name it is visible at.
    assert_eq!(devs(&plan.restrict_to(&names(&["/b-alias"]))), [(8, 2)]);
    // A full freeze selects by nothing.
    assert!(plan.targets().iter().all(|t| t.requested.is_none()));
}

#[test]
fn a_mount_under_an_overmounted_ancestor_is_hidden() {
    // /data/nested (row 41) hangs off row 40, which row 42 covers at /data:
    // /data/nested now leads into row 42's filesystem, where nothing is
    // mounted, so the name selects nothing; /data selects row 42.
    let plan = plan_from(HIDDEN_NESTED);
    assert_eq!(plan.visible_at("/data/nested"), None);
    assert_eq!(plan.visible_at("/data"), Some((8, 4)));
    assert!(plan.restrict_to(&names(&["/data/nested"])).is_empty());
    assert_eq!(devs(&plan.restrict_to(&names(&["/data"]))), [(8, 4)]);
    // The hidden superblock is still in the plan for a thaw to reach.
    assert!(plan.covers_device((8, 3)));
}

#[test]
fn a_mount_over_a_directory_hides_the_mounts_beneath_it() {
    // A (8:2) at /data/nested, then B (8:3) mounted at /data, a plain
    // directory until then, so A's parent is still the root mount; then C
    // (8:4) at the /data/nested B provides. /data/nested leads to C; A is
    // hidden by a mount over an intermediate directory, not over a mount
    // point, which following parent links alone misses.
    let plan = plan_from(DIRECTORY_OVERMOUNT);
    assert_eq!(plan.visible_at("/data/nested"), Some((8, 4)));
    assert_eq!(plan.visible_at("/data"), Some((8, 3)));
    assert_eq!(devs(&plan.restrict_to(&names(&["/data/nested"]))), [(8, 4)]);
    // A is in the plan (a thaw reaches it by its handle or its name if it is
    // ever visible again) but no requested name leads to it.
    assert!(plan.covers_device((8, 2)));
    let all = plan.restrict_to(&names(&["/data", "/data/nested"]));
    assert_eq!(devs(&all), [(8, 3), (8, 4)]);
}

#[test]
fn a_self_parented_root_is_the_root_of_the_namespace() {
    // The root of a mount namespace's tree may carry its own id as its parent
    // id; that is a valid table, not a cycle. Such a root is walked from, and
    // it is not its own child at `/`.
    let plan = plan_from(SELF_PARENTED_ROOT);
    assert_eq!(plan.visible_at("/data"), Some((8, 1)));
    assert_eq!(plan.visible_at("/"), Some((0, 1)));
    assert_eq!(devs(&plan.restrict_to(&names(&["/data"]))), [(8, 1)]);
    // A parent that is neither absent nor the row itself is not a root: an
    // inconsistent table (every row under some other row) resolves nothing
    // rather than guessing.
    let text = "3 4 0:1 / / rw - rootfs rootfs rw\n4 3 8:1 / /data rw - ext4 /dev/vda1 rw\n";
    let plan = plan_from(text);
    assert_eq!(plan.visible_at("/data"), None);
    assert!(plan.restrict_to(&names(&["/data"])).is_empty());
}

#[test]
fn resolution_costs_the_request_plus_the_table_not_their_product() {
    // 8 192 copies of a missing name (a valid 41 KiB request) against 20 000
    // rows and 32 eligible targets must not cost their product in comparisons.
    // Each distinct name is resolved once through an index built in one pass,
    // so the whole request costs the request plus the table.
    let mut text = String::from("27 1 8:1 / / rw - ext4 /dev/sda1 rw\n");
    for i in 0..20_000 {
        let (dev, fs, source) = if i % 625 == 0 {
            (format!("8:{}", 10 + i / 625), "ext4", "/dev/sdb1")
        } else {
            ("0:99".to_owned(), "tmpfs", "tmpfs")
        };
        text.push_str(&format!(
            "{} 27 {dev} / /m{i} rw - {fs} {source} rw\n",
            100 + i
        ));
    }
    let plan = plan_from(&text);
    assert_eq!(plan.len(), 33);
    let missing = vec!["/x".to_owned(); 8192];
    let started = Instant::now();
    assert!(plan.restrict_to(&missing).is_empty());
    let present = vec!["/m625".to_owned(); 8192];
    let restricted = plan.restrict_to(&present);
    assert_eq!(restricted.len(), 1);
    assert_eq!(restricted.targets()[0].dev, (8, 11));
    assert!(
        started.elapsed() < Duration::from_secs(2),
        "took {:?}",
        started.elapsed()
    );
}

#[test]
fn a_requested_name_selects_at_most_one_superblock_so_the_count_is_coverage() {
    // One requested name selects at most one superblock. Over the overmount, a
    // request for /data and a path nothing is mounted at must select exactly
    // one target, so a controller requesting two sees a count of one and
    // rejects; were the hidden name to select 8:2 as well, the count would
    // read 2 with /required never protected.
    let plan = plan_from(HIDDEN_MOUNT);
    let restricted = plan.restrict_to(&names(&["/data", "/required"]));
    assert_eq!(devs(&restricted), [(8, 3)]);
    // The selected target keeps every name it has: they are how it is reached,
    // not what selected it.
    let both = plan.restrict_to(&names(&["/data", "/data-alias"]));
    assert_eq!(devs(&both), [(8, 2), (8, 3)]);
    let hidden = both.targets().iter().find(|t| t.dev == (8, 2)).unwrap();
    assert_eq!(hidden.aliases, paths(&["/data-alias"]));
    // A name nothing is mounted at, or a mount outside the plan, selects
    // nothing.
    assert!(plan.restrict_to(&names(&["/required"])).is_empty());
    assert!(plan.restrict_to(&names(&["/data/"])).is_empty());
}

#[test]
fn freeze_order_is_reverse_mount_order_and_thaw_order_is_forward() {
    let plan = plan_from(NESTED);
    let freeze: Vec<&str> = plan.freeze_order().into_iter().map(name).collect();
    assert_eq!(freeze, ["/home/data/deep", "/home/data", "/home", "/"]);
    let thaw: Vec<&str> = plan.thaw_order().into_iter().map(name).collect();
    assert_eq!(thaw, ["/", "/home", "/home/data", "/home/data/deep"]);
}

#[test]
fn freeze_list_intersection_ignores_unknown_paths() {
    let plan = plan_from(NESTED);
    let restricted = plan.restrict_to(&names(&[
        "/home",
        "/nonexistent",
        "/proc",
        "/home/data/deep",
    ]));
    assert_eq!(mountpoints(&restricted), ["/home", "/home/data/deep"]);
    let freeze: Vec<&str> = restricted.freeze_order().into_iter().map(name).collect();
    assert_eq!(freeze, ["/home/data/deep", "/home"]);
    // Exact string match on the unescaped mount point: no prefix matching, no
    // trailing slash tolerance.
    let none = plan.restrict_to(&names(&["/home/", "/hom"]));
    assert!(none.is_empty());
    assert!(plan.restrict_to(&[]).is_empty());
    // An alias names its superblock too.
    let plan = plan_from(BIND_MOUNTS);
    let restricted = plan.restrict_to(&names(&["/srv/exports"]));
    assert_eq!(mountpoints(&restricted), ["/data"]);
    let plan = plan_from(ESCAPED_PATHS);
    let restricted = plan.restrict_to(&names(&["/mnt/with space"]));
    assert_eq!(mountpoints(&restricted), ["/mnt/with space"]);
    // `covers` still sees the full mount table after restriction.
    assert!(restricted.covers(b"/mnt/with space/file"));
}

#[test]
fn state_path_on_tmpfs_is_not_covered() {
    let plan = plan_from(TMPFS_AND_NFS);
    assert!(!plan.covers(b"/run/qeminga/frozen"));
    assert!(!plan.covers(b"/dev/shm/x"));
    assert!(!plan.covers(b"/mnt/nfs/marker"));
    assert!(
        !plan.covers(b"/mnt/usb/marker"),
        "vfat is not in the plan"
    );
    assert_eq!(
        plan.mount_of(b"/run/qeminga/frozen"),
        Some((&b"/run".to_vec(), (0, 30)))
    );
    // The device check (what startup uses, on the opened directory).
    assert!(!plan.covers_device((0, 30)));
    assert!(!plan.covers_device((0, 0)));
}

#[test]
fn state_path_on_root_ext4_is_covered() {
    let plan = plan_from(TMPFS_AND_NFS);
    assert!(plan.covers(b"/var/lib/qeminga/frozen"));
    assert!(plan.covers(b"/frozen"));
    assert!(plan.covers_device((8, 1)));
    // Longest prefix wins: /home/data is xfs (in plan), /home/data/deep is
    // ext4 (in plan) and /run (tmpfs) beats / for /run/...
    let plan = plan_from(NESTED);
    assert_eq!(
        plan.mount_of(b"/home/data/deep/x"),
        Some((&b"/home/data/deep".to_vec(), (8, 4)))
    );
    assert_eq!(
        plan.mount_of(b"/home/datafile"),
        Some((&b"/home".to_vec(), (8, 2)))
    );
    assert!(plan.covers(b"/home/datafile"));
    // A relative path matches no mount.
    assert_eq!(plan.mount_of(b"relative"), None);
    assert!(!plan.covers(b"relative"));
    // A bind mount of a planned device is covered too.
    let plan = plan_from(BIND_MOUNTS);
    assert!(plan.covers(b"/srv/exports/marker"));
}

#[test]
fn empty_plan_is_valid() {
    let text = "1 0 0:1 / / rw - tmpfs tmpfs rw\n2 1 0:2 / /proc rw - proc proc rw\n";
    let plan = plan_from(text);
    assert!(plan.is_empty());
    assert_eq!(plan.len(), 0);
    assert_eq!(plan.freeze_order().len(), 0);
    assert_eq!(plan.thaw_order().len(), 0);
    assert!(!plan.covers(b"/run/qeminga/frozen"));
    assert!(!plan.covers_device((0, 1)));
    assert_eq!(FreezePlan::build(&[]), FreezePlan::default());
    assert!(FreezePlan::default().is_empty());
}

#[test]
fn btrfs_subvolumes_are_excluded_until_tested() {
    // btrfs is not in FREEZABLE_FS_TYPES yet, so only /boot (ext4) is planned
    // even though the subvolumes are device-backed.
    let plan = plan_from(BTRFS_SUBVOLS);
    assert_eq!(mountpoints(&plan), ["/boot"]);
}

#[test]
fn restricting_twice_by_the_same_names_changes_nothing() {
    let plan = FreezePlan::build(&parse_mountinfo(NESTED.as_bytes()));
    let names: Vec<String> = ["/home", "/home", "/absent"]
        .iter()
        .map(|name| (*name).to_owned())
        .collect();
    let once = plan.restrict_to(&names);
    assert_eq!(once.len(), 1, "a repeated name selects once");
    assert_eq!(once.restrict_to(&names).targets(), once.targets());
}
