use qeminga::handlers::fsinfo::{fs_info, handle, FilesystemInfo, Statfs};
use qeminga::json::{to_text, Json};
use qeminga::mountinfo::{parse_mountinfo, MountEntry};
use serde_json::Value;

const SIMPLE: &str = "22 27 0:20 / /sys rw - sysfs sysfs rw\n\
    23 27 0:5 / /proc rw - proc proc rw\n\
    24 27 0:6 / /dev rw - devtmpfs udev rw\n\
    27 1 8:1 / / rw,relatime shared:1 - ext4 /dev/sda1 rw\n\
    29 27 8:2 / /home rw - xfs /dev/sda2 rw\n";

const TMPFS_AND_NFS: &str = "27 1 8:1 / / rw - ext4 /dev/sda1 rw\n\
    28 27 0:30 / /run rw - tmpfs tmpfs rw\n\
    29 27 0:31 / /sys/fs/cgroup rw - cgroup2 cgroup2 rw\n\
    30 27 0:45 / /mnt/nfs rw - nfs4 filer:/export rw\n\
    31 27 0:50 / /var/lib/containers/x rw - overlay overlay rw\n";

const ESCAPED_PATHS: &str = "27 1 8:1 / / rw - ext4 /dev/sda1 rw\n\
    28 27 8:2 / /mnt/with\\040space rw - ext4 /dev/sda2 rw\n";

fn mounts(table: &str) -> Vec<MountEntry> {
    parse_mountinfo(table.as_bytes())
}

/// The sizes a kernel would report, and a failure elsewhere.
fn sizes(mounts: &[MountEntry]) -> Vec<Option<Statfs>> {
    let of = |point: &[u8]| match point {
        b"/" => Some((1000, 250, 4096)),
        b"/home" => Some((10, 10, 512)),
        b"/proc" => Some((0, 0, 4096)),
        _ => None,
    };
    mounts
        .iter()
        .map(|entry| {
            of(&entry.mount_point).map(|(blocks, bfree, bsize)| Statfs {
                blocks,
                bfree,
                bsize,
            })
        })
        .collect()
}

fn info(table: &str) -> Vec<FilesystemInfo> {
    let mounts = mounts(table);
    fs_info(&mounts, &sizes(&mounts))
}

fn json(value: &Json) -> Value {
    serde_json::from_str(&to_text(value)).unwrap()
}

#[test]
fn fsinfo_reports_name_type_mountpoint_and_sizes() {
    let info = info(SIMPLE);
    let root = info.iter().find(|f| f.mountpoint == "/").unwrap();
    assert_eq!(root.name, "/dev/sda1");
    assert_eq!(root.fs_type, "ext4");
    assert_eq!(root.total_bytes, Some(1000 * 4096));
    assert_eq!(root.used_bytes, Some(750 * 4096));
    let home = info.iter().find(|f| f.mountpoint == "/home").unwrap();
    assert_eq!(home.name, "/dev/sda2");
    assert_eq!(home.fs_type, "xfs");
    assert_eq!(home.total_bytes, Some(5120));
    assert_eq!(home.used_bytes, Some(0));
    let value = json(&root.to_json());
    let mut keys: Vec<&str> = value
        .as_object()
        .unwrap()
        .keys()
        .map(String::as_str)
        .collect();
    keys.sort_unstable();
    assert_eq!(
        keys,
        [
            "disk",
            "mountpoint",
            "name",
            "total-bytes",
            "type",
            "used-bytes"
        ]
    );
}

#[test]
fn fsinfo_includes_pseudo_filesystems_and_disk_is_empty_array() {
    let info = info(TMPFS_AND_NFS);
    assert_eq!(info.len(), mounts(TMPFS_AND_NFS).len());
    let types: Vec<&str> = info.iter().map(|f| f.fs_type.as_str()).collect();
    assert!(types.contains(&"tmpfs"));
    assert!(types.contains(&"cgroup2"));
    assert!(types.contains(&"nfs4"));
    assert!(types.contains(&"overlay"));
    for entry in &info {
        assert_eq!(json(&entry.to_json())["disk"], Value::Array(vec![]));
    }
    // Order is mount order.
    assert_eq!(info[0].mountpoint, "/");
    assert_eq!(info[1].mountpoint, "/run");
}

#[test]
fn fsinfo_statfs_failure_omits_size_fields_not_the_entry() {
    let listed = info(TMPFS_AND_NFS);
    let nfs = listed.iter().find(|f| f.fs_type == "nfs4").unwrap();
    assert_eq!(nfs.name, "filer:/export");
    assert_eq!(nfs.used_bytes, None);
    assert_eq!(nfs.total_bytes, None);
    let value = json(&nfs.to_json());
    assert!(value.get("used-bytes").is_none());
    assert!(value.get("total-bytes").is_none());
    assert!(!value.to_string().contains("null"));
    // Escaped mount points are reported unescaped.
    assert_eq!(info(ESCAPED_PATHS)[1].mountpoint, "/mnt/with space");
}

#[test]
fn a_mount_point_that_is_no_text_is_reported_as_well_as_it_can_be() {
    let table = b"27 1 8:1 / /mnt/\xff rw - ext4 /dev/sda1 rw\n";
    let mounts = parse_mountinfo(table);
    assert_eq!(mounts[0].mount_point, b"/mnt/\xff");
    let info = fs_info(&mounts, &[None]);
    assert_eq!(info[0].mountpoint, "/mnt/\u{fffd}");
}

#[test]
fn sizes_saturate_instead_of_overflowing() {
    let st = Statfs {
        blocks: u64::MAX,
        bfree: 0,
        bsize: 4096,
    };
    assert_eq!(st.total_bytes(), u64::MAX);
    assert_eq!(st.used_bytes(), u64::MAX);
    let st = Statfs {
        blocks: 5,
        bfree: 10,
        bsize: 4096,
    };
    assert_eq!(st.used_bytes(), 0, "bfree > blocks must not underflow");
}

#[test]
fn the_reply_lists_the_filesystems_in_mount_order() {
    let value = json(&handle(&info(SIMPLE)));
    let list = value.as_array().unwrap();
    assert_eq!(list.len(), 5);
    assert_eq!(list[3]["name"], "/dev/sda1");
    assert_eq!(list[3]["type"], "ext4");
    assert_eq!(list[3]["total-bytes"], 1000 * 4096);
}
