use qeminga::mountinfo::{parse_mountinfo, unescape, MountEntry};

#[test]
fn a_line_gives_its_mount() {
    let line = b"36 35 98:0 /mnt1 /mnt2 rw,noatime master:1 - ext3 /dev/root rw,errors=continue\n";
    assert_eq!(
        parse_mountinfo(line),
        vec![MountEntry {
            mount_id: 36,
            parent_id: 35,
            major: 98,
            minor: 0,
            mount_point: b"/mnt2".to_vec(),
            fs_type: "ext3".to_owned(),
            source: "/dev/root".to_owned(),
        }]
    );
    assert_eq!(parse_mountinfo(line)[0].dev(), (98, 0));
}

#[test]
fn optional_fields_may_be_many_or_none() {
    let table = b"1 0 8:1 / / rw - ext4 /dev/sda1 rw\n\
        2 1 8:2 / /a rw shared:1 master:2 propagate_from:3 - xfs /dev/sda2 rw\n";
    let mounts = parse_mountinfo(table);
    assert_eq!(mounts.len(), 2);
    assert_eq!(mounts[1].fs_type, "xfs");
    assert_eq!(mounts[1].source, "/dev/sda2");
}

#[test]
fn lines_that_do_not_read_so_are_skipped() {
    let table = b"garbage\n\
        \n\
        x 0 8:1 / / rw - ext4 /dev/sda1 rw\n\
        1 0 8 / / rw - ext4 /dev/sda1 rw\n\
        1 0 8:4294967296 / / rw - ext4 /dev/sda1 rw\n\
        1 0 8:1 / / rw ext4 /dev/sda1 rw\n\
        9 0 8:1 / /kept rw - ext4 /dev/sda1 rw\n";
    let mounts = parse_mountinfo(table);
    assert_eq!(mounts.len(), 1);
    assert_eq!(mounts[0].mount_point, b"/kept");
}

#[test]
fn pathnames_are_unescaped() {
    assert_eq!(unescape(b"/mnt/with\\040space"), b"/mnt/with space");
    assert_eq!(unescape(b"a\\011b\\012c\\134d"), b"a\tb\nc\\d");
    assert_eq!(unescape(b"plain"), b"plain");
    // What is no escape stands for itself.
    assert_eq!(unescape(b"a\\04"), b"a\\04");
    assert_eq!(unescape(b"a\\089"), b"a\\089");
    assert_eq!(unescape(b"\\"), b"\\");
}

#[test]
fn a_table_has_no_more_mounts_than_lines() {
    let table = b"27 1 8:1 / / rw - ext4 /dev/sda1 rw\nnonsense\n\n";
    assert_eq!(parse_mountinfo(table).len(), 1);
    assert_eq!(parse_mountinfo(b"").len(), 0);
    assert_eq!(parse_mountinfo(b"\n").len(), 0);
    // The last line need not end in a newline.
    assert_eq!(parse_mountinfo(&table[..table.len() - 11]).len(), 1);
}
