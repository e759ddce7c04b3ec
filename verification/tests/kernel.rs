//! The kernel's answers in words.

use qeminga::kernel::{dev_string, KernelError, EINVAL, EPERM};

#[test]
fn an_errno_is_told_by_its_name() {
    assert_eq!(KernelError::Errno(EINVAL).message(), "EINVAL: Invalid argument");
    assert_eq!(
        KernelError::Open(EPERM).message(),
        "cannot open mountpoint: EPERM: Operation not permitted"
    );
    assert_eq!(KernelError::Errno(5).message_with("an error"), "an error");
    assert_eq!(
        KernelError::Open(5).message_with("an error"),
        "cannot open mountpoint: an error"
    );
}

#[test]
fn another_superblock_is_told_by_its_device() {
    let elsewhere = KernelError::WrongFilesystem {
        expected: (8, 2),
        found: (253, 0),
    };
    assert_eq!(
        elsewhere.message(),
        "mountpoint is on 253:0, not on the planned 8:2"
    );
    assert_eq!(elsewhere.message_with("unused"), elsewhere.message());
    assert!(!elsewhere.is_ioctl_answer());
    assert_eq!(dev_string((0, 4_294_967_295)), "0:4294967295");
}
