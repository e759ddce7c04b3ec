//! What the kernel answers about a mounted filesystem, and the handle through
//! which it is asked.

use vstd::prelude::*;
use vstd::string::*;

use crate::text;
use crate::text::decimal_text;

verus! {

/// Operation not permitted.
pub const EPERM: i32 = 1;

/// Permission denied.
pub const EACCES: i32 = 13;

/// Device or resource busy.
pub const EBUSY: i32 = 16;

/// Invalid argument.
pub const EINVAL: i32 = 22;

/// Inappropriate ioctl for device.
pub const ENOTTY: i32 = 25;

/// Function not implemented.
pub const ENOSYS: i32 = 38;

/// Operation not supported.
pub const EOPNOTSUPP: i32 = 95;

/// An error of the kernel about a mount.
#[derive(Debug, PartialEq, Eq)]
pub enum KernelError {
    /// The ioctl was issued and answered with this error.
    Errno(i32),
    /// The mount point could not be opened: no ioctl was issued.
    Open(i32),
    /// The mount point leads to another superblock: no ioctl was issued.
    WrongFilesystem {
        /// The planned `(major, minor)`.
        expected: (u32, u32),
        /// The `(major, minor)` that the mount point is on.
        found: (u32, u32),
    },
}

/// The name and description of an errno.
pub uninterp spec fn errno_name(errno: i32) -> Seq<char>;

/// `nix::errno::Errno::from_raw` and its `Display`: the symbolic name of the
/// errno and its description, as in `EIO: I/O error`.
#[verifier::external_body]
pub(crate) fn errno_text(errno: i32) -> (text: String)
    ensures
        text@ == errno_name(errno),
{
    nix::errno::Errno::from_raw(errno).to_string()
}

/// `major:minor`.
pub open spec fn dev_text(dev: (u32, u32)) -> Seq<char> {
    text::decimal(dev.0 as nat) + ":"@ + text::decimal(dev.1 as nat)
}

/// `major:minor`.
pub fn dev_string(dev: (u32, u32)) -> (text: String)
    ensures
        text@ == dev_text(dev),
{
    let mut text = decimal_text(dev.0 as u64);
    text.append(":");
    text.append(decimal_text(dev.1 as u64).as_str());
    text
}

impl KernelError {
    /// The errno that the error carries, if any.
    pub open spec fn number(&self) -> Option<i32> {
        match self {
            KernelError::Errno(errno) => Some(*errno),
            KernelError::Open(errno) => Some(*errno),
            KernelError::WrongFilesystem { .. } => None,
        }
    }

    /// The error in words, its errno told as `name`.
    pub open spec fn text_with(&self, name: Seq<char>) -> Seq<char> {
        match self {
            KernelError::Errno(_) => name,
            KernelError::Open(_) => "cannot open mountpoint: "@ + name,
            KernelError::WrongFilesystem { expected, found } => "mountpoint is on "@ + dev_text(
                *found,
            ) + ", not on the planned "@ + dev_text(*expected),
        }
    }

    /// The error in words.
    pub open spec fn text(&self) -> Seq<char> {
        match self.number() {
            Some(errno) => self.text_with(errno_name(errno)),
            None => self.text_with(Seq::empty()),
        }
    }

    /// The error in words, its errno told as `name`.
    pub fn message_with(&self, name: &str) -> (text: String)
        ensures
            text@ == self.text_with(name@),
    {
        match self {
            KernelError::Errno(_) => name.to_owned(),
            KernelError::Open(_) => "cannot open mountpoint: ".to_owned().concat(name),
            KernelError::WrongFilesystem { expected, found } => {
                let mut text = "mountpoint is on ".to_owned();
                text.append(dev_string(*found).as_str());
                text.append(", not on the planned ");
                text.append(dev_string(*expected).as_str());
                text
            },
        }
    }

    /// The error in words.
    pub fn message(&self) -> (text: String)
        ensures
            text@ == self.text(),
    {
        match self {
            KernelError::Errno(errno) | KernelError::Open(errno) => self.message_with(
                errno_text(*errno).as_str(),
            ),
            KernelError::WrongFilesystem { .. } => self.message_with(""),
        }
    }

    /// The errno with which an ioctl was answered; `None` if none was issued.
    pub open spec fn answer(&self) -> Option<i32> {
        match self {
            KernelError::Errno(errno) => Some(*errno),
            _ => None,
        }
    }

    /// Whether the error is the answer to an ioctl.
    pub fn is_ioctl_answer(&self) -> (answered: bool)
        ensures
            answered == (self.answer() is Some),
    {
        match self {
            KernelError::Errno(_) => true,
            _ => false,
        }
    }

    /// Whether the filesystem is already frozen.
    pub fn is_busy(&self) -> (busy: bool)
        ensures
            busy == (self.answer() == Some(EBUSY)),
    {
        match self {
            KernelError::Errno(errno) => *errno == EBUSY,
            _ => false,
        }
    }

    /// Whether the filesystem is not frozen.
    pub fn is_invalid(&self) -> (invalid: bool)
        ensures
            invalid == (self.answer() == Some(EINVAL)),
    {
        match self {
            KernelError::Errno(errno) => *errno == EINVAL,
            _ => false,
        }
    }

    /// Whether an errno says that the filesystem lacks the operation.
    pub open spec fn unsupported(errno: i32) -> bool {
        errno == EOPNOTSUPP || errno == ENOTTY || errno == ENOSYS
    }

    /// Whether an errno says that the caller may not.
    pub open spec fn denied(errno: i32) -> bool {
        errno == EPERM || errno == EACCES
    }

    /// Whether the filesystem lacks the operation.
    pub fn is_not_supported(&self) -> (unsupported: bool)
        ensures
            unsupported == (self.answer() matches Some(errno) && KernelError::unsupported(errno)),
    {
        match self {
            KernelError::Errno(errno) => *errno == EOPNOTSUPP || *errno == ENOTTY || *errno
                == ENOSYS,
            _ => false,
        }
    }

    /// Whether the caller may not.
    pub fn is_permission(&self) -> (denied: bool)
        ensures
            denied == (self.answer() matches Some(errno) && KernelError::denied(errno)),
    {
        match self {
            KernelError::Errno(errno) => *errno == EPERM || *errno == EACCES,
            _ => false,
        }
    }
}

/// What the kernel is told to do with the machine.
#[derive(Debug, Clone, Copy, PartialEq, Eq, Structural)]
pub enum RebootCommand {
    Halt,
    PowerOff,
    Restart,
}

/// A mounted filesystem that was opened on its planned device. The handle
/// names the filesystem it was opened on, whatever its pathnames lead to later.
#[derive(Debug, PartialEq, Eq)]
pub struct Mount {
    /// The number under which the open descriptor is kept.
    pub handle: u64,
    /// The pathname it was opened by.
    pub mountpoint: Vec<u8>,
    /// `(major, minor)` of the superblock.
    pub dev: (u32, u32),
}

/// A handle as a mathematical value.
#[verifier::ext_equal]
pub ghost struct MountView {
    pub handle: u64,
    pub mountpoint: Seq<u8>,
    pub dev: (u32, u32),
}

impl View for Mount {
    type V = MountView;

    open spec fn view(&self) -> MountView {
        MountView { handle: self.handle, mountpoint: self.mountpoint@, dev: self.dev }
    }
}

/// Handles, each taken by its view.
pub open spec fn mounts_view(mounts: Seq<Mount>) -> Seq<MountView> {
    Seq::new(mounts.len(), |i: int| mounts[i]@)
}

/// What the kernel's answers mean: only an error of the ioctl itself answers
/// it. Such an answer says that the filesystem lacks the operation (95, 25 or
/// 38), that it is frozen already (16), that it is not frozen (22), or that the
/// caller may not (1 or 13).
pub proof fn law_what_an_answer_means(
    errno: i32,
    lacks: bool,
    busy: bool,
    invalid: bool,
    denied: bool,
    answers: bool,
    err: KernelError,
)
    requires
        call_ensures(KernelError::is_not_supported, (&err,), lacks),
        call_ensures(KernelError::is_busy, (&err,), busy),
        call_ensures(KernelError::is_invalid, (&err,), invalid),
        call_ensures(KernelError::is_permission, (&err,), denied),
        call_ensures(KernelError::is_ioctl_answer, (&err,), answers),
    ensures
        err == KernelError::Errno(errno) ==> {
            &&& err.answer() == Some(errno)
            &&& answers
            &&& lacks <==> errno == 95 || errno == 25 || errno == 38
            &&& KernelError::unsupported(errno) <==> errno == 95 || errno == 25 || errno == 38
            &&& busy <==> errno == 16
            &&& invalid <==> errno == 22
            &&& denied <==> errno == 1 || errno == 13
            &&& KernelError::denied(errno) <==> errno == 1 || errno == 13
        },
        !(err is Errno) ==> err.answer() is None && !answers && !lacks && !busy && !invalid
            && !denied,
{
}

/// The words for an error name what it is about: the errno, or the device that
/// was found and the one that was planned.
pub proof fn law_an_error_says_what_happened(
    errno: i32,
    expected: (u32, u32),
    found: (u32, u32),
)
    ensures
        KernelError::Errno(errno).text() == errno_name(errno),
        KernelError::Open(errno).text() == "cannot open mountpoint: "@ + errno_name(errno),
        (KernelError::WrongFilesystem { expected, found }).text() == "mountpoint is on "@
            + text::decimal(found.0 as nat) + ":"@ + text::decimal(found.1 as nat)
            + ", not on the planned "@ + text::decimal(expected.0 as nat) + ":"@ + text::decimal(
            expected.1 as nat,
        ),
{
    let a = "mountpoint is on "@;
    let b = ", not on the planned "@;
    let f = text::decimal(found.0 as nat) + ":"@ + text::decimal(found.1 as nat);
    let e = text::decimal(expected.0 as nat) + ":"@ + text::decimal(expected.1 as nat);
    assert(a + f + b + e =~= a + text::decimal(found.0 as nat) + ":"@ + text::decimal(
        found.1 as nat,
    ) + b + text::decimal(expected.0 as nat) + ":"@ + text::decimal(expected.1 as nat));
}

} // verus!
