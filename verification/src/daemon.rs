//! The command line, the startup sequence and the exit codes.
//!
//! The sequence:
//!
//! 1. load and validate the configuration, and refuse what the profile cannot
//!    enforce;
//! 2. open the recovery marker's directory and look for the marker to choose
//!    the initial state; start logging, in ring mode when recovering;
//! 3. reject a `state_path` whose directory is on a filesystem the freeze plan
//!    would freeze, judged by the device of the opened directory;
//! 4. open the channel (a port held by another process is terminal);
//! 5. drop capabilities, then start the audit writer thread;
//! 6. install the seccomp filter when compiled in and enabled;
//! 7. serve until a signal.
//!
//! No ioctl and no marker write happens before the last step.

pub mod exit;
pub mod startup;

use vstd::prelude::*;
use vstd::string::*;

use crate::channel::OpenError;
use crate::channel;
use crate::config::{Config, ConfigError, Hardening, DEFAULT_CONFIG_PATH};
use crate::config;
use crate::freeze_plan::clone_path;
use crate::freeze_plan;
use crate::kernel::dev_string;
use crate::kernel;
use crate::marker::MarkerError;
use crate::marker;
use crate::text::{lossy_text, same_bytes, same_text};
use crate::text;

verus! {

/// The service account.
pub const SERVICE_USER: &'static str = "qeminga";

/// `EX_USAGE`.
pub const EX_USAGE: u8 = 64;

/// `EX_UNAVAILABLE`: the channel cannot be served (already open).
pub const EX_UNAVAILABLE: u8 = 69;

/// `EX_SOFTWARE`: internal failure.
pub const EX_SOFTWARE: u8 = 70;

/// `EX_OSERR`: the runtime or seccomp could not be set up.
pub const EX_OSERR: u8 = 71;

/// `EX_NOPERM`: the capability drop failed.
pub const EX_NOPERM: u8 = 77;

/// `EX_CONFIG`: configuration or `state_path` problem.
pub const EX_CONFIG: u8 = 78;

/// How often a deferred stop looks at the freeze state again, in milliseconds.
pub const STOP_POLL_MILLIS: u64 = 250;

/// How long the runtime shutdown waits for blocking work once the loop has
/// stopped, in seconds.
pub const RUNTIME_SHUTDOWN_GRACE_SECS: u64 = 5;

/// Usage line.
pub const USAGE: &'static str = "usage: qeminga [--config PATH] [--version]";

/// Environment variable that asks for a faked kernel.
pub const FAKE_KERNEL_ENV: &'static str = "QEMINGA_TEST_FAKE_KERNEL";

// ---------------------------------------------------------------------------
// The command line
// ---------------------------------------------------------------------------

/// Parsed command line.
#[derive(Debug, Clone, PartialEq, Eq)]
pub struct Options {
    /// Configuration file, byte for byte (`--config`, by default
    /// [`DEFAULT_CONFIG_PATH`]).
    pub config_path: Vec<u8>,
    /// `--version` or `-V` was given.
    pub version: bool,
}

/// A parsed command line as a mathematical value.
#[verifier::ext_equal]
pub ghost struct OptionsView {
    pub config_path: Seq<u8>,
    pub version: bool,
}

impl View for Options {
    type V = OptionsView;

    open spec fn view(&self) -> OptionsView {
        OptionsView { config_path: self.config_path@, version: self.version }
    }
}

/// The bytes of a text.
pub open spec fn bytes_of(text: Seq<char>) -> Seq<u8> {
    vstd::utf8::encode_utf8(text)
}

/// An empty command line.
pub open spec fn default_options() -> OptionsView {
    OptionsView { config_path: bytes_of(DEFAULT_CONFIG_PATH@), version: false }
}

impl Default for Options {
    fn default() -> (options: Self)
        ensures
            options@ == default_options(),
    {
        Options {
            config_path: vstd::slice::slice_to_vec(DEFAULT_CONFIG_PATH.as_bytes()),
            version: false,
        }
    }
}

/// A command-line error.
#[derive(Debug, Clone, PartialEq, Eq)]
pub struct UsageError(pub String);

/// What the arguments from here on make of the options.
pub open spec fn parsed(args: Seq<Seq<u8>>, options: OptionsView) -> Result<
    OptionsView,
    Seq<char>,
>
    decreases args.len(),
{
    if args.len() == 0 {
        Ok(options)
    } else if args[0] == bytes_of("--version"@) || args[0] == bytes_of("-V"@) {
        parsed(args.skip(1), OptionsView { version: true, ..options })
    } else if args[0] == bytes_of("--config"@) {
        if args.len() == 1 {
            Err("--config needs a PATH"@)
        } else {
            parsed(args.skip(2), OptionsView { config_path: args[1], ..options })
        }
    } else if bytes_of("--config="@).is_prefix_of(args[0]) {
        let path = args[0].skip(bytes_of("--config="@).len() as int);
        if path.len() == 0 {
            Err("--config needs a PATH"@)
        } else {
            parsed(args.skip(1), OptionsView { config_path: path, ..options })
        }
    } else {
        Err("unrecognised argument: "@ + text::lossy(args[0]))
    }
}

/// What follows a prefix, if it is there.
fn after_prefix(bytes: &[u8], prefix: &[u8]) -> (rest: Option<Vec<u8>>)
    ensures
        match rest {
            Some(rest) => prefix@.is_prefix_of(bytes@) && rest@ == bytes@.skip(
                prefix@.len() as int,
            ),
            None => !prefix@.is_prefix_of(bytes@),
        },
{
    if bytes.len() < prefix.len() {
        return None;
    }
    let head = vstd::slice::slice_subrange(bytes, 0, prefix.len());
    if !same_bytes(head, prefix) {
        return None;
    }
    let tail = vstd::slice::slice_subrange(bytes, prefix.len(), bytes.len());
    proof {
        assert(tail@ =~= bytes@.skip(prefix@.len() as int));
    }
    Some(vstd::slice::slice_to_vec(tail))
}

/// Argument parsing: `--config PATH`, `--config=PATH`, `--version` or `-V`.
/// Anything else is a usage error.
pub fn parse_args(args: &[Vec<u8>]) -> (options: Result<Options, UsageError>)
    ensures
        match options {
            Ok(options) => parsed(freeze_plan::paths_view(args@), default_options()) == Ok::<
                OptionsView,
                Seq<char>,
            >(options@),
            Err(err) => parsed(freeze_plan::paths_view(args@), default_options()) == Err::<
                OptionsView,
                Seq<char>,
            >(err.0@),
        },
{
    let mut options = Options::default();
    let ghost all = freeze_plan::paths_view(args@);
    let mut i: usize = 0;
    proof {
        assert(all.skip(0) =~= all);
    }
    while i < args.len()
        invariant
            i <= args@.len(),
            all == freeze_plan::paths_view(args@),
            parsed(all, default_options()) == parsed(all.skip(i as int), options@),
        decreases args.len() - i,
    {
        let arg = &args[i];
        proof {
            assert(all.skip(i as int)[0] == arg@);
            assert(all.skip(i as int).skip(1) =~= all.skip(i + 1));
        }
        if same_bytes(arg, "--version".as_bytes()) || same_bytes(arg, "-V".as_bytes()) {
            options.version = true;
            i = i + 1;
        } else if same_bytes(arg, "--config".as_bytes()) {
            if args.len() - i == 1 {
                return Err(UsageError("--config needs a PATH".to_owned()));
            }
            proof {
                assert(all.skip(i as int)[1] == args@[i + 1]@);
                assert(all.skip(i as int).skip(2) =~= all.skip(i + 2));
            }
            options.config_path = clone_path(&args[i + 1]);
            i = i + 2;
        } else {
            match after_prefix(arg, "--config=".as_bytes()) {
                Some(path) => {
                    if path.len() == 0 {
                        return Err(UsageError("--config needs a PATH".to_owned()));
                    }
                    options.config_path = path;
                    i = i + 1;
                },
                None => {
                    return Err(
                        UsageError(
                            "unrecognised argument: ".to_owned().concat(lossy_text(arg).as_str()),
                        ),
                    );
                },
            }
        }
    }
    Ok(options)
}

// ---------------------------------------------------------------------------
// Errors
// ---------------------------------------------------------------------------

/// Why the capabilities could not be dropped.
#[derive(Debug, PartialEq, Eq)]
pub enum PrivilegeError {
    /// The service account does not exist.
    UnknownUser(String),
    /// A call failed; says which and why.
    Failed(String),
}

/// Why the capabilities could not be dropped, as a mathematical value.
#[verifier::ext_equal]
pub ghost enum PrivilegeErrorView {
    UnknownUser(Seq<char>),
    Failed(Seq<char>),
}

impl View for PrivilegeError {
    type V = PrivilegeErrorView;

    open spec fn view(&self) -> PrivilegeErrorView {
        match self {
            PrivilegeError::UnknownUser(user) => PrivilegeErrorView::UnknownUser(user@),
            PrivilegeError::Failed(why) => PrivilegeErrorView::Failed(why@),
        }
    }
}

impl PrivilegeErrorView {
    /// The error in words.
    pub open spec fn text(self) -> Seq<char> {
        match self {
            PrivilegeErrorView::UnknownUser(user) => "unknown user "@ + user,
            PrivilegeErrorView::Failed(why) => why,
        }
    }
}

impl PrivilegeError {
    /// The error in words.
    pub fn message(&self) -> (message: String)
        ensures
            message@ == self@.text(),
    {
        match self {
            PrivilegeError::UnknownUser(user) => "unknown user ".to_owned().concat(user.as_str()),
            PrivilegeError::Failed(why) => why.clone(),
        }
    }
}

/// Why startup or serving failed; maps to an exit code.
#[derive(Debug, PartialEq, Eq)]
pub enum RunError {
    /// Configuration file problem.
    Config(ConfigError),
    /// The recovery marker's directory could not be opened, or the path has no
    /// directory or file name.
    Marker(MarkerError),
    /// `state_path` is on a filesystem the freeze plan would freeze.
    StatePath {
        /// The configured path.
        path: String,
        /// A mount point of the planned filesystem the directory is on.
        mount: Vec<u8>,
        /// That filesystem's `(major, minor)`.
        dev: (u32, u32),
    },
    /// The mount table could not be read for the `state_path` check.
    MountTable(String),
    /// The channel could not be opened.
    Channel(OpenError),
    /// The capability drop failed.
    Privileges(PrivilegeError),
    /// The seccomp filter could not be built or installed.
    Seccomp(String),
    /// Hardening is enforced and the sandbox is unavailable, disabled or would
    /// not be installed: the daemon refuses to serve the host. A recovery
    /// marker, if any, is left in place for the next start.
    Hardening(String),
    /// The runtime could not be built or logging could not be initialised.
    Runtime(String),
}

/// Why startup or serving failed, as a mathematical value.
#[verifier::ext_equal]
pub ghost enum RunErrorView {
    Config(config::ConfigErrorView),
    Marker(marker::MarkerErrorView),
    StatePath { path: Seq<char>, mount: Seq<u8>, dev: (u32, u32) },
    MountTable(Seq<char>),
    Channel(channel::OpenErrorView),
    Privileges(PrivilegeErrorView),
    Seccomp(Seq<char>),
    Hardening(Seq<char>),
    Runtime(Seq<char>),
}

impl View for RunError {
    type V = RunErrorView;

    open spec fn view(&self) -> RunErrorView {
        match self {
            RunError::Config(err) => RunErrorView::Config(err@),
            RunError::Marker(err) => RunErrorView::Marker(err@),
            RunError::StatePath { path, mount, dev } => RunErrorView::StatePath {
                path: path@,
                mount: mount@,
                dev: *dev,
            },
            RunError::MountTable(why) => RunErrorView::MountTable(why@),
            RunError::Channel(err) => RunErrorView::Channel(err@),
            RunError::Privileges(err) => RunErrorView::Privileges(err@),
            RunError::Seccomp(why) => RunErrorView::Seccomp(why@),
            RunError::Hardening(why) => RunErrorView::Hardening(why@),
            RunError::Runtime(why) => RunErrorView::Runtime(why@),
        }
    }
}

impl RunErrorView {
    /// The error in words.
    pub open spec fn text(self) -> Seq<char> {
        match self {
            RunErrorView::Config(err) => err.text(),
            RunErrorView::Marker(err) => err.text(),
            RunErrorView::StatePath { path, mount, dev } => "state_path "@ + path + " is on "@
                + text::lossy(mount) + " ("@ + kernel::dev_text(dev)
                + "), which the freeze plan would freeze; put it on tmpfs (e.g. /run)"@,
            RunErrorView::MountTable(why) => "cannot read the mount table: "@ + why,
            RunErrorView::Channel(err) => err.text(),
            RunErrorView::Privileges(err) => "cannot drop privileges: "@ + err.text(),
            RunErrorView::Seccomp(why) => "seccomp: "@ + why,
            RunErrorView::Hardening(why) => "hardening: "@ + why
                + "; refusing to serve the host (set [agent] hardening = \"unenforced-development-only\" on a development host only)"@,
            RunErrorView::Runtime(why) => why,
        }
    }

    /// The exit code.
    pub open spec fn code(self) -> u8 {
        match self {
            RunErrorView::Channel(_) => EX_UNAVAILABLE,
            RunErrorView::Privileges(_) => EX_NOPERM,
            RunErrorView::Seccomp(_) => EX_OSERR,
            RunErrorView::Runtime(_) => EX_OSERR,
            _ => EX_CONFIG,
        }
    }
}

impl RunError {
    /// The error in words.
    pub fn message(&self) -> (message: String)
        ensures
            message@ == self@.text(),
    {
        match self {
            RunError::Config(err) => err.message(),
            RunError::Marker(err) => err.message(),
            RunError::StatePath { path, mount, dev } => "state_path ".to_owned().concat(
                path.as_str(),
            ).concat(" is on ").concat(lossy_text(mount).as_str()).concat(" (").concat(
                dev_string(*dev).as_str(),
            ).concat("), which the freeze plan would freeze; put it on tmpfs (e.g. /run)"),
            RunError::MountTable(why) => "cannot read the mount table: ".to_owned().concat(
                why.as_str(),
            ),
            RunError::Channel(err) => err.message(),
            RunError::Privileges(err) => "cannot drop privileges: ".to_owned().concat(
                err.message().as_str(),
            ),
            RunError::Seccomp(why) => "seccomp: ".to_owned().concat(why.as_str()),
            RunError::Hardening(why) => "hardening: ".to_owned().concat(why.as_str()).concat(
                "; refusing to serve the host (set [agent] hardening = \"unenforced-development-only\" on a development host only)",
            ),
            RunError::Runtime(why) => why.clone(),
        }
    }

    /// The sysexits-style code for this error.
    pub fn exit_code(&self) -> (code: u8)
        ensures
            code == self@.code(),
    {
        match self {
            RunError::Channel(_) => EX_UNAVAILABLE,
            RunError::Privileges(_) => EX_NOPERM,
            RunError::Seccomp(_) => EX_OSERR,
            RunError::Runtime(_) => EX_OSERR,
            _ => EX_CONFIG,
        }
    }
}

// ---------------------------------------------------------------------------
// Hardening
// ---------------------------------------------------------------------------

/// What this build can enforce.
#[derive(Debug, Clone, Copy, PartialEq, Eq)]
pub struct BuildProfile {
    /// The `seccomp` Cargo feature is compiled in.
    pub seccomp_compiled: bool,
    /// The filter's mode: `"enforce"`, `"log"` or `"unavailable"`.
    pub seccomp_mode: &'static str,
    /// A faked kernel was asked for, whether or not this build could honour
    /// it.
    pub fake_kernel_requested: bool,
}

/// What enforced hardening refuses of a configuration and a build.
pub open spec fn hardening_fault(config: Config, build: BuildProfile) -> Option<Seq<char>> {
    if config.agent.hardening != Hardening::Enforced {
        None
    } else if !config.features.seccomp {
        Some("the seccomp filter is disabled ([features] seccomp = false)"@)
    } else if !build.seccomp_compiled {
        Some("this binary was built without the `seccomp` Cargo feature"@)
    } else if build.seccomp_mode@ != "enforce"@ {
        Some(
            "this binary's seccomp filter would only "@ + build.seccomp_mode@
                + " (a `seccomp-log` debug build)"@,
        )
    } else if build.fake_kernel_requested {
        Some(
            FAKE_KERNEL_ENV@
                + " is set: a test-kernel substitution is never honoured under enforced hardening"@,
        )
    } else {
        None
    }
}

/// Refuses, under enforced hardening, what this build or this configuration
/// cannot enforce. Nothing here touches the marker.
pub fn check_hardening(config: &Config, build: &BuildProfile) -> (result: Result<(), RunError>)
    ensures
        match result {
            Ok(()) => hardening_fault(*config, *build) is None,
            Err(err) => hardening_fault(*config, *build) matches Some(why) && err@
                == RunErrorView::Hardening(why),
        },
{
    if !config.agent.hardening.is_enforced() {
        return Ok(());
    }
    if !config.features.seccomp {
        return Err(
            RunError::Hardening(
                "the seccomp filter is disabled ([features] seccomp = false)".to_owned(),
            ),
        );
    }
    if !build.seccomp_compiled {
        return Err(
            RunError::Hardening(
                "this binary was built without the `seccomp` Cargo feature".to_owned(),
            ),
        );
    }
    if !same_text(build.seccomp_mode, "enforce") {
        return Err(
            RunError::Hardening(
                "this binary's seccomp filter would only ".to_owned().concat(
                    build.seccomp_mode,
                ).concat(" (a `seccomp-log` debug build)"),
            ),
        );
    }
    if build.fake_kernel_requested {
        return Err(
            RunError::Hardening(
                FAKE_KERNEL_ENV.to_owned().concat(
                    " is set: a test-kernel substitution is never honoured under enforced hardening",
                ),
            ),
        );
    }
    Ok(())
}

/// The exit code says what kind of thing went wrong: 69 that the channel cannot
/// be served, 77 that the privileges could not be dropped, 71 that the filter
/// or the runtime could not be set up, and 78 everything about the
/// configuration, the marker, the mount table and the hardening.
pub proof fn law_the_exit_codes(error: RunError, code: u8)
    requires
        call_ensures(RunError::exit_code, (&error,), code),
    ensures
        error is Channel ==> code == 69,
        error is Privileges ==> code == 77,
        error is Seccomp ==> code == 71,
        error is Runtime ==> code == 71,
        error is Config ==> code == 78,
        error is Marker ==> code == 78,
        error is StatePath ==> code == 78,
        error is MountTable ==> code == 78,
        error is Hardening ==> code == 78,
        error@.code() == code,
{
}

/// Enforced hardening serves the host only with a filter that is configured,
/// compiled in and enforcing, and with the real kernel. Without it everything
/// is accepted.
pub proof fn law_what_hardening_asks_for(
    config: Config,
    build: BuildProfile,
    result: Result<(), RunError>,
)
    requires
        call_ensures(check_hardening, (&config, &build), result),
    ensures
        result is Ok <==> config.agent.hardening != Hardening::Enforced || (config.features.seccomp
            && build.seccomp_compiled && build.seccomp_mode@ == "enforce"@
            && !build.fake_kernel_requested),
        result is Err ==> result->Err_0 is Hardening,
{
}

/// What hardening refuses is told, the first of these that holds.
pub proof fn law_the_words_of_a_refusal(config: Config, build: BuildProfile)
    requires
        config.agent.hardening == Hardening::Enforced,
    ensures
        !config.features.seccomp ==> hardening_fault(config, build) == Some(
            "the seccomp filter is disabled ([features] seccomp = false)"@,
        ),
        config.features.seccomp && !build.seccomp_compiled ==> hardening_fault(config, build)
            == Some("this binary was built without the `seccomp` Cargo feature"@),
        config.features.seccomp && build.seccomp_compiled && build.seccomp_mode@ != "enforce"@
            ==> hardening_fault(config, build) == Some(
            "this binary's seccomp filter would only "@ + build.seccomp_mode@
                + " (a `seccomp-log` debug build)"@,
        ),
        config.features.seccomp && build.seccomp_compiled && build.seccomp_mode@ == "enforce"@
            && build.fake_kernel_requested ==> hardening_fault(config, build) == Some(
            "QEMINGA_TEST_FAKE_KERNEL"@
                + " is set: a test-kernel substitution is never honoured under enforced hardening"@,
        ),
{
}

/// The words of an error of the whole program.
pub proof fn law_the_words_of_a_failed_run(
    why: Seq<char>,
    path: Seq<char>,
    mount: Seq<u8>,
    dev: (u32, u32),
)
    ensures
        (RunErrorView::StatePath { path, mount, dev }).text() == "state_path "@ + path + " is on "@
            + text::lossy(mount) + " ("@ + kernel::dev_text(dev)
            + "), which the freeze plan would freeze; put it on tmpfs (e.g. /run)"@,
        RunErrorView::MountTable(why).text() == "cannot read the mount table: "@ + why,
        RunErrorView::Seccomp(why).text() == "seccomp: "@ + why,
        RunErrorView::Hardening(why).text() == "hardening: "@ + why
            + "; refusing to serve the host (set [agent] hardening = \"unenforced-development-only\" on a development host only)"@,
        RunErrorView::Runtime(why).text() == why,
        RunErrorView::Privileges(PrivilegeErrorView::Failed(why)).text()
            == "cannot drop privileges: "@ + why,
        RunErrorView::Privileges(PrivilegeErrorView::UnknownUser(why)).text()
            == "cannot drop privileges: "@ + ("unknown user "@ + why),
{
}

/// An error that has words of its own is told in them.
pub proof fn law_an_error_within_is_told_as_it_is(
    config: config::ConfigErrorView,
    kept: marker::MarkerErrorView,
    open: channel::OpenErrorView,
)
    ensures
        RunErrorView::Config(config).text() == config.text(),
        RunErrorView::Marker(kept).text() == kept.text(),
        RunErrorView::Channel(open).text() == open.text(),
{
}

/// The bytes of the words of the command line, each its own.
proof fn lemma_words()
    ensures
        bytes_of("--version"@).len() == 9,
        bytes_of("-V"@).len() == 2,
        bytes_of("--config"@).len() == 8,
        bytes_of("--config="@).len() == 9,
        bytes_of("--config="@)[2] == 0x63u8,
        bytes_of("--version"@)[2] == 0x76u8,
{
    reveal_strlit("--version");
    reveal_strlit("-V");
    reveal_strlit("--config");
    reveal_strlit("--config=");
    vstd::utf8::is_ascii_chars_encode_utf8("--version"@);
    vstd::utf8::is_ascii_chars_encode_utf8("-V"@);
    vstd::utf8::is_ascii_chars_encode_utf8("--config"@);
    vstd::utf8::is_ascii_chars_encode_utf8("--config="@);
    assert("--config="@[2] == 'c');
    assert("--version"@[2] == 'v');
}

/// The command line is read word by word, the last path that is given holding.
/// `--version` and `-V` ask for the version. `--config` takes the next word,
/// whatever it is, and `--config=` what follows in the same word, byte for
/// byte, which must not be empty.
pub proof fn law_the_command_line_is_read_word_by_word(
    rest: Seq<Seq<u8>>,
    path: Seq<u8>,
    options: OptionsView,
)
    ensures
        parsed(Seq::empty(), options) == Ok::<OptionsView, Seq<char>>(options),
        parsed(seq![bytes_of("--version"@)] + rest, options) == parsed(
            rest,
            OptionsView { version: true, ..options },
        ),
        parsed(seq![bytes_of("-V"@)] + rest, options) == parsed(
            rest,
            OptionsView { version: true, ..options },
        ),
        parsed(seq![bytes_of("--config"@), path] + rest, options) == parsed(
            rest,
            OptionsView { config_path: path, ..options },
        ),
        parsed(seq![bytes_of("--config"@)], options) == Err::<OptionsView, Seq<char>>(
            "--config needs a PATH"@,
        ),
        path.len() > 0 ==> parsed(seq![bytes_of("--config="@) + path] + rest, options) == parsed(
            rest,
            OptionsView { config_path: path, ..options },
        ),
        parsed(seq![bytes_of("--config="@)] + rest, options) == Err::<OptionsView, Seq<char>>(
            "--config needs a PATH"@,
        ),
{
    lemma_words();
    let version = bytes_of("--version"@);
    let short = bytes_of("-V"@);
    let config = bytes_of("--config"@);
    let prefix = bytes_of("--config="@);
    assert((seq![version] + rest).skip(1) =~= rest);
    assert((seq![short] + rest).skip(1) =~= rest);
    assert((seq![config, path] + rest).skip(2) =~= rest);
    assert((seq![config, path] + rest)[0] == config);
    assert((seq![config, path] + rest)[1] == path);
    assert(seq![config][0] == config);
    let word = prefix + path;
    let args = seq![word] + rest;
    assert(args[0] == word);
    assert(args.skip(1) =~= rest);
    assert(word[2] == prefix[2]);
    assert(prefix.is_prefix_of(word)) by {
        assert(word.subrange(0, prefix.len() as int) =~= prefix);
    }
    assert(word.skip(prefix.len() as int) =~= path);
    let bare = seq![prefix] + rest;
    assert(bare[0] == prefix);
    assert(prefix.is_prefix_of(prefix)) by {
        assert(prefix.subrange(0, prefix.len() as int) =~= prefix);
    }
    assert(prefix.skip(prefix.len() as int).len() == 0);
}

/// Any other word is refused, and told.
pub proof fn law_other_words_are_refused(word: Seq<u8>, rest: Seq<Seq<u8>>, options: OptionsView)
    requires
        word != bytes_of("--version"@),
        word != bytes_of("-V"@),
        word != bytes_of("--config"@),
        !bytes_of("--config="@).is_prefix_of(word),
    ensures
        parsed(seq![word] + rest, options) == Err::<OptionsView, Seq<char>>(
            "unrecognised argument: "@ + text::lossy(word),
        ),
{
    assert((seq![word] + rest)[0] == word);
}

/// Without arguments the configuration is the one under `/etc`, and the version
/// is not asked for.
pub proof fn law_an_empty_command_line()
    ensures
        default_options().config_path == bytes_of("/etc/qeminga/config.toml"@),
        !default_options().version,
{
}

} // verus!
