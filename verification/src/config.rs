//! Runtime configuration: schema, defaults, and validation.
//!
//! Every key has a default, so an empty file is a valid configuration. Runtime
//! feature switches whose compile-time half is absent are reported by
//! [`Config::warnings`], not as errors.

use vstd::prelude::*;
use vstd::string::*;

use crate::text;
use crate::text::decimal_text;

verus! {

/// Default location of the configuration file.
pub const DEFAULT_CONFIG_PATH: &'static str = "/etc/qeminga/config.toml";

/// The only supported configuration schema version.
pub const CONFIG_VERSION: u32 = 1;

/// Upper bound on the freeze timeouts (one day).
pub const MAX_FSFREEZE_TIMEOUT_SECS: u64 = 86_400;

/// The freeze operation deadline applied when
/// `fsfreeze_operation_timeout_secs` is omitted, capped by the hard cap.
pub const DEFAULT_FSFREEZE_OPERATION_TIMEOUT_SECS: u64 = 60;

/// Top-level configuration (`[agent]`, `[rate_limits]`, `[features]`).
#[derive(Debug, Clone, PartialEq, Eq)]
pub struct Config {
    /// `[agent]` section.
    pub agent: AgentConfig,
    /// `[rate_limits]` section.
    pub rate_limits: RateLimits,
    /// `[features]` section: runtime half of the two-level switches.
    pub features: Features,
}

/// What is compiled into the running binary: the compile-time half of the
/// two-level switches.
#[derive(Debug, Clone, Copy, PartialEq, Eq, Structural)]
pub struct Build {
    /// The `seccomp` Cargo feature.
    pub seccomp: bool,
    /// The `suspend_ram` Cargo feature.
    pub suspend_ram: bool,
}

/// `[agent]` section.
#[derive(Debug, Clone, PartialEq, Eq)]
pub struct AgentConfig {
    /// Configuration schema version; must be [`CONFIG_VERSION`].
    pub config_version: u32,
    /// The virtio-serial channel device.
    pub channel_path: String,
    /// Minimum level of records written to the audit sink.
    pub log_level: LogLevel,
    /// Recovery marker path; must be absolute and on an unfreezable
    /// filesystem (the latter is checked at startup, not here).
    pub state_path: String,
    /// Whether the sandbox the agent advertises must be in force.
    pub hardening: Hardening,
    /// Auto-thaw after this many seconds without a status heartbeat.
    pub fsfreeze_idle_timeout_secs: u64,
    /// Hard cap on the freeze duration in seconds.
    pub fsfreeze_max_timeout_secs: u64,
    /// Deadline of a freeze operation in seconds, measured from the moment
    /// the request enters `Freezing`. An explicit value must be positive, at
    /// most a day and at most `fsfreeze_max_timeout_secs`; for an omitted one
    /// see [`AgentConfig::fsfreeze_operation_timeout_secs`].
    pub fsfreeze_operation_timeout_secs: Option<u64>,
}

/// What happens when the sandbox cannot be put in force.
#[derive(Debug, Clone, Copy, PartialEq, Eq, Structural)]
pub enum Hardening {
    /// The agent refuses to serve the host.
    Enforced,
    /// The agent serves without it (development hosts only).
    UnenforcedDevelopmentOnly,
}

impl Hardening {
    /// Whether the agent refuses to serve without its sandbox.
    pub fn is_enforced(self) -> (enforced: bool)
        ensures
            enforced == (self == Hardening::Enforced),
    {
        match self {
            Hardening::Enforced => true,
            Hardening::UnenforcedDevelopmentOnly => false,
        }
    }
}

impl AgentConfig {
    /// The effective freeze operation deadline in seconds: the explicit value,
    /// or the default under the hard cap.
    pub open spec fn operation_timeout(&self) -> u64 {
        match self.fsfreeze_operation_timeout_secs {
            Some(secs) => secs,
            None => if DEFAULT_FSFREEZE_OPERATION_TIMEOUT_SECS <= self.fsfreeze_max_timeout_secs {
                DEFAULT_FSFREEZE_OPERATION_TIMEOUT_SECS
            } else {
                self.fsfreeze_max_timeout_secs
            },
        }
    }

    /// The effective freeze operation deadline in seconds: the explicit value,
    /// or `min(60, fsfreeze_max_timeout_secs)` when omitted.
    pub fn fsfreeze_operation_timeout_secs(&self) -> (secs: u64)
        ensures
            secs == self.operation_timeout(),
    {
        match self.fsfreeze_operation_timeout_secs {
            Some(secs) => secs,
            None => if DEFAULT_FSFREEZE_OPERATION_TIMEOUT_SECS <= self.fsfreeze_max_timeout_secs {
                DEFAULT_FSFREEZE_OPERATION_TIMEOUT_SECS
            } else {
                self.fsfreeze_max_timeout_secs
            },
        }
    }
}

impl Default for AgentConfig {
    fn default() -> (agent: Self)
        ensures
            agent.config_version == CONFIG_VERSION,
            agent.channel_path@ == "/dev/virtio-ports/org.qemu.guest_agent.0"@,
            agent.log_level == LogLevel::Info,
            agent.state_path@ == "/run/qeminga/frozen"@,
            agent.hardening == Hardening::Enforced,
            agent.fsfreeze_idle_timeout_secs == 30,
            agent.fsfreeze_max_timeout_secs == 300,
            agent.fsfreeze_operation_timeout_secs is None,
    {
        AgentConfig {
            config_version: CONFIG_VERSION,
            channel_path: "/dev/virtio-ports/org.qemu.guest_agent.0".to_owned(),
            log_level: LogLevel::Info,
            state_path: "/run/qeminga/frozen".to_owned(),
            hardening: Hardening::Enforced,
            fsfreeze_idle_timeout_secs: 30,
            fsfreeze_max_timeout_secs: 300,
            fsfreeze_operation_timeout_secs: None,
        }
    }
}

/// `[rate_limits]` section: per-minute quotas per command class.
#[derive(Debug, Clone, Copy, PartialEq, Eq, Structural)]
pub struct RateLimits {
    /// `guest-ping`, `guest-sync*`, `guest-info`.
    pub ping_sync_per_min: u32,
    /// `guest-get-*`, `guest-network-get-interfaces`.
    pub get_commands_per_min: u32,
    /// `guest-fsfreeze-freeze`, `guest-fsfreeze-freeze-list`.
    pub fsfreeze_freeze_per_min: u32,
    /// `guest-fstrim`.
    pub fstrim_per_min: u32,
    /// `guest-shutdown`, `guest-suspend-ram`.
    pub shutdown_per_min: u32,
}

impl Default for RateLimits {
    fn default() -> (limits: Self)
        ensures
            limits == (RateLimits {
                ping_sync_per_min: 120,
                get_commands_per_min: 30,
                fsfreeze_freeze_per_min: 10,
                fstrim_per_min: 5,
                shutdown_per_min: 2,
            }),
    {
        RateLimits {
            ping_sync_per_min: 120,
            get_commands_per_min: 30,
            fsfreeze_freeze_per_min: 10,
            fstrim_per_min: 5,
            shutdown_per_min: 2,
        }
    }
}

/// `[features]` section.
#[derive(Debug, Clone, Copy, PartialEq, Eq, Structural)]
pub struct Features {
    /// Opt-in `guest-suspend-ram`; needs the `suspend_ram` Cargo feature.
    pub suspend_ram: bool,
    /// `guest-fstrim`; always compiled in.
    pub fstrim: bool,
    /// Install the seccomp filter; needs the `seccomp` Cargo feature.
    pub seccomp: bool,
}

impl Default for Features {
    fn default() -> (features: Self)
        ensures
            features == (Features { suspend_ram: false, fstrim: true, seccomp: true }),
    {
        Features { suspend_ram: false, fstrim: true, seccomp: true }
    }
}

impl Default for Config {
    fn default() -> (config: Self)
        ensures
            config.first_fault() is None,
            config.agent.state_path@ == "/run/qeminga/frozen"@,
            config.agent.channel_path@ == "/dev/virtio-ports/org.qemu.guest_agent.0"@,
            config.agent.config_version == CONFIG_VERSION,
            config.agent.log_level == LogLevel::Info,
            config.agent.hardening == Hardening::Enforced,
            config.agent.fsfreeze_idle_timeout_secs == 30,
            config.agent.fsfreeze_max_timeout_secs == 300,
            config.agent.fsfreeze_operation_timeout_secs is None,
            config.rate_limits == (RateLimits {
                ping_sync_per_min: 120,
                get_commands_per_min: 30,
                fsfreeze_freeze_per_min: 10,
                fstrim_per_min: 5,
                shutdown_per_min: 2,
            }),
            config.features == (Features { suspend_ram: false, fstrim: true, seccomp: true }),
    {
        proof {
            reveal_strlit("/dev/virtio-ports/org.qemu.guest_agent.0");
            reveal_strlit("/run/qeminga/frozen");
        }
        Config {
            agent: AgentConfig::default(),
            rate_limits: RateLimits::default(),
            features: Features::default(),
        }
    }
}

/// Log level names accepted in `log_level`.
#[derive(Debug, Clone, Copy, PartialEq, Eq, Structural)]
pub enum LogLevel {
    /// Everything.
    Trace,
    /// Debugging detail.
    Debug,
    /// Normal operation (default).
    Info,
    /// Denied commands and recoverable problems.
    Warn,
    /// Failures only.
    Error,
}

impl LogLevel {
    /// The lowercase name.
    pub open spec fn text(self) -> Seq<char> {
        match self {
            LogLevel::Trace => "trace"@,
            LogLevel::Debug => "debug"@,
            LogLevel::Info => "info"@,
            LogLevel::Warn => "warn"@,
            LogLevel::Error => "error"@,
        }
    }

    /// The lowercase name.
    pub fn as_str(self) -> (name: &'static str)
        ensures
            name@ == self.text(),
    {
        match self {
            LogLevel::Trace => "trace",
            LogLevel::Debug => "debug",
            LogLevel::Info => "info",
            LogLevel::Warn => "warn",
            LogLevel::Error => "error",
        }
    }
}

/// Configuration errors. Every variant names the offending file or key.
#[derive(Debug, PartialEq, Eq)]
pub enum ConfigError {
    /// The file could not be read.
    Io {
        /// The file that failed.
        path: String,
        /// The underlying error.
        source: String,
    },
    /// The file is not valid TOML for the schema (unknown key, wrong type,
    /// unknown log level).
    Parse {
        /// The file, when loaded from one.
        path: Option<String>,
        /// The parser's description.
        message: String,
    },
    /// The file parsed but a value is out of range.
    Invalid {
        /// The file, when loaded from one.
        path: Option<String>,
        /// The dotted key that is wrong.
        key: &'static str,
        /// Why.
        reason: String,
    },
}

/// A configuration error as a mathematical value.
pub ghost enum ConfigErrorView {
    Io { path: Seq<char>, source: Seq<char> },
    Parse { path: Option<Seq<char>>, message: Seq<char> },
    Invalid { path: Option<Seq<char>>, key: Seq<char>, reason: Seq<char> },
}

/// An optional text, by its view.
pub open spec fn option_text(string: Option<String>) -> Option<Seq<char>> {
    match string {
        Some(s) => Some(s@),
        None => None,
    }
}

impl View for ConfigError {
    type V = ConfigErrorView;

    open spec fn view(&self) -> ConfigErrorView {
        match self {
            ConfigError::Io { path, source } => ConfigErrorView::Io {
                path: path@,
                source: source@,
            },
            ConfigError::Parse { path, message } => ConfigErrorView::Parse {
                path: option_text(*path),
                message: message@,
            },
            ConfigError::Invalid { path, key, reason } => ConfigErrorView::Invalid {
                path: option_text(*path),
                key: key@,
                reason: reason@,
            },
        }
    }
}

/// How a message names the file that an error is in.
pub open spec fn suffix_text(path: Option<Seq<char>>) -> Seq<char> {
    match path {
        Some(path) => " in "@ + path,
        None => Seq::empty(),
    }
}

fn path_suffix(path: &Option<String>) -> (suffix: String)
    ensures
        suffix@ == suffix_text(option_text(*path)),
{
    match path {
        Some(path) => " in ".to_owned().concat(path.as_str()),
        None => String::new(),
    }
}

impl ConfigErrorView {
    /// The error as a message.
    pub open spec fn text(self) -> Seq<char> {
        match self {
            ConfigErrorView::Io { path, source } => "cannot read configuration file "@ + path
                + ": "@ + source,
            ConfigErrorView::Parse { path, message } => "invalid configuration"@ + suffix_text(path)
                + ": "@ + message,
            ConfigErrorView::Invalid { path, key, reason } => "invalid configuration"@
                + suffix_text(path) + ": "@ + key + ": "@ + reason,
        }
    }

    /// The same error, in the file `path`.
    pub open spec fn in_file(self, path: Seq<char>) -> ConfigErrorView {
        match self {
            ConfigErrorView::Io { .. } => self,
            ConfigErrorView::Parse { message, .. } => ConfigErrorView::Parse {
                path: Some(path),
                message,
            },
            ConfigErrorView::Invalid { key, reason, .. } => ConfigErrorView::Invalid {
                path: Some(path),
                key,
                reason,
            },
        }
    }
}

impl ConfigError {
    /// The error as a message.
    pub fn message(&self) -> (out: String)
        ensures
            out@ == self@.text(),
    {
        match self {
            ConfigError::Io { path, source } => "cannot read configuration file ".to_owned().concat(
                path.as_str(),
            ).concat(": ").concat(source.as_str()),
            ConfigError::Parse { path, message } => "invalid configuration".to_owned().concat(
                path_suffix(path).as_str(),
            ).concat(": ").concat(message.as_str()),
            ConfigError::Invalid { path, key, reason } => "invalid configuration".to_owned().concat(
                path_suffix(path).as_str(),
            ).concat(": ").concat(key).concat(": ").concat(reason.as_str()),
        }
    }

    /// The same error, naming the file it is in.
    pub fn with_path(self, path: &str) -> (named: Self)
        ensures
            named@ == self@.in_file(path@),
    {
        match self {
            ConfigError::Parse { message, .. } => ConfigError::Parse {
                path: Some(path.to_owned()),
                message,
            },
            ConfigError::Invalid { key, reason, .. } => ConfigError::Invalid {
                path: Some(path.to_owned()),
                key,
                reason,
            },
            other => other,
        }
    }
}

/// A value that is out of range: its key, and why.
pub ghost struct Fault {
    pub key: Seq<char>,
    pub reason: Seq<char>,
}

/// A text and a number in brackets behind it.
pub open spec fn bracketed(before: Seq<char>, n: nat) -> Seq<char> {
    before + text::decimal(n) + ")"@
}

impl Config {
    /// The explicit operation timeout, 0 where it is omitted.
    pub open spec fn explicit_timeout(&self) -> u64 {
        match self.agent.fsfreeze_operation_timeout_secs {
            Some(secs) => secs,
            None => 0,
        }
    }

    /// The first value that is out of range, in the order in which they are
    /// judged.
    pub open spec fn first_fault(&self) -> Option<Fault> {
        let agent = self.agent;
        let quotas = self.rate_limits;
        let positive = "must be greater than zero"@;
        let day = "must be at most "@ + text::decimal(MAX_FSFREEZE_TIMEOUT_SECS as nat)
            + " (one day)"@;
        if agent.config_version != CONFIG_VERSION {
            Some(
                Fault {
                    key: "agent.config_version"@,
                    reason: "unsupported version "@ + text::decimal(agent.config_version as nat)
                        + "; this build supports "@ + text::decimal(CONFIG_VERSION as nat),
                },
            )
        } else if agent.channel_path@.len() == 0 {
            Some(Fault { key: "agent.channel_path"@, reason: "must not be empty"@ })
        } else if agent.state_path@.len() == 0 || agent.state_path@[0] != '/' {
            Some(
                Fault {
                    key: "agent.state_path"@,
                    reason: "must be an absolute path, got "@ + agent.state_path@,
                },
            )
        } else if agent.fsfreeze_idle_timeout_secs == 0 {
            Some(Fault { key: "agent.fsfreeze_idle_timeout_secs"@, reason: positive })
        } else if agent.fsfreeze_operation_timeout_secs == Some(0u64) {
            Some(Fault { key: "agent.fsfreeze_operation_timeout_secs"@, reason: positive })
        } else if agent.fsfreeze_idle_timeout_secs > MAX_FSFREEZE_TIMEOUT_SECS {
            Some(Fault { key: "agent.fsfreeze_idle_timeout_secs"@, reason: day })
        } else if agent.fsfreeze_max_timeout_secs > MAX_FSFREEZE_TIMEOUT_SECS {
            Some(Fault { key: "agent.fsfreeze_max_timeout_secs"@, reason: day })
        } else if self.explicit_timeout() > MAX_FSFREEZE_TIMEOUT_SECS {
            Some(Fault { key: "agent.fsfreeze_operation_timeout_secs"@, reason: day })
        } else if agent.fsfreeze_max_timeout_secs < agent.fsfreeze_idle_timeout_secs {
            Some(
                Fault {
                    key: "agent.fsfreeze_max_timeout_secs"@,
                    reason: bracketed(
                        "must be at least fsfreeze_idle_timeout_secs ("@,
                        agent.fsfreeze_idle_timeout_secs as nat,
                    ),
                },
            )
        } else if self.explicit_timeout() > agent.fsfreeze_max_timeout_secs {
            Some(
                Fault {
                    key: "agent.fsfreeze_operation_timeout_secs"@,
                    reason: bracketed(
                        "must be at most fsfreeze_max_timeout_secs ("@,
                        agent.fsfreeze_max_timeout_secs as nat,
                    ),
                },
            )
        } else if quotas.ping_sync_per_min == 0 {
            Some(Fault { key: "rate_limits.ping_sync_per_min"@, reason: positive })
        } else if quotas.get_commands_per_min == 0 {
            Some(Fault { key: "rate_limits.get_commands_per_min"@, reason: positive })
        } else if quotas.fsfreeze_freeze_per_min == 0 {
            Some(Fault { key: "rate_limits.fsfreeze_freeze_per_min"@, reason: positive })
        } else if quotas.fstrim_per_min == 0 {
            Some(Fault { key: "rate_limits.fstrim_per_min"@, reason: positive })
        } else if quotas.shutdown_per_min == 0 {
            Some(Fault { key: "rate_limits.shutdown_per_min"@, reason: positive })
        } else {
            None
        }
    }

    /// Checks value ranges and cross-field constraints.
    pub fn validate(&self) -> (result: Result<(), ConfigError>)
        ensures
            match self.first_fault() {
                None => result is Ok,
                Some(fault) => result is Err && result->Err_0@ == (ConfigErrorView::Invalid {
                    path: None,
                    key: fault.key,
                    reason: fault.reason,
                }),
            },
    {
        let agent = &self.agent;
        if agent.config_version != CONFIG_VERSION {
            return Err(
                invalid(
                    "agent.config_version",
                    "unsupported version ".to_owned().concat(
                        decimal_text(agent.config_version as u64).as_str(),
                    ).concat("; this build supports ").concat(
                        decimal_text(CONFIG_VERSION as u64).as_str(),
                    ),
                ),
            );
        }
        if agent.channel_path.as_str().is_empty() {
            return Err(invalid("agent.channel_path", "must not be empty".to_owned()));
        }
        if agent.state_path.as_str().is_empty() || agent.state_path.as_str().get_char(0) != '/' {
            return Err(
                invalid(
                    "agent.state_path",
                    "must be an absolute path, got ".to_owned().concat(agent.state_path.as_str()),
                ),
            );
        }
        if agent.fsfreeze_idle_timeout_secs == 0 {
            return Err(zero("agent.fsfreeze_idle_timeout_secs"));
        }
        let explicit: u64 = match agent.fsfreeze_operation_timeout_secs {
            Some(secs) => secs,
            None => 0,
        };
        if agent.fsfreeze_operation_timeout_secs.is_some() && explicit == 0 {
            return Err(zero("agent.fsfreeze_operation_timeout_secs"));
        }
        if agent.fsfreeze_idle_timeout_secs > MAX_FSFREEZE_TIMEOUT_SECS {
            return Err(too_long("agent.fsfreeze_idle_timeout_secs"));
        }
        if agent.fsfreeze_max_timeout_secs > MAX_FSFREEZE_TIMEOUT_SECS {
            return Err(too_long("agent.fsfreeze_max_timeout_secs"));
        }
        if explicit > MAX_FSFREEZE_TIMEOUT_SECS {
            return Err(too_long("agent.fsfreeze_operation_timeout_secs"));
        }
        if agent.fsfreeze_max_timeout_secs < agent.fsfreeze_idle_timeout_secs {
            return Err(
                invalid(
                    "agent.fsfreeze_max_timeout_secs",
                    "must be at least fsfreeze_idle_timeout_secs (".to_owned().concat(
                        decimal_text(agent.fsfreeze_idle_timeout_secs).as_str(),
                    ).concat(")"),
                ),
            );
        }
        // Only an explicit value is judged against the cap: an omitted one is
        // derived under it.
        if explicit > agent.fsfreeze_max_timeout_secs {
            return Err(
                invalid(
                    "agent.fsfreeze_operation_timeout_secs",
                    "must be at most fsfreeze_max_timeout_secs (".to_owned().concat(
                        decimal_text(agent.fsfreeze_max_timeout_secs).as_str(),
                    ).concat(")"),
                ),
            );
        }
        let quotas = &self.rate_limits;
        if quotas.ping_sync_per_min == 0 {
            return Err(zero("rate_limits.ping_sync_per_min"));
        }
        if quotas.get_commands_per_min == 0 {
            return Err(zero("rate_limits.get_commands_per_min"));
        }
        if quotas.fsfreeze_freeze_per_min == 0 {
            return Err(zero("rate_limits.fsfreeze_freeze_per_min"));
        }
        if quotas.fstrim_per_min == 0 {
            return Err(zero("rate_limits.fstrim_per_min"));
        }
        if quotas.shutdown_per_min == 0 {
            return Err(zero("rate_limits.shutdown_per_min"));
        }
        Ok(())
    }

    /// Runtime switches that have no effect in the build: a warning, not an
    /// error.
    pub open spec fn warning_texts(&self, build: Build) -> Seq<Seq<char>> {
        (if self.features.seccomp && !build.seccomp {
            seq![
                "features.seccomp = true has no effect: this binary was built without the `seccomp` Cargo feature"@,
            ]
        } else {
            Seq::empty()
        }) + (if self.features.suspend_ram && !build.suspend_ram {
            seq![
                "features.suspend_ram = true has no effect: this binary was built without the `suspend_ram` Cargo feature"@,
            ]
        } else {
            Seq::empty()
        })
    }

    /// Runtime switches that have no effect in `build`: a warning, not an
    /// error.
    pub fn warnings(&self, build: Build) -> (out: Vec<String>)
        ensures
            Seq::new(out@.len(), |i: int| out@[i]@) == self.warning_texts(build),
    {
        let mut out: Vec<String> = Vec::new();
        if self.features.seccomp && !build.seccomp {
            out.push(
                "features.seccomp = true has no effect: this binary was built without the `seccomp` Cargo feature".to_owned(),
            );
        }
        if self.features.suspend_ram && !build.suspend_ram {
            out.push(
                "features.suspend_ram = true has no effect: this binary was built without the `suspend_ram` Cargo feature".to_owned(),
            );
        }
        proof {
            assert(Seq::new(out@.len(), |i: int| out@[i]@) =~= self.warning_texts(build));
        }
        out
    }

    /// What parsing and validating a file gives, given what its text parses to.
    pub open spec fn accepted(parsed: Result<Config, String>) -> Result<Config, ConfigErrorView> {
        match parsed {
            Err(message) => Err(ConfigErrorView::Parse { path: None, message: message@ }),
            Ok(config) => match config.first_fault() {
                Some(fault) => Err(
                    ConfigErrorView::Invalid { path: None, key: fault.key, reason: fault.reason },
                ),
                None => Ok(config),
            },
        }
    }

    /// Accepts a configuration that was parsed from text, or says why not:
    /// the parser's description, or the first value that is out of range.
    pub fn parse(parsed: Result<Config, String>) -> (result: Result<Config, ConfigError>)
        ensures
            match result {
                Ok(config) => Config::accepted(parsed) == Ok::<Config, ConfigErrorView>(config),
                Err(err) => Config::accepted(parsed) == Err::<Config, ConfigErrorView>(err@),
            },
    {
        match parsed {
            Err(message) => Err(ConfigError::Parse { path: None, message }),
            Ok(config) => match config.validate() {
                Ok(()) => Ok(config),
                Err(err) => Err(err),
            },
        }
    }

    /// Accepts a configuration file: `read` is why it could not be read, or
    /// what its text parses to. Every error names the file.
    pub fn load(path: &str, read: Result<Result<Config, String>, String>) -> (result: Result<
        Config,
        ConfigError,
    >)
        ensures
            match (read, result) {
                (Err(source), Err(err)) => err@ == (ConfigErrorView::Io {
                    path: path@,
                    source: source@,
                }),
                (Ok(parsed), Ok(config)) => Config::accepted(parsed) == Ok::<
                    Config,
                    ConfigErrorView,
                >(config),
                (Ok(parsed), Err(err)) => Config::accepted(parsed) matches Err(fault) && err@
                    == fault.in_file(path@),
                _ => false,
            },
    {
        match read {
            Err(source) => Err(ConfigError::Io { path: path.to_owned(), source }),
            Ok(parsed) => match Config::parse(parsed) {
                Ok(config) => Ok(config),
                Err(err) => Err(err.with_path(path)),
            },
        }
    }

    /// `guest-fstrim` is available (runtime switch only).
    pub fn fstrim_enabled(&self) -> (enabled: bool)
        ensures
            enabled == self.features.fstrim,
    {
        self.features.fstrim
    }

    /// `guest-suspend-ram` is available: compiled in **and** enabled.
    pub fn suspend_ram_enabled(&self, build: Build) -> (enabled: bool)
        ensures
            enabled == (build.suspend_ram && self.features.suspend_ram),
    {
        build.suspend_ram && self.features.suspend_ram
    }

    /// The seccomp filter is installed: compiled in **and** enabled.
    pub fn seccomp_enabled(&self, build: Build) -> (enabled: bool)
        ensures
            enabled == (build.seccomp && self.features.seccomp),
    {
        build.seccomp && self.features.seccomp
    }
}

fn invalid(key: &'static str, reason: String) -> (error: ConfigError)
    ensures
        error@ == (ConfigErrorView::Invalid { path: None, key: key@, reason: reason@ }),
{
    ConfigError::Invalid { path: None, key, reason }
}

fn zero(key: &'static str) -> (error: ConfigError)
    ensures
        error@ == (ConfigErrorView::Invalid {
            path: None,
            key: key@,
            reason: "must be greater than zero"@,
        }),
{
    invalid(key, "must be greater than zero".to_owned())
}

fn too_long(key: &'static str) -> (error: ConfigError)
    ensures
        error@ == (ConfigErrorView::Invalid {
            path: None,
            key: key@,
            reason: "must be at most "@ + text::decimal(MAX_FSFREEZE_TIMEOUT_SECS as nat)
                + " (one day)"@,
        }),
{
    invalid(
        key,
        "must be at most ".to_owned().concat(
            decimal_text(MAX_FSFREEZE_TIMEOUT_SECS).as_str(),
        ).concat(" (one day)"),
    )
}

/// What a valid configuration guarantees its readers: every timeout is
/// positive and at most a day, the hard cap is above the idle timeout and the
/// effective operation deadline, and no quota is zero.
pub proof fn law_valid_configuration(config: Config)
    requires
        config.first_fault() is None,
    ensures
        config.agent.config_version == CONFIG_VERSION,
        0 < config.agent.fsfreeze_idle_timeout_secs <= config.agent.fsfreeze_max_timeout_secs
            <= MAX_FSFREEZE_TIMEOUT_SECS,
        0 < config.agent.operation_timeout() <= config.agent.fsfreeze_max_timeout_secs,
        config.rate_limits.ping_sync_per_min > 0,
        config.rate_limits.get_commands_per_min > 0,
        config.rate_limits.fsfreeze_freeze_per_min > 0,
        config.rate_limits.fstrim_per_min > 0,
        config.rate_limits.shutdown_per_min > 0,
{
}

/// A configuration is accepted exactly when every value is in its range.
pub proof fn law_what_is_accepted(config: Config)
    ensures
        config.first_fault() is None <==> {
            &&& config.agent.config_version == 1
            &&& config.agent.channel_path@.len() > 0
            &&& config.agent.state_path@.len() > 0 && config.agent.state_path@[0] == '/'
            &&& 0 < config.agent.fsfreeze_idle_timeout_secs
            &&& config.agent.fsfreeze_idle_timeout_secs <= config.agent.fsfreeze_max_timeout_secs
            &&& config.agent.fsfreeze_max_timeout_secs <= 86_400
            &&& config.agent.fsfreeze_operation_timeout_secs matches Some(secs) ==> 0 < secs
                <= config.agent.fsfreeze_max_timeout_secs
            &&& config.rate_limits.ping_sync_per_min > 0
            &&& config.rate_limits.get_commands_per_min > 0
            &&& config.rate_limits.fsfreeze_freeze_per_min > 0
            &&& config.rate_limits.fstrim_per_min > 0
            &&& config.rate_limits.shutdown_per_min > 0
        },
        Config::accepted(Ok(config)) is Ok <==> config.first_fault() is None,
        Config::accepted(Ok(config)) matches Ok(same) ==> same == config,
{
}

/// A configuration with a single value out of range is told that value's key.
pub proof fn law_a_fault_names_its_key(config: Config, message: String, path: Seq<char>)
    ensures
        ({
            let agent = config.agent;
            let quotas = config.rate_limits;
            let version = agent.config_version == 1;
            let channel = agent.channel_path@.len() > 0;
            let marker = agent.state_path@.len() > 0 && agent.state_path@[0] == '/';
            let idle = 0 < agent.fsfreeze_idle_timeout_secs <= 86_400;
            let cap = agent.fsfreeze_max_timeout_secs <= 86_400 && agent.fsfreeze_idle_timeout_secs
                <= agent.fsfreeze_max_timeout_secs;
            let operation = agent.fsfreeze_operation_timeout_secs matches Some(secs) ==> 0 < secs
                <= 86_400 && secs <= agent.fsfreeze_max_timeout_secs;
            let ping = quotas.ping_sync_per_min > 0;
            let get = quotas.get_commands_per_min > 0;
            let freeze = quotas.fsfreeze_freeze_per_min > 0;
            let trim = quotas.fstrim_per_min > 0;
            let stop = quotas.shutdown_per_min > 0;
            let rates = ping && get && freeze && trim && stop;
            let rest = version && channel && marker;
            let times = idle && cap && operation;
            let key = config.first_fault()->0.key;
            &&& !version ==> key == "agent.config_version"@
            &&& version && !channel ==> key == "agent.channel_path"@
            &&& version && channel && !marker ==> key == "agent.state_path"@
            &&& rest && !idle && cap && agent.fsfreeze_operation_timeout_secs is None ==> key
                == "agent.fsfreeze_idle_timeout_secs"@
            &&& rest && idle && !cap && agent.fsfreeze_operation_timeout_secs is None ==> key
                == "agent.fsfreeze_max_timeout_secs"@
            &&& rest && idle && cap && !operation ==> key
                == "agent.fsfreeze_operation_timeout_secs"@
            &&& rest && times && !ping ==> key == "rate_limits.ping_sync_per_min"@
            &&& rest && times && ping && !get ==> key == "rate_limits.get_commands_per_min"@
            &&& rest && times && ping && get && !freeze ==> key
                == "rate_limits.fsfreeze_freeze_per_min"@
            &&& rest && times && ping && get && freeze && !trim ==> key
                == "rate_limits.fstrim_per_min"@
            &&& rest && times && ping && get && freeze && trim && !stop ==> key
                == "rate_limits.shutdown_per_min"@
        }),
        Config::accepted(Err(message)) == Err::<Config, ConfigErrorView>(
            ConfigErrorView::Parse { path: None, message: message@ },
        ),
        config.first_fault() matches Some(fault) ==> Config::accepted(Ok(config)) == Err::<
            Config,
            ConfigErrorView,
        >(ConfigErrorView::Invalid { path: None, key: fault.key, reason: fault.reason }),
        (ConfigErrorView::Parse { path: None, message: message@ }).in_file(path) == (
        ConfigErrorView::Parse { path: Some(path), message: message@ }),
        config.first_fault() matches Some(fault) ==> (ConfigErrorView::Invalid {
            path: None,
            key: fault.key,
            reason: fault.reason,
        }).in_file(path) == (ConfigErrorView::Invalid {
            path: Some(path),
            key: fault.key,
            reason: fault.reason,
        }),
{
}

/// The deadline of a freeze is the one that was configured; where none was, it
/// is a minute, or the hard cap if that is shorter.
pub proof fn law_the_operation_deadline(agent: AgentConfig, secs: u64)
    requires
        call_ensures(AgentConfig::fsfreeze_operation_timeout_secs, (&agent,), secs),
    ensures
        agent.fsfreeze_operation_timeout_secs matches Some(explicit) ==> secs == explicit,
        agent.fsfreeze_operation_timeout_secs is None && agent.fsfreeze_max_timeout_secs >= 60
            ==> secs == 60,
        agent.fsfreeze_operation_timeout_secs is None && agent.fsfreeze_max_timeout_secs < 60
            ==> secs == agent.fsfreeze_max_timeout_secs,
{
}

/// A switch that is on in the configuration and not in the build is warned of,
/// and no other.
pub proof fn law_what_is_warned_of(config: Config, build: Build)
    ensures
        config.warning_texts(build).len() == (if config.features.seccomp && !build.seccomp {
            1int
        } else {
            0
        }) + (if config.features.suspend_ram && !build.suspend_ram {
            1int
        } else {
            0
        }),
{
}

/// The words of an error of the configuration: the file where it is known, the
/// key and the reason, or what the system or the parser said. Placing an error
/// in a file names the file and changes nothing else.
pub proof fn law_the_words_of_a_config_error(
    file: Seq<char>,
    key: Seq<char>,
    said: Seq<char>,
    path: Option<Seq<char>>,
)
    ensures
        (ConfigErrorView::Io { path: file, source: said }).text()
            == "cannot read configuration file "@ + file + ": "@ + said,
        (ConfigErrorView::Parse { path: Some(file), message: said }).text()
            == "invalid configuration"@ + (" in "@ + file) + ": "@ + said,
        (ConfigErrorView::Parse { path: None, message: said }).text() == "invalid configuration"@
            + ": "@ + said,
        (ConfigErrorView::Invalid { path: Some(file), key, reason: said }).text()
            == "invalid configuration"@ + (" in "@ + file) + ": "@ + key + ": "@ + said,
        (ConfigErrorView::Invalid { path: None, key, reason: said }).text()
            == "invalid configuration"@ + ": "@ + key + ": "@ + said,
        (ConfigErrorView::Invalid { path, key, reason: said }).in_file(file) == (
        ConfigErrorView::Invalid { path: Some(file), key, reason: said }),
        (ConfigErrorView::Parse { path, message: said }).in_file(file) == (ConfigErrorView::Parse {
            path: Some(file),
            message: said,
        }),
        (ConfigErrorView::Io { path: key, source: said }).in_file(file) == (ConfigErrorView::Io {
            path: key,
            source: said,
        }),
{
    assert("invalid configuration"@ + Seq::<char>::empty() =~= "invalid configuration"@);
}

/// Why a value is refused tells what it may be: more than nought, at most a day,
/// at least or at most the other limit, an absolute path, or the version that
/// is supported.
pub proof fn law_a_fault_tells_what_is_allowed(config: Config)
    requires
        config.first_fault() is Some,
    ensures
        ({
            let agent = config.agent;
            let said = config.first_fault()->0;
            &&& said.key == "agent.config_version"@ && agent.config_version != 1 ==> said.reason
                == "unsupported version "@ + text::decimal(agent.config_version as nat)
                + "; this build supports "@ + text::decimal(1)
            &&& agent.config_version == 1 && agent.channel_path@.len() == 0 ==> said.reason
                == "must not be empty"@
            &&& agent.config_version == 1 && agent.channel_path@.len() > 0 && (
            agent.state_path@.len() == 0 || agent.state_path@[0] != '/') ==> said.reason
                == "must be an absolute path, got "@ + agent.state_path@
            &&& agent.config_version == 1 && agent.channel_path@.len() > 0
                && agent.state_path@.len() > 0 && agent.state_path@[0] == '/' ==> {
                ||| said.reason == "must be greater than zero"@
                ||| said.reason == "must be at most "@ + text::decimal(86_400) + " (one day)"@
                ||| said.reason == "must be at least fsfreeze_idle_timeout_secs ("@ + text::decimal(
                    agent.fsfreeze_idle_timeout_secs as nat,
                ) + ")"@
                ||| said.reason == "must be at most fsfreeze_max_timeout_secs ("@ + text::decimal(
                    agent.fsfreeze_max_timeout_secs as nat,
                ) + ")"@
            }
        }),
{
}

/// The names of the log levels.
pub proof fn law_the_names_of_the_levels()
    ensures
        LogLevel::Trace.text() == "trace"@,
        LogLevel::Debug.text() == "debug"@,
        LogLevel::Info.text() == "info"@,
        LogLevel::Warn.text() == "warn"@,
        LogLevel::Error.text() == "error"@,
{
}

/// A configuration file is taken as it is or refused with the file named: when
/// it cannot be read, when its text does not parse, and when a value is out of
/// range.
pub proof fn law_what_a_file_comes_to(
    path: &str,
    read: Result<Result<Config, String>, String>,
    result: Result<Config, ConfigError>,
)
    requires
        call_ensures(Config::load, (path, read), result),
    ensures
        read matches Err(source) ==> result is Err && result->Err_0@ == (ConfigErrorView::Io {
            path: path@,
            source: source@,
        }),
        read matches Ok(Err(message)) ==> result is Err && result->Err_0@ == (
        ConfigErrorView::Parse { path: Some(path@), message: message@ }),
        read matches Ok(Ok(config)) ==> {
            &&& config.first_fault() is None ==> result == Ok::<Config, ConfigError>(config)
            &&& config.first_fault() matches Some(fault) ==> result is Err && result->Err_0@ == (
            ConfigErrorView::Invalid { path: Some(path@), key: fault.key, reason: fault.reason })
        },
{
}

} // verus!
