//! Configuration values: the routing mode, the stored configuration, the
//! command line and the running configuration, as plain data, and the
//! changes the configuration commands make.
use vstd::prelude::*;
use crate::routes::RouteTable;
use crate::source::{normalize_source_key, source_key};
use crate::target::{normalize_target, target_of};

verus! {

/// The port the proxy listens on unless told otherwise.
pub const DEFAULT_PORT: u16 = 8000;

/// Which part of a request selects the route.
#[derive(Clone, Copy, Debug, PartialEq, Eq, Structural)]
pub enum ProxyMode {
    /// Routes on the first label of the `Host` header (`app.localhost`).
    Domain,
    /// Routes on the first path segment (`/app`).
    Path,
}

impl ProxyMode {
    /// The mode's name as users write it.
    pub fn as_str(&self) -> (r: &'static str)
        ensures
            *self == ProxyMode::Domain ==> r@ == "domain"@,
            *self == ProxyMode::Path ==> r@ == "path"@,
    {
        match self {
            ProxyMode::Domain => "domain",
            ProxyMode::Path => "path",
        }
    }
}

/// The stored configuration: listening port, mode and routes.
pub struct ConfigFile {
    pub port: u16,
    pub mode: ProxyMode,
    pub routes: RouteTable,
}

impl Default for ConfigFile {
    fn default() -> (r: ConfigFile)
        ensures
            r.port == DEFAULT_PORT,
            r.mode == ProxyMode::Path,
            r.routes.wf(),
            r.routes@ == Map::<Seq<char>, Seq<char>>::empty(),
    {
        ConfigFile { port: DEFAULT_PORT, mode: ProxyMode::Path, routes: RouteTable::new() }
    }
}

/// A subcommand of the command line.
pub enum Command {
    /// Runs the proxy, listening on `port`.
    Start { port: u16 },
    /// Shows the mode and the routes.
    List,
    /// Routes `source` to `target`.
    Add { source: String, target: String },
    /// Drops the route of `source`.
    Remove { source: String },
    /// Changes the routing mode.
    SetMode { mode: ProxyMode },
}

/// The command line: where the configuration is stored, and what to do.
pub struct Args {
    pub config_file: String,
    pub command: Command,
}

/// The configuration the proxy runs with.
pub struct AppConfig {
    pub path: String,
    pub port: u16,
    pub mode: ProxyMode,
    pub routes: RouteTable,
}

impl AppConfig {
    /// The running configuration for a stored one read from `path`, with the
    /// command line's overrides applied.
    pub fn from_file(path: String, file: ConfigFile, args: &Args) -> (r: AppConfig)
        ensures
            r.path@ == path@,
            r.mode == file.mode,
            r.routes == file.routes,
            r.port == match args.command {
                Command::Start { port } => port,
                _ => file.port,
            },
    {
        let mut config = AppConfig {
            path,
            port: file.port,
            mode: file.mode,
            routes: file.routes,
        };
        apply_overrides(&mut config, args);
        config
    }
}

/// Lets the command line override the stored configuration: `start --port`
/// sets the port; nothing else changes.
pub fn apply_overrides(config: &mut AppConfig, args: &Args)
    ensures
        final(config).path == old(config).path,
        final(config).mode == old(config).mode,
        final(config).routes == old(config).routes,
        final(config).port == match args.command {
            Command::Start { port } => port,
            _ => old(config).port,
        },
{
    match &args.command {
        Command::Start { port } => {
            config.port = *port;
        },
        _ => {},
    }
}

/// What a configuration command did, for reporting; whether the stored
/// configuration must be written back is `needs_write`.
pub enum ConfigChange {
    /// Nothing changed; the configuration is to be shown.
    Listed,
    /// `key` now routes to `target`; `previous` is what it routed to before.
    Added { key: String, target: String, previous: Option<String> },
    /// The route of `key` was dropped, if `found`.
    Removed { key: String, found: bool },
    /// The mode was set.
    ModeSet { mode: ProxyMode },
}

impl ConfigChange {
    /// Whether the stored configuration changed and must be written back.
    pub fn needs_write(&self) -> (r: bool)
        ensures
            r == !(*self is Listed || (*self is Removed && !self->Removed_found)),
    {
        match self {
            ConfigChange::Listed => false,
            ConfigChange::Removed { found, .. } => *found,
            _ => true,
        }
    }
}

/// Applies a configuration command (`list`, `add`, `remove`, `set-mode`) to
/// the stored configuration. `add` stores the normalized source and target,
/// and fails, changing nothing, when either does not normalize.
pub fn apply_config_command(config: &mut ConfigFile, command: &Command) -> (r: Result<
    ConfigChange,
    String,
>)
    requires
        old(config).routes.wf(),
        !(*command is Start),
    ensures
        final(config).routes.wf(),
        final(config).port == old(config).port,
        match command {
            Command::List => r is Ok && r->Ok_0 is Listed && final(config).mode == old(config).mode
                && final(config).routes@ == old(config).routes@,
            Command::Add { source, target } => {
                let k = source_key(source@);
                let t = target_of(target@);
                final(config).mode == old(config).mode && if k is Some && t is Some {
                    &&& r is Ok
                    &&& final(config).routes@ == old(config).routes@.insert(k->0, t->0)
                    &&& r->Ok_0 is Added
                    &&& r->Ok_0->Added_key@ == k->0
                    &&& r->Ok_0->Added_target@ == t->0
                    &&& (r->Ok_0->Added_previous is Some <==> old(config).routes@.contains_key(
                        k->0,
                    ))
                    &&& (r->Ok_0->Added_previous is Some ==> r->Ok_0->Added_previous->0@
                        == old(config).routes@[k->0])
                } else {
                    r is Err && final(config).routes@ == old(config).routes@
                }
            },
            Command::Remove { source } => {
                &&& final(config).mode == old(config).mode
                &&& final(config).routes@ == old(config).routes@.remove(source@)
                &&& r is Ok
                &&& r->Ok_0 is Removed
                &&& r->Ok_0->Removed_key@ == source@
                &&& r->Ok_0->Removed_found == old(config).routes@.contains_key(source@)
            },
            Command::SetMode { mode } => r is Ok && r->Ok_0 is ModeSet && final(config).mode
                == *mode && final(config).routes@ == old(config).routes@,
            Command::Start { .. } => false,
        },
{
    match command {
        Command::List => Ok(ConfigChange::Listed),
        Command::Add { source, target } => {
            let key = match normalize_source_key(source.as_str()) {
                Ok(k) => k,
                Err(e) => return Err(e),
            };
            let target = match normalize_target(target.as_str()) {
                Ok(t) => t,
                Err(e) => return Err(e),
            };
            let previous = config.routes.insert(key.clone(), target.clone());
            Ok(ConfigChange::Added { key, target, previous })
        },
        Command::Remove { source } => {
            let previous = config.routes.remove(source.as_str());
            Ok(ConfigChange::Removed { key: source.clone(), found: previous.is_some() })
        },
        Command::SetMode { mode } => {
            config.mode = *mode;
            Ok(ConfigChange::ModeSet { mode: *mode })
        },
        // `start` is not a configuration command; the precondition excludes it.
        Command::Start { .. } => Ok(ConfigChange::Listed),
    }
}

} // verus!
