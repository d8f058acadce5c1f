use vstd::prelude::*;

verus! {

/// Name of the service.
pub const APP: &'static str = "service-demo";

/// Port the service listens on when the configuration names none.
pub const DEFAULT_PORT: u16 = 8080;

/// Submission timeout, in seconds, when the configuration sets none.
pub const CMD_SUBMIT_TIMEOUT_SECS: u64 = 5;

#[derive(Clone, Debug)]
pub struct ServerConfig {
    pub run_local: bool,
    pub port: Option<u16>,
}

#[derive(Clone, Debug)]
pub struct LogConfig {
    pub level: String,
}

#[derive(Clone, Debug)]
pub struct PgSqlConfig {
    pub url: String,
    pub log_mode: bool,
    pub auto_migrate: bool,
}

/// Settings of the pools of child workers.
#[derive(Clone, Debug)]
pub struct ChildProcConfig {
    /// Submission timeout in seconds; 0 means the default.
    pub timeout_secs: u64,
    /// Number of persistent workers of the spreadsheet reader; 0 means a
    /// fresh process per call.
    pub read_xls_workers: usize,
    /// Pause between starting two workers, in milliseconds.
    pub read_xls_inter_ms: Option<u64>,
}

#[derive(Clone, Debug)]
pub struct Config {
    pub server: ServerConfig,
    pub log: LogConfig,
    pub db: PgSqlConfig,
    pub py: ChildProcConfig,
}

/// The submission timeout in seconds for a configured value `secs`.
pub open spec fn timeout_for(secs: u64) -> u64 {
    if secs > 0 {
        secs
    } else {
        CMD_SUBMIT_TIMEOUT_SECS
    }
}

/// The submission timeout of the worker pools, in seconds: the configured one,
/// or 5 when it is unset.
pub fn submit_timeout_secs(conf: &ChildProcConfig) -> (r: u64)
    ensures
        r == timeout_for(conf.timeout_secs),
        r > 0,
{
    if conf.timeout_secs > 0 {
        conf.timeout_secs
    } else {
        CMD_SUBMIT_TIMEOUT_SECS
    }
}

/// Log level used when the configuration leaves it empty.
pub const DEFAULT_LOG_LEVEL: &'static str = "info";

/// The log level that takes effect for a configured `level`.
pub open spec fn level_or_default(level: Seq<char>) -> Seq<char> {
    if level.len() == 0 {
        DEFAULT_LOG_LEVEL@
    } else {
        level
    }
}

/// `c` is `given` as it takes effect: with the default log level where it
/// sets none.
pub open spec fn takes_effect_as(c: Config, given: Config) -> bool {
    &&& c.log.level@ == level_or_default(given.log.level@)
    &&& c.server == given.server
    &&& c.db == given.db
    &&& c.py == given.py
}

/// The live configuration, which is read afresh on every dispatch, and the
/// observers to tell of each change of it.
pub struct ConfigStore<F> {
    conf: Config,
    pub callbacks: Vec<F>,
}

impl<F> ConfigStore<F> {
    /// The configuration in effect.
    pub closed spec fn current(&self) -> Config {
        self.conf
    }

    /// The observers, in the order they were added.
    pub closed spec fn observers(&self) -> Seq<F> {
        self.callbacks@
    }

    /// A store holding `initial`, with no observers.
    pub fn new(initial: Config) -> (r: ConfigStore<F>)
        ensures
            takes_effect_as(r.current(), initial),
            r.observers().len() == 0,
    {
        let mut r = ConfigStore { conf: initial.clone(), callbacks: Vec::new() };
        r.set_config(initial, true);
        r
    }

    /// Puts `new_conf` in effect, with the default log level where it sets
    /// none. Unless this is the initial configuration, the one it replaces is
    /// returned, for the observers.
    pub fn set_config(&mut self, new_conf: Config, init: bool) -> (r: Option<Config>)
        ensures
            takes_effect_as(final(self).current(), new_conf),
            final(self).observers() == old(self).observers(),
            r == (if init {
                None
            } else {
                Some(old(self).current())
            }),
    {
        let mut c = new_conf;
        if c.log.level.as_str().is_empty() {
            c.log.level = DEFAULT_LOG_LEVEL.to_owned();
        }
        let mut prev = c;
        std::mem::swap(&mut self.conf, &mut prev);
        if init {
            None
        } else {
            Some(prev)
        }
    }

    /// The configuration in effect.
    pub fn peek_config(&self) -> (r: &Config)
        ensures
            *r == self.current(),
    {
        &self.conf
    }

    /// Whether the service runs on a local configuration file.
    pub fn is_local(&self) -> (r: bool)
        ensures
            r == self.current().server.run_local,
    {
        self.conf.server.run_local
    }

    /// Adds an observer, told of every later change of the configuration.
    pub fn add_callback(&mut self, f: F)
        ensures
            final(self).observers() == old(self).observers().push(f),
            final(self).current() == old(self).current(),
    {
        self.callbacks.push(f);
    }

    /// The submission timeout in effect, in seconds.
    pub fn submit_timeout(&self) -> (r: u64)
        ensures
            r == timeout_for(self.current().py.timeout_secs),
    {
        submit_timeout_secs(&self.conf.py)
    }
}

} // verus!
