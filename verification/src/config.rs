//! The settings of a server that fronts the engine.
//!
//! Three settings come from the environment, each with a default: the
//! address to bind (`0.0.0.0`), the port (`9000`) and the largest number
//! of clients (`1024`). On the command line `--addr HOST:PORT` overrides
//! address and port. This module decides what the settings are from the
//! values found; reading the environment and the command line is left to
//! the program.

use vstd::prelude::*;
use vstd::string::StringExecFns;
use crate::text::{
    chars_of, decimal, fields, parse_number, parsed_number, push_decimal, split, texts_view,
};

verus! {

/// The port that is bound where none is set.
pub const DEFAULT_PORT: u16 = 9000;

/// The largest number of clients where none is set.
pub const DEFAULT_MAX_CLIENTS: usize = 1024;

/// How many ports are tried, the configured one included, when ports are
/// found in use.
pub const MAX_BIND_ATTEMPTS: u8 = 3;

/// The address that is bound where none is set.
pub open spec fn default_bind_addr() -> Seq<char> {
    "0.0.0.0"@
}

/// The settings of a server.
#[derive(Debug, Clone)]
pub struct Config {
    /// The address or interface to bind, for instance `127.0.0.1`.
    pub bind_addr: String,
    /// The port to listen on.
    pub port: u16,
    /// The largest number of clients connected at once.
    pub max_clients: usize,
}

/// The value of a [`Config`].
pub struct ConfigView {
    pub bind_addr: Seq<char>,
    pub port: u16,
    pub max_clients: usize,
}

impl View for Config {
    type V = ConfigView;

    open spec fn view(&self) -> ConfigView {
        ConfigView { bind_addr: self.bind_addr@, port: self.port, max_clients: self.max_clients }
    }
}

/// Why settings could not be made of the values found.
#[derive(Debug, Clone, PartialEq, Eq)]
pub enum ConfigError {
    /// The port in the environment is no number from 0 to 65535.
    InvalidPort(String),
    /// The number of clients in the environment is no number that fits.
    InvalidMaxClients(String),
    /// `--addr` is the last argument.
    MissingAddrValue,
    /// The value of `--addr` is not a host and a port with one colon
    /// between them.
    InvalidAddr(String),
    /// The port in the value of `--addr` is no number from 0 to 65535.
    InvalidAddrPort(String),
}

/// The value of a [`ConfigError`].
pub enum ConfigErrorView {
    InvalidPort(Seq<char>),
    InvalidMaxClients(Seq<char>),
    MissingAddrValue,
    InvalidAddr(Seq<char>),
    InvalidAddrPort(Seq<char>),
}

impl View for ConfigError {
    type V = ConfigErrorView;

    open spec fn view(&self) -> ConfigErrorView {
        match self {
            ConfigError::InvalidPort(text) => ConfigErrorView::InvalidPort(text@),
            ConfigError::InvalidMaxClients(text) => ConfigErrorView::InvalidMaxClients(text@),
            ConfigError::MissingAddrValue => ConfigErrorView::MissingAddrValue,
            ConfigError::InvalidAddr(text) => ConfigErrorView::InvalidAddr(text@),
            ConfigError::InvalidAddrPort(text) => ConfigErrorView::InvalidAddrPort(text@),
        }
    }
}

/// The value of settings that were made, or of the reason why not.
pub open spec fn config_result_view(r: Result<Config, ConfigError>) -> Result<
    ConfigView,
    ConfigErrorView,
> {
    match r {
        Ok(config) => Ok(config@),
        Err(e) => Err(e@),
    }
}

/// The port that a text spells: a number from 0 to 65535 in decimal
/// digits, after a plus sign perhaps.
pub open spec fn parsed_port(text: Seq<char>) -> Option<u16> {
    match parsed_number(text, u16::MAX as u64) {
        Some(v) => Some(v as u16),
        None => None,
    }
}

/// The settings that the environment gives. A value that is not set
/// gives way to the default; the address as it is set is taken as it is.
pub open spec fn settings_of_env(
    bind_addr: Option<Seq<char>>,
    port: Option<Seq<char>>,
    max_clients: Option<Seq<char>>,
) -> Result<ConfigView, ConfigErrorView> {
    let bind_addr = match bind_addr {
        Some(text) => text,
        None => default_bind_addr(),
    };
    let port_value = match port {
        Some(text) => parsed_port(text),
        None => Some(DEFAULT_PORT),
    };
    let max_value = match max_clients {
        Some(text) => parsed_number(text, usize::MAX as u64),
        None => Some(DEFAULT_MAX_CLIENTS as u64),
    };
    if port_value is None {
        Err(ConfigErrorView::InvalidPort(port->0))
    } else if max_value is None {
        Err(ConfigErrorView::InvalidMaxClients(max_clients->0))
    } else {
        Ok(ConfigView { bind_addr, port: port_value->0, max_clients: max_value->0 as usize })
    }
}

/// The settings after the value of one `--addr`: host and port, with one
/// colon between them, replace address and port.
pub open spec fn with_addr(config: ConfigView, value: Seq<char>) -> Result<
    ConfigView,
    ConfigErrorView,
> {
    let parts = fields(value, ':');
    if parts.len() != 2 {
        Err(ConfigErrorView::InvalidAddr(value))
    } else {
        match parsed_port(parts[1]) {
            None => Err(ConfigErrorView::InvalidAddrPort(value)),
            Some(port) => Ok(ConfigView { bind_addr: parts[0], port, ..config }),
        }
    }
}

/// The settings after the command line. Each `--addr` takes the argument
/// after it as its value; every other argument is passed over.
pub open spec fn with_args(config: ConfigView, args: Seq<Seq<char>>) -> Result<
    ConfigView,
    ConfigErrorView,
>
    decreases args.len(),
{
    if args.len() == 0 {
        Ok(config)
    } else if args[0] != "--addr"@ {
        with_args(config, args.drop_first())
    } else if args.len() == 1 {
        Err(ConfigErrorView::MissingAddrValue)
    } else {
        match with_addr(config, args[1]) {
            Err(e) => Err(e),
            Ok(next) => with_args(next, args.skip(2)),
        }
    }
}

/// The port to try after `port` was found in use at the given attempt,
/// counted from one: the next port, while attempts and ports are left.
pub open spec fn port_after(port: u16, attempt: u8) -> Option<u16> {
    if attempt < MAX_BIND_ATTEMPTS && port < u16::MAX {
        Some((port + 1) as u16)
    } else {
        None
    }
}

/// Reads a port.
fn parse_port(text: &str) -> (r: Option<u16>)
    ensures
        r == parsed_port(text@),
{
    match parse_number(text, u16::MAX as u64) {
        Some(v) => Some(v as u16),
        None => None,
    }
}

impl Config {
    /// The settings where nothing is set.
    pub fn new() -> (config: Config)
        ensures
            config@ == (ConfigView {
                bind_addr: default_bind_addr(),
                port: DEFAULT_PORT,
                max_clients: DEFAULT_MAX_CLIENTS,
            }),
    {
        Config {
            bind_addr: "0.0.0.0".to_owned(),
            port: DEFAULT_PORT,
            max_clients: DEFAULT_MAX_CLIENTS,
        }
    }

    /// The settings that the environment gives, from the values of the
    /// three variables, each `None` where the variable is not set.
    pub fn from_env_values(
        bind_addr: Option<String>,
        port: Option<String>,
        max_clients: Option<String>,
    ) -> (r: Result<Config, ConfigError>)
        ensures
            config_result_view(r) == settings_of_env(
                match bind_addr {
                    Some(text) => Some(text@),
                    None => None,
                },
                match port {
                    Some(text) => Some(text@),
                    None => None,
                },
                match max_clients {
                    Some(text) => Some(text@),
                    None => None,
                },
            ),
    {
        let bind_addr = match bind_addr {
            Some(text) => text,
            None => "0.0.0.0".to_owned(),
        };
        let port = match port {
            Some(text) => match parse_port(text.as_str()) {
                Some(port) => port,
                None => {
                    return Err(ConfigError::InvalidPort(text));
                },
            },
            None => DEFAULT_PORT,
        };
        let max_clients = match max_clients {
            Some(text) => match parse_number(text.as_str(), usize::MAX as u64) {
                Some(max_clients) => max_clients as usize,
                None => {
                    return Err(ConfigError::InvalidMaxClients(text));
                },
            },
            None => DEFAULT_MAX_CLIENTS,
        };
        Ok(Config { bind_addr, port, max_clients })
    }

    /// Makes the command line override what the environment gave. `args`
    /// are the arguments after the program's name.
    pub fn apply_args(self, args: &Vec<String>) -> (r: Result<Config, ConfigError>)
        ensures
            config_result_view(r) == with_args(self@, texts_view(args@)),
    {
        let mut config = self;
        let mut i: usize = 0;
        let ghost all = texts_view(args@);
        proof {
            assert(all.skip(0) =~= all);
        }
        while i < args.len()
            invariant
                i <= args.len(),
                all == texts_view(args@),
                with_args(self@, all) == with_args(config@, all.skip(i as int)),
            decreases args.len() - i,
        {
            let ghost rest = all.skip(i as int);
            proof {
                assert(rest[0] == args@[i as int]@);
                assert(rest.drop_first() =~= all.skip(i + 1));
            }
            if string_is(args[i].as_str(), "--addr") {
                if i + 1 >= args.len() {
                    return Err(ConfigError::MissingAddrValue);
                }
                proof {
                    assert(rest[1] == args@[i + 1]@);
                    assert(rest.skip(2) =~= all.skip(i + 2));
                }
                config = match config.apply_addr(args[i + 1].as_str()) {
                    Ok(next) => next,
                    Err(e) => {
                        return Err(e);
                    },
                };
                i += 2;
            } else {
                i += 1;
            }
        }
        Ok(config)
    }

    /// Replaces address and port by the host and the port of `value`,
    /// which are separated by one colon.
    pub fn apply_addr(self, value: &str) -> (r: Result<Config, ConfigError>)
        ensures
            config_result_view(r) == with_addr(self@, value@),
    {
        let parts = split(value, ':');
        if parts.len() != 2 {
            return Err(ConfigError::InvalidAddr(value.to_owned()));
        }
        proof {
            assert(texts_view(parts@)[0] == parts@[0]@);
            assert(texts_view(parts@)[1] == parts@[1]@);
        }
        match parse_port(parts[1].as_str()) {
            Some(port) => Ok(
                Config { bind_addr: parts[0].clone(), port, max_clients: self.max_clients },
            ),
            None => Err(ConfigError::InvalidAddrPort(value.to_owned())),
        }
    }

    /// Address and port as one text, with a colon between them.
    pub fn socket_addr_string(&self) -> (text: String)
        ensures
            text@ == self@.bind_addr + ":"@ + decimal(self.port as nat),
    {
        let mut text = self.bind_addr.clone();
        text.append(":");
        push_decimal(&mut text, self.port as u32);
        text
    }

    /// The port to try after `port` was found in use at the given
    /// attempt, counted from one; `None` when the search is over.
    pub fn next_port(port: u16, attempt: u8) -> (next: Option<u16>)
        ensures
            next == port_after(port, attempt),
    {
        if attempt < MAX_BIND_ATTEMPTS && port < u16::MAX {
            Some(port + 1)
        } else {
            None
        }
    }
}

impl Default for Config {
    fn default() -> (config: Config)
        ensures
            config@ == (ConfigView {
                bind_addr: default_bind_addr(),
                port: DEFAULT_PORT,
                max_clients: DEFAULT_MAX_CLIENTS,
            }),
    {
        Config::new()
    }
}

/// Tells whether two texts are the same.
fn string_is(text: &str, other: &str) -> (same: bool)
    ensures
        same == (text@ == other@),
{
    let a = chars_of(text);
    let b = chars_of(other);
    if a.len() != b.len() {
        return false;
    }
    let mut i: usize = 0;
    while i < a.len()
        invariant
            i <= a.len(),
            a.len() == b.len(),
            a@ == text@,
            b@ == other@,
            forall|k: int| 0 <= k < i ==> a@[k] == b@[k],
        decreases a.len() - i,
    {
        if a[i] != b[i] {
            return false;
        }
        i += 1;
    }
    proof {
        assert(a@ =~= b@);
    }
    true
}

/// At most [`MAX_BIND_ATTEMPTS`] ports are tried, each the one after the
/// one before: after the last attempt no port is left to try.
pub proof fn lemma_bind_attempts_are_bounded(port: u16, attempt: u8)
    ensures
        attempt >= MAX_BIND_ATTEMPTS ==> port_after(port, attempt) is None,
        port_after(port, attempt) matches Some(next) ==> next == port + 1,
{
}

} // verus!
