//! The exporter's settings, worked out from what the environment holds.

use vstd::prelude::*;
use vstd::string::StringExecFns;
use crate::number::{parse_unsigned, unsigned_value};
use crate::text::{chars_of, string_of, trim, trim_range};

verus! {

/// What the environment holds for the exporter, each value as it was found
/// and `None` where it is not set.
pub struct Environment {
    /// The contents of the file that `RSYNC_USERNAME_FILE` names, where that
    /// variable is set.
    pub username_file: Option<String>,
    /// `RSYNC_USERNAME`
    pub username: Option<String>,
    /// `RSYNC_SSH_KEY_PATH`
    pub ssh_key_path: Option<String>,
    /// `RSYNC_HOST`
    pub host: Option<String>,
    /// `RSYNC_EXPORTER_PORT`
    pub port: Option<String>,
    /// `RSYNC_FETCH_INTERVAL_SECONDS`
    pub fetch_interval_seconds: Option<String>,
    /// `RSYNC_LISTEN_ADDRESS`
    pub listen_address: Option<String>,
}

/// The settings the exporter runs with. The listen address is kept as text.
#[derive(Debug, Clone)]
pub struct Config {
    pub username: String,
    pub host: String,
    pub ssh_key_path: String,
    pub port: u16,
    pub fetch_interval_seconds: u64,
    pub listen_address: String,
}

/// Settings as plain values.
pub struct ConfigView {
    pub username: Seq<char>,
    pub host: Seq<char>,
    pub ssh_key_path: Seq<char>,
    pub port: u16,
    pub fetch_interval_seconds: u64,
    pub listen_address: Seq<char>,
}

impl View for Config {
    type V = ConfigView;

    open spec fn view(&self) -> ConfigView {
        ConfigView {
            username: self.username@,
            host: self.host@,
            ssh_key_path: self.ssh_key_path@,
            port: self.port,
            fetch_interval_seconds: self.fetch_interval_seconds,
            listen_address: self.listen_address@,
        }
    }
}

/// Why the environment gives no settings.
#[derive(Debug, Clone, Copy, PartialEq, Eq, Structural)]
pub enum ConfigError {
    /// Neither the user name nor a file that holds it is set.
    MissingUsername,
    /// The path of the private key is not set.
    MissingKeyPath,
    /// The port is set to something that is no integer up to 65535.
    InvalidPort,
    /// The fetch interval is set to something that is no integer up to
    /// `u64::MAX`.
    InvalidInterval,
}

impl ConfigError {
    /// The failure in words.
    pub fn message(&self) -> (r: String)
        ensures
            r@ == match *self {
                ConfigError::MissingUsername => "RSYNC_USERNAME or RSYNC_USERNAME_FILE must be set"@,
                ConfigError::MissingKeyPath => "RSYNC_SSH_KEY_PATH must be set"@,
                ConfigError::InvalidPort => "RSYNC_EXPORTER_PORT must be a valid u16"@,
                ConfigError::InvalidInterval => "RSYNC_FETCH_INTERVAL_SECONDS must be a valid u64"@,
            },
    {
        match self {
            ConfigError::MissingUsername => {
                "RSYNC_USERNAME or RSYNC_USERNAME_FILE must be set".to_owned()
            },
            ConfigError::MissingKeyPath => "RSYNC_SSH_KEY_PATH must be set".to_owned(),
            ConfigError::InvalidPort => "RSYNC_EXPORTER_PORT must be a valid u16".to_owned(),
            ConfigError::InvalidInterval => {
                "RSYNC_FETCH_INTERVAL_SECONDS must be a valid u64".to_owned()
            },
        }
    }
}

/// The user name: what the file holds, trimmed, where a file is named, and
/// else the variable's value.
pub open spec fn username_of(env: Environment) -> Option<Seq<char>> {
    match env.username_file {
        Some(contents) => Some(trim(contents@)),
        None => match env.username {
            Some(name) => Some(name@),
            None => None,
        },
    }
}

/// The port: 9000 where none is set.
pub open spec fn port_of(env: Environment) -> Option<u16> {
    match env.port {
        None => Some(9000u16),
        Some(text) => match unsigned_value(text@) {
            Some(v) => if v <= u16::MAX {
                Some(v as u16)
            } else {
                None
            },
            None => None,
        },
    }
}

/// The seconds between two fetches: 3600 where none are set.
pub open spec fn interval_of(env: Environment) -> Option<u64> {
    match env.fetch_interval_seconds {
        None => Some(3600u64),
        Some(text) => unsigned_value(text@),
    }
}

/// The settings that an environment gives, or the first thing that is wrong
/// with it: the user name is looked at first, then the key path, the port and
/// the interval. The host defaults to the user name followed by `.rsync.net`,
/// the listen address to `0.0.0.0`.
pub open spec fn loaded(env: Environment) -> Result<ConfigView, ConfigError> {
    if username_of(env) is None {
        Err(ConfigError::MissingUsername)
    } else if env.ssh_key_path is None {
        Err(ConfigError::MissingKeyPath)
    } else if port_of(env) is None {
        Err(ConfigError::InvalidPort)
    } else if interval_of(env) is None {
        Err(ConfigError::InvalidInterval)
    } else {
        Ok(
            ConfigView {
                username: username_of(env)->0,
                host: match env.host {
                    Some(host) => host@,
                    None => username_of(env)->0 + ".rsync.net"@,
                },
                ssh_key_path: env.ssh_key_path->0@,
                port: port_of(env)->0,
                fetch_interval_seconds: interval_of(env)->0,
                listen_address: match env.listen_address {
                    Some(address) => address@,
                    None => "0.0.0.0"@,
                },
            },
        )
    }
}

/// What `Config::load` returns, as plain values.
pub open spec fn load_outcome(r: Result<Config, ConfigError>) -> Result<ConfigView, ConfigError> {
    match r {
        Ok(config) => Ok(config@),
        Err(e) => Err(e),
    }
}

/// Reads the whole of `text` as an unsigned integer.
fn parse_number(text: &str) -> (r: Option<u64>)
    ensures
        r == unsigned_value(text@),
{
    let chars = chars_of(text);
    assert(chars@.subrange(0, chars.len() as int) =~= chars@);
    parse_unsigned(&chars, 0, chars.len())
}

/// `text` without the whitespace around it.
fn trimmed(text: &str) -> (r: String)
    ensures
        r@ == trim(text@),
{
    let chars = chars_of(text);
    assert(chars@.subrange(0, chars.len() as int) =~= chars@);
    let (a, b) = trim_range(&chars, 0, chars.len());
    string_of(&chars, a, b)
}

impl Config {
    /// Works out the settings from what the environment holds.
    pub fn load(env: Environment) -> (r: Result<Config, ConfigError>)
        ensures
            load_outcome(r) == loaded(env),
    {
        let username = match env.username_file {
            Some(contents) => trimmed(contents.as_str()),
            None => match env.username {
                Some(name) => name,
                None => { return Err(ConfigError::MissingUsername); },
            },
        };
        let ssh_key_path = match env.ssh_key_path {
            Some(path) => path,
            None => { return Err(ConfigError::MissingKeyPath); },
        };
        let host = match env.host {
            Some(host) => host,
            None => {
                let mut host = String::from_str(username.as_str());
                host.append(".rsync.net");
                host
            },
        };
        let port: u16 = match env.port {
            None => 9000,
            Some(text) => match parse_number(text.as_str()) {
                Some(v) => {
                    if v > 65535 {
                        return Err(ConfigError::InvalidPort);
                    }
                    v as u16
                },
                None => { return Err(ConfigError::InvalidPort); },
            },
        };
        let fetch_interval_seconds: u64 = match env.fetch_interval_seconds {
            None => 3600,
            Some(text) => match parse_number(text.as_str()) {
                Some(v) => v,
                None => { return Err(ConfigError::InvalidInterval); },
            },
        };
        let listen_address = match env.listen_address {
            Some(address) => address,
            None => "0.0.0.0".to_owned(),
        };
        Ok(Config { username, host, ssh_key_path, port, fetch_interval_seconds, listen_address })
    }
}

} // verus!
