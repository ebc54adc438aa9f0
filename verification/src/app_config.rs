//! The bot's settings.
use vstd::prelude::*;

use crate::bot::events::chat::opt_view;
use crate::text::{chars_of, concat_chars, string_of};

verus! {

/// The settings that the bot needs, and those it may be given.
#[derive(Debug)]
pub struct AppConfig {
    pub email: String,
    pub server_uri: String,
    pub server_port: String,
    pub mc_version: String,
    pub rust_log: Option<String>,
    pub sudo_player: Option<String>,
    pub auth_cache_file: Option<String>,
}

/// The settings that must be given, in the order in which they are looked for.
#[derive(Debug, Clone, Copy, PartialEq, Eq, Structural)]
pub enum ConfigField {
    Email,
    ServerUri,
    ServerPort,
    McVersion,
}

/// Why the settings could not be read.
#[derive(Debug, Clone, Copy, PartialEq, Eq, Structural)]
pub enum ConfigError {
    /// A setting that must be given is missing.
    MissingField(ConfigField),
}

/// The key of a setting that must be given.
pub open spec fn field_key(f: ConfigField) -> Seq<char> {
    match f {
        ConfigField::Email => "email"@,
        ConfigField::ServerUri => "server_uri"@,
        ConfigField::ServerPort => "server_port"@,
        ConfigField::McVersion => "mc_version"@,
    }
}

/// The place of a setting that must be given in the order of the lookup.
pub open spec fn field_order(f: ConfigField) -> int {
    match f {
        ConfigField::Email => 0,
        ConfigField::ServerUri => 1,
        ConfigField::ServerPort => 2,
        ConfigField::McVersion => 3,
    }
}

/// The texts of key-value settings.
pub open spec fn setting_views(s: Seq<(String, String)>) -> Seq<(Seq<char>, Seq<char>)> {
    s.map_values(|kv: (String, String)| (kv.0@, kv.1@))
}

/// The value of `key` among `settings`: that of its last entry, so that a
/// source read later overrides one read earlier.
pub open spec fn lookup(settings: Seq<(Seq<char>, Seq<char>)>, key: Seq<char>) -> Option<Seq<char>>
    decreases settings.len(),
{
    if settings.len() == 0 {
        None
    } else if settings.last().0 == key {
        Some(settings.last().1)
    } else {
        lookup(settings.drop_last(), key)
    }
}

/// A value set last wins over those set before it, and leaves the other keys alone.
pub proof fn law_later_setting_wins(
    settings: Seq<(Seq<char>, Seq<char>)>,
    key: Seq<char>,
    value: Seq<char>,
    other: Seq<char>,
)
    requires
        other != key,
    ensures
        lookup(settings.push((key, value)), key) == Some(value),
        lookup(settings.push((key, value)), other) == lookup(settings, other),
{
    assert(settings.push((key, value)).drop_last() =~= settings);
}

/// The value of `key` among `settings`.
fn lookup_exec(settings: &Vec<(String, String)>, key: &String) -> (r: Option<String>)
    ensures
        opt_view(r) == lookup(setting_views(settings@), key@),
{
    let ghost s = setting_views(settings@);
    let mut i = settings.len();
    assert(s.take(i as int) =~= s);
    while i > 0
        invariant
            i <= settings@.len(),
            s == setting_views(settings@),
            lookup(s, key@) == lookup(s.take(i as int), key@),
        decreases i,
    {
        assert(s.take(i as int).drop_last() =~= s.take(i - 1));
        assert(s.take(i as int).last() == s[i - 1]);
        if settings[i - 1].0 == *key {
            return Some(settings[i - 1].1.clone());
        }
        i = i - 1;
    }
    None
}

impl AppConfig {
    /// Reads the settings from key-value pairs, listed in the order in which
    /// their sources are read: for each key, the value set last is taken.
    /// The first missing setting among those that must be given, in the
    /// order email, server URI, server port, Minecraft version, is reported.
    pub fn new(settings: &Vec<(String, String)>) -> (r: Result<AppConfig, ConfigError>)
        ensures
            ({
                let s = setting_views(settings@);
                match r {
                    Ok(c) => {
                        &&& lookup(s, "email"@) == Some(c.email@)
                        &&& lookup(s, "server_uri"@) == Some(c.server_uri@)
                        &&& lookup(s, "server_port"@) == Some(c.server_port@)
                        &&& lookup(s, "mc_version"@) == Some(c.mc_version@)
                        &&& lookup(s, "rust_log"@) == opt_view(c.rust_log)
                        &&& lookup(s, "sudo_player"@) == opt_view(c.sudo_player)
                        &&& lookup(s, "auth_cache_file"@) == opt_view(c.auth_cache_file)
                    },
                    Err(ConfigError::MissingField(f)) => {
                        &&& lookup(s, field_key(f)) is None
                        &&& forall|g: ConfigField|
                            field_order(g) < field_order(f) ==> lookup(s, #[trigger] field_key(g)) is Some
                    },
                }
            }),
    {
        let email = match lookup_exec(settings, &"email".to_owned()) {
            Some(v) => v,
            None => {
                return Err(ConfigError::MissingField(ConfigField::Email));
            },
        };
        let server_uri = match lookup_exec(settings, &"server_uri".to_owned()) {
            Some(v) => v,
            None => {
                return Err(ConfigError::MissingField(ConfigField::ServerUri));
            },
        };
        let server_port = match lookup_exec(settings, &"server_port".to_owned()) {
            Some(v) => v,
            None => {
                return Err(ConfigError::MissingField(ConfigField::ServerPort));
            },
        };
        let mc_version = match lookup_exec(settings, &"mc_version".to_owned()) {
            Some(v) => v,
            None => {
                return Err(ConfigError::MissingField(ConfigField::McVersion));
            },
        };
        let rust_log = lookup_exec(settings, &"rust_log".to_owned());
        let sudo_player = lookup_exec(settings, &"sudo_player".to_owned());
        let auth_cache_file = lookup_exec(settings, &"auth_cache_file".to_owned());
        Ok(AppConfig {
            email,
            server_uri,
            server_port,
            mc_version,
            rust_log,
            sudo_player,
            auth_cache_file,
        })
    }

    /// The log level: the one configured, else `info`.
    pub fn log_level(&self) -> (s: String)
        ensures
            s@ == (match self.rust_log {
                Some(l) => l@,
                None => "info"@,
            }),
    {
        match &self.rust_log {
            Some(l) => l.clone(),
            None => "info".to_owned(),
        }
    }

    /// The file that caches the account's login: the one configured, else `info`.
    pub fn auth_cache_path(&self) -> (s: String)
        ensures
            s@ == (match self.auth_cache_file {
                Some(f) => f@,
                None => "info"@,
            }),
    {
        match &self.auth_cache_file {
            Some(f) => f.clone(),
            None => "info".to_owned(),
        }
    }

    /// The address of the game server: its URI, `:` and its port.
    pub fn server_address(&self) -> (s: String)
        ensures
            s@ == self.server_uri@ + ":"@ + self.server_port@,
    {
        let head = concat_chars(&chars_of(self.server_uri.as_str()), &chars_of(":"));
        let line = concat_chars(&head, &chars_of(self.server_port.as_str()));
        string_of(&line)
    }
}

} // verus!
