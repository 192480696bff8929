use vstd::prelude::*;

use crate::ids::ApplicationId;
use crate::split::{split_once, split_once_at};

verus! {

/// The name of an application's API key: `<application>.<key>`, split at the
/// first dot, both parts non-empty.
#[derive(Debug)]
pub struct ApplicationKeyName {
    application_id: ApplicationId,
    key: String,
}

/// The application and key of a key name, when it is one.
pub open spec fn spec_key_name(text: Seq<char>) -> Option<(Seq<char>, Seq<char>)> {
    match split_once(text, '.') {
        Some((application, key)) => if application.len() > 0 && key.len() > 0 {
            Some((application, key))
        } else {
            None
        },
        None => None,
    }
}

impl View for ApplicationKeyName {
    type V = (Seq<char>, Seq<char>);

    closed spec fn view(&self) -> (Seq<char>, Seq<char>) {
        (self.application_id@, self.key@)
    }
}

impl ApplicationKeyName {
    /// Reads a key name; `None` when it is not `<application>.<key>`.
    pub fn parse(text: &str) -> (r: Option<Self>)
        ensures
            match (r, spec_key_name(text@)) {
                (Some(name), Some(parts)) => name@ == parts,
                (None, None) => true,
                _ => false,
            },
    {
        match split_once_at(text, '.') {
            Some((application, key)) => {
                if application.as_str().is_empty() || key.as_str().is_empty() {
                    None
                } else {
                    Some(ApplicationKeyName { application_id: ApplicationId(application), key })
                }
            },
            None => None,
        }
    }

    /// The application the key belongs to.
    pub fn application_id(&self) -> (r: &ApplicationId)
        ensures
            r@ == self@.0,
    {
        &self.application_id
    }
}

/// Why the realtime configuration could not be read.
#[derive(Debug)]
pub enum ConfigError {
    /// The environment variable could not be read; the reason, as text.
    Environment(String),
    /// The API key is not `<application>.<key>:<secret>` with a non-empty secret.
    InvalidApiKeyFormat,
}

/// The realtime service's own API key.
#[derive(Debug)]
pub struct RealtimeConfig {
    pub application_id: ApplicationId,
    pub key_name: String,
    pub key_secret: String,
}

/// The application, key name and secret of an API key, when it is one.
pub open spec fn spec_credentials(text: Seq<char>) -> Option<(Seq<char>, Seq<char>, Seq<char>)> {
    match split_once(text, ':') {
        Some((name, secret)) => match spec_key_name(name) {
            Some((application, _)) => if secret.len() > 0 {
                Some((application, name, secret))
            } else {
                None
            },
            None => None,
        },
        None => None,
    }
}

impl RealtimeConfig {
    /// Reads an API key `<application>.<key>:<secret>`: it splits at the first
    /// `:`, and the secret must not be empty.
    pub fn parse(credentials: &str) -> (r: Result<Self, ConfigError>)
        ensures
            match (r, spec_credentials(credentials@)) {
                (Ok(config), Some((application, name, secret))) => {
                    &&& config.application_id@ == application
                    &&& config.key_name@ == name
                    &&& config.key_secret@ == secret
                },
                (Err(ConfigError::InvalidApiKeyFormat), None) => true,
                _ => false,
            },
    {
        let (key_name, key_secret) = match split_once_at(credentials, ':') {
            Some(parts) => parts,
            None => {
                return Err(ConfigError::InvalidApiKeyFormat);
            },
        };
        let application_key_name = match ApplicationKeyName::parse(key_name.as_str()) {
            Some(name) => name,
            None => {
                return Err(ConfigError::InvalidApiKeyFormat);
            },
        };
        if key_secret.as_str().is_empty() {
            return Err(ConfigError::InvalidApiKeyFormat);
        }
        Ok(
            RealtimeConfig {
                application_id: application_key_name.application_id().clone(),
                key_name,
                key_secret,
            },
        )
    }
}

} // verus!
