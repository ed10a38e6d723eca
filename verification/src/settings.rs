//! The capsule's configuration, and what follows from it alone.

use crate::text::{joined, parse_u64, parsed_u64, trim_end_char, trimmed_end};
use serde_json::Value;
use vstd::prelude::*;
use vstd::string::*;

verus! {

/// The configured values, each absent where it is not set or cannot be read.
#[derive(Debug, PartialEq)]
pub struct Settings {
    /// The API key.
    pub api_key: Option<String>,
    /// The provider's origin, without `/v1`.
    pub base_url: Option<String>,
    /// The default model.
    pub model: Option<String>,
    /// The context window to advertise, in tokens.
    pub context_window: Option<String>,
    /// The most tokens to ask for.
    pub max_output_tokens: Option<String>,
    /// The sampling temperature, as a JSON number.
    pub temperature: Option<Value>,
}

/// The text of a setting; `fallback` where it is absent.
pub open spec fn setting_text(setting: Option<String>, fallback: Seq<char>) -> Seq<char> {
    match setting {
        Some(text) => text@,
        None => fallback,
    }
}

/// The number that a setting spells, where it is there and spells one.
pub open spec fn setting_number(setting: Option<String>) -> Option<u64> {
    match setting {
        Some(text) => parsed_u64(text@),
        None => None,
    }
}

/// `number`, or `fallback` where it is absent.
pub open spec fn number_or(number: Option<u64>, fallback: u64) -> u64 {
    match number {
        Some(n) => n,
        None => fallback,
    }
}

/// The text of a setting; `fallback` where it is absent.
pub fn text_setting(setting: &Option<String>, fallback: &str) -> (text: String)
    ensures
        text@ == setting_text(*setting, fallback@),
{
    match setting {
        Some(text) => text.clone(),
        None => fallback.to_owned(),
    }
}

/// The number that a setting spells.
pub fn number_setting(setting: &Option<String>) -> (number: Option<u64>)
    ensures
        number == setting_number(*setting),
{
    match setting {
        Some(text) => parse_u64(text.as_str()),
        None => None,
    }
}

/// The configured API key; empty where there is none.
pub open spec fn api_key(settings: Settings) -> Seq<char> {
    setting_text(settings.api_key, Seq::empty())
}

/// The header that authorizes a request with `key`.
pub open spec fn bearer(key: Seq<char>) -> Seq<char> {
    "Bearer "@ + key
}

/// The address of `path` at the configured provider: its origin without slashes
/// at the end, then `path`.
pub open spec fn endpoint(settings: Settings, path: Seq<char>) -> Seq<char> {
    trimmed_end(setting_text(settings.base_url, "https://api.openai.com"@), '/') + path
}

impl Settings {
    /// The address of `path` at the configured provider.
    pub fn endpoint_url(&self, path: &str) -> (url: String)
        ensures
            url@ == endpoint(*self, path@),
    {
        let base: String = text_setting(&self.base_url, "https://api.openai.com");
        joined(trim_end_char(base.as_str(), '/').as_str(), path)
    }

    /// The authorization header; `None` where no API key is configured.
    pub fn authorization(&self) -> (header: Option<String>)
        ensures
            match header {
                Some(text) => api_key(*self).len() > 0 && text@ == bearer(api_key(*self)),
                None => api_key(*self).len() == 0,
            },
    {
        let key: String = text_setting(&self.api_key, "");
        proof {
            reveal_strlit("");
            assert(""@ == Seq::<char>::empty());
        }
        if key.as_str().is_empty() {
            None
        } else {
            Some(joined("Bearer ", key.as_str()))
        }
    }
}

} // verus!
