//! Providers and the settings record.
use vstd::prelude::*;
use crate::text::{chars_of, copy_range, string_of, trim, trim_chars};

verus! {

/// The model providers this tool can talk to.
#[derive(Clone, Copy, Debug, PartialEq, Eq, Structural)]
pub enum ProviderKind {
    Anthropic,
    OpenAi,
    OpenRouter,
    LmStudio,
}

/// The wire format of a provider's streamed answer.
#[derive(Clone, Copy, Debug, PartialEq, Eq, Structural)]
pub enum Dialect {
    /// Typed events with an explicit message and content-block lifecycle.
    StructuredEvents,
    /// One chat-completion JSON object per event.
    ChatCompletion,
}

impl Default for ProviderKind {
    fn default() -> (r: Self)
        ensures
            r == ProviderKind::Anthropic,
    {
        ProviderKind::Anthropic
    }
}

pub open spec fn dialect_of(p: ProviderKind) -> Dialect {
    match p {
        ProviderKind::Anthropic => Dialect::StructuredEvents,
        _ => Dialect::ChatCompletion,
    }
}

pub open spec fn display_name_of(p: ProviderKind) -> Seq<char> {
    match p {
        ProviderKind::Anthropic => "Anthropic"@,
        ProviderKind::OpenAi => "OpenAI"@,
        ProviderKind::OpenRouter => "OpenRouter"@,
        ProviderKind::LmStudio => "LM Studio (local)"@,
    }
}

pub open spec fn default_api_base_of(p: ProviderKind) -> Seq<char> {
    match p {
        ProviderKind::Anthropic => "https://api.anthropic.com/v1"@,
        ProviderKind::OpenAi => "https://api.openai.com/v1"@,
        ProviderKind::OpenRouter => "https://openrouter.ai/api/v1"@,
        ProviderKind::LmStudio => "http://localhost:1234/v1"@,
    }
}

impl ProviderKind {
    /// The dialect this provider streams in.
    pub fn dialect(&self) -> (r: Dialect)
        ensures
            r == dialect_of(*self),
    {
        match self {
            ProviderKind::Anthropic => Dialect::StructuredEvents,
            _ => Dialect::ChatCompletion,
        }
    }

    pub fn display_name(&self) -> (r: &'static str)
        ensures
            r@ == display_name_of(*self),
    {
        match self {
            ProviderKind::Anthropic => "Anthropic",
            ProviderKind::OpenAi => "OpenAI",
            ProviderKind::OpenRouter => "OpenRouter",
            ProviderKind::LmStudio => "LM Studio (local)",
        }
    }

    /// Every provider but the local one needs an API key.
    pub fn requires_api_key(&self) -> (r: bool)
        ensures
            r == (*self != ProviderKind::LmStudio),
    {
        match self {
            ProviderKind::LmStudio => false,
            _ => true,
        }
    }

    pub fn default_api_base(&self) -> (r: &'static str)
        ensures
            r@ == default_api_base_of(*self),
    {
        match self {
            ProviderKind::Anthropic => "https://api.anthropic.com/v1",
            ProviderKind::OpenAi => "https://api.openai.com/v1",
            ProviderKind::OpenRouter => "https://openrouter.ai/api/v1",
            ProviderKind::LmStudio => "http://localhost:1234/v1",
        }
    }
}

/// The settings record.
pub struct Config {
    pub provider: ProviderKind,
    pub api_key: Option<String>,
    pub default_model: String,
    pub api_base_override: Option<String>,
}

pub open spec fn default_model_name() -> Seq<char> {
    Seq::empty()
}

/// The model a fresh configuration starts with: none, until setup picks one.
pub fn default_model() -> (r: String)
    ensures
        r@ == default_model_name(),
{
    String::new()
}

impl Default for Config {
    fn default() -> (r: Self)
        ensures
            r.provider == ProviderKind::Anthropic,
            r.api_key is None,
            r.default_model@ == default_model_name(),
            r.api_base_override is None,
    {
        Config {
            provider: ProviderKind::Anthropic,
            api_key: None,
            default_model: default_model(),
            api_base_override: None,
        }
    }
}

/// A text that is more than whitespace.
pub open spec fn has_content(s: Seq<char>) -> bool {
    trim(s).len() > 0
}

/// Masked form of a key: short keys (up to eleven characters) are shown whole,
/// longer ones as their first seven characters, `...`, and their last four.
pub open spec fn key_preview(k: Seq<char>) -> Option<Seq<char>> {
    if k.len() == 0 {
        None
    } else if k.len() <= 11 {
        Some(k)
    } else {
        Some(k.take(7) + "..."@ + k.skip(k.len() - 4))
    }
}

impl Config {
    /// The endpoint base: the override where one is set, else the provider's default.
    pub fn api_base(&self) -> (r: String)
        ensures
            r@ == match self.api_base_override {
                Some(b) => b@,
                None => default_api_base_of(self.provider),
            },
    {
        match &self.api_base_override {
            Some(b) => b.clone(),
            None => self.provider.default_api_base().to_owned(),
        }
    }

    /// A model is named and, where the provider needs one, a key is given.
    pub fn is_configured(&self) -> (r: bool)
        ensures
            r == (has_content(self.default_model@) && (self.provider != ProviderKind::LmStudio
                ==> match self.api_key {
                Some(k) => has_content(k@),
                None => false,
            })),
    {
        let model = chars_of(self.default_model.as_str());
        let model_trimmed = trim_chars(&model);
        if model_trimmed.len() == 0 {
            return false;
        }
        if self.provider.requires_api_key() {
            match &self.api_key {
                Some(k) => {
                    let key = chars_of(k.as_str());
                    let key_trimmed = trim_chars(&key);
                    key_trimmed.len() > 0
                },
                None => false,
            }
        } else {
            true
        }
    }

    /// The key in masked form, for display; none where no key is set or it is empty.
    pub fn api_key_preview(&self) -> (r: Option<String>)
        ensures
            match r {
                Some(p) => match self.api_key {
                    Some(k) => key_preview(k@) == Some(p@),
                    None => false,
                },
                None => match self.api_key {
                    Some(k) => key_preview(k@) is None,
                    None => true,
                },
            },
    {
        let key = match &self.api_key {
            Some(k) => k,
            None => {
                return None;
            },
        };
        let cs = chars_of(key.as_str());
        let n = cs.len();
        if n == 0 {
            return None;
        }
        if n <= 11 {
            return Some(string_of(&cs));
        }
        let mut out = copy_range(&cs, 0, 7);
        crate::text::append_str(&mut out, "...");
        let tail = copy_range(&cs, n - 4, n);
        crate::text::append_chars(&mut out, &tail);
        proof {
            assert(cs@.take(7) =~= cs@.subrange(0, 7));
            assert(cs@.skip(n - 4) =~= cs@.subrange(n - 4, n as int));
        }
        Some(string_of(&out))
    }
}

/// How an on/off setting is shown.
pub fn humanize_bool(value: bool) -> (r: String)
    ensures
        r@ == if value {
            "Enabled"@
        } else {
            "Disabled"@
        },
{
    if value {
        "Enabled".to_owned()
    } else {
        "Disabled".to_owned()
    }
}

} // verus!
