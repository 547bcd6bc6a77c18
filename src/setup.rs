//! Decisions of the interactive setup: what a prompt starts with and what an answer
//! is worth.
use vstd::prelude::*;
use crate::config::{Config, ProviderKind, default_api_base_of, has_content};
use crate::render::string_views;
use crate::request::trim_trailing_slashes;
use crate::text::{chars_of, string_of, trim, trim_chars};

verus! {

/// An answer that must not be blank, trimmed; none where it is blank.
pub open spec fn required_answer(v: Seq<char>) -> Option<Seq<char>> {
    if trim(v).len() > 0 {
        Some(trim(v))
    } else {
        None
    }
}

/// Reads a typed answer that must not be blank (an API key, a model identifier).
pub fn required_input(value: &str) -> (r: Option<String>)
    ensures
        match r {
            Some(s) => required_answer(value@) == Some(s@),
            None => required_answer(value@) is None,
        },
{
    let cs = chars_of(value);
    let t = trim_chars(&cs);
    if t.len() > 0 {
        Some(string_of(&t))
    } else {
        None
    }
}

/// Reads a typed endpoint base: trimmed, refused where blank, without trailing slashes.
pub fn api_base_input(value: &str) -> (r: Option<String>)
    ensures
        match r {
            Some(s) => has_content(value@) && s@ == trim_trailing_slashes(trim(value@)),
            None => !has_content(value@),
        },
{
    let cs = chars_of(value);
    let t = trim_chars(&cs);
    if t.len() == 0 {
        return None;
    }
    let s = string_of(&t);
    Some(crate::request::normalize_api_base(s.as_str()))
}

/// The base a local-server prompt starts with: the saved one where it is not blank,
/// else the local provider's default.
pub fn local_base_preset(preset: Option<&str>) -> (r: String)
    ensures
        r@ == match preset {
            Some(p) => if has_content(p@) {
                p@
            } else {
                default_api_base_of(ProviderKind::LmStudio)
            },
            None => default_api_base_of(ProviderKind::LmStudio),
        },
{
    match preset {
        Some(p) => {
            let cs = chars_of(p);
            if trim_chars(&cs).len() > 0 {
                return p.to_owned();
            }
        },
        None => {},
    }
    ProviderKind::LmStudio.default_api_base().to_owned()
}

pub open spec fn provider_order() -> Seq<ProviderKind> {
    seq![ProviderKind::Anthropic, ProviderKind::OpenAi, ProviderKind::OpenRouter, ProviderKind::LmStudio]
}

/// The providers in the order the setup offers them.
pub fn provider_choices() -> (r: Vec<ProviderKind>)
    ensures
        r@ == provider_order(),
{
    let r = vec![ProviderKind::Anthropic, ProviderKind::OpenAi, ProviderKind::OpenRouter, ProviderKind::LmStudio];
    proof {
        assert(r@ =~= provider_order());
    }
    r
}

/// Where `current` stands among the offered providers.
pub fn provider_position(current: ProviderKind) -> (r: usize)
    ensures
        r < 4,
        provider_order()[r as int] == current,
{
    match current {
        ProviderKind::Anthropic => 0,
        ProviderKind::OpenAi => 1,
        ProviderKind::OpenRouter => 2,
        ProviderKind::LmStudio => 3,
    }
}

/// The option a model list starts on: the current model where it is listed, else the first.
pub fn default_model_index(options: &[String], current: Option<&str>) -> (r: usize)
    ensures
        options@.len() == 0 ==> r == 0,
        options@.len() > 0 ==> r < options@.len(),
        match current {
            Some(c) => if string_views(options@).contains(c@) {
                string_views(options@)[r as int] == c@ && forall|i: int|
                    0 <= i < r ==> string_views(options@)[i] != c@
            } else {
                r == 0
            },
            None => r == 0,
        },
{
    let c = match current {
        Some(c) => c,
        None => {
            return 0;
        },
    };
    let mut i: usize = 0;
    while i < options.len()
        invariant
            i <= options@.len(),
            current == Some(c),
            forall|j: int| 0 <= j < i ==> string_views(options@)[j] != c@,
        decreases options@.len() - i,
    {
        if crate::text::str_is(options[i].as_str(), c) {
            proof {
                assert(string_views(options@)[i as int] == options@[i as int]@);
            }
            return i;
        }
        i += 1;
    }
    proof {
        if string_views(options@).contains(c@) {
            let j = choose|j: int| 0 <= j < options@.len() && string_views(options@)[j] == c@;
            assert(string_views(options@)[j] != c@);
        }
    }
    0
}

/// The settings after a setup: the provider, its key where it takes one, the model,
/// and the endpoint base kept only for the local provider.
pub fn apply_setup(provider: ProviderKind, api_key: Option<String>, model: String, api_base: String) -> (r: Config)
    ensures
        r.provider == provider,
        r.api_key == if provider != ProviderKind::LmStudio {
            api_key
        } else {
            None
        },
        r.default_model == model,
        r.api_base_override == if provider == ProviderKind::LmStudio {
            Some(api_base)
        } else {
            None
        },
{
    let requires_key = provider.requires_api_key();
    Config {
        provider,
        api_key: if requires_key {
            api_key
        } else {
            None
        },
        default_model: model,
        api_base_override: if provider == ProviderKind::LmStudio {
            Some(api_base)
        } else {
            None
        },
    }
}

} // verus!
