//! What an outbound chat request holds, per provider, before it is encoded.
use vstd::prelude::*;
use crate::config::{ProviderKind, display_name_of};
use crate::text::{append_str, chars_of, copy_range, string_of};

verus! {

/// Why a request could not be built.
#[derive(Clone, Copy, Debug, PartialEq, Eq, Structural)]
pub enum RequestError {
    /// The provider needs an API key and none is configured.
    MissingApiKey(ProviderKind),
}

impl RequestError {
    pub fn message(&self) -> (r: String)
        ensures
            r@ == match *self {
                RequestError::MissingApiKey(p) => "No API key configured for "@ + display_name_of(p),
            },
    {
        match self {
            RequestError::MissingApiKey(p) => {
                let mut out = chars_of("No API key configured for ");
                append_str(&mut out, p.display_name());
                string_of(&out)
            },
        }
    }
}

/// A streaming chat request: where it goes, its headers and the fields of its body.
pub struct ChatRequest {
    pub url: String,
    /// Headers besides bearer authentication, in order.
    pub headers: Vec<(String, String)>,
    /// The token for bearer authentication, where the provider takes one.
    pub bearer_token: Option<String>,
    pub model: String,
    /// The system prompt as a body field of its own (structured dialect).
    pub system: Option<String>,
    /// The conversation as (role, content) pairs.
    pub messages: Vec<(String, String)>,
    pub max_tokens: u32,
    pub stream: bool,
}

pub open spec fn pairs_view(v: Seq<(String, String)>) -> Seq<(Seq<char>, Seq<char>)> {
    v.map_values(|p: (String, String)| (p.0@, p.1@))
}

pub open spec fn opt_view(o: Option<String>) -> Option<Seq<char>> {
    match o {
        Some(s) => Some(s@),
        None => None,
    }
}

/// The largest answer, in tokens, a request asks for.
pub const MAX_TOKENS: u32 = 4096;

pub open spec fn referrer() -> Seq<char> {
    "https://github.com/bmkubia/tt-cli"@
}

/// The headers a provider's requests carry besides bearer authentication.
pub open spec fn provider_headers(p: ProviderKind, key: Seq<char>) -> Seq<(Seq<char>, Seq<char>)> {
    match p {
        ProviderKind::Anthropic => seq![
            ("x-api-key"@, key),
            ("anthropic-version"@, "2023-06-01"@),
            ("content-type"@, "application/json"@),
        ],
        ProviderKind::OpenRouter => seq![("HTTP-Referer"@, referrer()), ("X-Title"@, "tt-cli"@)],
        _ => Seq::empty(),
    }
}

fn pair(a: &str, b: &str) -> (r: (String, String))
    ensures
        r.0@ == a@,
        r.1@ == b@,
{
    (a.to_owned(), b.to_owned())
}

/// The request that asks `provider` to stream an answer to `question`.
pub fn build_chat_request(
    provider: ProviderKind,
    api_key: Option<&str>,
    api_base: &str,
    model: &str,
    system_prompt: &str,
    question: &str,
) -> (r: Result<ChatRequest, RequestError>)
    ensures
        match r {
            Err(e) => provider != ProviderKind::LmStudio && api_key is None && e
                == RequestError::MissingApiKey(provider),
            Ok(req) => (provider == ProviderKind::LmStudio || api_key is Some) && req.url@ == api_base@
                + if provider == ProviderKind::Anthropic {
                "/messages"@
            } else {
                "/chat/completions"@
            } && req.model@ == model@ && req.max_tokens == MAX_TOKENS && req.stream
                && pairs_view(req.headers@) == provider_headers(
                provider,
                match api_key {
                    Some(k) => k@,
                    None => Seq::empty(),
                },
            ) && if provider == ProviderKind::Anthropic {
                &&& opt_view(req.system) == Some(system_prompt@)
                &&& pairs_view(req.messages@) == seq![("user"@, question@)]
                &&& req.bearer_token is None
            } else {
                &&& req.system is None
                &&& pairs_view(req.messages@) == seq![
                    ("system"@, system_prompt@),
                    ("user"@, question@),
                ]
                &&& opt_view(req.bearer_token) == if provider == ProviderKind::LmStudio {
                    None
                } else {
                    Some(api_key->Some_0@)
                }
            },
        },
{
    let key = match api_key {
        Some(k) => k,
        None => {
            if provider != ProviderKind::LmStudio {
                return Err(RequestError::MissingApiKey(provider));
            }
            ""
        },
    };
    proof {
        reveal_strlit("");
    }
    let mut url = chars_of(api_base);
    let mut headers: Vec<(String, String)> = Vec::new();
    let mut messages: Vec<(String, String)> = Vec::new();
    let system;
    let bearer_token;
    if provider == ProviderKind::Anthropic {
        append_str(&mut url, "/messages");
        headers.push(pair("x-api-key", key));
        headers.push(pair("anthropic-version", "2023-06-01"));
        headers.push(pair("content-type", "application/json"));
        messages.push(pair("user", question));
        system = Some(system_prompt.to_owned());
        bearer_token = None;
    } else {
        append_str(&mut url, "/chat/completions");
        if provider == ProviderKind::OpenRouter {
            headers.push(pair("HTTP-Referer", "https://github.com/bmkubia/tt-cli"));
            headers.push(pair("X-Title", "tt-cli"));
        }
        messages.push(pair("system", system_prompt));
        messages.push(pair("user", question));
        system = None;
        bearer_token = if provider == ProviderKind::LmStudio {
            None
        } else {
            Some(key.to_owned())
        };
    }
    proof {
        assert(pairs_view(headers@) =~= provider_headers(
            provider,
            match api_key {
                Some(k) => k@,
                None => Seq::empty(),
            },
        ));
        if provider == ProviderKind::Anthropic {
            assert(pairs_view(messages@) =~= seq![("user"@, question@)]);
        } else {
            assert(pairs_view(messages@) =~= seq![("system"@, system_prompt@), ("user"@, question@)]);
        }
    }
    Ok(
        ChatRequest {
            url: string_of(&url),
            headers,
            bearer_token,
            model: model.to_owned(),
            system,
            messages,
            max_tokens: MAX_TOKENS,
            stream: true,
        },
    )
}

/// `s` without the slashes at its end.
pub open spec fn trim_trailing_slashes(s: Seq<char>) -> Seq<char>
    decreases s.len(),
{
    if s.len() > 0 && s.last() == '/' {
        trim_trailing_slashes(s.drop_last())
    } else {
        s
    }
}

/// An endpoint base without trailing slashes, so that paths can be appended.
pub fn normalize_api_base(base: &str) -> (r: String)
    ensures
        r@ == trim_trailing_slashes(base@),
{
    let cs = chars_of(base);
    let mut end: usize = cs.len();
    proof {
        assert(cs@.subrange(0, end as int) =~= cs@);
    }
    while end > 0 && cs[end - 1] == '/'
        invariant
            end <= cs@.len(),
            trim_trailing_slashes(base@) == trim_trailing_slashes(cs@.subrange(0, end as int)),
            cs@ == base@,
        decreases end,
    {
        proof {
            assert(cs@.subrange(0, end as int).drop_last() =~= cs@.subrange(0, end - 1));
        }
        end -= 1;
    }
    let kept = copy_range(&cs, 0, end);
    string_of(&kept)
}

} // verus!
