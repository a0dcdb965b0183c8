//! Summarization providers and their fixed endpoints.
use vstd::prelude::*;

verus! {

/// The API key of a provider is not set.
#[derive(Debug)]
pub enum ProviderError {
    MissingApiKey { provider_name: String },
}

#[derive(Clone, Copy, Debug, PartialEq, Eq, Structural)]
pub enum Provider {
    Grok,
    Openai,
    Gemini,
}

impl Default for Provider {
    fn default() -> (r: Self)
        ensures
            r == Provider::Grok,
    {
        Provider::Grok
    }
}

/// Endpoint, model and the environment variable that holds the key.
pub struct ProviderConfig {
    pub api_url: &'static str,
    pub model: &'static str,
    pub env_var: &'static str,
}

impl Provider {
    pub open spec fn spec_name(&self) -> Seq<char> {
        match self {
            Provider::Grok => "Grok"@,
            Provider::Openai => "OpenAI"@,
            Provider::Gemini => "Gemini"@,
        }
    }

    pub fn config(&self) -> (r: ProviderConfig)
        ensures
            match self {
                Provider::Grok => r.api_url@ == "https://api.x.ai/v1/chat/completions"@ && r.model@
                    == "grok-4-fast"@ && r.env_var@ == "XAI_API_KEY"@,
                Provider::Openai => r.api_url@ == "https://api.openai.com/v1/chat/completions"@
                    && r.model@ == "gpt-5.1"@ && r.env_var@ == "OPENAI_API_KEY"@,
                Provider::Gemini => r.api_url@
                    == "https://generativelanguage.googleapis.com/v1beta/openai/chat/completions"@
                    && r.model@ == "gemini-3-pro"@ && r.env_var@ == "GEMINI_API_KEY"@,
            },
    {
        match self {
            Provider::Grok => ProviderConfig {
                api_url: "https://api.x.ai/v1/chat/completions",
                model: "grok-4-fast",
                env_var: "XAI_API_KEY",
            },
            Provider::Openai => ProviderConfig {
                api_url: "https://api.openai.com/v1/chat/completions",
                model: "gpt-5.1",
                env_var: "OPENAI_API_KEY",
            },
            Provider::Gemini => ProviderConfig {
                api_url: "https://generativelanguage.googleapis.com/v1beta/openai/chat/completions",
                model: "gemini-3-pro",
                env_var: "GEMINI_API_KEY",
            },
        }
    }

    /// Display name.
    pub fn name(&self) -> (r: &'static str)
        ensures
            r@ == self.spec_name(),
    {
        match self {
            Provider::Grok => "Grok",
            Provider::Openai => "OpenAI",
            Provider::Gemini => "Gemini",
        }
    }

    /// Lower-case key used in cached report names.
    pub fn cache_key(&self) -> (r: &'static str)
        ensures
            r@ == match self {
                Provider::Grok => "grok"@,
                Provider::Openai => "openai"@,
                Provider::Gemini => "gemini"@,
            },
    {
        match self {
            Provider::Grok => "grok",
            Provider::Openai => "openai",
            Provider::Gemini => "gemini",
        }
    }

    /// The key, given what the provider's environment variable holds
    /// (`None` when it is unset or unreadable).
    pub fn validate_api_key(&self, env_value: Option<String>) -> (r: Result<String, ProviderError>)
        ensures
            match env_value {
                Some(v) => r == Ok::<String, ProviderError>(v),
                None => r matches Err(ProviderError::MissingApiKey { provider_name })
                    && provider_name@ == self.spec_name(),
            },
    {
        match env_value {
            Some(v) => Ok(v),
            None => Err(ProviderError::MissingApiKey { provider_name: self.name().to_owned() }),
        }
    }
}

} // verus!
