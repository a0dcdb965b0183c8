use bratishka_core::{Provider, ProviderError};

#[test]
fn provider_configs() {
    let g = Provider::Grok.config();
    assert_eq!(g.api_url, "https://api.x.ai/v1/chat/completions");
    assert_eq!(g.model, "grok-4-fast");
    assert_eq!(g.env_var, "XAI_API_KEY");
    let o = Provider::Openai.config();
    assert_eq!(o.api_url, "https://api.openai.com/v1/chat/completions");
    assert_eq!(o.model, "gpt-5.1");
    assert_eq!(o.env_var, "OPENAI_API_KEY");
    let m = Provider::Gemini.config();
    assert_eq!(m.api_url, "https://generativelanguage.googleapis.com/v1beta/openai/chat/completions");
    assert_eq!(m.model, "gemini-3-pro");
    assert_eq!(m.env_var, "GEMINI_API_KEY");
}

#[test]
fn provider_names_and_cache_keys() {
    assert_eq!(Provider::Grok.name(), "Grok");
    assert_eq!(Provider::Openai.name(), "OpenAI");
    assert_eq!(Provider::Gemini.name(), "Gemini");
    assert_eq!(Provider::Grok.cache_key(), "grok");
    assert_eq!(Provider::Openai.cache_key(), "openai");
    assert_eq!(Provider::Gemini.cache_key(), "gemini");
    assert_eq!(Provider::default(), Provider::Grok);
}

#[test]
fn api_key_present_or_missing() {
    let k = Provider::Openai.validate_api_key(Some("test-key".to_string()));
    assert_eq!(k.unwrap(), "test-key");
    match Provider::Gemini.validate_api_key(None) {
        Err(ProviderError::MissingApiKey { provider_name }) => assert_eq!(provider_name, "Gemini"),
        Ok(_) => panic!("a missing key was accepted"),
    }
}
