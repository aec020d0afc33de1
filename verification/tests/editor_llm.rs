use devtui::editor::llm::{resolve_provider, Provider, GROQ_DEFAULT_MODEL};
use std::collections::HashMap;

fn env_from(pairs: &[(&str, &str)]) -> impl Fn(&str) -> Option<String> {
    let map: HashMap<String, String> = pairs
        .iter()
        .map(|(k, v)| (k.to_string(), v.to_string()))
        .collect();
    move |key| map.get(key).cloned()
}

#[test]
fn resolve_provider_returns_groq_when_provider_env_is_groq() {
    let lookup = env_from(&[("DEVTUI_LLM_PROVIDER", "groq"), ("GROQ_API_KEY", "test-key")]);

    let provider = resolve_provider(lookup).unwrap();

    assert_eq!(
        provider,
        Provider::Groq {
            api_key: "test-key".to_string(),
            model: GROQ_DEFAULT_MODEL.to_string(),
        }
    );
}

#[test]
fn resolve_provider_defaults_to_groq_when_provider_variable_is_unset() {
    let lookup = env_from(&[("GROQ_API_KEY", "test-key")]);
    assert_eq!(
        resolve_provider(lookup),
        Ok(Provider::Groq {
            api_key: "test-key".to_string(),
            model: GROQ_DEFAULT_MODEL.to_string(),
        })
    );
}

#[test]
fn resolve_provider_unset_provider_without_key_asks_for_the_groq_key() {
    let lookup = env_from(&[]);
    assert_eq!(
        resolve_provider(lookup),
        Err("No API key. Set GROQ_API_KEY.".to_string())
    );
}

#[test]
fn resolve_provider_without_key_is_an_error() {
    let lookup = env_from(&[("DEVTUI_LLM_PROVIDER", "groq")]);
    assert_eq!(
        resolve_provider(lookup),
        Err("No API key. Set GROQ_API_KEY.".to_string())
    );
}

#[test]
fn resolve_provider_rejects_unknown_provider() {
    let lookup = env_from(&[("DEVTUI_LLM_PROVIDER", "openai")]);
    assert_eq!(
        resolve_provider(lookup),
        Err("Unknown LLM provider: openai. Use 'groq'.".to_string())
    );
}
