//! Application configuration, as read from `config.json`.
use vstd::prelude::*;
use crate::text::is_blank;

verus! {

#[derive(Debug)]
pub struct EmbeddingConfig {
    pub base_url: Option<String>,
}

#[derive(Debug)]
pub struct AliyunSpeechConfig {
    pub access_key_id: String,
    pub access_key_secret: String,
    pub app_key: String,
}

#[derive(Debug)]
pub struct SpeechConfig {
    pub provider: String,
    pub aliyun: Option<AliyunSpeechConfig>,
}

/// Streaming replies are on unless the configuration turns them off.
pub fn default_stream() -> (r: bool)
    ensures
        r,
{
    true
}

#[derive(Debug, Clone, Copy, PartialEq, Eq, Structural)]
pub enum ConfigError {
    MissingApiKey,
    MissingModel,
}

/// The language-model settings must name an API key and a model.
pub fn validate_llm_settings(api_key: &str, model: &str) -> (r: Result<(), ConfigError>)
    ensures
        api_key@.len() == 0 ==> r == Err::<(), _>(ConfigError::MissingApiKey),
        api_key@.len() > 0 && model@.len() == 0 ==> r == Err::<(), _>(ConfigError::MissingModel),
        api_key@.len() > 0 && model@.len() > 0 ==> r is Ok,
{
    if api_key.is_empty() {
        return Err(ConfigError::MissingApiKey);
    }
    if model.is_empty() {
        return Err(ConfigError::MissingModel);
    }
    Ok(())
}

} // verus!
