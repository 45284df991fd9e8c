//! The settings file's contents.
use vstd::prelude::*;

verus! {

broadcast use vstd::string::group_string_axioms;

/// The settings of the application.
pub struct Config {
    pub backend: BackendConfig,
    pub llm: LlmConfig,
}

/// The transcription backend.
pub enum BackendConfig {
    /// A whisper.cpp server at `url`.
    WhisperCpp { url: String },
}

/// The language-model provider.
pub enum LlmConfig {
    /// An Ollama server at `url`, using `model`.
    Ollama { url: String, model: String },
}

impl Default for BackendConfig {
    /// A whisper.cpp server on `http://localhost:58080`.
    fn default() -> (c: Self)
        ensures
            c matches BackendConfig::WhisperCpp { url } && url@ == "http://localhost:58080"@,
    {
        BackendConfig::WhisperCpp { url: "http://localhost:58080".to_string() }
    }
}

impl Default for LlmConfig {
    /// Ollama on `http://localhost:11434` with the `llama3` model.
    fn default() -> (c: Self)
        ensures
            c matches LlmConfig::Ollama { url, model } && url@ == "http://localhost:11434"@
                && model@ == "llama3"@,
    {
        LlmConfig::Ollama {
            url: "http://localhost:11434".to_string(),
            model: "llama3".to_string(),
        }
    }
}

impl Default for Config {
    /// The default backend and language-model provider.
    fn default() -> (c: Self)
        ensures
            c.backend matches BackendConfig::WhisperCpp { url } && url@ == "http://localhost:58080"@,
            c.llm matches LlmConfig::Ollama { url, model } && url@ == "http://localhost:11434"@
                && model@ == "llama3"@,
    {
        Config { backend: BackendConfig::default(), llm: LlmConfig::default() }
    }
}

} // verus!
