//! Picks and sets up the transcriber that a backend configuration names.
use vstd::prelude::*;
use crate::config::BackendConfig;
use crate::transcriber_whisper::{whisper_prompt_text, WhisperClient};

verus! {

/// The transcriber for `config`, with the context text as its prompt when
/// one is given.
pub fn create_transcriber(config: &BackendConfig, prompt: Option<String>) -> (c: WhisperClient)
    ensures
        match config {
            BackendConfig::WhisperCpp { url } => c.url_view() == url@,
        },
        match prompt {
            Some(p) => c.prompt_view() == if whisper_prompt_text(p@).len() == 0 {
                None
            } else {
                Some(whisper_prompt_text(p@))
            },
            None => c.prompt_view() is None,
        },
{
    match config {
        BackendConfig::WhisperCpp { url } => {
            let mut client = WhisperClient::new(url.clone());
            match prompt {
                Some(p) => client.set_prompt(p),
                None => {},
            }
            client
        },
    }
}

} // verus!
