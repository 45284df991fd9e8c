//! Verified core of a voice dictation tool for GNOME: the transcription
//! backends' request and response handling, the prompt built from the text
//! before the cursor, the dictation cycle's decisions, the history menu, the
//! media-player pause and resume rules, the health checks, the shortcut
//! recorder and the Ogg Opus framing.
pub mod text;
pub mod traits;
pub mod config;
pub mod transcriber;
pub mod transcriber_whisper;
pub mod transcriber_openai;
pub mod transcriber_factory;
pub mod history;
pub mod mpris;
pub mod daemon;
pub mod doctor;
pub mod shortcut_recorder;
pub mod accessibility;
pub mod commands;
pub mod audio;
pub mod opus_encoder;
