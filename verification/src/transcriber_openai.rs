//! The OpenAI transcription backend: its settings, its prompt, and how a reply
//! becomes a transcription result.
use vstd::prelude::*;
use crate::text::{
    push_str,
    chars_of, join_last_words, join_words, last_words, split_whitespace, string_from_chars,
    words,
};
use crate::traits::TranscriptionResult;
use crate::transcriber_whisper::PROMPT_WORD_LIMIT;

verus! {

broadcast use vstd::string::group_string_axioms;

/// The prompt sent to the OpenAI API for a context text: its last
/// `PROMPT_WORD_LIMIT` words joined by single spaces.
pub open spec fn openai_prompt_text(context: Seq<char>) -> Seq<char> {
    join_words(last_words(words(context), PROMPT_WORD_LIMIT as nat))
}

/// Client settings for an OpenAI-compatible transcription endpoint.
pub struct OpenAiClient {
    url: String,
    api_key: String,
    model: String,
    prompt: Option<String>,
}

impl OpenAiClient {
    pub closed spec fn url_view(&self) -> Seq<char> {
        self.url@
    }

    pub closed spec fn api_key_view(&self) -> Seq<char> {
        self.api_key@
    }

    pub closed spec fn model_view(&self) -> Seq<char> {
        self.model@
    }

    pub closed spec fn prompt_view(&self) -> Option<Seq<char>> {
        match self.prompt {
            Some(p) => Some(p@),
            None => None,
        }
    }

    /// A client for `url` with the given key and model, and no prompt.
    pub fn new(url: String, api_key: String, model: String) -> (c: Self)
        ensures
            c.url_view() == url@,
            c.api_key_view() == api_key@,
            c.model_view() == model@,
            c.prompt_view() == None::<Seq<char>>,
    {
        OpenAiClient { url, api_key, model, prompt: None }
    }

    /// Sets the prompt to the last words of a non-empty context; an empty
    /// context keeps the previous prompt.
    pub fn set_prompt(&mut self, prompt: String)
        ensures
            final(self).url_view() == old(self).url_view(),
            final(self).api_key_view() == old(self).api_key_view(),
            final(self).model_view() == old(self).model_view(),
            final(self).prompt_view() == if prompt@.len() == 0 {
                old(self).prompt_view()
            } else {
                Some(openai_prompt_text(prompt@))
            },
    {
        if !prompt.as_str().is_empty() {
            let cs = chars_of(prompt.as_str());
            let ws = split_whitespace(cs.as_slice());
            let truncated = join_last_words(&ws, PROMPT_WORD_LIMIT);
            self.prompt = Some(string_from_chars(truncated.as_slice()));
        }
    }

    /// The URL, key, model and prompt a request is made with.
    pub fn request_parts(&self) -> (r: (String, String, String, Option<String>))
        ensures
            r.0@ == self.url_view(),
            r.1@ == self.api_key_view(),
            r.2@ == self.model_view(),
            match r.3 {
                Some(p) => self.prompt_view() == Some(p@),
                None => self.prompt_view() is None,
            },
    {
        let p = match &self.prompt {
            Some(s) => Some(s.clone()),
            None => None,
        };
        (self.url.clone(), self.api_key.clone(), self.model.clone(), p)
    }
}

/// How an OpenAI transcription request ended.
pub enum OpenAiReply {
    /// A success status with a body holding the transcript.
    Transcript(String),
    /// A success status with a body that is not a transcript; the parser's reason.
    BadJson(String),
    /// A failure status; its text and the body, when the body could be read.
    HttpError { status: String, body: Option<String> },
    /// The request could not be made; the reason.
    RequestFailed(String),
}

pub open spec fn openai_error_text(reply: OpenAiReply) -> Seq<char> {
    match reply {
        OpenAiReply::Transcript(_) => Seq::empty(),
        OpenAiReply::BadJson(e) => "OpenAI JSON error: "@ + e@,
        OpenAiReply::HttpError { status, body } => "OpenAI API error ("@ + status@ + "): "@
            + match body {
            Some(b) => b@,
            None => "Unknown error"@,
        },
        OpenAiReply::RequestFailed(e) => "OpenAI request error: "@ + e@,
    }
}


/// The single item an OpenAI request yields: the transcript as a final result,
/// or the error message for any other reply.
pub fn openai_result(reply: OpenAiReply) -> (r: Result<TranscriptionResult, String>)
    ensures
        match reply {
            OpenAiReply::Transcript(t) => r matches Ok(res) && res.text == t && res.is_final,
            _ => r matches Err(e) && e@ == openai_error_text(reply),
        },
{
    match reply {
        OpenAiReply::Transcript(t) => Ok(TranscriptionResult { text: t, is_final: true }),
        OpenAiReply::BadJson(e) => {
            let mut m = "OpenAI JSON error: ".to_string();
            push_str(&mut m, e.as_str());
            Err(m)
        },
        OpenAiReply::HttpError { status, body } => {
            let mut m = "OpenAI API error (".to_string();
            push_str(&mut m, status.as_str());
            push_str(&mut m, "): ");
            match &body {
                Some(b) => push_str(&mut m, b.as_str()),
                None => push_str(&mut m, "Unknown error"),
            }
            Err(m)
        },
        OpenAiReply::RequestFailed(e) => {
            let mut m = "OpenAI request error: ".to_string();
            push_str(&mut m, e.as_str());
            Err(m)
        },
    }
}

} // verus!
