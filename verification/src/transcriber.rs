//! The first whisper.cpp client, which posts the audio as it is recorded and
//! reads each body chunk of the reply as one response object.
use vstd::prelude::*;
use crate::text::{sanitize_text, sanitized_text};
use crate::text::push_str;
use crate::transcriber_whisper::{inference_url, inference_url_of, lossy_decoded, lossy_text};

verus! {

/// A response object of the whisper.cpp server.
pub struct TranscriptionResponse {
    pub text: String,
    pub is_final: bool,
}

impl TranscriptionResponse {
    /// Turns line breaks into spaces, collapses whitespace runs to one space and
    /// trims the ends of `text`.
    pub fn sanitize(&mut self)
        ensures
            final(self).text@ == sanitized_text(old(self).text@),
            final(self).is_final == old(self).is_final,
    {
        self.text = sanitize_text(self.text.as_str());
    }
}

/// Client for a whisper.cpp server that streams the request body.
pub struct WhisperClient {
    url: String,
}

impl WhisperClient {
    pub closed spec fn url_view(&self) -> Seq<char> {
        self.url@
    }

    /// A client for the server at `url`.
    pub fn new(url: String) -> (c: Self)
        ensures
            c.url_view() == url@,
    {
        WhisperClient { url }
    }

    /// The URL the audio is posted to.
    pub fn target_url(&self) -> (r: String)
        ensures
            r@ == inference_url_of(self.url_view()),
    {
        inference_url(self.url.as_str())
    }
}

/// The text of a reply chunk that is not a response object: the parser's
/// reason and the whole chunk, decoded.
pub open spec fn chunk_error_text(detail: Seq<char>, body: Seq<u8>) -> Seq<char> {
    "JSON parse error: "@ + detail + " (body: "@ + lossy_decoded(body) + ")"@
}

/// What the stream yields for one chunk of the reply, given how it parsed as a
/// response object: the response sanitized, or the error with the chunk quoted.
pub fn chunk_result(parsed: Result<TranscriptionResponse, String>, chunk: &[u8]) -> (r: Result<TranscriptionResponse, String>)
    ensures
        match parsed {
            Ok(resp) => r matches Ok(out) && out.text@ == sanitized_text(resp.text@) && out.is_final
                == resp.is_final,
            Err(detail) => r matches Err(e) && e@ == chunk_error_text(detail@, chunk@),
        },
{
    match parsed {
        Ok(resp) => {
            let mut resp = resp;
            resp.sanitize();
            Ok(resp)
        },
        Err(detail) => {
            let mut m = "JSON parse error: ".to_string();
            push_str(&mut m, detail.as_str());
            push_str(&mut m, " (body: ");
            let body = lossy_text(chunk);
            push_str(&mut m, body.as_str());
            push_str(&mut m, ")");
            Err(m)
        },
    }
}

} // verus!
