//! The whisper.cpp backend: its endpoint, the prompt it is given, and the parser
//! that turns the server's byte stream into transcription results.
use vstd::prelude::*;
use vstd::utf8::*;
use vstd::string::*;
use crate::text::{
    push_str,
    all_words, chars_of, contains_chars, contains_seq, is_word, join_last_words, join_words,
    last_words, lemma_words_are_words, lemma_words_of_join, occurs_at, push_all,
    sanitize_text, sanitized_text, split_whitespace, string_from_chars, words,
};
use crate::traits::TranscriptionResult;

verus! {

broadcast use vstd::string::group_string_axioms;

/// How many words of context before the cursor a prompt keeps.
pub const PROMPT_WORD_LIMIT: usize = 200;

/// A response object of the whisper.cpp server.
pub struct InternalTranscriptionResponse {
    pub text: String,
    pub is_final: bool,
}

impl InternalTranscriptionResponse {
    /// Turns line breaks into spaces, collapses whitespace runs to one space and
    /// trims the ends of `text`.
    pub fn sanitize(&mut self)
        ensures
            final(self).text@ == sanitized_text(old(self).text@),
            final(self).is_final == old(self).is_final,
    {
        self.text = sanitize_text(self.text.as_str());
    }
}

/// whisper.cpp's inference path.
pub open spec fn inference_path() -> Seq<char> {
    seq!['/', 'i', 'n', 'f', 'e', 'r', 'e', 'n', 'c', 'e']
}

/// The URL the audio is posted to: the configured URL when it already names the
/// inference path, else the URL with `inference` added after one `/`.
pub open spec fn inference_url_of(url: Seq<char>) -> Seq<char> {
    if contains_seq(url, inference_path()) {
        url
    } else if url.len() > 0 && url.last() == '/' {
        url + inference_path().drop_first()
    } else {
        url + inference_path()
    }
}

/// Builds the inference URL from a configured server URL.
pub fn inference_url(url: &str) -> (r: String)
    ensures
        r@ == inference_url_of(url@),
{
    let cs = chars_of(url);
    let path: Vec<char> = vec!['/', 'i', 'n', 'f', 'e', 'r', 'e', 'n', 'c', 'e'];
    assert(path@ =~= inference_path());
    if contains_chars(cs.as_slice(), path.as_slice()) {
        return string_from_chars(cs.as_slice());
    }
    let mut out = cs;
    let tail: Vec<char> = vec!['i', 'n', 'f', 'e', 'r', 'e', 'n', 'c', 'e'];
    assert(tail@ =~= inference_path().drop_first());
    if out.len() == 0 || out[out.len() - 1] != '/' {
        out.push('/');
        assert(out@ + tail@ =~= url@ + inference_path());
    }
    push_all(&mut out, tail.as_slice());
    string_from_chars(out.as_slice())
}

/// The inference URL already names the inference path, so building it again
/// changes nothing.
pub proof fn lemma_inference_url_idempotent(url: Seq<char>)
    ensures
        contains_seq(inference_url_of(url), inference_path()),
        inference_url_of(inference_url_of(url)) == inference_url_of(url),
{
    let r = inference_url_of(url);
    let p = inference_path();
    if contains_seq(url, p) {
    } else if url.len() > 0 && url.last() == '/' {
        let i = url.len() - 1;
        assert(r.subrange(i, i + p.len()) =~= p);
        assert(occurs_at(r, p, i));
    } else {
        let i = url.len() as int;
        assert(r.subrange(i, i + p.len()) =~= p);
        assert(occurs_at(r, p, i));
    }
}

/// `char::is_alphanumeric`: whether the character has the Unicode `Alphabetic`
/// or `Numeric` property.
pub uninterp spec fn unicode_alphanumeric(c: char) -> bool;

/// `char::is_alphanumeric`; its result is named `unicode_alphanumeric`, a
/// function of the character alone. The Unicode tables are not written out.
#[verifier::external_body]
fn char_is_alphanumeric(c: char) -> (r: bool)
    ensures
        r == unicode_alphanumeric(c),
{
    c.is_alphanumeric()
}

/// The ASCII punctuation characters, as `char::is_ascii_punctuation` documents them.
pub open spec fn ascii_punctuation(c: char) -> bool {
    let n = c as u32;
    ||| 0x21 <= n <= 0x2f
    ||| 0x3a <= n <= 0x40
    ||| 0x5b <= n <= 0x60
    ||| 0x7b <= n <= 0x7e
}

/// Whether the character is ASCII punctuation, as
/// `char::is_ascii_punctuation` decides it: `! " # $ % & ' ( ) * + , - . /`,
/// `: ; < = > ? @`, `[ \ ] ^ _ \``, and `{ | } ~`.
fn char_is_ascii_punctuation(c: char) -> (r: bool)
    ensures
        r == ascii_punctuation(c),
{
    let n = c as u32;
    (0x21 <= n && n <= 0x2f) || (0x3a <= n && n <= 0x40) || (0x5b <= n && n <= 0x60) || (0x7b <= n && n <= 0x7e)
}

/// How a prompt character is kept, given whether it is alphanumeric: an em
/// dash becomes `-`, letters, digits, ASCII punctuation and spaces stay,
/// anything else becomes a space.
pub open spec fn prompt_char_with(c: char, alphanumeric: bool) -> char {
    if c == '\u{2014}' {
        '-'
    } else if alphanumeric || ascii_punctuation(c) || c == ' ' {
        c
    } else {
        ' '
    }
}

/// The ASCII punctuation characters are exactly the printable ASCII
/// characters other than the space, the digits and the letters, and the
/// prompt's character filter keeps every one of them unchanged (`.`, `,`,
/// `?`, `!`, quotes, brackets and the rest), whatever else it does.
pub proof fn lemma_prompt_keeps_ascii_punctuation(c: char, alphanumeric: bool)
    ensures
        ascii_punctuation(c) <==> ({
            let n = c as u32;
            &&& 0x21 <= n <= 0x7e
            &&& !(0x30 <= n <= 0x39)
            &&& !(0x41 <= n <= 0x5a)
            &&& !(0x61 <= n <= 0x7a)
        }),
        ({
            let n = c as u32;
            &&& 0x21 <= n <= 0x7e
            &&& !(0x30 <= n <= 0x39)
            &&& !(0x41 <= n <= 0x5a)
            &&& !(0x61 <= n <= 0x7a)
        }) ==> prompt_char_with(c, alphanumeric) == c && prompt_char(c) == c,
{
}

/// How a prompt character is kept (see `prompt_char_with`).
pub open spec fn prompt_char(c: char) -> char {
    prompt_char_with(c, unicode_alphanumeric(c))
}

/// The prompt for a context whose characters are alphanumeric where
/// `alphanumeric` says so: the characters filtered, then the last
/// `PROMPT_WORD_LIMIT` words joined by single spaces.
pub open spec fn prompt_text_with(context: Seq<char>, alphanumeric: Seq<bool>) -> Seq<char> {
    join_words(
        last_words(
            words(Seq::new(context.len(), |i: int| prompt_char_with(context[i], alphanumeric[i]))),
            PROMPT_WORD_LIMIT as nat,
        ),
    )
}

/// The prompt sent to whisper.cpp for a context text: its characters filtered by
/// `prompt_char`, then its last `PROMPT_WORD_LIMIT` words joined by single spaces.
pub open spec fn whisper_prompt_text(context: Seq<char>) -> Seq<char> {
    join_words(
        last_words(words(context.map_values(|c: char| prompt_char(c))), PROMPT_WORD_LIMIT as nat),
    )
}

/// The last words of a sequence of words are words.
pub proof fn lemma_last_words_are_words(ws: Seq<Seq<char>>, n: nat)
    requires
        all_words(ws),
    ensures
        all_words(last_words(ws, n)),
        last_words(ws, n).len() <= n,
        last_words(ws, n).len() == if ws.len() > n { n as int } else { ws.len() as int },
{
    let l = last_words(ws, n);
    assert forall|k: int| 0 <= k < l.len() implies is_word(#[trigger] l[k]) by {
        if ws.len() > n {
            assert(l[k] == ws[ws.len() - n + k]);
        }
    }
}

/// A prompt holds at most `PROMPT_WORD_LIMIT` words: exactly the last ones of the
/// filtered context.
pub proof fn lemma_prompt_word_limit(context: Seq<char>)
    ensures
        words(whisper_prompt_text(context)) == last_words(
            words(context.map_values(|c: char| prompt_char(c))),
            PROMPT_WORD_LIMIT as nat,
        ),
        words(whisper_prompt_text(context)).len() <= PROMPT_WORD_LIMIT,
        words(whisper_prompt_text(context)).len() <= 200,
{
    let ws = words(context.map_values(|c: char| prompt_char(c)));
    lemma_words_are_words(context.map_values(|c: char| prompt_char(c)));
    lemma_last_words_are_words(ws, PROMPT_WORD_LIMIT as nat);
    lemma_words_of_join(last_words(ws, PROMPT_WORD_LIMIT as nat));
}

/// The prompt for a context, given for each of its characters whether it is
/// alphanumeric (see `prompt_text_with`).
pub fn prompt_from_classes(context: &[char], alphanumeric: &[bool]) -> (r: Vec<char>)
    requires
        alphanumeric@.len() == context@.len(),
    ensures
        r@ == prompt_text_with(context@, alphanumeric@),
{
    let mut mapped: Vec<char> = Vec::new();
    let mut i: usize = 0;
    while i < context.len()
        invariant
            0 <= i <= context@.len(),
            alphanumeric@.len() == context@.len(),
            mapped@ == Seq::new(i as nat, |j: int| prompt_char_with(context@[j], alphanumeric@[j])),
        decreases context@.len() - i,
    {
        let c = context[i];
        let m = if c == '\u{2014}' {
            '-'
        } else if alphanumeric[i] || char_is_ascii_punctuation(c) || c == ' ' {
            c
        } else {
            ' '
        };
        mapped.push(m);
        i = i + 1;
        assert(mapped@ =~= Seq::new(i as nat, |j: int| prompt_char_with(context@[j], alphanumeric@[j])));
    }
    let ws = split_whitespace(mapped.as_slice());
    join_last_words(&ws, PROMPT_WORD_LIMIT)
}

/// Client for a whisper.cpp server: the configured URL and the prompt of
/// context that goes with the next request.
pub struct WhisperClient {
    url: String,
    prompt: Option<String>,
}

impl WhisperClient {
    pub closed spec fn url_view(&self) -> Seq<char> {
        self.url@
    }

    pub closed spec fn prompt_view(&self) -> Option<Seq<char>> {
        match self.prompt {
            Some(p) => Some(p@),
            None => None,
        }
    }

    /// A client for the server at `url`, with no prompt.
    pub fn new(url: String) -> (c: Self)
        ensures
            c.url_view() == url@,
            c.prompt_view() == None::<Seq<char>>,
    {
        WhisperClient { url, prompt: None }
    }

    /// Sets the prompt from the text before the cursor (see `whisper_prompt_text`);
    /// a context that leaves no words keeps the previous prompt.
    pub fn set_prompt(&mut self, prompt: String)
        ensures
            final(self).url_view() == old(self).url_view(),
            final(self).prompt_view() == if whisper_prompt_text(prompt@).len() == 0 {
                old(self).prompt_view()
            } else {
                Some(whisper_prompt_text(prompt@))
            },
    {
        if prompt.as_str().is_empty() {
            assert(prompt@ =~= Seq::<char>::empty());
            assert(prompt@.map_values(|c: char| prompt_char(c)) =~= Seq::<char>::empty());
            return;
        }
        let cs = chars_of(prompt.as_str());
        let mut classes: Vec<bool> = Vec::new();
        let mut i: usize = 0;
        while i < cs.len()
            invariant
                0 <= i <= cs@.len(),
                cs@ == prompt@,
                classes@.len() == i,
                forall|j: int| 0 <= j < i ==> #[trigger] classes@[j] == unicode_alphanumeric(prompt@[j]),
            decreases cs@.len() - i,
        {
            classes.push(char_is_alphanumeric(cs[i]));
            i = i + 1;
        }
        let truncated = prompt_from_classes(cs.as_slice(), classes.as_slice());
        proof {
            assert(Seq::new(prompt@.len(), |j: int| prompt_char_with(prompt@[j], classes@[j])) =~= prompt@.map_values(
                |c: char| prompt_char(c),
            ));
        }
        if truncated.len() > 0 {
            self.prompt = Some(string_from_chars(truncated.as_slice()));
        }
    }

    /// The URL the audio is posted to.
    pub fn target_url(&self) -> (r: String)
        ensures
            r@ == inference_url_of(self.url_view()),
    {
        inference_url(self.url.as_str())
    }

    /// The query parameters of the request: the prompt, when there is one.
    pub fn query_params(&self) -> (q: Vec<(String, String)>)
        ensures
            self.prompt_view() is None ==> q@.len() == 0,
            self.prompt_view() is Some ==> q@.len() == 1 && q@[0].0@ == "prompt"@ && q@[0].1@
                == self.prompt_view()->0,
    {
        let mut q: Vec<(String, String)> = Vec::new();
        match &self.prompt {
            Some(p) => {
                q.push(("prompt".to_string(), p.clone()));
            },
            None => {},
        }
        q
    }

    /// The current prompt.
    pub fn prompt(&self) -> (p: Option<String>)
        ensures
            match p {
                Some(s) => self.prompt_view() == Some(s@),
                None => self.prompt_view() is None,
            },
    {
        match &self.prompt {
            Some(s) => Some(s.clone()),
            None => None,
        }
    }
}

/// `String::from_utf8_lossy`: the bytes decoded as UTF-8, with each invalid
/// sequence replaced by U+FFFD. Named `utf8_lossy`; for valid UTF-8 it is the
/// plain decoding.
pub uninterp spec fn utf8_lossy(bytes: Seq<u8>) -> Seq<char>;

/// `String::from_utf8_lossy`, owned. The replacement of invalid sequences is
/// not written out; valid input is decoded as is.
#[verifier::external_body]
fn string_from_utf8_lossy(bytes: &[u8]) -> (s: String)
    ensures
        s@ == utf8_lossy(bytes@),
        valid_utf8(bytes@) ==> s@ == decode_utf8(bytes@),
{
    String::from_utf8_lossy(bytes).into_owned()
}

/// The text of some bytes read as UTF-8: the plain decoding when they are
/// valid UTF-8, else the decoding with invalid sequences replaced.
pub open spec fn lossy_decoded(bytes: Seq<u8>) -> Seq<char> {
    if valid_utf8(bytes) {
        decode_utf8(bytes)
    } else {
        utf8_lossy(bytes)
    }
}

/// The bytes decoded as UTF-8 with invalid sequences replaced.
pub fn lossy_text(bytes: &[u8]) -> (s: String)
    ensures
        s@ == lossy_decoded(bytes@),
        s@ == utf8_lossy(bytes@),
        valid_utf8(bytes@) ==> s@ == decode_utf8(bytes@),
{
    string_from_utf8_lossy(bytes)
}

/// How many bytes of a body an error message quotes.
pub const SNIPPET_BYTES: usize = 100;

/// The part of a response body quoted in an error message: the body, or its
/// first `SNIPPET_BYTES` bytes followed by `...` when it is longer.
pub open spec fn body_snippet(body: Seq<char>) -> Seq<char> {
    if encode_utf8(body).len() > SNIPPET_BYTES {
        decode_utf8(encode_utf8(body).take(SNIPPET_BYTES as int)) + "..."@
    } else {
        body
    }
}

/// Whether the body can be quoted: it is short, or its first `SNIPPET_BYTES`
/// bytes end on a character boundary.
pub open spec fn snippet_cut_ok(body: Seq<char>) -> bool {
    encode_utf8(body).len() <= SNIPPET_BYTES || is_char_boundary(
        encode_utf8(body),
        SNIPPET_BYTES as int,
    )
}

pub open spec fn json_error_text(detail: Seq<char>, body: Seq<char>) -> Seq<char> {
    "JSON parse error: "@ + detail + " (body: "@ + body_snippet(body) + ")"@
}


/// The message reported for a body that is not a response object.
pub fn json_error_message(detail: &str, body: &str) -> (m: String)
    requires
        snippet_cut_ok(body@),
    ensures
        m@ == json_error_text(detail@, body@),
{
    let mut m = "JSON parse error: ".to_string();
    push_str(&mut m, detail);
    push_str(&mut m, " (body: ");
    if body.as_bytes().len() > SNIPPET_BYTES {
        let (head, _rest) = body.split_at(SNIPPET_BYTES);
        proof {
            encode_utf8_decode_utf8(head@);
        }
        assert(head@ == decode_utf8(encode_utf8(body@).take(SNIPPET_BYTES as int)));
        push_str(&mut m, head);
        push_str(&mut m, "...");
        assert(m@ =~= "JSON parse error: "@ + detail@ + " (body: "@ + body_snippet(body@));
    } else {
        push_str(&mut m, body);
        assert(m@ == "JSON parse error: "@ + detail@ + " (body: "@ + body_snippet(body@));
    }
    push_str(&mut m, ")");
    assert(m@ =~= json_error_text(detail@, body@));
    m
}

/// What the server's next bytes held, as a streaming JSON reader over the
/// buffered bytes sees them.
pub enum JsonStep {
    /// A complete response object, taking the first `consumed` buffered bytes.
    Message { response: InternalTranscriptionResponse, consumed: usize },
    /// The bytes end inside a value (or hold only whitespace): more are needed.
    Incomplete,
    /// The bytes are not a response object; `detail` says why.
    Invalid { detail: String },
}

/// What the stream yields after a step.
pub enum StreamOutput {
    /// Nothing yet: read or parse again.
    Continue,
    /// One item of the transcription stream.
    Item(Result<TranscriptionResult, String>),
    /// The transcription stream is over.
    End,
}

/// The state of the whisper response stream: the bytes received and not yet
/// parsed. Each turn parses the buffer when it holds bytes, and reads the next
/// chunk when that gave nothing.
pub struct WhisperStreamParser {
    buffer: Vec<u8>,
}

impl WhisperStreamParser {
    pub closed spec fn buffered(&self) -> Seq<u8> {
        self.buffer@
    }

    /// A parser with nothing buffered.
    pub fn new() -> (p: Self)
        ensures
            p.buffered() == Seq::<u8>::empty(),
    {
        WhisperStreamParser { buffer: Vec::new() }
    }

    /// The buffered bytes, which the next parse step reads.
    pub fn buffer(&self) -> (b: &[u8])
        ensures
            b@ == self.buffered(),
    {
        self.buffer.as_slice()
    }

    /// Whether the next turn parses the buffer (it holds bytes) rather than reading.
    pub fn wants_parse(&self) -> (r: bool)
        ensures
            r == (self.buffered().len() > 0),
    {
        self.buffer.len() > 0
    }

    /// Applies the outcome of parsing the buffer. A message leaves the buffer
    /// and is yielded sanitized; an incomplete value waits for more bytes; an
    /// invalid one is reported with the buffer quoted, and the buffer is dropped.
    /// `None` when the quote would have to cut a character in two.
    pub fn on_parse(&mut self, step: JsonStep) -> (out: Option<StreamOutput>)
        requires
            step matches JsonStep::Message { consumed, .. } ==> consumed <= old(
                self,
            ).buffered().len(),
        ensures
            match step {
                JsonStep::Message { response, consumed } => {
                    &&& final(self).buffered() == old(self).buffered().skip(consumed as int)
                    &&& out matches Some(StreamOutput::Item(Ok(r)))
                    &&& r.text@ == sanitized_text(response.text@)
                    &&& r.is_final == response.is_final
                },
                JsonStep::Incomplete => {
                    &&& final(self).buffered() == old(self).buffered()
                    &&& out matches Some(StreamOutput::Continue)
                },
                JsonStep::Invalid { detail } => {
                    let body = lossy_decoded(old(self).buffered());
                    if snippet_cut_ok(body) {
                        &&& final(self).buffered() == Seq::<u8>::empty()
                        &&& out matches Some(StreamOutput::Item(Err(e)))
                        &&& e@ == json_error_text(detail@, body)
                    } else {
                        &&& final(self).buffered() == old(self).buffered()
                        &&& out is None
                    }
                },
            },
    {
        match step {
            JsonStep::Message { response, consumed } => {
                let mut response = response;
                let mut rest: Vec<u8> = Vec::new();
                let mut i: usize = consumed;
                while i < self.buffer.len()
                    invariant
                        consumed <= i <= self.buffer@.len(),
                        self.buffer@ == old(self).buffered(),
                        rest@ == self.buffer@.subrange(consumed as int, i as int),
                    decreases self.buffer@.len() - i,
                {
                    rest.push(self.buffer[i]);
                    i = i + 1;
                    assert(rest@ =~= self.buffer@.subrange(consumed as int, i as int));
                }
                assert(rest@ =~= old(self).buffered().skip(consumed as int));
                self.buffer = rest;
                let ghost before = response.text@;
                response.sanitize();
                assert(response.text@ == sanitized_text(before));
                Some(
                    StreamOutput::Item(
                        Ok(TranscriptionResult { text: response.text, is_final: response.is_final }),
                    ),
                )
            },
            JsonStep::Incomplete => Some(StreamOutput::Continue),
            JsonStep::Invalid { detail } => {
                let body = string_from_utf8_lossy(self.buffer.as_slice());
                let b = body.as_str();
                let n = b.as_bytes().len();
                if n <= SNIPPET_BYTES || b.is_char_boundary(SNIPPET_BYTES) {
                    let message = json_error_message(detail.as_str(), b);
                    self.buffer = Vec::new();
                    Some(StreamOutput::Item(Err(message)))
                } else {
                    None
                }
            },
        }
    }

    /// Applies the next chunk of the byte stream: bytes are buffered, a read
    /// error is yielded as it is, and the end of the bytes ends the stream.
    pub fn on_chunk(&mut self, chunk: Option<Result<Vec<u8>, String>>) -> (out: StreamOutput)
        ensures
            match chunk {
                Some(Ok(b)) => final(self).buffered() == old(self).buffered() + b@ && out
                    is Continue,
                Some(Err(e)) => final(self).buffered() == old(self).buffered() && (out matches StreamOutput::Item(Err(m)) && m == e),
                None => final(self).buffered() == old(self).buffered() && out is End,
            },
    {
        match chunk {
            Some(Ok(b)) => {
                let mut i: usize = 0;
                let ghost start = self.buffer@;
                while i < b.len()
                    invariant
                        0 <= i <= b@.len(),
                        self.buffer@ == start + b@.take(i as int),
                    decreases b@.len() - i,
                {
                    self.buffer.push(b[i]);
                    i = i + 1;
                    assert(self.buffer@ =~= start + b@.take(i as int));
                }
                assert(b@.take(b@.len() as int) =~= b@);
                StreamOutput::Continue
            },
            Some(Err(e)) => StreamOutput::Item(Err(e)),
            None => StreamOutput::End,
        }
    }
}

/// Whether a parse outcome suits the buffer it was read from: a message takes
/// at least one byte and no more than there are, and an invalid buffer can be
/// quoted without cutting a character in two.
pub open spec fn parse_fits(b: Seq<u8>, s: JsonStep) -> bool {
    match s {
        JsonStep::Message { consumed, .. } => 0 < consumed <= b.len(),
        JsonStep::Invalid { .. } => snippet_cut_ok(lossy_decoded(b)),
        JsonStep::Incomplete => true,
    }
}

/// The bytes of the chunks that were read without error, in order.
pub open spec fn chunk_bytes(cs: Seq<Result<Vec<u8>, String>>) -> Seq<u8>
    decreases cs.len(),
{
    if cs.len() == 0 {
        Seq::empty()
    } else {
        chunk_bytes(cs.drop_last()) + match cs.last() {
            Ok(b) => b@,
            Err(_) => Seq::empty(),
        }
    }
}

/// The objects' bytes one after another.
pub open spec fn concat_all(objs: Seq<Seq<u8>>) -> Seq<u8>
    decreases objs.len(),
{
    if objs.len() == 0 {
        Seq::empty()
    } else {
        objs[0] + concat_all(objs.drop_first())
    }
}

/// What a streaming JSON reader gives for a buffer that begins the object
/// `o` (whose response is `r`): more bytes are needed while the buffer is
/// shorter than the object, else the object's response, taking its bytes.
pub open spec fn reads_object(b: Seq<u8>, s: JsonStep, o: Seq<u8>, r: (Seq<char>, bool)) -> bool {
    if b.len() < o.len() {
        s is Incomplete
    } else {
        (s matches JsonStep::Message { response, consumed } && consumed == o.len() && response.text@ == r.0
            && response.is_final == r.1)
    }
}

/// The parse step reads the response objects `objs`, written one after the
/// other and followed by `tail`, as a streaming JSON reader does: on any
/// non-empty buffer that begins the rest of them from the `i`-th on (an
/// object's bytes include the whitespace before it, which the reader skips),
/// and it waits for more on any non-empty beginning of the tail (whitespace
/// after the last object).
pub open spec fn reads_objects<F: Fn(&[u8]) -> JsonStep>(
    parse: F,
    objs: Seq<Seq<u8>>,
    resps: Seq<(Seq<char>, bool)>,
    tail: Seq<u8>,
) -> bool {
    &&& objs.len() == resps.len()
    &&& forall|i: int| 0 <= i < objs.len() ==> #[trigger] objs[i].len() > 0
    &&& forall|i: int, b: &[u8], s: JsonStep|
        #![trigger call_ensures(parse, (b,), s), objs[i]]
        0 <= i < objs.len() && 0 < b@.len() && b@.is_prefix_of(concat_all(objs.skip(i)) + tail) && call_ensures(parse, (b,), s)
            ==> reads_object(b@, s, objs[i], resps[i])
    &&& forall|b: &[u8], s: JsonStep|
        0 < b@.len() && b@.is_prefix_of(tail) && #[trigger] call_ensures(parse, (b,), s) ==> s is Incomplete
}

/// The stream's chunks all arrive and together hold the response objects
/// `objs` and then `tail`, which `parse` reads as the responses `resps`.
pub open spec fn stream_of<F: Fn(&[u8]) -> JsonStep>(
    parse: F,
    chunks: Seq<Result<Vec<u8>, String>>,
    objs: Seq<Seq<u8>>,
    resps: Seq<(Seq<char>, bool)>,
    tail: Seq<u8>,
) -> bool {
    &&& forall|k: int| 0 <= k < chunks.len() ==> #[trigger] chunks[k] is Ok
    &&& chunk_bytes(chunks) == concat_all(objs) + tail
    &&& reads_objects(parse, objs, resps, tail)
}

/// The results yielded for the responses `resps`: each sanitized, in order.
pub open spec fn yields_responses(items: Seq<Result<TranscriptionResult, String>>, resps: Seq<(Seq<char>, bool)>) -> bool {
    &&& items.len() == resps.len()
    &&& forall|k: int| 0 <= k < items.len() ==> (#[trigger] items[k] matches Ok(r) && r.text@ == sanitized_text(resps[k].0)
        && r.is_final == resps[k].1)
}

proof fn lemma_chunk_bytes_take(cs: Seq<Result<Vec<u8>, String>>, i: int)
    requires
        0 <= i < cs.len(),
    ensures
        chunk_bytes(cs.take(i + 1)) == chunk_bytes(cs.take(i)) + match cs[i] {
            Ok(b) => b@,
            Err(_) => Seq::<u8>::empty(),
        },
{
    assert(cs.take(i + 1).drop_last() =~= cs.take(i));
}

proof fn lemma_concat_split(objs: Seq<Seq<u8>>, j: int)
    requires
        0 <= j <= objs.len(),
    ensures
        concat_all(objs) == concat_all(objs.take(j)) + concat_all(objs.skip(j)),
    decreases objs.len(),
{
    if j == 0 {
        assert(objs.take(0) =~= Seq::<Seq<u8>>::empty());
        assert(objs.skip(0) =~= objs);
        assert(concat_all(objs.take(0)) + concat_all(objs.skip(0)) =~= concat_all(objs));
    } else {
        let t = objs.drop_first();
        lemma_concat_split(t, j - 1);
        assert(objs.take(j).drop_first() =~= t.take(j - 1));
        assert(objs.skip(j) =~= t.skip(j - 1));
        assert(objs.take(j)[0] == objs[0]);
        assert(concat_all(objs.take(j)) == objs[0] + concat_all(t.take(j - 1)));
        assert(concat_all(objs) =~= concat_all(objs.take(j)) + concat_all(objs.skip(j)));
    }
}

proof fn lemma_concat_take_next(objs: Seq<Seq<u8>>, j: int)
    requires
        0 <= j < objs.len(),
    ensures
        concat_all(objs.take(j + 1)) == concat_all(objs.take(j)) + objs[j],
        concat_all(objs.skip(j)) == objs[j] + concat_all(objs.skip(j + 1)),
{
    let a = objs.take(j + 1);
    lemma_concat_split(a, j);
    assert(a.take(j) =~= objs.take(j));
    assert(a.skip(j) =~= seq![objs[j]]);
    let one = seq![objs[j]];
    assert(one.drop_first() =~= Seq::<Seq<u8>>::empty());
    assert(concat_all(one.drop_first()) == Seq::<u8>::empty());
    assert(concat_all(one) =~= objs[j]);
    let b = objs.skip(j);
    assert(b.drop_first() =~= objs.skip(j + 1));
    assert(b[0] == objs[j]);
}

proof fn lemma_chunk_bytes_prefix(cs: Seq<Result<Vec<u8>, String>>, i: int)
    requires
        0 <= i <= cs.len(),
    ensures
        chunk_bytes(cs.take(i)).is_prefix_of(chunk_bytes(cs)),
    decreases cs.len() - i,
{
    if i == cs.len() {
        assert(cs.take(i) =~= cs);
    } else {
        lemma_chunk_bytes_prefix(cs, i + 1);
        lemma_chunk_bytes_take(cs, i);
    }
}

/// Where a run over a stream of response objects stands: the items so far
/// are the responses of the first objects, and the bytes read so far are
/// those objects followed by the buffer.
pub open spec fn run_inv(
    chunks: Seq<Result<Vec<u8>, String>>,
    ci: int,
    objs: Seq<Seq<u8>>,
    resps: Seq<(Seq<char>, bool)>,
    items: Seq<Result<TranscriptionResult, String>>,
    buffer: Seq<u8>,
) -> bool {
    &&& items.len() <= objs.len()
    &&& objs.len() == resps.len()
    &&& chunk_bytes(chunks.take(ci)) == concat_all(objs.take(items.len() as int)) + buffer
    &&& yields_responses(items, resps.take(items.len() as int))
}

proof fn lemma_prefix_after(a: Seq<u8>, b: Seq<u8>, c: Seq<u8>)
    requires
        (a + b).is_prefix_of(a + c),
    ensures
        b.is_prefix_of(c),
{
    assert forall|k: int| 0 <= k < b.len() implies b[k] == c[k] by {
        assert((a + b)[a.len() + k] == (a + c)[a.len() + k]);
    }
    assert(b =~= c.subrange(0, b.len() as int));
}

/// On a non-empty buffer in a run over response objects, the parse step
/// reads the next object, or waits for more in the tail.
proof fn lemma_next_object<F: Fn(&[u8]) -> JsonStep>(
    parse: F,
    chunks: Seq<Result<Vec<u8>, String>>,
    ci: int,
    objs: Seq<Seq<u8>>,
    resps: Seq<(Seq<char>, bool)>,
    tail: Seq<u8>,
    items: Seq<Result<TranscriptionResult, String>>,
    b: &[u8],
    step: JsonStep,
)
    requires
        0 <= ci <= chunks.len(),
        stream_of(parse, chunks, objs, resps, tail),
        run_inv(chunks, ci, objs, resps, items, b@),
        b@.len() > 0,
        call_ensures(parse, (b,), step),
    ensures
        items.len() == objs.len() ==> step is Incomplete,
        items.len() < objs.len() ==> reads_object(b@, step, objs[items.len() as int], resps[items.len() as int]),
        items.len() < objs.len() && b@.len() >= objs[items.len() as int].len() ==> b@ == objs[items.len() as int] + b@.skip(
            objs[items.len() as int].len() as int,
        ),
{
    let j = items.len() as int;
    lemma_chunk_bytes_prefix(chunks, ci);
    lemma_concat_split(objs, j);
    let a = concat_all(objs.take(j));
    assert(concat_all(objs) + tail =~= a + (concat_all(objs.skip(j)) + tail));
    lemma_prefix_after(a, b@, concat_all(objs.skip(j)) + tail);
    if j == objs.len() {
        assert(objs.skip(j) =~= Seq::<Seq<u8>>::empty());
        assert(concat_all(objs.skip(j)) + tail =~= tail);
    } else {
        assert(objs[j].len() > 0);
        lemma_concat_take_next(objs, j);
        if b@.len() >= objs[j].len() {
            assert(b@ =~= objs[j] + b@.skip(objs[j].len() as int));
        }
    }
}

/// At the end of the chunks of a run over response objects, with the buffer
/// empty or waiting for the rest of an object, every response was yielded.
proof fn lemma_stream_end<F: Fn(&[u8]) -> JsonStep>(
    parse: F,
    chunks: Seq<Result<Vec<u8>, String>>,
    objs: Seq<Seq<u8>>,
    resps: Seq<(Seq<char>, bool)>,
    tail: Seq<u8>,
    items: Seq<Result<TranscriptionResult, String>>,
    buf: Seq<u8>,
)
    requires
        stream_of(parse, chunks, objs, resps, tail),
        run_inv(chunks, chunks.len() as int, objs, resps, items, buf),
        buf.len() == 0 || items.len() == objs.len() || buf.len() < objs[items.len() as int].len(),
    ensures
        yields_responses(items, resps),
{
    let j = items.len() as int;
    assert(chunks.take(chunks.len() as int) =~= chunks);
    lemma_concat_split(objs, j);
    let a = concat_all(objs.take(j));
    let rest = concat_all(objs.skip(j)) + tail;
    assert(concat_all(objs) + tail =~= a + rest);
    assert((a + buf).skip(a.len() as int) =~= buf);
    assert((a + rest).skip(a.len() as int) =~= rest);
    assert(buf =~= rest);
    if j < objs.len() {
        lemma_concat_take_next(objs, j);
        assert(objs[j].len() > 0);
        assert(false);
    }
    assert(resps.take(j) =~= resps);
}


/// The parse step, handed these buffered bytes, can give `s`.
pub open spec fn parse_gave<F: Fn(&[u8]) -> JsonStep>(parse: F, buf: Seq<u8>, s: JsonStep) -> bool {
    exists|b: &[u8]| b@ == buf && #[trigger] call_ensures(parse, (b,), s)
}

/// `items` is what the stream yields from the point where the first `ci`
/// chunks were read and `buf` is buffered, when the parse steps give `steps`
/// in turn. A turn parses a non-empty buffer (unless `reading`): a message is
/// yielded sanitized and its bytes leave the buffer; an invalid buffer is
/// reported quoted and dropped; an incomplete one waits for the next chunk.
/// Reading a chunk buffers its bytes, a read error is yielded as it is, and
/// the end of the chunks ends the stream.
pub open spec fn whisper_run<F: Fn(&[u8]) -> JsonStep>(
    parse: F,
    chunks: Seq<Result<Vec<u8>, String>>,
    ci: int,
    buf: Seq<u8>,
    reading: bool,
    steps: Seq<JsonStep>,
    items: Seq<Result<TranscriptionResult, String>>,
) -> bool
    decreases chunks.len() - ci, buf.len(), (if reading { 0int } else { 1int }),
{
    if !reading && buf.len() > 0 {
        if steps.len() == 0 || !parse_gave(parse, buf, steps[0]) || !parse_fits(buf, steps[0]) {
            false
        } else {
            match steps[0] {
                JsonStep::Message { response, consumed } => {
                    &&& items.len() > 0
                    &&& items[0] matches Ok(r) && r.text@ == sanitized_text(response.text@) && r.is_final == response.is_final
                    &&& whisper_run(parse, chunks, ci, buf.skip(consumed as int), false, steps.drop_first(), items.drop_first())
                },
                JsonStep::Invalid { detail } => {
                    &&& items.len() > 0
                    &&& items[0] matches Err(e) && e@ == json_error_text(detail@, lossy_decoded(buf))
                    &&& whisper_run(parse, chunks, ci, Seq::empty(), false, steps.drop_first(), items.drop_first())
                },
                JsonStep::Incomplete => whisper_run(parse, chunks, ci, buf, true, steps.drop_first(), items),
            }
        }
    } else if 0 <= ci < chunks.len() {
        match chunks[ci] {
            Ok(b) => whisper_run(parse, chunks, ci + 1, buf + b@, false, steps, items),
            Err(e) => {
                &&& items.len() > 0
                &&& items[0] == Err::<TranscriptionResult, String>(e)
                &&& whisper_run(parse, chunks, ci + 1, buf, false, steps, items.drop_first())
            },
        }
    } else {
        items.len() == 0
    }
}

/// From this point the items so far lead, with any continuation, to a run of
/// the whole stream.
pub open spec fn leads_to<F: Fn(&[u8]) -> JsonStep>(
    parse: F,
    chunks: Seq<Result<Vec<u8>, String>>,
    ci: int,
    buf: Seq<u8>,
    reading: bool,
    done: Seq<JsonStep>,
    items: Seq<Result<TranscriptionResult, String>>,
) -> bool {
    forall|steps: Seq<JsonStep>, rest: Seq<Result<TranscriptionResult, String>>|
        #[trigger] whisper_run(parse, chunks, ci, buf, reading, steps, rest)
            ==> whisper_run(parse, chunks, 0, Seq::empty(), false, done + steps, items + rest)
}

/// What a parse turn that yields an item did: a message is yielded sanitized
/// and leaves the buffer, an invalid buffer is reported quoted and dropped.
pub open spec fn parse_turn(before: Seq<u8>, s: JsonStep, item: Result<TranscriptionResult, String>, after: Seq<u8>) -> bool {
    match s {
        JsonStep::Message { response, consumed } => {
            &&& item matches Ok(r) && r.text@ == sanitized_text(response.text@) && r.is_final == response.is_final
            &&& after == before.skip(consumed as int)
        },
        JsonStep::Invalid { detail } => {
            &&& item matches Err(e) && e@ == json_error_text(detail@, lossy_decoded(before))
            &&& after == Seq::<u8>::empty()
        },
        JsonStep::Incomplete => false,
    }
}

proof fn lemma_leads_item<F: Fn(&[u8]) -> JsonStep>(
    parse: F,
    chunks: Seq<Result<Vec<u8>, String>>,
    ci: int,
    before: Seq<u8>,
    after: Seq<u8>,
    s: JsonStep,
    done: Seq<JsonStep>,
    items: Seq<Result<TranscriptionResult, String>>,
    item: Result<TranscriptionResult, String>,
)
    requires
        leads_to(parse, chunks, ci, before, false, done, items),
        before.len() > 0,
        parse_gave(parse, before, s),
        parse_fits(before, s),
        parse_turn(before, s, item, after),
    ensures
        leads_to(parse, chunks, ci, after, false, done.push(s), items.push(item)),
{
    assert forall|steps: Seq<JsonStep>, rest: Seq<Result<TranscriptionResult, String>>|
        #[trigger] whisper_run(parse, chunks, ci, after, false, steps, rest) implies whisper_run(
            parse,
            chunks,
            0,
            Seq::empty(),
            false,
            done.push(s) + steps,
            items.push(item) + rest,
        ) by {
        let st2 = seq![s] + steps;
        let r2 = seq![item] + rest;
        assert(st2[0] == s);
        assert(st2.drop_first() =~= steps);
        assert(r2.drop_first() =~= rest);
        assert(r2[0] == item);
        assert(whisper_run(parse, chunks, ci, before, false, st2, r2));
        assert(done + st2 =~= done.push(s) + steps);
        assert(items + r2 =~= items.push(item) + rest);
    }
}

proof fn lemma_leads_incomplete<F: Fn(&[u8]) -> JsonStep>(
    parse: F,
    chunks: Seq<Result<Vec<u8>, String>>,
    ci: int,
    buf: Seq<u8>,
    s: JsonStep,
    done: Seq<JsonStep>,
    items: Seq<Result<TranscriptionResult, String>>,
)
    requires
        leads_to(parse, chunks, ci, buf, false, done, items),
        buf.len() > 0,
        parse_gave(parse, buf, s),
        parse_fits(buf, s),
        s is Incomplete,
    ensures
        leads_to(parse, chunks, ci, buf, true, done.push(s), items),
{
    assert forall|steps: Seq<JsonStep>, rest: Seq<Result<TranscriptionResult, String>>|
        #[trigger] whisper_run(parse, chunks, ci, buf, true, steps, rest) implies whisper_run(
            parse,
            chunks,
            0,
            Seq::empty(),
            false,
            done.push(s) + steps,
            items + rest,
        ) by {
        let st2 = seq![s] + steps;
        assert(st2[0] == s);
        assert(st2.drop_first() =~= steps);
        assert(whisper_run(parse, chunks, ci, buf, false, st2, rest));
        assert(done + st2 =~= done.push(s) + steps);
    }
}

proof fn lemma_leads_empty<F: Fn(&[u8]) -> JsonStep>(
    parse: F,
    chunks: Seq<Result<Vec<u8>, String>>,
    ci: int,
    buf: Seq<u8>,
    done: Seq<JsonStep>,
    items: Seq<Result<TranscriptionResult, String>>,
)
    requires
        leads_to(parse, chunks, ci, buf, false, done, items),
        buf.len() == 0,
    ensures
        leads_to(parse, chunks, ci, buf, true, done, items),
{
    assert forall|steps: Seq<JsonStep>, rest: Seq<Result<TranscriptionResult, String>>|
        #[trigger] whisper_run(parse, chunks, ci, buf, true, steps, rest) implies whisper_run(
            parse,
            chunks,
            0,
            Seq::empty(),
            false,
            done + steps,
            items + rest,
        ) by {
        assert(whisper_run(parse, chunks, ci, buf, false, steps, rest));
    }
}

proof fn lemma_leads_read<F: Fn(&[u8]) -> JsonStep>(
    parse: F,
    chunks: Seq<Result<Vec<u8>, String>>,
    ci: int,
    buf: Seq<u8>,
    done: Seq<JsonStep>,
    items: Seq<Result<TranscriptionResult, String>>,
)
    requires
        leads_to(parse, chunks, ci, buf, true, done, items),
        0 <= ci < chunks.len(),
    ensures
        chunks[ci] matches Ok(b) ==> leads_to(parse, chunks, ci + 1, buf + b@, false, done, items),
        chunks[ci] matches Err(e) ==> leads_to(parse, chunks, ci + 1, buf, false, done, items.push(Err::<TranscriptionResult, String>(e))),
{
    match chunks[ci] {
        Ok(b) => {
            assert forall|steps: Seq<JsonStep>, rest: Seq<Result<TranscriptionResult, String>>|
                #[trigger] whisper_run(parse, chunks, ci + 1, buf + b@, false, steps, rest) implies whisper_run(
                    parse,
                    chunks,
                    0,
                    Seq::empty(),
                    false,
                    done + steps,
                    items + rest,
                ) by {
                assert(whisper_run(parse, chunks, ci, buf, true, steps, rest));
            }
        },
        Err(e) => {
            let item = Err::<TranscriptionResult, String>(e);
            assert forall|steps: Seq<JsonStep>, rest: Seq<Result<TranscriptionResult, String>>|
                #[trigger] whisper_run(parse, chunks, ci + 1, buf, false, steps, rest) implies whisper_run(
                    parse,
                    chunks,
                    0,
                    Seq::empty(),
                    false,
                    done + steps,
                    items.push(item) + rest,
                ) by {
                let r2 = seq![item] + rest;
                assert(r2.drop_first() =~= rest);
                assert(r2[0] == item);
                assert(whisper_run(parse, chunks, ci, buf, true, steps, r2));
                assert(items + r2 =~= items.push(item) + rest);
            }
        },
    }
}

/// Turns the server's byte stream, given as the chunks it arrives in, into
/// transcription results: each turn parses the buffered bytes with `parse`
/// when there are any, and reads the next chunk when that gave nothing; a
/// read error is passed on, and the end of the chunks ends the stream.
/// What it yields is the run `whisper_run` of these chunks for the steps that
/// `parse` gave. When the chunks together hold response objects one after
/// another (with whitespace before each, and after the last) and `parse`
/// reads them as a streaming JSON reader does, the results are the objects'
/// responses, sanitized, in order, however the bytes were split.
pub fn parse_whisper_stream<F: Fn(&[u8]) -> JsonStep>(chunks: &Vec<Result<Vec<u8>, String>>, parse: F) -> (items: Vec<
    Result<TranscriptionResult, String>,
>)
    requires
        forall|b: &[u8]| call_requires(parse, (b,)),
        forall|b: &[u8], s: JsonStep| #[trigger] call_ensures(parse, (b,), s) ==> parse_fits(b@, s),
    ensures
        exists|steps: Seq<JsonStep>| whisper_run(parse, chunks@, 0, Seq::empty(), false, steps, items@),
        forall|objs: Seq<Seq<u8>>, resps: Seq<(Seq<char>, bool)>, tail: Seq<u8>|
            #[trigger] stream_of(parse, chunks@, objs, resps, tail) ==> yields_responses(items@, resps),
{
    let mut parser = WhisperStreamParser::new();
    let mut items: Vec<Result<TranscriptionResult, String>> = Vec::new();
    let mut ci: usize = 0;
    let ghost mut done: Seq<JsonStep> = Seq::empty();
    proof {
        assert forall|steps: Seq<JsonStep>, rest: Seq<Result<TranscriptionResult, String>>|
            #[trigger] whisper_run(parse, chunks@, 0, Seq::empty(), false, steps, rest) implies whisper_run(
                parse,
                chunks@,
                0,
                Seq::empty(),
                false,
                done + steps,
                items@ + rest,
            ) by {
            assert(done + steps =~= steps);
            assert(items@ + rest =~= rest);
        }
        assert(parser.buffered() =~= Seq::<u8>::empty());
        assert(chunks@.take(0) =~= Seq::<Result<Vec<u8>, String>>::empty());
        assert forall|objs: Seq<Seq<u8>>, resps: Seq<(Seq<char>, bool)>, tail: Seq<u8>|
            #[trigger] stream_of(parse, chunks@, objs, resps, tail) implies run_inv(chunks@, ci as int, objs, resps, items@, parser.buffered()) by {
            assert(objs.take(0) =~= Seq::<Seq<u8>>::empty());
            assert(chunk_bytes(chunks@.take(0)) == Seq::<u8>::empty());
            assert(concat_all(objs.take(0)) == Seq::<u8>::empty());
            assert(chunk_bytes(chunks@.take(0)) =~= concat_all(objs.take(0)) + parser.buffered());
            assert(resps.take(0).len() == 0);
        }
    }
    loop
        invariant_except_break
            leads_to(parse, chunks@, ci as int, parser.buffered(), false, done, items@),
        invariant
            0 <= ci <= chunks@.len(),
            forall|b: &[u8]| call_requires(parse, (b,)),
            forall|b: &[u8], s: JsonStep| #[trigger] call_ensures(parse, (b,), s) ==> parse_fits(b@, s),
            forall|objs: Seq<Seq<u8>>, resps: Seq<(Seq<char>, bool)>, tail: Seq<u8>|
                #[trigger] stream_of(parse, chunks@, objs, resps, tail) ==> run_inv(chunks@, ci as int, objs, resps, items@, parser.buffered()),
        ensures
            exists|steps: Seq<JsonStep>| whisper_run(parse, chunks@, 0, Seq::empty(), false, steps, items@),
            forall|objs: Seq<Seq<u8>>, resps: Seq<(Seq<char>, bool)>, tail: Seq<u8>|
                #[trigger] stream_of(parse, chunks@, objs, resps, tail) ==> yields_responses(items@, resps),
        decreases chunks@.len() - ci, parser.buffered().len(),
    {
        let ghost mut waiting = false;
        if parser.wants_parse() {
            let ghost before = parser.buffered();
            let ghost items0 = items@;
            let bs = parser.buffer();
            let step = parse(bs);
            let ghost st = step;
            proof {
                assert(parse_gave(parse, before, st));
                assert(parse_fits(before, st));
            }
            let out = parser.on_parse(step);
            proof {
                assert forall|objs: Seq<Seq<u8>>, resps: Seq<(Seq<char>, bool)>, tail: Seq<u8>|
                    #[trigger] stream_of(parse, chunks@, objs, resps, tail) implies (items0.len() < objs.len() ==> reads_object(before, st, objs[items0.len() as int], resps[items0.len() as int])) && (items0.len() == objs.len() ==> st is Incomplete) by {
                    lemma_next_object(parse, chunks@, ci as int, objs, resps, tail, items0, bs, st);
                }
            }
            match out {
                Some(StreamOutput::Item(item)) => {
                    let ghost it = item;
                    items.push(item);
                    proof {
                        assert(parse_turn(before, st, it, parser.buffered()));
                        lemma_leads_item(parse, chunks@, ci as int, before, parser.buffered(), st, done, items0, it);
                        done = done.push(st);
                        assert(items@ =~= items0.push(it));
                        assert forall|objs: Seq<Seq<u8>>, resps: Seq<(Seq<char>, bool)>, tail: Seq<u8>|
                            #[trigger] stream_of(parse, chunks@, objs, resps, tail) implies run_inv(chunks@, ci as int, objs, resps, items@, parser.buffered()) by {
                            let j = items0.len() as int;
                            lemma_next_object(parse, chunks@, ci as int, objs, resps, tail, items0, bs, st);
                            lemma_concat_take_next(objs, j);
                            assert(before.len() >= objs[j].len());
                            let o = objs[j];
                            assert(st matches JsonStep::Message { response, consumed } && consumed == o.len());
                            assert(parser.buffered() == before.skip(o.len() as int));
                            assert(before == o + parser.buffered());
                            assert(chunk_bytes(chunks@.take(ci as int)) =~= concat_all(objs.take(j + 1)) + parser.buffered());
                            assert(items@[j] matches Ok(r) && r.text@ == sanitized_text(resps[j].0) && r.is_final == resps[j].1);
                            assert(items@.take(j) =~= items0);
                            assert(resps.take(j + 1).take(j) =~= resps.take(j));
                            assert(yields_responses(items@, resps.take(j + 1)));
                            assert(objs.take(j + 1).len() == j + 1);
                        }
                    }
                    continue;
                },
                Some(StreamOutput::Continue) => {
                    proof {
                        lemma_leads_incomplete(parse, chunks@, ci as int, before, st, done, items0);
                        done = done.push(st);
                        waiting = true;
                        assert forall|objs: Seq<Seq<u8>>, resps: Seq<(Seq<char>, bool)>, tail: Seq<u8>|
                            #[trigger] stream_of(parse, chunks@, objs, resps, tail) implies items@.len() == objs.len() || before.len() < objs[items@.len() as int].len() by {
                            lemma_next_object(parse, chunks@, ci as int, objs, resps, tail, items0, bs, st);
                        }
                    }
                },
                _ => {
                    proof {
                        assert(false);
                        assert forall|objs: Seq<Seq<u8>>, resps: Seq<(Seq<char>, bool)>, tail: Seq<u8>|
                            #[trigger] stream_of(parse, chunks@, objs, resps, tail) implies false by {
                            lemma_next_object(parse, chunks@, ci as int, objs, resps, tail, items0, bs, st);
                        }
                    }
                    break;
                },
            }
        }
        let ghost buf = parser.buffered();
        let ghost items1 = items@;
        proof {
            if !waiting {
                lemma_leads_empty(parse, chunks@, ci as int, buf, done, items1);
            }
            assert(leads_to(parse, chunks@, ci as int, buf, true, done, items1));
            if (ci as int) < chunks@.len() {
                lemma_leads_read(parse, chunks@, ci as int, buf, done, items1);
            }
        }
        let ghost ci0 = ci as int;
        let chunk = if ci < chunks.len() {
            let c = match &chunks[ci] {
                Ok(b) => {
                    let copy = b.clone();
                    proof {
                        assert forall|i: int| 0 <= i < copy@.len() implies copy@[i] == b@[i] by {
                            assert(cloned::<u8>(b[i], copy[i]));
                        }
                        assert(copy@ =~= b@);
                    }
                    Ok(copy)
                },
                Err(e) => Err(e.clone()),
            };
            ci = ci + 1;
            Some(c)
        } else {
            None
        };
        match parser.on_chunk(chunk) {
            StreamOutput::Continue => {
                proof {
                    assert forall|objs: Seq<Seq<u8>>, resps: Seq<(Seq<char>, bool)>, tail: Seq<u8>|
                        #[trigger] stream_of(parse, chunks@, objs, resps, tail) implies run_inv(chunks@, ci as int, objs, resps, items@, parser.buffered()) by {
                        lemma_chunk_bytes_take(chunks@, ci - 1);
                        assert(chunks@[ci - 1] is Ok);
                        let b = chunks@[ci - 1]->Ok_0;
                        assert(parser.buffered() =~= buf + b@);
                        assert(chunk_bytes(chunks@.take(ci as int)) =~= concat_all(objs.take(items@.len() as int)) + parser.buffered());
                    }
                }
            },
            StreamOutput::Item(item) => {
                let ghost it = item;
                items.push(item);
                proof {
                    assert(chunks@[ci0] is Err);
                    assert(it == Err::<TranscriptionResult, String>(chunks@[ci0]->Err_0));
                    assert(items@ =~= items1.push(it));
                    assert forall|objs: Seq<Seq<u8>>, resps: Seq<(Seq<char>, bool)>, tail: Seq<u8>|
                        #[trigger] stream_of(parse, chunks@, objs, resps, tail) implies false by {
                        assert(chunks@[ci - 1] is Ok);
                    }
                }
            },
            StreamOutput::End => {
                proof {
                    assert forall|objs: Seq<Seq<u8>>, resps: Seq<(Seq<char>, bool)>, tail: Seq<u8>|
                        #[trigger] stream_of(parse, chunks@, objs, resps, tail) implies yields_responses(items@, resps) by {
                        if !waiting {
                            assert(buf.len() == 0);
                        }
                        lemma_stream_end(parse, chunks@, objs, resps, tail, items@, buf);
                    }
                    assert(ci0 == chunks@.len());
                    assert(whisper_run(parse, chunks@, ci0, buf, true, Seq::empty(), Seq::empty()));
                    assert(done + Seq::<JsonStep>::empty() =~= done);
                    assert(items@ + Seq::<Result<TranscriptionResult, String>>::empty() =~= items@);
                    assert(whisper_run(parse, chunks@, 0, Seq::empty(), false, done, items@));
                    assert(exists|steps: Seq<JsonStep>| whisper_run(parse, chunks@, 0, Seq::empty(), false, steps, items@));
                }
                break;
            },
        }
    }
    items
}

} // verus!
