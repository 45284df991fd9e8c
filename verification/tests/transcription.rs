use dictation::text::sanitize_text;
use dictation::traits::TranscriptionResult;
use dictation::transcriber::{chunk_result, TranscriptionResponse, WhisperClient as StreamingWhisperClient};
use dictation::transcriber_whisper::{
    inference_url, json_error_message, lossy_text, parse_whisper_stream, prompt_from_classes, InternalTranscriptionResponse, JsonStep, StreamOutput,
    WhisperClient, WhisperStreamParser,
};
use dictation::transcriber_openai::{openai_result, OpenAiClient, OpenAiReply};
use dictation::transcriber_factory::create_transcriber;
use dictation::config::BackendConfig;

/// Reads the next JSON value of the buffer the way the daemon does, reporting
/// what the parser needs to know.
fn parse_step(buf: &[u8]) -> JsonStep {
    let mut de = serde_json::Deserializer::from_slice(buf).into_iter::<serde_json::Value>();
    match de.next() {
        Some(Ok(v)) => {
            let consumed = de.byte_offset();
            match v.get("text").and_then(|t| t.as_str()) {
                Some(text) => JsonStep::Message {
                    response: InternalTranscriptionResponse {
                        text: text.to_string(),
                        is_final: v.get("is_final").and_then(|b| b.as_bool()).unwrap_or(false),
                    },
                    consumed,
                },
                None => JsonStep::Invalid { detail: "missing field `text`".to_string() },
            }
        }
        Some(Err(e)) if e.is_eof() => JsonStep::Incomplete,
        Some(Err(e)) => JsonStep::Invalid { detail: e.to_string() },
        None => JsonStep::Incomplete,
    }
}

/// Runs the stream over the chunks and collects what it yields.
fn run_stream(chunks: Vec<Result<Vec<u8>, String>>) -> Vec<Result<TranscriptionResult, String>> {
    parse_whisper_stream(&chunks, parse_step)
}

#[test]
fn test_parse_whisper_stream_chunked() {
    let json_part1 = r#"{"text": "Hello "#;
    let json_part2 = r#"world!", "is_final": true}"#;
    let out = run_stream(vec![Ok(json_part1.as_bytes().to_vec()), Ok(json_part2.as_bytes().to_vec())]);
    assert_eq!(out.len(), 1);
    let res = out[0].as_ref().unwrap();
    assert_eq!(res.text, "Hello world!");
    assert!(res.is_final);
}

#[test]
fn test_parse_whisper_stream_multiple_messages() {
    let msg1 = r#"{"text": "Partial", "is_final": false}"#;
    let msg2 = r#"{"text": "Final result", "is_final": true}"#;
    let out = run_stream(vec![
        Ok(msg1.as_bytes()[..10].to_vec()),
        Ok(msg1.as_bytes()[10..].to_vec()),
        Ok(msg2.as_bytes().to_vec()),
    ]);
    assert_eq!(out.len(), 2);
    let res1 = out[0].as_ref().unwrap();
    assert_eq!(res1.text, "Partial");
    assert!(!res1.is_final);
    let res2 = out[1].as_ref().unwrap();
    assert_eq!(res2.text, "Final result");
    assert!(res2.is_final);
}

#[test]
fn parser_sanitizes_messages_and_keeps_the_rest_buffered() {
    let mut parser = WhisperStreamParser::new();
    assert!(!parser.wants_parse());
    let two = b"{\"text\":\"a\"}{\"text\":\"b\"}".to_vec();
    assert!(matches!(parser.on_chunk(Some(Ok(two))), StreamOutput::Continue));
    let step = JsonStep::Message {
        response: InternalTranscriptionResponse { text: "  one\n two  ".to_string(), is_final: false },
        consumed: 12,
    };
    match parser.on_parse(step) {
        Some(StreamOutput::Item(Ok(r))) => {
            assert_eq!(r.text, "one two");
            assert!(!r.is_final);
        }
        _ => panic!("expected a message"),
    }
    assert_eq!(parser.buffer(), b"{\"text\":\"b\"}");
}

#[test]
fn parser_reports_invalid_json_and_clears_the_buffer() {
    let out = run_stream(vec![Ok(b"not json".to_vec())]);
    assert_eq!(out.len(), 1);
    let e = out[0].as_ref().err().unwrap();
    assert!(e.starts_with("JSON parse error: "));
    assert!(e.ends_with(" (body: not json)"));
}

#[test]
fn parser_passes_read_errors_and_ends_with_the_bytes() {
    let out = run_stream(vec![Err("connection reset".to_string())]);
    assert_eq!(out.len(), 1);
    assert_eq!(out[0].as_ref().err().unwrap(), "connection reset");
    let mut parser = WhisperStreamParser::new();
    assert!(matches!(parser.on_chunk(None), StreamOutput::End));
}

#[test]
fn error_message_quotes_at_most_a_hundred_bytes() {
    let body = "x".repeat(150);
    let m = json_error_message("bad", &body);
    assert_eq!(m, format!("JSON parse error: bad (body: {}...)", "x".repeat(100)));
    let short = json_error_message("bad", "{oops");
    assert_eq!(short, "JSON parse error: bad (body: {oops)");
}

#[test]
fn parser_gives_up_when_the_quote_would_split_a_character() {
    let mut parser = WhisperStreamParser::new();
    let mut body = "a".repeat(99).into_bytes();
    body.extend_from_slice("é".as_bytes());
    body.extend_from_slice(b"zz");
    parser.on_chunk(Some(Ok(body.clone())));
    assert!(parser.on_parse(JsonStep::Invalid { detail: "x".to_string() }).is_none());
    assert_eq!(parser.buffer(), body.as_slice());
}

#[test]
fn sanitize_collapses_whitespace_and_line_breaks() {
    let mut r = TranscriptionResponse { text: " Hello\r\n  world\u{2028}again\t".to_string(), is_final: true };
    r.sanitize();
    assert_eq!(r.text, "Hello world again");
    assert!(r.is_final);
    let mut i = InternalTranscriptionResponse { text: "\u{0B}a\u{0C}b\u{85}c ".to_string(), is_final: false };
    i.sanitize();
    assert_eq!(i.text, "a b c");
    assert!(!i.is_final);
}

#[test]
fn sanitize_twice_is_sanitize_once() {
    let once = sanitize_text("  many   spaces\n\nand lines ");
    assert_eq!(once, "many spaces and lines");
    assert_eq!(sanitize_text(&once), once);
    assert_eq!(sanitize_text("   "), "");
}

#[test]
fn inference_url_adds_the_path_once() {
    assert_eq!(inference_url("http://localhost:8080"), "http://localhost:8080/inference");
    assert_eq!(inference_url("http://localhost:8080/"), "http://localhost:8080/inference");
    assert_eq!(inference_url("http://h/inference"), "http://h/inference");
    assert_eq!(inference_url("http://h/inference?x=1"), "http://h/inference?x=1");
    let once = inference_url("http://h:1");
    assert_eq!(inference_url(&once), once);
    let c = StreamingWhisperClient::new("http://localhost:58080".to_string());
    assert_eq!(c.target_url(), "http://localhost:58080/inference");
}

#[test]
fn whisper_prompt_is_filtered_and_keeps_the_last_words() {
    let mut c = WhisperClient::new("http://h".to_string());
    assert!(c.query_params().is_empty());
    c.set_prompt("Hello\u{2014}world \u{1F600} caf\u{e9}!\nnext".to_string());
    assert_eq!(c.prompt().unwrap(), "Hello-world caf\u{e9}! next");
    let q = c.query_params();
    assert_eq!(q, vec![("prompt".to_string(), "Hello-world caf\u{e9}! next".to_string())]);
    c.set_prompt("\u{1F600}\u{1F600}".to_string());
    assert_eq!(c.prompt().unwrap(), "Hello-world caf\u{e9}! next");
    c.set_prompt(String::new());
    assert_eq!(c.prompt().unwrap(), "Hello-world caf\u{e9}! next");
    let words: Vec<String> = (0..250).map(|i| format!("w{}", i)).collect();
    c.set_prompt(words.join("  "));
    let p = c.prompt().unwrap();
    assert_eq!(p.split(' ').count(), 200);
    assert!(p.starts_with("w50 w51"));
    assert!(p.ends_with("w249"));
    assert_eq!(c.target_url(), "http://h/inference");
}

#[test]
fn openai_prompt_keeps_the_last_words() {
    let mut c = OpenAiClient::new("https://api".to_string(), "key".to_string(), "whisper-1".to_string());
    let (url, key, model, prompt) = c.request_parts();
    assert_eq!(url, "https://api");
    assert_eq!(key, "key");
    assert_eq!(model, "whisper-1");
    assert!(prompt.is_none());
    c.set_prompt("  one\ttwo  ".to_string());
    assert_eq!(c.request_parts().3.unwrap(), "one two");
    c.set_prompt(String::new());
    assert_eq!(c.request_parts().3.unwrap(), "one two");
    c.set_prompt("   ".to_string());
    assert_eq!(c.request_parts().3.unwrap(), "");
    let words: Vec<String> = (0..201).map(|i| i.to_string()).collect();
    c.set_prompt(words.join(" "));
    assert!(c.request_parts().3.unwrap().starts_with("1 2 3"));
}

#[test]
fn openai_replies_become_results() {
    let ok = openai_result(OpenAiReply::Transcript("hi".to_string())).unwrap();
    assert_eq!(ok.text, "hi");
    assert!(ok.is_final);
    assert_eq!(openai_result(OpenAiReply::BadJson("eof".to_string())).err().unwrap(), "OpenAI JSON error: eof");
    assert_eq!(
        openai_result(OpenAiReply::HttpError { status: "401 Unauthorized".to_string(), body: None }).err().unwrap(),
        "OpenAI API error (401 Unauthorized): Unknown error"
    );
    assert_eq!(
        openai_result(OpenAiReply::HttpError { status: "500".to_string(), body: Some("boom".to_string()) }).err().unwrap(),
        "OpenAI API error (500): boom"
    );
    assert_eq!(
        openai_result(OpenAiReply::RequestFailed("dns".to_string())).err().unwrap(),
        "OpenAI request error: dns"
    );
}

#[test]
fn factory_builds_a_whisper_client_with_the_prompt() {
    let config = BackendConfig::WhisperCpp { url: "http://localhost:58080".to_string() };
    let c = create_transcriber(&config, Some("the text before".to_string()));
    assert_eq!(c.target_url(), "http://localhost:58080/inference");
    assert_eq!(c.prompt().unwrap(), "the text before");
    let c = create_transcriber(&config, None);
    assert!(c.prompt().is_none());
}

#[test]
fn reply_chunks_become_results() {
    let ok = chunk_result(Ok(TranscriptionResponse { text: "a\nb".to_string(), is_final: true }), b"{}").unwrap();
    assert_eq!(ok.text, "a b");
    assert!(ok.is_final);
    let e = chunk_result(Err("expected value".to_string()), b"oops\xff").err().unwrap();
    assert_eq!(e, "JSON parse error: expected value (body: oops\u{fffd})");
}

#[test]
fn invalid_body_is_quoted_as_it_is_and_parsing_resumes() {
    let out = run_stream(vec![Ok(b"xyz".to_vec()), Ok(br#"{"text":"ok"}"#.to_vec())]);
    assert_eq!(out.len(), 2);
    let e = out[0].as_ref().err().unwrap();
    assert!(e.starts_with("JSON parse error: "));
    assert!(e.ends_with("(body: xyz)"));
    let r = out[1].as_ref().unwrap();
    assert_eq!(r.text, "ok");
    assert!(!r.is_final);
    let mut parser = WhisperStreamParser::new();
    parser.on_chunk(Some(Ok(b"xyz".to_vec())));
    match parser.on_parse(JsonStep::Invalid { detail: "expected value".to_string() }) {
        Some(StreamOutput::Item(Err(m))) => assert_eq!(m, "JSON parse error: expected value (body: xyz)"),
        _ => panic!("expected an error item"),
    }
    assert!(!parser.wants_parse());
}

#[test]
fn lossy_text_keeps_valid_utf8_and_replaces_invalid_bytes() {
    assert_eq!(lossy_text("héllo".as_bytes()), "héllo");
    assert_eq!(lossy_text(&[b'a', 0xff, b'b']), "a\u{fffd}b");
}

#[test]
fn any_split_of_the_objects_gives_the_same_results() {
    let body = br#"{"text":" one  two ","is_final":false}{"text":"three"}{"text":"four","is_final":true}"#.to_vec();
    let whole = run_stream(vec![Ok(body.clone())]);
    assert_eq!(whole.len(), 3);
    assert_eq!(whole[0].as_ref().unwrap().text, "one two");
    assert!(!whole[0].as_ref().unwrap().is_final);
    assert_eq!(whole[1].as_ref().unwrap().text, "three");
    assert_eq!(whole[2].as_ref().unwrap().text, "four");
    assert!(whole[2].as_ref().unwrap().is_final);
    for cut in 1..body.len() {
        let split = run_stream(vec![Ok(body[..cut].to_vec()), Ok(vec![]), Ok(body[cut..].to_vec())]);
        assert_eq!(split.len(), whole.len());
        for (a, b) in split.iter().zip(whole.iter()) {
            let (a, b) = (a.as_ref().unwrap(), b.as_ref().unwrap());
            assert_eq!(a.text, b.text);
            assert_eq!(a.is_final, b.is_final);
        }
    }
}

#[test]
fn whitespace_between_and_after_objects_is_skipped() {
    let body = b" {\"text\":\"a\"}\n {\"text\":\"b\",\"is_final\":true}\n\n".to_vec();
    for cut in 0..=body.len() {
        let out = run_stream(vec![Ok(body[..cut].to_vec()), Ok(body[cut..].to_vec())]);
        assert_eq!(out.len(), 2);
        assert_eq!(out[0].as_ref().unwrap().text, "a");
        assert!(!out[0].as_ref().unwrap().is_final);
        assert_eq!(out[1].as_ref().unwrap().text, "b");
        assert!(out[1].as_ref().unwrap().is_final);
    }
}

#[test]
fn read_error_is_yielded_in_its_place() {
    let out = run_stream(vec![
        Ok(br#"{"text":"one"}"#.to_vec()),
        Err("reset".to_string()),
        Ok(br#"{"text":"two"}"#.to_vec()),
    ]);
    assert_eq!(out.len(), 3);
    assert_eq!(out[0].as_ref().unwrap().text, "one");
    assert_eq!(out[1].as_ref().err().unwrap(), "reset");
    assert_eq!(out[2].as_ref().unwrap().text, "two");
}

#[test]
fn prompt_from_classes_uses_the_given_classification() {
    let context: Vec<char> = "héllo, wörld\u{2014}ok".chars().collect();
    let alnum: Vec<bool> = context.iter().map(|c| c.is_alphanumeric()).collect();
    let p: String = prompt_from_classes(&context, &alnum).into_iter().collect();
    assert_eq!(p, "héllo, wörld-ok");
    let none = vec![false; context.len()];
    let q: String = prompt_from_classes(&context, &none).into_iter().collect();
    assert_eq!(q, ", -");
}
