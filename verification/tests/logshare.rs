use theseus::error::ErrorKind;
use theseus::logshare::{
    ai_stream_end, ai_stream_event, ai_stream_http_error, find_bytes, http_failure, logshare_url,
    normalize_settings, parse_sse_block, recorded_created_at, response_excerpt, shared_log_to_record,
    source_identifier, SharedLog,
    upload_body, upload_response, AiStreamNext, LogShareSettings, SseParser, UploadFile,
};

#[test]
fn settings_normalize_unknown_providers() {
    let settings = LogShareSettings {
        share_provider: "pastebin".to_string(),
        ai_source: "openai".to_string(),
        auto_upload: false,
        multi_file: true,
        no_storage: true,
        show_progress: false,
    };
    let n = normalize_settings(settings);
    assert_eq!(n.share_provider, "mclogs");
    assert_eq!(n.ai_source, "custom");
    assert!(!n.auto_upload && n.multi_file && n.no_storage && !n.show_progress);
    let d = normalize_settings(LogShareSettings::default());
    assert_eq!(d, LogShareSettings::default());
    assert_eq!(d.share_provider, "logshare");
}

#[test]
fn created_times_never_go_back() {
    assert_eq!(recorded_created_at(100, 50), 100);
    assert_eq!(recorded_created_at(10, 50), 50);
}

#[test]
fn uploads_name_their_source() {
    assert_eq!(source_identifier("1.2.3"), "axolotl/1.2.3");
    let sources = vec![
        UploadFile { name: "latest.log".to_string(), content: "a".to_string() },
        UploadFile { name: "crash.txt".to_string(), content: "b".to_string() },
    ];
    let mods = vec!["sodium".to_string(), "iris".to_string()];
    let multi = upload_body("combined", true, &sources, &mods, "axolotl/1".to_string());
    assert_eq!(multi.files, sources);
    assert_eq!(multi.content, "");
    assert_eq!(multi.metadata[0].key, "launcher");
    assert_eq!(multi.metadata[1].value, "sodium, iris");
    let single = upload_body("combined", false, &sources, &mods, "axolotl/1".to_string());
    assert!(single.files.is_empty());
    assert_eq!(single.content, "combined");
    let none = upload_body("combined", true, &vec![], &vec![], "s".to_string());
    assert_eq!(none.content, "combined");
    assert_eq!(none.metadata[1].value, "");
}

#[test]
fn excerpts_keep_the_first_characters() {
    let long = "é".repeat(600);
    assert_eq!(response_excerpt(&long).chars().count(), 500);
    assert_eq!(response_excerpt("short"), "short");
}

#[test]
fn upload_responses_are_read_or_explained() {
    let ok = upload_response(
        true,
        "200 OK",
        r#"{"success":true,"id":"abc","url":"https://x/abc","raw":"https://x/raw/abc"}"#,
    )
    .unwrap();
    assert_eq!(ok.id, "abc");
    assert_eq!(ok.url, "https://x/abc");
    assert_eq!(ok.raw, "https://x/raw/abc");
    assert_eq!(ok.token, "");
    assert_eq!(
        upload_response(true, "200 OK", r#"{"success":false,"error":"too big"}"#),
        Err(ErrorKind::OtherError("LogShare upload failed: too big".to_string()))
    );
    assert_eq!(
        upload_response(true, "200 OK", r#"{"id":"x"}"#),
        Err(ErrorKind::OtherError("LogShare upload failed: unknown error".to_string()))
    );
    assert_eq!(
        upload_response(true, "200 OK", "not json"),
        Err(ErrorKind::OtherError("LogShare returned invalid JSON".to_string()))
    );
    assert_eq!(
        upload_response(false, "503 Service Unavailable", "down"),
        Err(ErrorKind::OtherError("LogShare upload failed with HTTP 503 Service Unavailable: down".to_string()))
    );
}

#[test]
fn byte_search_finds_the_first_match() {
    assert_eq!(find_bytes(b"ab\n\ncd\n\n", b"\n\n"), Some(2));
    assert_eq!(find_bytes(b"abc", b"\n\n"), None);
}

#[test]
fn sse_blocks_carry_deltas_status_errors_and_done() {
    let delta = parse_sse_block("data: {\"choices\":[{\"delta\":{\"content\":\"Hi\"}}]}").unwrap();
    assert_eq!(delta.content.as_deref(), Some("Hi"));
    assert!(!delta.done);
    let status = parse_sse_block("event: status\r\ndata: {\"type\":\"queued\"}").unwrap();
    assert_eq!(status.status_event.as_ref().map(|s| s.event_type.as_str()), Some("queued"));
    let error = parse_sse_block("event: error\ndata: {\"error\":\"boom\"}").unwrap();
    assert_eq!(error.error.as_deref(), Some("boom"));
    let plain_error = parse_sse_block("event: error\ndata: boom").unwrap();
    assert_eq!(plain_error.error.as_deref(), Some("boom"));
    assert!(parse_sse_block("event: done").unwrap().done);
    assert!(parse_sse_block(": comment only").is_none());
    assert!(parse_sse_block("data: not json").is_none());
}

#[test]
fn the_parser_waits_for_complete_blocks() {
    let mut parser = SseParser::new();
    let first = parser.feed(b"data: {\"choices\":[{\"delta\":{\"content\":\"A\"}}]}\n");
    assert!(first.is_empty());
    let second = parser.feed(b"\nevent: done\r\n\r\ndata: {\"choices\":[{\"delta\":{\"content\":\"B\"}}]}");
    assert_eq!(second.len(), 2);
    assert_eq!(second[0].content.as_deref(), Some("A"));
    assert!(second[1].done);
    let third = parser.feed(b"\n\n");
    assert_eq!(third.len(), 1);
    assert_eq!(third[0].content.as_deref(), Some("B"));
}

#[test]
fn stream_events_build_the_answer() {
    let mut output = String::new();
    let delta = parse_sse_block("data: {\"choices\":[{\"delta\":{\"content\":\"Hi\"}}]}").unwrap();
    let step = ai_stream_event(&mut output, &delta, false);
    assert_eq!(output, "Hi");
    assert!(!step.emit_delta);
    assert_eq!(step.next, AiStreamNext::Continue);
    let queued = parse_sse_block("event: status\ndata: {\"type\":\"queued\"}").unwrap();
    assert!(ai_stream_event(&mut output, &queued, false).emit_status);
    let error = parse_sse_block("event: error\ndata: bad").unwrap();
    assert_eq!(
        ai_stream_event(&mut output, &error, true).next,
        AiStreamNext::Fail("LogAgent analysis failed: bad".to_string())
    );
    let done = parse_sse_block("event: done").unwrap();
    assert_eq!(ai_stream_event(&mut output, &done, true).next, AiStreamNext::Done);
    assert_eq!(ai_stream_end(output), Ok("Hi".to_string()));
    assert_eq!(
        ai_stream_end(String::new()),
        Err(ErrorKind::OtherError("LogAgent analysis ended without output".to_string()))
    );
}

#[test]
fn http_errors_quote_the_response() {
    assert_eq!(
        ai_stream_http_error(429, "429 Too Many Requests", "x"),
        ErrorKind::OtherError("LogAgent queue is full, please retry later".to_string())
    );
    assert_eq!(
        ai_stream_http_error(500, "500 Internal Server Error", "oops"),
        ErrorKind::OtherError("LogAgent analysis failed with HTTP 500 Internal Server Error: oops".to_string())
    );
    assert_eq!(
        http_failure("Deleting logs", "404 Not Found", "missing"),
        ErrorKind::OtherError("Deleting logs failed with HTTP 404 Not Found: missing".to_string())
    );
    assert!(logshare_url("/api/upload").ends_with("/api/upload"));
}

#[test]
fn feeding_in_pieces_matches_feeding_at_once() {
    let stream: &[u8] = b"data: {\"choices\":[{\"delta\":{\"content\":\"A\"}}]}\r\n\r\nevent: status\ndata: {\"type\":\"queued\"}\n\nevent: done\n\ntail";
    let summary = |events: Vec<theseus::logshare::ParsedEvent>| {
        events
            .iter()
            .map(|e| (e.content.clone(), e.status_event.as_ref().map(|s| s.event_type.clone()), e.done))
            .collect::<Vec<_>>()
    };
    let mut whole = SseParser::new();
    let expected = summary(whole.feed(stream));
    assert_eq!(expected.len(), 3);
    for cut in 0..=stream.len() {
        let mut parser = SseParser::new();
        let mut events = summary(parser.feed(&stream[..cut]));
        events.extend(summary(parser.feed(&stream[cut..])));
        assert_eq!(events, expected, "cut at {cut}");
    }
}

#[test]
fn shared_logs_are_recorded_no_earlier_than_now() {
    let log = SharedLog {
        id: "id".to_string(),
        url: "https://x/id".to_string(),
        raw: "https://x/raw/id".to_string(),
        token: "t".to_string(),
        provider: "logshare".to_string(),
        instance_id: None,
        instance_name: Some("Pack".to_string()),
        truncated: false,
        created_at: 0,
    };
    let recorded = shared_log_to_record(log.clone());
    assert!(recorded.created_at > 1_600_000_000);
    assert_eq!(SharedLog { created_at: 0, ..recorded }, log);
    let future = SharedLog { created_at: i64::MAX, ..log };
    assert_eq!(shared_log_to_record(future.clone()), future);
}
