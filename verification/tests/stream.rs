use whytop::ai::{data_payload, token_from_content, AiEvent, StreamDecoder};

fn event(content: &str) -> String {
    format!("data: {{\"choices\":[{{\"delta\":{{\"content\":{}}}}}]}}\n", serde_json::to_string(content).unwrap())
}

#[test]
fn data_lines_yield_their_payload() {
    assert_eq!(data_payload("  data:  {\"a\":1}  \r\n"), Some("{\"a\":1}".to_string()));
    assert_eq!(data_payload("data: [DONE]\n"), None);
    assert_eq!(data_payload(": keep-alive\n"), None);
    assert_eq!(data_payload("event: x"), None);
    assert_eq!(data_payload("data:"), Some(String::new()));
}

#[test]
fn empty_content_is_no_token() {
    assert_eq!(token_from_content(Some("hi".into())), Some("hi".to_string()));
    assert_eq!(token_from_content(Some(String::new())), None);
    assert_eq!(token_from_content(None), None);
}

#[test]
fn tokens_come_out_of_complete_lines() {
    let mut d = StreamDecoder::new();
    let body = format!("{}{}data: [DONE]\n", event("Hel"), event("lo"));
    let tokens = d.feed(body.as_bytes(), 40);
    assert_eq!(tokens, vec!["Hel".to_string(), "lo".to_string()]);
    assert_eq!(d.tokens(), 2);
    match d.finish(90) {
        AiEvent::Finished { ttft_ms, tokens } => {
            assert_eq!(ttft_ms, 40);
            assert_eq!(tokens, 2);
        }
        other => panic!("unexpected {other:?}"),
    }
}

#[test]
fn a_line_cut_by_the_network_waits_for_its_end() {
    let mut d = StreamDecoder::new();
    let line = event("split token");
    let (a, b) = line.as_bytes().split_at(17);
    assert!(d.feed(a, 10).is_empty());
    assert_eq!(d.feed(b, 25), vec!["split token".to_string()]);
    match d.finish(30) {
        AiEvent::Finished { ttft_ms, tokens } => {
            assert_eq!(ttft_ms, 25);
            assert_eq!(tokens, 1);
        }
        other => panic!("unexpected {other:?}"),
    }
}

#[test]
fn finish_without_tokens_reports_now() {
    let mut d = StreamDecoder::new();
    assert!(d.feed(b"data: {\"choices\":[]}\n: ping\nnot json\n", 5).is_empty());
    match d.finish(77) {
        AiEvent::Finished { ttft_ms, tokens } => {
            assert_eq!(ttft_ms, 77);
            assert_eq!(tokens, 0);
        }
        other => panic!("unexpected {other:?}"),
    }
}

#[test]
fn invalid_utf8_is_replaced_not_fatal() {
    let mut d = StreamDecoder::new();
    let mut bytes = event("a\u{FFFD}b").into_bytes();
    bytes.extend_from_slice(b"data: \xff\n");
    assert_eq!(d.feed(&bytes, 1), vec!["a\u{FFFD}b".to_string()]);
}
