use tt::config::ProviderKind;
use tt::sse::SseDecoder;
use tt::stream::process_chunk;

#[test]
fn three_chunks_yield_two_deltas_then_nothing() {
    let mut decoder = SseDecoder::default();
    let chunks = [
        "data: {\"choices\":",
        "[{\"delta\":{\"content\":\"Hel\"}}]}\n\n",
        "data: {\"choices\":[{\"delta\":{\"content\":\"lo\"}}]}\n\ndata: [DONE]\n\n",
    ];
    let mut deltas = Vec::new();
    for c in chunks {
        deltas.extend(process_chunk(Ok(c.as_bytes()), &mut decoder, ProviderKind::OpenAi));
    }
    assert_eq!(deltas, vec![Ok("Hel".to_string()), Ok("lo".to_string())]);
    let more = process_chunk(Ok(b"\n\n".as_slice()), &mut decoder, ProviderKind::OpenAi);
    assert!(more.is_empty());
}

#[test]
fn transport_and_utf8_failures_pass_through() {
    let mut decoder = SseDecoder::default();
    let r = process_chunk(Err("connection reset".to_string()), &mut decoder, ProviderKind::Anthropic);
    assert_eq!(r, vec![Err("connection reset".to_string())]);
    let r = process_chunk(Ok(&[0x64, 0xff, 0x0a][..]), &mut decoder, ProviderKind::Anthropic);
    assert_eq!(r.len(), 1);
    let msg = r[0].clone().unwrap_err();
    assert!(msg.starts_with("Failed to parse chunk as UTF-8: "));
    assert!(msg.len() > "Failed to parse chunk as UTF-8: ".len());
}

#[test]
fn structured_stream_end_to_end() {
    let mut decoder = SseDecoder::default();
    let body = "event: message_start\ndata: {\"type\":\"message_start\",\"message\":{}}\n\n\
event: content_block_delta\ndata: {\"type\":\"content_block_delta\",\"index\":0,\"delta\":{\"type\":\"text_delta\",\"text\":\"Hi\"}}\n\n\
event: ping\ndata: {\"type\":\"ping\"}\n\n\
event: error\ndata: {\"type\":\"error\",\"error\":{\"message\":\"bad\"}}\n\n";
    let r = process_chunk(Ok(body.as_bytes()), &mut decoder, ProviderKind::Anthropic);
    assert_eq!(
        r,
        vec![
            Ok("Hi".to_string()),
            Err("API error: {\"message\":\"bad\"}".to_string())
        ]
    );
}

#[test]
fn deltas_do_not_depend_on_how_the_body_is_cut() {
    let body = "data: {\"choices\":[{\"delta\":{\"content\":\"a\"}}]}\r\n\r\n\
data: {\"error\":{\"message\":\"m\"}}\n\n\
data: {\"choices\":[{\"message\":{\"content\":\"b\"}}]}\n\ndata: [DONE]\n\n";
    let mut whole = SseDecoder::default();
    let expected = process_chunk(Ok(body.as_bytes()), &mut whole, ProviderKind::OpenRouter);
    assert_eq!(
        expected,
        vec![Ok("a".to_string()), Err("API error: m".to_string()), Ok("b".to_string())]
    );
    for size in 1..body.len() {
        let mut d = SseDecoder::default();
        let mut got = Vec::new();
        let bytes = body.as_bytes();
        let mut start = 0;
        while start < bytes.len() {
            let end = (start + size).min(bytes.len());
            got.extend(process_chunk(Ok(&bytes[start..end]), &mut d, ProviderKind::OpenRouter));
            start = end;
        }
        assert_eq!(got, expected, "size {size}");
    }
}
