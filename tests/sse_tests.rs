use tt::sse::SseDecoder;

#[test]
fn sse_decoder_handles_split_chunks_and_multiline_data() {
    let mut decoder = SseDecoder::default();
    assert!(decoder.ingest("data: first chunk").is_empty());

    let events = decoder.ingest(" continues\n\n");
    assert_eq!(events.len(), 1);
    assert_eq!(events[0].data, "first chunk continues");

    let multi = "event: message\n\
                 data: line one\n\
                 data: line two\n\
\n";
    let events = decoder.ingest(multi);
    assert_eq!(events.len(), 1);
    assert_eq!(events[0].event.as_deref(), Some("message"));
    assert_eq!(events[0].data, "line one\nline two");
}

#[test]
fn comment_only_block_yields_no_frame() {
    let mut decoder = SseDecoder::default();
    assert!(decoder.ingest(": keep-alive\n: another\n\n").is_empty());
    assert!(decoder.ingest("   \n\n").is_empty());
    assert!(decoder.ingest("\n\n\n\n").is_empty());
    let events = decoder.ingest(": hello\ndata: x\n\n");
    assert_eq!(events.len(), 1);
    assert_eq!(events[0].data, "x");
}

#[test]
fn data_lines_join_with_newline_in_order() {
    let mut decoder = SseDecoder::default();
    let events = decoder.ingest("data: a\ndata: b\n\n");
    assert_eq!(events.len(), 1);
    assert_eq!(events[0].data, "a\nb");
    assert_eq!(events[0].event, None);
}

fn decode_in_pieces(pieces: &[&str]) -> Vec<(Option<String>, String)> {
    let mut decoder = SseDecoder::default();
    let mut out = Vec::new();
    for p in pieces {
        for e in decoder.ingest(p) {
            out.push((e.event, e.data));
        }
    }
    out
}

#[test]
fn split_fragments_decode_like_the_whole() {
    let whole = "event: start\r\ndata: one\r\n\r\n: note\n\ndata: two\ndata:three\n\nevent: ping\n\n";
    let expected = decode_in_pieces(&[whole]);
    assert_eq!(expected.len(), 3);
    assert_eq!(expected[0], (Some("start".to_string()), "one".to_string()));
    assert_eq!(expected[1], (None, "two\nthree".to_string()));
    assert_eq!(expected[2], (Some("ping".to_string()), String::new()));
    let chars: Vec<char> = whole.chars().collect();
    for cut in 1..chars.len() {
        let a: String = chars[..cut].iter().collect();
        let b: String = chars[cut..].iter().collect();
        assert_eq!(decode_in_pieces(&[&a, &b]), expected, "cut at {cut}");
    }
    let singles: Vec<String> = chars.iter().map(|c| c.to_string()).collect();
    let pieces: Vec<&str> = singles.iter().map(|p| p.as_str()).collect();
    assert_eq!(decode_in_pieces(&pieces), expected);
}

#[test]
fn empty_chunks_change_nothing() {
    let mut decoder = SseDecoder::default();
    assert!(decoder.ingest("").is_empty());
    assert!(decoder.ingest("data: x").is_empty());
    assert!(decoder.ingest("").is_empty());
    let events = decoder.ingest("\n\n");
    assert_eq!(events.len(), 1);
    assert_eq!(events[0].data, "x");
}

#[test]
fn field_parsing_rules() {
    let mut decoder = SseDecoder::default();
    // Only one leading space is removed from a value; the key is trimmed.
    let events = decoder.ingest(" data :  two spaces\nevent:\nid: 7\n\n");
    assert_eq!(events.len(), 1);
    assert_eq!(events[0].data, " two spaces");
    assert_eq!(events[0].event, None);
    // A line without a colon is a key with an empty value.
    let events = decoder.ingest("data\n\n");
    assert_eq!(events.len(), 1);
    assert_eq!(events[0].data, "");
    // A later non-empty event name replaces an earlier one.
    let events = decoder.ingest("event: a\nevent: b\n\n");
    assert_eq!(events[0].event.as_deref(), Some("b"));
    // Unknown keys alone give no frame.
    assert!(decoder.ingest("id: 1\nretry: 5\n\n").is_empty());
}

#[test]
fn crlf_cut_between_chunks_reads_as_lf() {
    assert_eq!(
        decode_in_pieces(&["data:x\r", "\n\n"]),
        vec![(None, "x".to_string())]
    );
    assert_eq!(
        decode_in_pieces(&["data:x\r", "", "\n\r", "\n"]),
        vec![(None, "x".to_string())]
    );
    assert_eq!(decode_in_pieces(&["data:x\r\n\n"]), vec![(None, "x".to_string())]);
    // A lone CR stays part of the value.
    assert_eq!(
        decode_in_pieces(&["data:x\r", "y\n\n"]),
        vec![(None, "x\ry".to_string())]
    );
}

#[test]
fn comment_block_leaves_the_decoder_fresh() {
    let mut decoder = SseDecoder::default();
    assert!(decoder.ingest(": keep-alive\n\n").is_empty());
    let events = decoder.ingest("data: x\n\n");
    assert_eq!(events.len(), 1);
    assert_eq!(events[0].event, None);
    assert_eq!(events[0].data, "x");
    let mut decoder = SseDecoder::default();
    assert!(decoder.ingest(": ping\r\n   \r\n\r\n").is_empty());
    let events = decoder.ingest("data: y\r\n\r\n");
    assert_eq!(events[0].data, "y");
}

#[test]
fn comment_blocks_with_blank_lines_inside_leave_nothing() {
    let mut decoder = SseDecoder::default();
    assert!(decoder.ingest(": a\n\n\n\n:b\n  \n\n").is_empty());
    let events = decoder.ingest("data: x\n\n");
    assert_eq!(events.len(), 1);
    assert_eq!(events[0].event, None);
    assert_eq!(events[0].data, "x");
}
