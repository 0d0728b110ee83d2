use base64::Engine;
use termdeck::osc52::{
    clipboard_text_from_decoded, osc52_clipboard_text, osc52_encoded_data, process_output,
    Osc52ClipboardParser, MAX_OSC52_ENCODED_BYTES, OSC52_PREFIX,
};

#[test]
fn extracts_osc52_clipboard_text_across_reads() {
    let mut parser = Osc52ClipboardParser::default();
    assert_eq!(parser.consume(b"before\x1b]"), Vec::<String>::new());
    assert_eq!(
        parser.consume(b"52;c;Y29waWVk\x07after"),
        vec!["copied".to_string()]
    );
}

#[test]
fn extracts_osc52_clipboard_text_with_st_terminator() {
    let mut parser = Osc52ClipboardParser::default();
    assert_eq!(
        parser.consume(b"\x1b]52;c;Y29waWVk\x1b\\"),
        vec!["copied".to_string()]
    );
}

#[test]
fn discards_oversized_incomplete_osc52_sequence() {
    let mut parser = Osc52ClipboardParser::default();
    let mut sequence = OSC52_PREFIX.to_vec();
    sequence.resize(OSC52_PREFIX.len() + MAX_OSC52_ENCODED_BYTES + 1, b'a');
    assert_eq!(parser.consume(&sequence), Vec::<String>::new());
    assert_eq!(parser.pending, Vec::<u8>::new());
}

#[test]
fn split_reads_give_the_same_texts_as_one_read() {
    let stream: &[u8] = b"ls\x1b]52;c;aGVsbG8=\x07mid\x1b]52;p;d29y bGQ=\x1b\\tail\x1b]5";
    let mut whole = Osc52ClipboardParser::new();
    let all_at_once = whole.consume(stream);
    assert_eq!(all_at_once, vec!["hello".to_string(), "world".to_string()]);
    for cut in 0..=stream.len() {
        let mut split = Osc52ClipboardParser::new();
        let mut texts = split.consume(&stream[..cut]);
        texts.extend(split.consume(&stream[cut..]));
        assert_eq!(texts, all_at_once, "cut at {}", cut);
        assert_eq!(split.pending, whole.pending, "cut at {}", cut);
    }
}

#[test]
fn keeps_a_partial_introducer_between_reads() {
    let mut parser = Osc52ClipboardParser::new();
    assert!(parser.consume(b"plain output\x1b]5").is_empty());
    assert_eq!(parser.pending, b"\x1b]5".to_vec());
    let mut other = Osc52ClipboardParser::new();
    assert!(other.consume(b"plain output").is_empty());
    assert!(other.pending.is_empty());
}

#[test]
fn keeps_an_unfinished_request_between_reads() {
    let mut parser = Osc52ClipboardParser::new();
    assert!(parser.consume(b"xx\x1b]52;c;Y29w").is_empty());
    assert_eq!(parser.pending, b"\x1b]52;c;Y29w".to_vec());
    assert_eq!(parser.consume(b"aWVk\x07"), vec!["copied".to_string()]);
    assert!(parser.pending.is_empty());
}

#[test]
fn an_escape_at_the_end_of_a_read_may_still_terminate() {
    let mut parser = Osc52ClipboardParser::new();
    assert!(parser.consume(b"\x1b]52;c;Y29waWVk\x1b").is_empty());
    assert_eq!(parser.consume(b"\\"), vec!["copied".to_string()]);
}

#[test]
fn ignores_queries_empty_data_and_missing_selection() {
    let mut parser = Osc52ClipboardParser::new();
    assert!(parser.consume(b"\x1b]52;c;?\x07").is_empty());
    assert!(parser.consume(b"\x1b]52;c;\x07").is_empty());
    assert!(parser.consume(b"\x1b]52;Y29waWVk\x07").is_empty());
    assert!(parser.pending.is_empty());
}

#[test]
fn ignores_invalid_base64_and_invalid_utf8() {
    let mut parser = Osc52ClipboardParser::new();
    assert!(parser.consume(b"\x1b]52;c;@@@@\x07").is_empty());
    // "/w==" decodes to the single byte 0xff, which is not UTF-8.
    assert!(parser.consume(b"\x1b]52;c;/w==\x07").is_empty());
}

#[test]
fn several_requests_in_one_read_come_out_in_order() {
    let mut parser = Osc52ClipboardParser::new();
    assert_eq!(
        parser.consume(b"\x1b]52;c;b25l\x07\x1b]52;c;dHdv\x07"),
        vec!["one".to_string(), "two".to_string()]
    );
}

#[test]
fn encoded_data_drops_whitespace_after_the_selection() {
    assert_eq!(osc52_encoded_data(b"c;Y29w\n aWVk"), Some(b"Y29waWVk".to_vec()));
    assert_eq!(osc52_encoded_data(b"c;?"), None);
    assert_eq!(osc52_encoded_data(b"c; \t"), None);
    assert_eq!(osc52_encoded_data(b"no separator"), None);
    let oversized = vec![b';'; MAX_OSC52_ENCODED_BYTES + 1];
    assert_eq!(osc52_encoded_data(&oversized), None);
}

#[test]
fn clipboard_text_decodes_base64_then_utf8() {
    assert_eq!(osc52_clipboard_text(b"c;Y29waWVk"), Some("copied".to_string()));
    assert_eq!(osc52_clipboard_text(b"c;4pyT"), Some("\u{2713}".to_string()));
    assert_eq!(osc52_clipboard_text(b"c;Y29waWVk="), None);
    assert_eq!(
        clipboard_text_from_decoded(Some(b"copied".to_vec())),
        Some("copied".to_string())
    );
    assert_eq!(clipboard_text_from_decoded(Some(vec![0xc3, 0x28])), None);
    assert_eq!(clipboard_text_from_decoded(None), None);
}

#[test]
fn kept_bytes_are_empty_a_partial_introducer_or_one_unfinished_request() {
    let mut parser = Osc52ClipboardParser::new();
    parser.consume(b"abc");
    assert!(parser.pending.is_empty());
    parser.consume(b"x\x1b]52");
    assert_eq!(parser.pending, OSC52_PREFIX[..4].to_vec());
    parser.consume(b";c;Zm9v\x1b");
    assert!(parser.pending.starts_with(&OSC52_PREFIX));
    assert_eq!(parser.consume(b"\\"), vec!["foo".to_string()]);
    assert!(parser.pending.is_empty());
}

#[test]
fn one_complete_request_yields_its_text() {
    for text in ["copied", "\u{e9}t\u{e9}", "multi\nline"] {
        let encoded = base64::engine::general_purpose::STANDARD.encode(text.as_bytes());
        for term in [&b"\x07"[..], &b"\x1b\\"[..]] {
            let mut parser = Osc52ClipboardParser::new();
            let request = [&OSC52_PREFIX[..], b"c", b";", encoded.as_bytes(), term].concat();
            assert_eq!(parser.consume(&request), vec![text.to_string()]);
            assert!(parser.pending.is_empty());
        }
    }
}

#[test]
fn terminal_output_is_sent_base64_encoded() {
    let mut parser = Osc52ClipboardParser::default();
    let (texts, encoded) = process_output(&mut parser, b"abc");
    assert!(texts.is_empty());
    assert_eq!(encoded, "YWJj");
    let (texts, encoded) = process_output(&mut parser, b"hi\n");
    assert!(texts.is_empty());
    assert_eq!(encoded, "aGkK");
    let (_, encoded) = process_output(&mut parser, b"");
    assert_eq!(encoded, "");
    assert!(parser.pending.is_empty());
}

#[test]
fn an_output_read_gives_both_its_clipboard_texts_and_its_encoding() {
    let mut parser = Osc52ClipboardParser::default();
    let read = b"x\x1b]52;c;Y29waWVk\x07y\x1b]5";
    let (texts, encoded) = process_output(&mut parser, read);
    assert_eq!(texts, vec!["copied".to_string()]);
    assert_eq!(
        base64::engine::general_purpose::STANDARD.decode(encoded.as_bytes()).unwrap(),
        read.to_vec()
    );
    assert_eq!(parser.pending, b"\x1b]5".to_vec());
}
