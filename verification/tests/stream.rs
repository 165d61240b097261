use oops_terminal::stream::Utf8Chunker;

#[test]
fn whole_utf8_is_released_at_once() {
    let mut c = Utf8Chunker::new();
    assert_eq!(c.feed("héllo".as_bytes()).as_deref(), Some("héllo"));
    assert_eq!(c.pending_len(), 0);
}

#[test]
fn split_multibyte_sequence_waits_for_the_rest() {
    let bytes = "终端".as_bytes();
    let mut c = Utf8Chunker::new();
    assert_eq!(c.feed(&bytes[..1]), None);
    assert_eq!(c.pending_len(), 1);
    assert_eq!(c.feed(&bytes[1..4]).as_deref(), Some("终"));
    assert_eq!(c.pending_len(), 1);
    assert_eq!(c.feed(&bytes[4..]).as_deref(), Some("端"));
    assert_eq!(c.pending_len(), 0);
}

#[test]
fn every_byte_is_released_exactly_once() {
    let text = "PS C:\\项目> echo 你好\r\n";
    let bytes = text.as_bytes();
    let mut c = Utf8Chunker::new();
    let mut out = String::new();
    for chunk in bytes.chunks(2) {
        if let Some(s) = c.feed(chunk) {
            out.push_str(&s);
        }
    }
    assert_eq!(out, text);
    assert_eq!(c.pending_len(), 0);
}

#[test]
fn invalid_byte_is_replaced_and_output_flows_on() {
    let mut c = Utf8Chunker::new();
    assert_eq!(c.feed(b"ab\xffcd").as_deref(), Some("ab\u{FFFD}cd"));
    assert_eq!(c.pending_len(), 0);
    assert_eq!(c.feed(b"e").as_deref(), Some("e"));
    assert_eq!(c.pending_len(), 0);
}

#[test]
fn lone_invalid_byte_then_text() {
    let mut c = Utf8Chunker::new();
    assert_eq!(c.feed(&[0xff]).as_deref(), Some("\u{FFFD}"));
    assert_eq!(c.feed(b"a").as_deref(), Some("a"));
    assert_eq!(c.pending_len(), 0);
}

#[test]
fn invalid_sequence_replaced_like_lossy_decoding() {
    let bytes = b"x\xe2\x82A\xed\xa0\x80y\xe4\xb8";
    let mut c = Utf8Chunker::new();
    let out = c.feed(bytes).unwrap();
    let lossy = String::from_utf8_lossy(&bytes[..bytes.len() - 2]);
    assert_eq!(out, lossy);
    // The cut-off sequence at the end waits for its last byte.
    assert_eq!(c.pending_len(), 2);
    assert_eq!(c.feed(&[0xad]).as_deref(), Some("中"));
}
