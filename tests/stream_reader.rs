use embedded_server::line::Origin;
use embedded_server::reader::{decode_line, StreamReader};

fn contents(lines: &[embedded_server::line::OutputLine]) -> Vec<String> {
    lines.iter().map(|l| l.content.clone()).collect()
}

#[test]
fn ready_line_from_stdout() {
    let mut r = StreamReader::new(Origin::Stdout);
    let out = r.feed(b"ready\n");
    assert_eq!(out.len(), 1);
    assert_eq!(out[0].origin, Origin::Stdout);
    assert_eq!(out[0].content, "ready");
    assert_eq!(out[0].ordinal, 0);
    assert!(r.finish().is_none());
}

#[test]
fn lines_keep_their_order_across_chunks() {
    let mut r = StreamReader::new(Origin::Stdout);
    let mut all = Vec::new();
    all.extend(r.feed(b"he"));
    all.extend(r.feed(b"llo\nwor"));
    all.extend(r.feed(b"ld\nthird\nfou"));
    assert_eq!(contents(&all), vec!["hello", "world", "third"]);
    let ordinals: Vec<u64> = all.iter().map(|l| l.ordinal).collect();
    assert_eq!(ordinals, vec![0, 1, 2]);
    let last = r.finish().unwrap();
    assert_eq!(last.content, "fou");
    assert_eq!(last.ordinal, 3);
}

#[test]
fn chunking_does_not_change_the_lines() {
    let stream: &[u8] = b"alpha\r\nbeta\n\ngamma\n";
    let mut whole = StreamReader::new(Origin::Stdout);
    let at_once = contents(&whole.feed(stream));
    let mut bytewise = StreamReader::new(Origin::Stdout);
    let mut pieces = Vec::new();
    for b in stream {
        pieces.extend(bytewise.feed(&[*b]));
    }
    assert_eq!(at_once, contents(&pieces));
    assert_eq!(at_once, vec!["alpha", "beta", "", "gamma"]);
}

#[test]
fn crlf_ending_is_dropped() {
    let mut r = StreamReader::new(Origin::Stderr);
    let out = r.feed(b"warning\r\n");
    assert_eq!(contents(&out), vec!["warning"]);
}

#[test]
fn malformed_line_is_skipped_and_reading_goes_on() {
    let mut r = StreamReader::new(Origin::Stdout);
    let out = r.feed(b"ok\n\xff\xfe bad\nafter\n");
    assert_eq!(contents(&out), vec!["ok", "after"]);
    assert_eq!(out[1].ordinal, 1);
}

#[test]
fn utf8_text_is_decoded() {
    let mut r = StreamReader::new(Origin::Stdout);
    let out = r.feed("h\u{e9}llo \u{2713}\n".as_bytes());
    assert_eq!(contents(&out), vec!["h\u{e9}llo \u{2713}"]);
    assert_eq!(out[0].content.chars().count(), 7);
}

#[test]
fn decode_line_strips_one_carriage_return() {
    assert_eq!(decode_line(b"abc\r".to_vec()), Some("abc".to_string()));
    assert_eq!(decode_line(b"abc\r\r".to_vec()), Some("abc\r".to_string()));
    assert_eq!(decode_line(vec![0xc3]), None);
    assert_eq!(decode_line(vec![0xc3, 0xa9]), Some("\u{e9}".to_string()));
}

#[test]
fn stderr_only_output_is_tagged_stderr() {
    let mut r = StreamReader::new(Origin::Stderr);
    let out = r.feed(b"Traceback\n  File x\n");
    assert_eq!(out.len(), 2);
    assert!(out.iter().all(|l| l.origin == Origin::Stderr));
}

#[test]
fn empty_stream_forwards_nothing() {
    let mut r = StreamReader::new(Origin::Stdout);
    assert!(r.feed(b"").is_empty());
    assert_eq!(r.next_ordinal(), 0);
    assert!(r.finish().is_none());
}

#[test]
fn invalid_trailing_line_is_not_forwarded() {
    let mut r = StreamReader::new(Origin::Stdout);
    assert!(r.feed(&[0x80]).is_empty());
    assert!(r.finish().is_none());
}
