use egg::lines::LineReader;

fn fed(chunks: &[&[u8]]) -> (Vec<String>, Option<String>) {
    let mut reader = LineReader::new();
    let mut lines = vec![];
    for chunk in chunks {
        lines.extend(reader.feed(chunk));
    }
    (lines, reader.finish())
}

fn texts(items: &[&str]) -> Vec<String> {
    items.iter().map(|item| item.to_string()).collect()
}

#[test]
fn lines_end_at_line_feeds() {
    assert_eq!(fed(&[b"one\ntwo\n"]), (texts(&["one", "two"]), None));
    assert_eq!(fed(&[b"\n"]), (texts(&[""]), None));
    assert_eq!(fed(&[b"\n\n"]), (texts(&["", ""]), None));
    assert_eq!(fed(&[b""]), (texts(&[]), None));
    assert_eq!(fed(&[]), (texts(&[]), None));
}

#[test]
fn carriage_return_before_the_line_feed_is_dropped() {
    assert_eq!(fed(&[b"one\r\ntwo\r\n"]), (texts(&["one", "two"]), None));
    assert_eq!(fed(&[b"\r\n"]), (texts(&[""]), None));
    // Only one carriage return belongs to the terminator.
    assert_eq!(fed(&[b"one\r\r\n"]), (texts(&["one\r"]), None));
    // One in the middle of a line stays.
    assert_eq!(fed(&[b"a\rb\n"]), (texts(&["a\rb"]), None));
}

#[test]
fn unfinished_last_line_comes_out_at_the_end() {
    assert_eq!(fed(&[b"one\ntwo"]), (texts(&["one"]), Some("two".to_string())));
    assert_eq!(fed(&[b"two"]), (texts(&[]), Some("two".to_string())));
    // Without a line feed, a carriage return at the end is text.
    assert_eq!(fed(&[b"two\r"]), (texts(&[]), Some("two\r".to_string())));
}

#[test]
fn lines_do_not_depend_on_the_chunks() {
    let whole: &[u8] = b"alpha\r\nbeta\n\ngamma\r\ndelta";
    let expected = fed(&[whole]);
    assert_eq!(
        expected,
        (texts(&["alpha", "beta", "", "gamma"]), Some("delta".to_string()))
    );
    for cut in 0..=whole.len() {
        assert_eq!(fed(&[&whole[..cut], &whole[cut..]]), expected);
    }
    let bytes: Vec<&[u8]> = whole.chunks(1).collect();
    assert_eq!(fed(&bytes), expected);
    let threes: Vec<&[u8]> = whole.chunks(3).collect();
    assert_eq!(fed(&threes), expected);
}

#[test]
fn reader_is_as_new_after_the_end() {
    let mut reader = LineReader::new();
    assert_eq!(reader.feed(b"one\ntw"), texts(&["one"]));
    assert_eq!(reader.finish(), Some("tw".to_string()));
    assert_eq!(reader.finish(), None);
    assert_eq!(reader.feed(b"o\n"), texts(&["o"]));
    assert_eq!(reader.finish(), None);
}

#[test]
fn bytes_that_are_not_utf8_are_replaced() {
    assert_eq!(fed(&[b"caf\xc3\xa9\n"]), (texts(&["caf\u{e9}"]), None));
    assert_eq!(fed(&[b"a\xffb\n"]), (texts(&["a\u{fffd}b"]), None));
    assert_eq!(fed(&[b"\xc3\n\xa9"]), (texts(&["\u{fffd}"]), Some("\u{fffd}".to_string())));
    // A character cut by the chunks is still one character.
    assert_eq!(fed(&[b"caf\xc3", b"\xa9\n"]), (texts(&["caf\u{e9}"]), None));
}
