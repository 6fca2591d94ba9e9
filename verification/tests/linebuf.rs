use baud::LineAssembler;

#[test]
fn single_chunk_single_line() {
    let mut a = LineAssembler::new();
    assert_eq!(a.push(b"hello\n"), vec!["hello".to_string()]);
}

#[test]
fn splits_multiple_lines_in_one_chunk() {
    let mut a = LineAssembler::new();
    assert_eq!(
        a.push(b"one\ntwo\nthree\n"),
        vec!["one".to_string(), "two".to_string(), "three".to_string()]
    );
}

#[test]
fn strips_trailing_cr() {
    let mut a = LineAssembler::new();
    assert_eq!(a.push(b"hello\r\n"), vec!["hello".to_string()]);
}

#[test]
fn buffers_partial_line_across_chunks() {
    let mut a = LineAssembler::new();
    assert_eq!(a.push(b"hel"), Vec::<String>::new());
    assert_eq!(a.push(b"lo\n"), vec!["hello".to_string()]);
}

#[test]
fn flush_returns_partial_line() {
    let mut a = LineAssembler::new();
    assert_eq!(a.push(b"partial"), Vec::<String>::new());
    assert_eq!(a.flush(), Some("partial".to_string()));
    assert_eq!(a.flush(), None);
}

#[test]
fn invalid_utf8_is_lossily_decoded() {
    let mut a = LineAssembler::new();
    let lines = a.push(&[0xFF, 0xFE, b'\n']);
    assert_eq!(lines.len(), 1);
    assert!(lines[0].contains('\u{FFFD}'));
}

#[test]
fn invalid_utf8_left_over_is_replaced_on_flush() {
    let mut a = LineAssembler::new();
    assert_eq!(a.push(&[b'o', b'k', 0xC3]), Vec::<String>::new());
    assert_eq!(a.flush(), Some("ok\u{FFFD}".to_string()));
}

#[test]
fn only_one_carriage_return_is_stripped() {
    let mut a = LineAssembler::new();
    assert_eq!(a.push(b"x\r\r\n\r\n"), vec!["x\r".to_string(), "".to_string()]);
}

#[test]
fn empty_lines_are_kept() {
    let mut a = LineAssembler::new();
    assert_eq!(a.push(b"\n\n"), vec!["".to_string(), "".to_string()]);
}

#[test]
fn flush_keeps_a_trailing_carriage_return() {
    let mut a = LineAssembler::new();
    assert_eq!(a.push(b"ab\r"), Vec::<String>::new());
    assert_eq!(a.flush(), Some("ab\r".to_string()));
}

#[test]
fn flush_of_a_new_assembler_is_none() {
    let mut a = LineAssembler::new();
    assert_eq!(a.flush(), None);
}

#[test]
fn pushing_in_chunks_matches_pushing_at_once() {
    let stream: &[u8] = b"alpha\r\nbe\xffta\ngam\nma tail";
    for cut in 0..=stream.len() {
        let mut whole = LineAssembler::new();
        let all_lines = whole.push(stream);
        let mut parts = LineAssembler::new();
        let mut part_lines = parts.push(&stream[..cut]);
        part_lines.extend(parts.push(&stream[cut..]));
        assert_eq!(part_lines, all_lines);
        assert_eq!(parts.flush(), whole.flush());
    }
}

#[test]
fn byte_by_byte_feed_reassembles_the_stream() {
    let stream: &[u8] = b"one\ntwo\nrest";
    let mut a = LineAssembler::new();
    let mut lines = Vec::new();
    for b in stream {
        lines.extend(a.push(&[*b]));
    }
    assert_eq!(lines, vec!["one".to_string(), "two".to_string()]);
    assert_eq!(a.flush(), Some("rest".to_string()));
}

#[test]
fn valid_multibyte_text_is_decoded_unchanged() {
    let mut a = LineAssembler::new();
    let text = "grüße ✓";
    let mut bytes = text.as_bytes().to_vec();
    bytes.push(b'\n');
    assert_eq!(a.push(&bytes), vec![text.to_string()]);
}

#[test]
fn multibyte_character_split_across_chunks_survives() {
    let mut a = LineAssembler::new();
    let bytes = "é\n".as_bytes();
    assert_eq!(a.push(&bytes[..1]), Vec::<String>::new());
    assert_eq!(a.push(&bytes[1..]), vec!["é".to_string()]);
}

#[test]
fn text_round_trips_through_lines_and_flush() {
    for text in ["", "a", "a\n", "one\ntwo\n\nthree", "ü\n€𝄞 x\n\n"] {
        let mut a = LineAssembler::new();
        let lines = a.push(text.as_bytes());
        let mut back: String = lines.iter().map(|l| format!("{l}\n")).collect();
        back.push_str(&a.flush().unwrap_or_default());
        assert_eq!(back, text);
    }
}
