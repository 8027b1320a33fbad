use textutils::head::{
    banner, file_header, head_bytes, head_bytes_text, head_lines, read_lines, Config,
    DEFAULT_LINES,
};

fn bytes(s: &str) -> Vec<u8> {
    s.as_bytes().to_vec()
}

#[test]
fn zero_lines_emit_nothing() {
    assert_eq!(head_lines(&bytes("anything\nat all\n"), 0), Vec::<u8>::new());
    assert_eq!(head_lines(&bytes(""), 0), Vec::<u8>::new());
}

#[test]
fn first_lines_keep_their_terminators() {
    let data = bytes("ab\ncd\nef\n");
    assert_eq!(head_lines(&data, 1), bytes("ab\n"));
    assert_eq!(head_lines(&data, 2), bytes("ab\ncd\n"));
}

#[test]
fn line_limit_beyond_input_returns_everything() {
    let data = bytes("ab\ncd");
    assert_eq!(head_lines(&data, 10), bytes("ab\ncd"));
}

#[test]
fn byte_limit_takes_a_prefix() {
    let data = bytes("abcdef");
    assert_eq!(head_bytes(&data, 3), bytes("abc"));
    assert_eq!(head_bytes(&data, 0), Vec::<u8>::new());
}

#[test]
fn byte_limit_beyond_size_returns_entire_input() {
    let data = bytes("short\n");
    assert_eq!(head_bytes(&data, 1000), data);
}

#[test]
fn byte_prefix_is_decoded_lossily() {
    // A two-byte character cut in half decodes to the placeholder.
    let data = "h\u{00e9}".as_bytes().to_vec();
    assert_eq!(data.len(), 3);
    let text = head_bytes_text(&data, 2);
    assert_eq!(text, "h\u{fffd}");
}

#[test]
fn banner_names_the_input() {
    assert_eq!(banner("notes.txt"), "==> notes.txt <==");
}

#[test]
fn headers_appear_only_with_several_inputs() {
    assert_eq!(file_header(0, 1, "only"), "");
    assert_eq!(file_header(0, 3, "first"), "==> first <==\n");
    assert_eq!(file_header(1, 3, "second"), "\n==> second <==\n");
}

#[test]
fn read_lines_strips_terminators() {
    let r = read_lines(&bytes("a\nbc\n\nd"));
    assert_eq!(r, vec!["a", "bc", "", "d"]);
}

#[test]
fn read_lines_of_empty_input_is_empty() {
    assert_eq!(read_lines(&bytes("")), Vec::<String>::new());
}

#[test]
fn default_line_limit_is_ten() {
    assert_eq!(DEFAULT_LINES, 10);
    let data = bytes("1\n2\n3\n4\n5\n6\n7\n8\n9\n10\n11\n");
    assert_eq!(head_lines(&data, DEFAULT_LINES), bytes("1\n2\n3\n4\n5\n6\n7\n8\n9\n10\n"));
}

#[test]
fn config_carries_the_limits() {
    let c = Config { files: vec!["a".to_string()], lines: 3, bytes: Some(7) };
    assert_eq!(c.lines, 3);
    assert_eq!(c.bytes, Some(7));
    assert_eq!(c.files.len(), 1);
}
