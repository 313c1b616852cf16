use wgmeeting_github_ircbot::chunk::{
    chunk_message, is_wf_text, max_message_len, outbound_lines, wrap_action,
};

#[test]
fn test_max_message_len() {
    assert_eq!(max_message_len(b"#css", false), 463 - 8 - 4);
    assert_eq!(max_message_len(b"#css", true), 463 - 8 - 4 - 9);
    assert_eq!(max_message_len(b"github-comments", false), 463 - 8 - 15);
}

#[test]
fn test_chunk_empty_input_one_empty_chunk() {
    assert_eq!(chunk_message(b"", 10), vec![Vec::<u8>::new()]);
}

#[test]
fn test_chunk_short_input_single_chunk() {
    assert_eq!(chunk_message(b"hello", 10), vec![b"hello".to_vec()]);
    assert_eq!(chunk_message(b"hello", 5), vec![b"hello".to_vec()]);
}

#[test]
fn test_chunk_ascii_split() {
    assert_eq!(
        chunk_message(b"abcdefghij", 4),
        vec![b"abcd".to_vec(), b"efgh".to_vec(), b"ij".to_vec()]
    );
}

#[test]
fn test_chunk_moves_cut_off_continuation_bytes() {
    // "abc" followed by U+00E9 (0xC3 0xA9): a cut at byte 4 would land
    // inside the two-byte sequence, so it moves back to byte 3
    let input: Vec<u8> = vec![97, 98, 99, 0xC3, 0xA9];
    assert!(is_wf_text(&input));
    assert_eq!(
        chunk_message(&input, 4),
        vec![vec![97, 98, 99], vec![0xC3, 0xA9]]
    );
}

#[test]
fn test_chunk_concat_reconstructs_input() {
    let input = "héllo wörld, ça va bien aujourd'hui".repeat(30);
    let bytes = input.as_bytes();
    assert!(is_wf_text(bytes));
    let chunks = chunk_message(bytes, 100);
    let mut glued: Vec<u8> = Vec::new();
    for c in &chunks {
        assert!(c.len() <= 100);
        // every chunk starts at a codepoint boundary
        if !c.is_empty() {
            assert!(c[0] & 0b1100_0000 != 0b1000_0000);
        }
        glued.extend_from_slice(c);
    }
    assert_eq!(glued, bytes.to_vec());
    // and every chunk is itself valid UTF-8
    for c in &chunks {
        assert!(std::str::from_utf8(c).is_ok());
    }
}

#[test]
fn test_wrap_action() {
    assert_eq!(wrap_action(b"waves"), b"\x01ACTION waves\x01".to_vec());
}

#[test]
fn test_outbound_lines_plain_and_action() {
    let lines = outbound_lines(b"#css", false, b"hello");
    assert_eq!(lines, vec![b"hello".to_vec()]);
    let lines = outbound_lines(b"#css", true, b"waves slowly");
    assert_eq!(lines, vec![b"\x01ACTION waves slowly\x01".to_vec()]);
}

#[test]
fn test_outbound_lines_split_long_message() {
    let target = b"#css";
    let max = max_message_len(target, false);
    let long = "x".repeat(max + 5);
    let lines = outbound_lines(target, false, long.as_bytes());
    assert_eq!(lines.len(), 2);
    assert_eq!(lines[0].len(), max);
    assert_eq!(lines[1].len(), 5);
}

#[test]
fn test_outbound_lines_empty_message_still_sent() {
    // an empty logical line still becomes one (empty) physical line
    assert_eq!(
        outbound_lines(b"github-comments", false, b""),
        vec![b"".to_vec()]
    );
    assert_eq!(
        outbound_lines(b"#css", true, b""),
        vec![b"\x01ACTION \x01".to_vec()]
    );
}

#[test]
fn test_is_wf_text() {
    assert!(is_wf_text(b""));
    assert!(is_wf_text(b"plain ascii"));
    assert!(is_wf_text("héllo \u{1F600} end".as_bytes()));
    // a lone continuation byte at the start is rejected
    assert!(!is_wf_text(&[0x80, 97]));
    // four continuation bytes in a row are rejected
    assert!(!is_wf_text(&[97, 0x80, 0x81, 0x82, 0x83, 98]));
}
