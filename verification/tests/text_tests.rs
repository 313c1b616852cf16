use wgmeeting_github_ircbot::text::{
    check_command_in_channel, ci_starts_with, filter_bot_hidden, is_present_plus, strip_ci_prefix,
    strip_one_ci_prefix, trim_start,
};

#[test]
fn test_present_plus() {
    assert_eq!(is_present_plus(b"present+"), true);
    assert_eq!(is_present_plus(b"Present+"), true);
    assert_eq!(is_present_plus(b"prESeNT+"), true);
    assert_eq!(is_present_plus(b"present+dbaron"), false);
    assert_eq!(is_present_plus(b"say present+"), false);
    assert_eq!(is_present_plus(b"preSEnt+ dbaron"), true);
}

#[test]
fn test_strip_ci_prefix() {
    assert_eq!(
        strip_ci_prefix(b"Topic:hello", b"topic:"),
        Some(b"hello".to_vec())
    );
    assert_eq!(
        strip_ci_prefix(b"Topic: hello", b"topic:"),
        Some(b"hello".to_vec())
    );
    assert_eq!(
        strip_ci_prefix(b"topic: hello", b"topic:"),
        Some(b"hello".to_vec())
    );
    assert_eq!(strip_ci_prefix(b"Issue: hello", b"topic:"), None);
    assert_eq!(strip_ci_prefix(b"Topic: hello", b"issue:"), None);
    assert_eq!(strip_ci_prefix(b"Github topic: hello", b"topic:"), None);
}

#[test]
fn test_strip_one_ci_prefix() {
    let prefixes = vec![b"issue:".to_vec(), b"github:".to_vec()];
    assert_eq!(
        strip_one_ci_prefix(b"GitHub:url goes here", &prefixes),
        Some(b"url goes here".to_vec())
    );
    assert_eq!(
        strip_one_ci_prefix(b"GITHUB: url goes here", &prefixes),
        Some(b"url goes here".to_vec())
    );
    assert_eq!(
        strip_one_ci_prefix(b"issue: url goes here", &prefixes),
        Some(b"url goes here".to_vec())
    );
    assert_eq!(strip_one_ci_prefix(b"topic: url goes here", &prefixes), None);
}

#[test]
fn test_ci_starts_with() {
    assert!(ci_starts_with(b"Topic: x", b"topic:"));
    assert!(ci_starts_with(b"TOPIC:", b"topic:"));
    assert!(!ci_starts_with(b"topi", b"topic:"));
    assert!(!ci_starts_with(b"atopic:", b"topic:"));
    assert!(ci_starts_with(b"anything", b""));
}

#[test]
fn test_filter_bot_hidden() {
    assert_eq!(filter_bot_hidden(b"all public"), b"all public".to_vec());
    assert_eq!(
        filter_bot_hidden(b"public [off] secret"),
        b"public [hidden]".to_vec()
    );
    assert_eq!(filter_bot_hidden(b"[off]"), b"[hidden]".to_vec());
    assert_eq!(
        filter_bot_hidden(b"a [off] b [off] c"),
        b"a [hidden]".to_vec()
    );
}

#[test]
fn test_check_command_in_channel() {
    assert_eq!(
        check_command_in_channel(b"wgbot", b"wgbot: help"),
        Some(b"help".to_vec())
    );
    assert_eq!(
        check_command_in_channel(b"wgbot", b"wgbot,   status"),
        Some(b"status".to_vec())
    );
    assert_eq!(check_command_in_channel(b"wgbot", b"wgbot help"), None);
    assert_eq!(check_command_in_channel(b"wgbot", b"other: help"), None);
    assert_eq!(check_command_in_channel(b"wgbot", b"wgbot"), None);
}

#[test]
fn test_trim_start() {
    assert_eq!(trim_start(b"  x y "), b"x y ".to_vec());
    assert_eq!(trim_start(b"\t\r\nx"), b"x".to_vec());
    assert_eq!(trim_start(b""), b"".to_vec());
    assert_eq!(trim_start(b"   "), b"".to_vec());
    // the trimmed class is Unicode whitespace, as str::trim_start has it
    assert_eq!(
        trim_start("\u{a0}\u{2003}\u{3000}x".as_bytes()),
        b"x".to_vec()
    );
    assert_eq!(
        trim_start("\u{85} ok".as_bytes()),
        b"ok".to_vec()
    );
    // U+200B ZERO WIDTH SPACE is not whitespace
    assert_eq!(
        trim_start("\u{200b}x".as_bytes()),
        "\u{200b}x".as_bytes().to_vec()
    );
    // agreement with the standard library on a mixed sample
    let sample = "\u{9}\u{a}\u{b}\u{c}\u{d} \u{85}\u{a0}\u{1680}\u{2000}\u{200a}\u{2028}\u{2029}\u{202f}\u{205f}\u{3000}end";
    assert_eq!(
        trim_start(sample.as_bytes()),
        sample.trim_start().as_bytes().to_vec()
    );
}

#[test]
fn test_strip_ci_prefix_trims_unicode_whitespace() {
    assert_eq!(
        wgmeeting_github_ircbot::text::strip_ci_prefix("Topic:\u{a0}hello".as_bytes(), b"topic:"),
        Some(b"hello".to_vec())
    );
}
