use wgmeeting_github_ircbot::render::{
    escape_as_code_span, escape_for_html_block, render_line, render_topic,
};
use wgmeeting_github_ircbot::state::{ChannelLine, TopicData};

#[test]
fn test_code_span_plain() {
    assert_eq!(escape_as_code_span(b"abc"), b"`abc`".to_vec());
    assert_eq!(escape_as_code_span(b""), b"``".to_vec());
}

#[test]
fn test_code_span_inner_backticks() {
    // one backtick inside: delimiter of two
    assert_eq!(escape_as_code_span(b"a`b"), b"``a`b``".to_vec());
    // a run of three inside: delimiter of four
    assert_eq!(escape_as_code_span(b"x```y"), b"````x```y````".to_vec());
}

#[test]
fn test_code_span_edge_backticks_get_spaces() {
    assert_eq!(escape_as_code_span(b"`a"), b"`` `a``".to_vec());
    assert_eq!(escape_as_code_span(b"a`"), b"``a` ``".to_vec());
    assert_eq!(escape_as_code_span(b"`"), b"`` ` ``".to_vec());
}

#[test]
fn test_code_span_twice_grows_delimiter() {
    // applying the escape to its own output picks a longer delimiter
    let once = escape_as_code_span(b"x");
    assert_eq!(once, b"`x`".to_vec());
    let twice = escape_as_code_span(&once);
    assert_eq!(twice, b"`` `x` ``".to_vec());
}

#[test]
fn test_escape_html_amp_lt() {
    assert_eq!(
        escape_for_html_block(b"a < b && c"),
        b"a &lt; b &amp;&amp; c".to_vec()
    );
}

#[test]
fn test_escape_html_defeats_issue_links() {
    assert_eq!(
        escape_for_html_block(b"see #123 now"),
        "see #\u{feff}123 now".as_bytes().to_vec()
    );
    // no whitespace before the hash: left alone
    assert_eq!(escape_for_html_block(b"see#123"), b"see#123".to_vec());
    // hash not followed by a digit: left alone
    assert_eq!(escape_for_html_block(b"see #x"), b"see #x".to_vec());
}

#[test]
fn test_render_line() {
    let plain = ChannelLine {
        source: b"dbaron".to_vec(),
        is_action: false,
        message: b"hello".to_vec(),
    };
    assert_eq!(render_line(&plain), b"<dbaron> hello".to_vec());
    let emote = ChannelLine {
        source: b"dbaron".to_vec(),
        is_action: true,
        message: b"waves".to_vec(),
    };
    assert_eq!(render_line(&emote), b"* dbaron waves".to_vec());
}

#[test]
fn test_render_topic_full() {
    let topic = TopicData {
        topic: b"Grid".to_vec(),
        group: b"CSS WG".to_vec(),
        github_url: Some(b"https://github.com/w3c/csswg-drafts/issues/1".to_vec()),
        lines: vec![
            ChannelLine {
                source: b"dbaron".to_vec(),
                is_action: false,
                message: b"RESOLUTION: do it".to_vec(),
            },
            ChannelLine {
                source: b"astearns".to_vec(),
                is_action: true,
                message: b"nods".to_vec(),
            },
        ],
        resolutions: vec![b"RESOLUTION: do it".to_vec()],
        remove_from_agenda: true,
        publish_resolutions_only: false,
    };
    let expected = "The CSS WG just discussed `Grid`, and agreed to the following:\n\n\
                    * `RESOLUTION: do it`\n\
                    \n<details><summary>The full IRC log of that discussion</summary>\n\
                    &lt;dbaron> RESOLUTION: do it<br>\n\
                    * astearns nods<br>\n\
                    </details>\n";
    assert_eq!(
        String::from_utf8(render_topic(&topic)).unwrap(),
        expected.to_string()
    );
}

#[test]
fn test_render_topic_empty_title_and_no_resolutions() {
    let topic = TopicData {
        topic: b"".to_vec(),
        group: b"CSS WG".to_vec(),
        github_url: None,
        lines: vec![],
        resolutions: vec![],
        remove_from_agenda: false,
        publish_resolutions_only: false,
    };
    let expected = "The CSS WG just discussed this issue.\n\
                    \n<details><summary>The full IRC log of that discussion</summary>\n\
                    </details>\n";
    assert_eq!(
        String::from_utf8(render_topic(&topic)).unwrap(),
        expected.to_string()
    );
}

#[test]
fn test_render_topic_resolutions_only() {
    let topic = TopicData {
        topic: b"Grid".to_vec(),
        group: b"CSS WG".to_vec(),
        github_url: None,
        lines: vec![ChannelLine {
            source: b"x".to_vec(),
            is_action: false,
            message: b"chatter".to_vec(),
        }],
        resolutions: vec![b"SUMMARY: done".to_vec()],
        remove_from_agenda: false,
        publish_resolutions_only: true,
    };
    // resolutions-only mode leaves the log block out entirely
    let expected = "The CSS WG just discussed `Grid`, and agreed to the following:\n\n\
                    * `SUMMARY: done`\n";
    assert_eq!(
        String::from_utf8(render_topic(&topic)).unwrap(),
        expected.to_string()
    );
}
