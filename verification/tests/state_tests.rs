use wgmeeting_github_ircbot::config::{ChannelConfig, GithubType};
use wgmeeting_github_ircbot::state::{
    channel_line_from_privmsg, Action, ChannelData, ChannelLine, TimerWake,
};

fn config(allowed: &[&str]) -> ChannelConfig {
    ChannelConfig {
        group: b"CSS Working Group".to_vec(),
        github_repos_allowed: allowed.iter().map(|s| s.as_bytes().to_vec()).collect(),
        publish_resolutions_only: false,
    }
}

fn channel(cfg: Option<ChannelConfig>) -> ChannelData {
    ChannelData::new(
        b"#css",
        cfg,
        GithubType::MockGithubConnection,
        0,
        0,
    )
}

#[test]
fn test_privmsg_framing() {
    let plain = channel_line_from_privmsg(b"dbaron", b"hello there");
    assert_eq!(plain.is_action, false);
    assert_eq!(plain.source, b"dbaron".to_vec());
    assert_eq!(plain.message, b"hello there".to_vec());
    let emote = channel_line_from_privmsg(b"dbaron", b"\x01ACTION waves\x01");
    assert_eq!(emote.is_action, true);
    assert_eq!(emote.message, b"waves".to_vec());
    let hidden = channel_line_from_privmsg(b"dbaron", b"public [off] secret");
    assert_eq!(hidden.message, b"public [hidden]".to_vec());
}

#[test]
fn test_scenario_topic_resolution_and_directive() {
    let mut ch = channel(Some(config(&["acme/widgets"])));

    // a Topic: line opens a topic with the trimmed remainder as title
    let actions = ch.handle_channel_line(b"alice", b"Topic: Widget design");
    assert!(actions.is_empty());
    {
        let t = ch.current_topic.as_ref().expect("topic should be open");
        assert_eq!(t.topic, b"Widget design".to_vec());
        assert_eq!(t.group, b"CSS Working Group".to_vec());
        assert!(t.github_url.is_none());
        // the Topic: line itself is buffered
        assert_eq!(t.lines.len(), 1);
    }

    // a RESOLUTION line is buffered as a resolution and asks for the
    // Agenda+ label's removal
    let actions = ch.handle_channel_line(b"alice", b"RESOLUTION: use blue");
    assert!(actions.is_empty());
    {
        let t = ch.current_topic.as_ref().unwrap();
        assert_eq!(t.resolutions, vec![b"RESOLUTION: use blue".to_vec()]);
        assert!(t.remove_from_agenda);
        assert_eq!(t.lines.len(), 2);
    }

    // an allow-listed directive associates the URL and spawns the title fetch
    let actions =
        ch.handle_channel_line(b"alice", b"github: https://github.com/acme/widgets/issues/42");
    assert_eq!(actions.len(), 1);
    match &actions[0] {
        Action::FetchTitle { url, old_url } => {
            assert_eq!(url, &b"https://github.com/acme/widgets/issues/42".to_vec());
            assert!(old_url.is_none());
        }
        _ => panic!("expected a title fetch"),
    }
    let t = ch.current_topic.as_ref().unwrap();
    assert_eq!(
        t.github_url,
        Some(b"https://github.com/acme/widgets/issues/42".to_vec())
    );
}

#[test]
fn test_scenario_no_allow_list_configured() {
    let mut ch = channel(None);
    let actions =
        ch.handle_channel_line(b"alice", b"github: https://github.com/acme/widgets/issues/42");
    assert_eq!(actions.len(), 1);
    match &actions[0] {
        Action::Respond(m) => assert_eq!(
            String::from_utf8(m.clone()).unwrap(),
            "I can't set a github URL because you haven't started a topic.  Also, I can't \
             comment on that github issue because I don't have a configuration of allowed \
             repositories for this channel."
        ),
        _ => panic!("expected only a response"),
    }
    assert!(ch.current_topic.is_none());
}

#[test]
fn test_directive_without_topic_cannot_set() {
    let mut ch = channel(Some(config(&["acme/widgets"])));
    // a valid, allow-listed URL still cannot be set while no topic is open
    let actions =
        ch.handle_channel_line(b"alice", b"github: https://github.com/acme/widgets/issues/42");
    assert_eq!(actions.len(), 1);
    match &actions[0] {
        Action::Respond(m) => assert_eq!(
            m,
            &b"I can't set a github URL because you haven't started a topic.".to_vec()
        ),
        _ => panic!("expected only a response"),
    }
    assert!(ch.current_topic.is_none());
    // so does clearing
    let actions = ch.handle_channel_line(b"alice", b"github: none");
    assert_eq!(actions.len(), 1);
    match &actions[0] {
        Action::Respond(m) => assert_eq!(
            m,
            &b"I can't set a github URL because you haven't started a topic.".to_vec()
        ),
        _ => panic!("expected only a response"),
    }
}

#[test]
fn test_scenario_present_plus_has_no_effect() {
    let mut ch = channel(Some(config(&["acme/widgets"])));
    let _ = ch.handle_channel_line(b"alice", b"Topic: Widget design");
    let lines_before = ch.current_topic.as_ref().unwrap().lines.len();
    let actions = ch.handle_channel_line(b"alice", b"present+ alice");
    assert!(actions.is_empty());
    let t = ch.current_topic.as_ref().unwrap();
    assert_eq!(t.lines.len(), lines_before);
    assert!(t.resolutions.is_empty());
}

#[test]
fn test_scenario_trackbot_ends_teleconference() {
    let mut ch = channel(Some(config(&["acme/widgets"])));
    let _ = ch.handle_channel_line(b"alice", b"Topic: Widget design");
    let _ = ch.handle_channel_line(b"alice", b"RESOLUTION: use blue");
    let _ =
        ch.handle_channel_line(b"alice", b"github: https://github.com/acme/widgets/issues/42");

    let actions = ch.add_line(ChannelLine {
        source: b"trackbot".to_vec(),
        is_action: true,
        message: b"is ending a teleconference.".to_vec(),
    });
    assert!(ch.current_topic.is_none());
    assert_eq!(actions.len(), 1);
    match &actions[0] {
        Action::PostComment(t) => {
            assert_eq!(t.topic, b"Widget design".to_vec());
            assert_eq!(
                t.github_url,
                Some(b"https://github.com/acme/widgets/issues/42".to_vec())
            );
            assert!(t.should_comment());
        }
        _ => panic!("expected a comment task"),
    }
}

#[test]
fn test_trackbot_emote_needs_exact_text_and_framing() {
    let mut ch = channel(Some(config(&["acme/widgets"])));
    let _ = ch.handle_channel_line(b"alice", b"Topic: Widget design");
    // the same text as a plain (non-emote) line does not end the topic
    let _ = ch.handle_channel_line(b"trackbot", b"is ending a teleconference.");
    assert!(ch.current_topic.is_some());
    // a different emote text does not either
    let _ = ch.add_line(ChannelLine {
        source: b"trackbot".to_vec(),
        is_action: true,
        message: b"is starting a teleconference.".to_vec(),
    });
    assert!(ch.current_topic.is_some());
}

#[test]
fn test_zakim_attendee_line_ends_topic() {
    let mut ch = channel(Some(config(&["acme/widgets"])));
    let _ = ch.handle_channel_line(b"alice", b"Topic: Widget design");
    let actions = ch.handle_channel_line(
        b"Zakim",
        b"As of this point the attendees have been alice, bob",
    );
    // no URL was set, so the discarded topic spawns no comment
    assert!(actions.is_empty());
    assert!(ch.current_topic.is_none());
}

#[test]
fn test_second_topic_ends_first() {
    let mut ch = channel(Some(config(&["acme/widgets"])));
    let _ = ch.handle_channel_line(b"alice", b"Topic: First");
    let _ =
        ch.handle_channel_line(b"alice", b"github: https://github.com/acme/widgets/issues/1");
    let actions = ch.handle_channel_line(b"alice", b"Topic: Second");
    // the first topic had a URL and the channel is not resolutions-only,
    // so ending it spawns its comment task before the second topic opens
    assert_eq!(actions.len(), 1);
    match &actions[0] {
        Action::PostComment(t) => {
            assert_eq!(t.topic, b"First".to_vec());
        }
        _ => panic!("expected a comment task for the first topic"),
    }
    assert_eq!(
        ch.current_topic.as_ref().unwrap().topic,
        b"Second".to_vec()
    );
}

#[test]
fn test_subtopic_acts_like_topic() {
    let mut ch = channel(Some(config(&["acme/widgets"])));
    let _ = ch.handle_channel_line(b"alice", b"Subtopic:  indented title");
    assert_eq!(
        ch.current_topic.as_ref().unwrap().topic,
        b"indented title".to_vec()
    );
}

#[test]
fn test_clearing_association() {
    let mut ch = channel(Some(config(&["acme/widgets"])));
    let _ = ch.handle_channel_line(b"alice", b"Topic: T");
    let _ =
        ch.handle_channel_line(b"alice", b"github: https://github.com/acme/widgets/issues/1");
    let actions = ch.handle_channel_line(b"alice", b"github: none");
    assert_eq!(actions.len(), 1);
    match &actions[0] {
        Action::Respond(m) => assert_eq!(
            m,
            &b"OK, I won't post this discussion to GitHub.".to_vec()
        ),
        _ => panic!("expected the confirmation"),
    }
    assert!(ch.current_topic.as_ref().unwrap().github_url.is_none());
    // clearing when nothing was set says nothing
    let actions = ch.handle_channel_line(b"alice", b"github: none");
    assert!(actions.is_empty());
}

#[test]
fn test_restating_current_association_is_noop() {
    let mut ch = channel(Some(config(&["acme/widgets"])));
    let _ = ch.handle_channel_line(b"alice", b"Topic: T");
    let first =
        ch.handle_channel_line(b"alice", b"github: https://github.com/acme/widgets/issues/1");
    assert_eq!(first.len(), 1);
    let again =
        ch.handle_channel_line(b"alice", b"github: https://github.com/acme/widgets/issues/1");
    assert!(again.is_empty());
}

#[test]
fn test_summary_and_action_do_not_remove_agenda() {
    let mut ch = channel(Some(config(&["acme/widgets"])));
    let _ = ch.handle_channel_line(b"alice", b"Topic: T");
    let _ = ch.handle_channel_line(b"alice", b"SUMMARY: looked at it");
    let _ = ch.handle_channel_line(b"alice", b"ACTION alice to write tests");
    let t = ch.current_topic.as_ref().unwrap();
    assert_eq!(t.resolutions.len(), 2);
    assert!(!t.remove_from_agenda);
}

#[test]
fn test_emote_lines_are_not_buffered() {
    let mut ch = channel(Some(config(&["acme/widgets"])));
    let _ = ch.handle_channel_line(b"alice", b"Topic: T");
    let before = ch.current_topic.as_ref().unwrap().lines.len();
    let _ = ch.handle_channel_line(b"alice", b"\x01ACTION waves\x01");
    assert_eq!(ch.current_topic.as_ref().unwrap().lines.len(), before);
}

#[test]
fn test_activity_timer() {
    let mut ch = ChannelData::new(
        b"#css",
        Some(config(&["acme/widgets"])),
        GithubType::MockGithubConnection,
        60_000,
        1_000,
    );
    // no topic yet: nothing to schedule
    assert!(!ch.needs_timeout());
    let _ = ch.handle_channel_line(b"alice", b"Topic: T");
    assert!(ch.needs_timeout());
    let deadline = ch.arm_timeout();
    assert_eq!(deadline, 61_000);
    assert!(!ch.needs_timeout());
    // activity arrived before the wakeup: reschedule
    ch.note_activity(30_000);
    match ch.timeout_fired(61_000) {
        TimerWake::Reschedule => {}
        _ => panic!("expected a reschedule"),
    }
    let deadline = ch.arm_timeout();
    assert_eq!(deadline, 90_000);
    // quiet until the deadline: the topic is ended; without a URL it
    // earns no comment
    match ch.timeout_fired(90_000) {
        TimerWake::Ended(c) => assert!(c.is_none()),
        _ => panic!("expected the topic to end"),
    }
    assert!(ch.current_topic.is_none());
}

#[test]
fn test_zero_timeout_disables_timer() {
    let mut ch = channel(Some(config(&["acme/widgets"])));
    let _ = ch.handle_channel_line(b"alice", b"Topic: T");
    // the zero timeout counts as permanently pending
    assert!(!ch.needs_timeout());
}
