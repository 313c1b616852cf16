use wgmeeting_github_ircbot::config::ChannelConfig;
use wgmeeting_github_ircbot::urls::{
    check_github_url, extract_github_url, find_bare_mention, ExtractOutcome, GithubURL,
};

fn config(allowed: &[&str]) -> ChannelConfig {
    ChannelConfig {
        group: b"CSS Working Group".to_vec(),
        github_repos_allowed: allowed.iter().map(|s| s.as_bytes().to_vec()).collect(),
        publish_resolutions_only: false,
    }
}

#[test]
fn test_from_string_parses_issue_url() {
    let url = GithubURL::from_string(b"https://github.com/acme/widgets/issues/42").unwrap();
    assert_eq!(url.url, b"https://github.com/acme/widgets/issues/42".to_vec());
    assert_eq!(url.owner, b"acme".to_vec());
    assert_eq!(url.repo, b"widgets".to_vec());
    assert_eq!(url.number, 42);
}

#[test]
fn test_from_string_parses_pull_url() {
    let url = GithubURL::from_string(b"https://github.com/w3c/csswg-drafts/pull/123").unwrap();
    assert_eq!(url.owner, b"w3c".to_vec());
    assert_eq!(url.repo, b"csswg-drafts".to_vec());
    assert_eq!(url.number, 123);
}

#[test]
fn test_from_string_rejects_noise() {
    assert!(GithubURL::from_string(b"https://github.com/acme/widgets/issues/").is_none());
    assert!(GithubURL::from_string(b"https://github.com/acme/widgets/issue/5").is_none());
    assert!(GithubURL::from_string(b"https://github.com/acme/issues/5").is_none());
    assert!(GithubURL::from_string(b"http://github.com/acme/widgets/issues/5").is_none());
    // a fragment is not part of the strict whole-URL grammar
    assert!(GithubURL::from_string(b"https://github.com/acme/widgets/issues/5#r1").is_none());
    // trailing text after the number
    assert!(GithubURL::from_string(b"https://github.com/acme/widgets/issues/5 now").is_none());
}

#[test]
fn test_from_string_rejects_huge_number() {
    // larger than any u64: the parse reports no URL rather than panicking
    assert!(
        GithubURL::from_string(b"https://github.com/acme/widgets/issues/99999999999999999999")
            .is_none()
    );
}

#[test]
fn test_check_url_allowed_exact() {
    let cfg = config(&["acme/widgets"]);
    match check_github_url(b"https://github.com/acme/widgets/issues/42", Some(&cfg)) {
        ExtractOutcome::SetUrl(u) => {
            assert_eq!(u, b"https://github.com/acme/widgets/issues/42".to_vec())
        }
        _ => panic!("expected the URL to be accepted"),
    }
}

#[test]
fn test_check_url_fragment_stripped() {
    let cfg = config(&["acme/widgets"]);
    match check_github_url(
        b"https://github.com/acme/widgets/issues/42#issuecomment-1",
        Some(&cfg),
    ) {
        ExtractOutcome::SetUrl(u) => {
            assert_eq!(u, b"https://github.com/acme/widgets/issues/42".to_vec())
        }
        _ => panic!("expected the URL to be accepted without its fragment"),
    }
}

#[test]
fn test_check_url_fragment_with_space_rejected() {
    let cfg = config(&["acme/widgets"]);
    match check_github_url(
        b"https://github.com/acme/widgets/issues/42#a b",
        Some(&cfg),
    ) {
        ExtractOutcome::Respond(m) => assert_eq!(
            m,
            b"I can't comment on that because it doesn't look like a github issue to me.".to_vec()
        ),
        _ => panic!("expected a rejection"),
    }
}

#[test]
fn test_check_url_wildcard_owner() {
    // an `owner/*` entry admits any repo under that owner ...
    let cfg = config(&["acme/*"]);
    match check_github_url(b"https://github.com/acme/anything/issues/7", Some(&cfg)) {
        ExtractOutcome::SetUrl(u) => {
            assert_eq!(u, b"https://github.com/acme/anything/issues/7".to_vec())
        }
        _ => panic!("expected the wildcard to admit the URL"),
    }
    // ... and rejects a different owner, naming the allowed repos
    match check_github_url(b"https://github.com/intruder/anything/issues/7", Some(&cfg)) {
        ExtractOutcome::Respond(m) => assert_eq!(
            String::from_utf8(m).unwrap(),
            "I can't comment on that github issue because it's not in a repository I'm allowed \
             to comment on, which are: acme/*."
        ),
        _ => panic!("expected a rejection"),
    }
}

#[test]
fn test_check_url_no_config() {
    match check_github_url(b"https://github.com/acme/widgets/issues/42", None) {
        ExtractOutcome::Respond(m) => assert_eq!(
            String::from_utf8(m).unwrap(),
            "I can't comment on that github issue because I don't have a configuration of \
             allowed repositories for this channel."
        ),
        _ => panic!("expected the no-configuration message"),
    }
}

#[test]
fn test_check_url_not_allowed_lists_repos() {
    let cfg = config(&["w3c/csswg-drafts", "acme/widgets"]);
    match check_github_url(b"https://github.com/other/repo/issues/1", Some(&cfg)) {
        ExtractOutcome::Respond(m) => assert_eq!(
            String::from_utf8(m).unwrap(),
            "I can't comment on that github issue because it's not in a repository I'm allowed \
             to comment on, which are: w3c/csswg-drafts acme/widgets."
        ),
        _ => panic!("expected a rejection naming the repos"),
    }
}

#[test]
fn test_directive_argument_that_is_no_url() {
    let cfg = config(&["acme/widgets"]);
    match extract_github_url(b"github: the one we talked about", Some(&cfg), None, true) {
        ExtractOutcome::Respond(m) => assert_eq!(
            m,
            b"I can't comment on that because it doesn't look like a github issue to me.".to_vec()
        ),
        _ => panic!("expected a rejection"),
    }
}

#[test]
fn test_from_string_keeps_leading_zeros_value() {
    let url = GithubURL::from_string(b"https://github.com/acme/widgets/issues/0042").unwrap();
    assert_eq!(url.number, 42);
}

#[test]
fn test_extract_directive_none_clears() {
    let cfg = config(&["acme/widgets"]);
    match extract_github_url(b"GitHub: none", Some(&cfg), None, true) {
        ExtractOutcome::Clear => {}
        _ => panic!("expected the association to be cleared"),
    }
    match extract_github_url(b"github issue: NONE", Some(&cfg), None, true) {
        ExtractOutcome::Clear => {}
        _ => panic!("expected the association to be cleared"),
    }
}

#[test]
fn test_extract_directive_sets_url() {
    let cfg = config(&["acme/widgets"]);
    match extract_github_url(
        b"Github topic: https://github.com/acme/widgets/issues/42",
        Some(&cfg),
        None,
        true,
    ) {
        ExtractOutcome::SetUrl(u) => {
            assert_eq!(u, b"https://github.com/acme/widgets/issues/42".to_vec())
        }
        _ => panic!("expected the URL to be set"),
    }
}

#[test]
fn test_extract_bare_mention_warns_in_topic() {
    let cfg = config(&["acme/widgets"]);
    match extract_github_url(
        b"see https://github.com/acme/widgets/issues/42 for details",
        Some(&cfg),
        None,
        true,
    ) {
        ExtractOutcome::Respond(m) => assert_eq!(
            String::from_utf8(m).unwrap(),
            "Because I don't want to spam github issues unnecessarily, I won't comment in that \
             github issue unless you write \"Github: <issue-url> | none\" (or \"Github issue: \
             ...\"/\"Github topic: ...\")."
        ),
        _ => panic!("expected the bare-mention warning"),
    }
}

#[test]
fn test_extract_bare_mention_ignored_outside_topic_or_when_current() {
    let cfg = config(&["acme/widgets"]);
    // no topic open: ignored
    match extract_github_url(
        b"see https://github.com/acme/widgets/issues/42",
        Some(&cfg),
        None,
        false,
    ) {
        ExtractOutcome::Nothing => {}
        _ => panic!("expected no reaction"),
    }
    // mention equals the current association: ignored
    let current = b"https://github.com/acme/widgets/issues/42".to_vec();
    match extract_github_url(
        b"see https://github.com/acme/widgets/issues/42",
        Some(&cfg),
        Some(&current),
        true,
    ) {
        ExtractOutcome::Nothing => {}
        _ => panic!("expected no reaction"),
    }
}

#[test]
fn test_extract_plain_text_is_nothing() {
    let cfg = config(&["acme/widgets"]);
    match extract_github_url(b"just talking about things", Some(&cfg), None, true) {
        ExtractOutcome::Nothing => {}
        _ => panic!("expected no reaction"),
    }
}

#[test]
fn test_find_bare_mention_leftmost() {
    assert_eq!(
        find_bare_mention(b"x https://github.com/a/b/issues/1 y https://github.com/c/d/pull/2"),
        Some(b"https://github.com/a/b/issues/1".to_vec())
    );
    assert_eq!(find_bare_mention(b"no url here"), None);
    // the mention grammar takes the maximal digit run and ignores fragments
    assert_eq!(
        find_bare_mention(b"https://github.com/a/b/pull/123#x"),
        Some(b"https://github.com/a/b/pull/123".to_vec())
    );
}
