//! The per-channel topic state machine: the channel's record of at most one
//! open topic, the transitions that classified lines drive, and the actions
//! (responses, comment tasks, title fetches) each transition asks the shell
//! to perform.

use vstd::prelude::*;
use vstd::string::StringSliceAdditionalSpecFns;

verus! {

broadcast use vstd::string::group_string_axioms;

/// One line said in the channel.
pub struct ChannelLine {
    /// The nick that said it.
    pub source: Vec<u8>,
    /// Whether it was an emote (`/me`-style action) line.
    pub is_action: bool,
    /// The message text, after hidden-suffix filtering.
    pub message: Vec<u8>,
}

/// The mathematical content of a [`ChannelLine`].
#[verifier::ext_equal]
pub struct ChannelLineView {
    /// The nick that said it.
    pub source: Seq<u8>,
    /// Whether it was an emote line.
    pub is_action: bool,
    /// The message text.
    pub message: Seq<u8>,
}

impl View for ChannelLine {
    type V = ChannelLineView;

    open spec fn view(&self) -> ChannelLineView {
        ChannelLineView { source: self.source@, is_action: self.is_action, message: self.message@ }
    }
}

/// Everything buffered for one open topic.
pub struct TopicData {
    /// The topic title; empty means "this issue".
    pub topic: Vec<u8>,
    /// The working-group name, copied from the channel configuration at
    /// topic start.
    pub group: Vec<u8>,
    /// The associated GitHub issue/PR URL, when one has been set.
    pub github_url: Option<Vec<u8>>,
    /// Every buffered line of the discussion, in order.
    pub lines: Vec<ChannelLine>,
    /// The resolution/summary/action lines, in order.
    pub resolutions: Vec<Vec<u8>>,
    /// Whether a resolution asks for the `Agenda+` label to be removed.
    pub remove_from_agenda: bool,
    /// The channel's resolutions-only flag, snapshotted at topic start.
    pub publish_resolutions_only: bool,
}

/// The mathematical content of a [`TopicData`].
#[verifier::ext_equal]
pub struct TopicDataView {
    /// The topic title.
    pub topic: Seq<u8>,
    /// The working-group name.
    pub group: Seq<u8>,
    /// The associated GitHub URL, when set.
    pub github_url: Option<Seq<u8>>,
    /// The buffered lines.
    pub lines: Seq<ChannelLineView>,
    /// The resolution lines.
    pub resolutions: Seq<Seq<u8>>,
    /// Whether a resolution asks for label removal.
    pub remove_from_agenda: bool,
    /// The resolutions-only flag.
    pub publish_resolutions_only: bool,
}

impl View for TopicData {
    type V = TopicDataView;

    open spec fn view(&self) -> TopicDataView {
        TopicDataView {
            topic: self.topic@,
            group: self.group@,
            github_url: match self.github_url {
                Some(ref u) => Some(u@),
                None => None,
            },
            lines: Seq::new(self.lines@.len(), |i: int| self.lines@[i]@),
            resolutions: self.resolutions.deep_view(),
            remove_from_agenda: self.remove_from_agenda,
            publish_resolutions_only: self.publish_resolutions_only,
        }
    }
}

/// Whether a closed topic earns a GitHub comment: a URL is set, and there
/// is a resolution or the channel is not in resolutions-only mode.
pub open spec fn spec_should_comment(t: TopicDataView) -> bool {
    t.github_url is Some && (t.resolutions.len() > 0 || !t.publish_resolutions_only)
}

impl TopicData {
    /// A fresh topic record with the given title and channel snapshot.
    pub fn new(topic: &[u8], group: &[u8], publish_resolutions_only: bool) -> (r: TopicData)
        ensures
            r@.topic == topic@,
            r@.group == group@,
            r@.github_url is None,
            r@.lines == Seq::<ChannelLineView>::empty(),
            r@.resolutions == Seq::<Seq<u8>>::empty(),
            r@.remove_from_agenda == false,
            r@.publish_resolutions_only == publish_resolutions_only,
    {
        let r = TopicData {
            topic: crate::text::subrange_vec(topic, 0, topic.len()),
            group: crate::text::subrange_vec(group, 0, group.len()),
            github_url: None,
            lines: Vec::new(),
            resolutions: Vec::new(),
            remove_from_agenda: false,
            publish_resolutions_only: publish_resolutions_only,
        };
        proof {
            assert(topic@.subrange(0, topic@.len() as int) =~= topic@);
            assert(group@.subrange(0, group@.len() as int) =~= group@);
            assert(r@.lines =~= Seq::<ChannelLineView>::empty());
            assert(r@.resolutions =~= Seq::<Seq<u8>>::empty());
        }
        r
    }

    /// Whether this topic earns a GitHub comment when it closes.
    pub fn should_comment(&self) -> (r: bool)
        ensures
            r == spec_should_comment(self@),
    {
        self.github_url.is_some() && (self.resolutions.len() > 0 || !self.publish_resolutions_only)
    }
}

/// What a transition asks the unverified shell to do, in order.
pub enum Action {
    /// Send this emote-framed response to the channel.
    Respond(Vec<u8>),
    /// Spawn the asynchronous comment task for this closed topic.
    PostComment(TopicData),
    /// Spawn the asynchronous title fetch for a newly associated URL,
    /// remembering the association it replaced for the confirmation line.
    FetchTitle {
        /// The newly associated URL.
        url: Vec<u8>,
        /// The association it replaced, if there was one.
        old_url: Option<Vec<u8>>,
    },
}

/// The mathematical content of an [`Action`].
#[verifier::ext_equal]
pub enum ActionView {
    /// Send this emote-framed response to the channel.
    Respond(Seq<u8>),
    /// Spawn the comment task for this closed topic.
    PostComment(TopicDataView),
    /// Spawn the title fetch for a newly associated URL.
    FetchTitle {
        /// The newly associated URL.
        url: Seq<u8>,
        /// The association it replaced, if there was one.
        old_url: Option<Seq<u8>>,
    },
}

impl View for Action {
    type V = ActionView;

    open spec fn view(&self) -> ActionView {
        match self {
            Action::Respond(m) => ActionView::Respond(m@),
            Action::PostComment(t) => ActionView::PostComment(t@),
            Action::FetchTitle { url, old_url } => ActionView::FetchTitle {
                url: url@,
                old_url: match old_url {
                    Some(u) => Some(u@),
                    None => None,
                },
            },
        }
    }
}

impl DeepView for Action {
    type V = ActionView;

    open spec fn deep_view(&self) -> ActionView {
        self.view()
    }
}

/// Everything the bot keeps per channel.
pub struct ChannelData {
    /// The channel's name.
    pub channel_name: Vec<u8>,
    /// The open topic, when there is one.
    pub current_topic: Option<TopicData>,
    /// The channel's static configuration; a channel the bot sits in
    /// without one rejects every directive.
    pub config: Option<crate::config::ChannelConfig>,
    /// Whether GitHub is reached for real or mocked.
    pub github_type: crate::config::GithubType,
    /// When the channel last saw a line, on the shell's millisecond clock.
    pub last_activity: u64,
    /// Whether an inactivity wakeup is already scheduled.
    pub have_activity_timeout: bool,
    /// The inactivity timeout; zero disables the timer.
    pub activity_timeout_ms: u64,
}

/// The mathematical content of a [`ChannelData`].
#[verifier::ext_equal]
pub struct ChannelDataView {
    /// The channel's name.
    pub channel_name: Seq<u8>,
    /// The open topic, when there is one.
    pub current_topic: Option<TopicDataView>,
    /// The channel's static configuration.
    pub config: Option<crate::config::ChannelConfigView>,
    /// Whether GitHub is reached for real or mocked.
    pub github_type: crate::config::GithubType,
    /// When the channel last saw a line.
    pub last_activity: u64,
    /// Whether an inactivity wakeup is already scheduled.
    pub have_activity_timeout: bool,
    /// The inactivity timeout; zero disables the timer.
    pub activity_timeout_ms: u64,
}

impl View for ChannelData {
    type V = ChannelDataView;

    open spec fn view(&self) -> ChannelDataView {
        ChannelDataView {
            channel_name: self.channel_name@,
            current_topic: match self.current_topic {
                Some(ref t) => Some(t@),
                None => None,
            },
            config: match self.config {
                Some(ref c) => Some(c@),
                None => None,
            },
            github_type: self.github_type,
            last_activity: self.last_activity,
            have_activity_timeout: self.have_activity_timeout,
            activity_timeout_ms: self.activity_timeout_ms,
        }
    }
}

/// A fresh topic record, as `startTopic` snapshots the channel
/// configuration into it.
pub open spec fn spec_new_topic(title: Seq<u8>, cfg: crate::config::ChannelConfigView) -> TopicDataView {
    TopicDataView {
        topic: title,
        group: cfg.group,
        github_url: None,
        lines: Seq::empty(),
        resolutions: Seq::empty(),
        remove_from_agenda: false,
        publish_resolutions_only: cfg.publish_resolutions_only,
    }
}

/// What ending the current topic does: the channel drops to no topic, and
/// the record spawns a comment task exactly when it earns a comment.
pub open spec fn spec_end_topic(s: ChannelDataView) -> (ChannelDataView, Seq<ActionView>) {
    let actions: Seq<ActionView> = match s.current_topic {
        Some(t) => if spec_should_comment(t) {
            seq![ActionView::PostComment(t)]
        } else {
            Seq::empty()
        },
        None => Seq::empty(),
    };
    (ChannelDataView { current_topic: None, ..s }, actions)
}

/// What starting a topic does: any open topic is first ended (with its
/// comment task, when eligible), then a fresh record snapshots the channel
/// configuration.
pub open spec fn spec_start_topic(s: ChannelDataView, title: Seq<u8>) -> (
    ChannelDataView,
    Seq<ActionView>,
) {
    let (s1, actions) = spec_end_topic(s);
    (
        ChannelDataView {
            current_topic: Some(spec_new_topic(title, s.config->Some_0)),
            ..s1
        },
        actions,
    )
}

impl ChannelData {
    /// A fresh channel record.  A zero timeout disables the inactivity
    /// timer by pretending a wakeup is always already scheduled.
    pub fn new(
        channel_name: &[u8],
        config: Option<crate::config::ChannelConfig>,
        github_type: crate::config::GithubType,
        activity_timeout_ms: u64,
        now_ms: u64,
    ) -> (r: ChannelData)
        ensures
            r@.channel_name == channel_name@,
            r@.current_topic is None,
            r@.config == (match config {
                Some(c) => Some(c@),
                None => None::<crate::config::ChannelConfigView>,
            }),
            r@.github_type == github_type,
            r@.last_activity == now_ms,
            r@.have_activity_timeout == (activity_timeout_ms == 0),
            r@.activity_timeout_ms == activity_timeout_ms,
    {
        ChannelData {
            channel_name: crate::text::subrange_vec(channel_name, 0, channel_name.len()),
            current_topic: None,
            config: config,
            github_type: github_type,
            last_activity: now_ms,
            have_activity_timeout: activity_timeout_ms == 0,
            activity_timeout_ms: activity_timeout_ms,
        }
    }

    /// End the current topic, if one is open.  The returned record, when
    /// there is one, is the closed topic that earns a comment: the caller
    /// spawns the comment task for it.
    pub fn end_topic(&mut self) -> (r: Option<TopicData>)
        ensures
            final(self)@ == spec_end_topic(old(self)@).0,
            (match r {
                Some(t) => spec_end_topic(old(self)@).1 == seq![ActionView::PostComment(t@)],
                None => spec_end_topic(old(self)@).1 == Seq::<ActionView>::empty(),
            }),
    {
        match self.current_topic.take() {
            Some(topic) => {
                if topic.should_comment() {
                    Some(topic)
                } else {
                    None
                }
            },
            None => None,
        }
    }

    /// Start a new topic.  Any open topic is always ended first, spawning
    /// its comment task when it earns one, before the new record exists:
    /// the channel never holds two open topics.
    pub fn start_topic(&mut self, title: &[u8]) -> (r: Option<TopicData>)
        requires
            old(self)@.config is Some,
        ensures
            final(self)@ == spec_start_topic(old(self)@, title@).0,
            (match r {
                Some(t) => spec_start_topic(old(self)@, title@).1 == seq![
                    ActionView::PostComment(t@),
                ],
                None => spec_start_topic(old(self)@, title@).1 == Seq::<ActionView>::empty(),
            }),
    {
        let r = self.end_topic();
        let (group, publish_resolutions_only) = match &self.config {
            Some(cfg) => (cfg.group.as_slice(), cfg.publish_resolutions_only),
            None => {
                proof {
                    assert(false);
                }
                unreached()
            },
        };
        self.current_topic = Some(TopicData::new(title, group, publish_resolutions_only));
        r
    }
}

/// The title a non-emote line starts a topic with: what follows a
/// case-insensitive `topic:` or `subtopic:` prefix, leading whitespace
/// trimmed.  A subtopic is treated exactly like a topic.
pub open spec fn spec_topic_start_title(msg: Seq<u8>) -> Option<Seq<u8>> {
    match crate::text::spec_strip_ci_prefix(msg, "topic:".spec_bytes()) {
        Some(t) => Some(t),
        None => crate::text::spec_strip_ci_prefix(msg, "subtopic:".spec_bytes()),
    }
}

/// Whether a line marks the end of the meeting: trackbot's closing emote,
/// or Zakim's attendee summary.
pub open spec fn spec_ends_meeting(l: ChannelLineView) -> bool {
    (l.is_action && l.source == "trackbot".spec_bytes() && l.message
        == "is ending a teleconference.".spec_bytes()) || (!l.is_action && l.source
        == "Zakim".spec_bytes() && crate::text::spec_starts_with(
        l.message,
        "As of this point the attendees have been".spec_bytes(),
    ))
}

/// The topic-boundary stage of a line: a `topic:`/`subtopic:` line starts a
/// new topic (ending any open one first), and an end-of-meeting line ends
/// the current topic.
pub open spec fn spec_boundary_step(s: ChannelDataView, l: ChannelLineView) -> (
    ChannelDataView,
    Seq<ActionView>,
) {
    let started = if !l.is_action && spec_topic_start_title(l.message) is Some {
        spec_start_topic(s, spec_topic_start_title(l.message)->Some_0)
    } else {
        (s, Seq::<ActionView>::empty())
    };
    if spec_ends_meeting(l) {
        let ended = spec_end_topic(started.0);
        (ended.0, started.1 + ended.1)
    } else {
        started
    }
}

/// The response when a directive arrives while no topic is open.
pub open spec fn msg_cant_set() -> Seq<u8> {
    "I can't set a github URL because you haven't started a topic.".spec_bytes()
}

/// The prefix of that response when the directive also failed validation.
pub open spec fn msg_cant_set_also() -> Seq<u8> {
    "I can't set a github URL because you haven't started a topic.  Also, ".spec_bytes()
}

/// The response when a directive clears an existing association.
pub open spec fn msg_wont_post() -> Seq<u8> {
    "OK, I won't post this discussion to GitHub.".spec_bytes()
}

/// The channel with the open topic's association replaced.
pub open spec fn spec_with_url(s: ChannelDataView, url: Option<Seq<u8>>) -> ChannelDataView {
    ChannelDataView {
        current_topic: Some(
            TopicDataView { github_url: url, ..s.current_topic->Some_0 },
        ),
        ..s
    }
}

/// The association stage of a line.  While no topic is open, a directive
/// only draws the can't-set response (with the validator's own complaint
/// appended when it had one) and changes nothing.  While one is open, the
/// validator's outcome is applied: a rejection is relayed; clearing an
/// existing association confirms it; a new URL replaces the association and
/// spawns the title fetch; re-stating the current association is a no-op.
pub open spec fn spec_url_step(s: ChannelDataView, l: ChannelLineView) -> (
    ChannelDataView,
    Seq<ActionView>,
) {
    match s.current_topic {
        None => {
            let actions: Seq<ActionView> = match crate::urls::spec_extract_github_url(
                l.message,
                s.config,
                None,
                false,
            ) {
                crate::urls::OutcomeView::SetUrl(_) => seq![ActionView::Respond(msg_cant_set())],
                crate::urls::OutcomeView::Clear => seq![ActionView::Respond(msg_cant_set())],
                crate::urls::OutcomeView::Respond(e) => seq![
                    ActionView::Respond(msg_cant_set_also() + e),
                ],
                crate::urls::OutcomeView::Nothing => Seq::empty(),
            };
            (s, actions)
        },
        Some(t) => {
            match crate::urls::spec_extract_github_url(l.message, s.config, t.github_url, true) {
                crate::urls::OutcomeView::Respond(e) => (s, seq![ActionView::Respond(e)]),
                crate::urls::OutcomeView::Clear => if t.github_url is None {
                    (spec_with_url(s, None), Seq::empty())
                } else {
                    (spec_with_url(s, None), seq![ActionView::Respond(msg_wont_post())])
                },
                crate::urls::OutcomeView::SetUrl(u) => if t.github_url == Some(u) {
                    (spec_with_url(s, Some(u)), Seq::empty())
                } else {
                    (
                        spec_with_url(s, Some(u)),
                        seq![ActionView::FetchTitle { url: u, old_url: t.github_url }],
                    )
                },
                crate::urls::OutcomeView::Nothing => (s, Seq::empty()),
            }
        },
    }
}

/// The buffering stage of a non-emote line while a topic is open: a line
/// beginning with `RESOLUTION` or `RESOLVED` is recorded as a resolution
/// and asks for the `Agenda+` label's removal; one beginning with `SUMMARY`
/// or `ACTION` is recorded as a resolution without that; and every
/// non-emote line is appended to the buffered log, whatever its class.
pub open spec fn spec_buffer_step(s: ChannelDataView, l: ChannelLineView) -> ChannelDataView {
    match s.current_topic {
        Some(t) => if !l.is_action {
            let is_resolution = crate::text::spec_starts_with(l.message, "RESOLUTION".spec_bytes())
                || crate::text::spec_starts_with(l.message, "RESOLVED".spec_bytes());
            let is_any = is_resolution || crate::text::spec_starts_with(
                l.message,
                "SUMMARY".spec_bytes(),
            ) || crate::text::spec_starts_with(l.message, "ACTION".spec_bytes());
            ChannelDataView {
                current_topic: Some(
                    TopicDataView {
                        resolutions: if is_any {
                            t.resolutions.push(l.message)
                        } else {
                            t.resolutions
                        },
                        remove_from_agenda: t.remove_from_agenda || is_resolution,
                        lines: t.lines.push(l),
                        ..t
                    },
                ),
                ..s
            }
        } else {
            s
        },
        None => s,
    }
}

/// One whole line through the state machine: topic boundaries, then the
/// association stage, then buffering; the actions come out in that order.
pub open spec fn spec_add_line(s: ChannelDataView, l: ChannelLineView) -> (
    ChannelDataView,
    Seq<ActionView>,
) {
    let bounded = spec_boundary_step(s, l);
    let urled = spec_url_step(bounded.0, l);
    (spec_buffer_step(urled.0, l), bounded.1 + urled.1)
}

fn make_msg_cant_set() -> (r: Vec<u8>)
    ensures
        r@ == msg_cant_set(),
{
    "I can't set a github URL because you haven't started a topic.".as_bytes_vec()
}

fn make_msg_wont_post() -> (r: Vec<u8>)
    ensures
        r@ == msg_wont_post(),
{
    "OK, I won't post this discussion to GitHub.".as_bytes_vec()
}

fn is_ends_meeting(line: &ChannelLine) -> (r: bool)
    ensures
        r == spec_ends_meeting(line@),
{
    (line.is_action && crate::text::bytes_eq(line.source.as_slice(), "trackbot".as_bytes())
        && crate::text::bytes_eq(
        line.message.as_slice(),
        "is ending a teleconference.".as_bytes(),
    )) || (!line.is_action && crate::text::bytes_eq(line.source.as_slice(), "Zakim".as_bytes())
        && crate::text::starts_with(
        line.message.as_slice(),
        "As of this point the attendees have been".as_bytes(),
    ))
}

impl ChannelData {
    /// Push one said line through the state machine: topic boundaries, the
    /// GitHub association, and buffering.  The returned actions are what
    /// the shell performs, in order.
    pub fn add_line(&mut self, line: ChannelLine) -> (actions: Vec<Action>)
        requires
            !line@.is_action && spec_topic_start_title(line@.message) is Some ==> old(
                self,
            )@.config is Some,
        ensures
            final(self)@ == spec_add_line(old(self)@, line@).0,
            actions.deep_view() == spec_add_line(old(self)@, line@).1,
    {
        let ghost s0 = self@;
        let ghost l = line@;
        let mut actions: Vec<Action> = Vec::new();

        if !line.is_action {
            let title = match crate::text::strip_ci_prefix(
                line.message.as_slice(),
                "topic:".as_bytes(),
            ) {
                Some(t) => Some(t),
                None => crate::text::strip_ci_prefix(
                    line.message.as_slice(),
                    "subtopic:".as_bytes(),
                ),
            };
            if let Some(t) = title {
                if let Some(c) = self.start_topic(t.as_slice()) {
                    actions.push(Action::PostComment(c));
                }
            }
        }
        if is_ends_meeting(&line) {
            if let Some(c) = self.end_topic() {
                actions.push(Action::PostComment(c));
            }
        }
        proof {
            assert(self@ == spec_boundary_step(s0, l).0);
            assert(actions.deep_view() =~~= spec_boundary_step(s0, l).1);
        }
        let ghost s1 = self@;
        let ghost a1 = actions.deep_view();

        let in_topic = self.current_topic.is_some();
        let outcome = {
            let cur: Option<&Vec<u8>> = match &self.current_topic {
                Some(t) => match &t.github_url {
                    Some(u) => Some(u),
                    None => None,
                },
                None => None,
            };
            crate::urls::extract_github_url(
                line.message.as_slice(),
                self.config.as_ref(),
                cur,
                in_topic,
            )
        };
        match &mut self.current_topic {
            None => {
                match outcome {
                    crate::urls::ExtractOutcome::SetUrl(_) => {
                        actions.push(Action::Respond(make_msg_cant_set()));
                    },
                    crate::urls::ExtractOutcome::Clear => {
                        actions.push(Action::Respond(make_msg_cant_set()));
                    },
                    crate::urls::ExtractOutcome::Respond(e) => {
                        let mut m =
                            "I can't set a github URL because you haven't started a topic.  Also, ".as_bytes_vec();
                        m.extend_from_slice(e.as_slice());
                        actions.push(Action::Respond(m));
                    },
                    crate::urls::ExtractOutcome::Nothing => {},
                }
            },
            Some(t) => {
                match outcome {
                    crate::urls::ExtractOutcome::Respond(e) => {
                        actions.push(Action::Respond(e));
                    },
                    crate::urls::ExtractOutcome::Clear => {
                        if t.github_url.is_some() {
                            actions.push(Action::Respond(make_msg_wont_post()));
                        }
                        t.github_url = None;
                    },
                    crate::urls::ExtractOutcome::SetUrl(u) => {
                        let same = match &t.github_url {
                            Some(old_u) => crate::text::bytes_eq(old_u.as_slice(), u.as_slice()),
                            None => false,
                        };
                        if same {
                            t.github_url = Some(u);
                        } else {
                            let old_url = t.github_url.take();
                            t.github_url = Some(crate::text::clone_bytes(&u));
                            actions.push(Action::FetchTitle { url: u, old_url: old_url });
                        }
                    },
                    crate::urls::ExtractOutcome::Nothing => {},
                }
            },
        }
        proof {
            assert(self@ == spec_url_step(s1, l).0);
            assert(actions.deep_view() =~~= a1 + spec_url_step(s1, l).1);
        }
        let ghost s2 = self@;

        if !line.is_action {
            if let Some(t) = &mut self.current_topic {
                let is_resolution = crate::text::starts_with(
                    line.message.as_slice(),
                    "RESOLUTION".as_bytes(),
                ) || crate::text::starts_with(line.message.as_slice(), "RESOLVED".as_bytes());
                let is_summary = crate::text::starts_with(
                    line.message.as_slice(),
                    "SUMMARY".as_bytes(),
                );
                let is_action_marker = crate::text::starts_with(
                    line.message.as_slice(),
                    "ACTION".as_bytes(),
                );
                if is_resolution || is_summary || is_action_marker {
                    t.resolutions.push(crate::text::clone_bytes(&line.message));
                }
                if is_resolution {
                    t.remove_from_agenda = true;
                }
                t.lines.push(line);
                proof {
                    assert(self@.current_topic->Some_0.resolutions
                        =~~= spec_buffer_step(s2, l).current_topic->Some_0.resolutions);
                    assert(self@.current_topic->Some_0.lines =~~= spec_buffer_step(
                        s2,
                        l,
                    ).current_topic->Some_0.lines);
                    assert(self@.current_topic->Some_0 =~= spec_buffer_step(
                        s2,
                        l,
                    ).current_topic->Some_0);
                }
            }
        }
        proof {
            assert(self@ =~= spec_buffer_step(s2, l));
            assert(actions.deep_view() =~~= spec_add_line(s0, l).1);
        }
        actions
    }
}

/// How a raw PRIVMSG body becomes a [`ChannelLine`]: CTCP `ACTION` framing
/// marks an emote line and is stripped, and the hidden-suffix marker is
/// filtered before anything else looks at the text.
pub open spec fn spec_privmsg_line(source: Seq<u8>, msg: Seq<u8>) -> ChannelLineView {
    let p = "\x01ACTION ".spec_bytes();
    if crate::text::spec_starts_with(msg, p) && msg.len() > 0 && msg.last() == 1 {
        ChannelLineView {
            source: source,
            is_action: true,
            message: crate::text::spec_filter_bot_hidden(
                msg.subrange(p.len() as int, msg.len() - 1),
            ),
        }
    } else {
        ChannelLineView {
            source: source,
            is_action: false,
            message: crate::text::spec_filter_bot_hidden(msg),
        }
    }
}

/// Build a [`ChannelLine`] from a PRIVMSG body: detect and strip the CTCP
/// `ACTION` framing, and filter the hidden suffix.
pub fn channel_line_from_privmsg(source: &[u8], msg: &[u8]) -> (r: ChannelLine)
    ensures
        r@ == spec_privmsg_line(source@, msg@),
{
    let p = "\x01ACTION ".as_bytes();
    proof {
        reveal_strlit("\x01ACTION ");
        assert(vstd::utf8::is_ascii_chars("\x01ACTION "@));
        assert(vstd::string::is_ascii("\x01ACTION "));
        assert(p@.len() == 8);
        assert(p@[7] == 32);
    }
    let src = crate::text::subrange_vec(source, 0, source.len());
    proof {
        assert(src@ =~= source@);
    }
    if crate::text::starts_with(msg, p) && msg.len() > 0 && msg[msg.len() - 1] == 1 {
        proof {
            if msg@.len() == 8 {
                assert(msg@.take(8)[7] == msg@[7]);
                assert(msg@[7] == 32);
            }
            assert(msg@.len() >= 9);
        }
        let inner = crate::text::subrange_vec(msg, 8, msg.len() - 1);
        ChannelLine {
            source: src,
            is_action: true,
            message: crate::text::filter_bot_hidden(inner.as_slice()),
        }
    } else {
        ChannelLine {
            source: src,
            is_action: false,
            message: crate::text::filter_bot_hidden(msg),
        }
    }
}

impl ChannelData {
    /// Handle one channel line that is not a command to the bot: build the
    /// [`ChannelLine`], drop it entirely when it is an attendance marker
    /// (`present+` draws no buffering, no inspection and no response), and
    /// otherwise push it through the state machine.
    pub fn handle_channel_line(&mut self, source: &[u8], msg: &[u8]) -> (actions: Vec<Action>)
        requires
            !crate::text::spec_is_present_plus(spec_privmsg_line(source@, msg@).message) && !spec_privmsg_line(
                source@,
                msg@,
            ).is_action && spec_topic_start_title(spec_privmsg_line(source@, msg@).message) is Some
                ==> old(self)@.config is Some,
        ensures
            crate::text::spec_is_present_plus(spec_privmsg_line(source@, msg@).message) ==> final(self)@ == old(
                self,
            )@ && actions.deep_view() == Seq::<ActionView>::empty(),
            !crate::text::spec_is_present_plus(spec_privmsg_line(source@, msg@).message) ==> final(self)@
                == spec_add_line(old(self)@, spec_privmsg_line(source@, msg@)).0
                && actions.deep_view() == spec_add_line(old(self)@, spec_privmsg_line(source@, msg@)).1,
    {
        let line = channel_line_from_privmsg(source, msg);
        if crate::text::is_present_plus(line.message.as_slice()) {
            let actions: Vec<Action> = Vec::new();
            proof {
                assert(actions.deep_view() =~= Seq::<ActionView>::empty());
            }
            actions
        } else {
            self.add_line(line)
        }
    }

    /// Note channel activity at the given time.
    pub fn note_activity(&mut self, now_ms: u64)
        ensures
            final(self)@ == (ChannelDataView { last_activity: now_ms, ..old(self)@ }),
    {
        self.last_activity = now_ms;
    }

    /// Whether an inactivity wakeup should be scheduled now: a topic is
    /// open and none is pending.  With a zero timeout none ever is, since
    /// one then always counts as pending.
    pub fn needs_timeout(&self) -> (r: bool)
        ensures
            r == (self@.current_topic is Some && !self@.have_activity_timeout),
    {
        self.current_topic.is_some() && !self.have_activity_timeout
    }

    /// Mark a wakeup as pending and say when it is due: one timeout past
    /// the last activity.
    pub fn arm_timeout(&mut self) -> (deadline: u64)
        requires
            old(self)@.last_activity + old(self)@.activity_timeout_ms <= u64::MAX,
        ensures
            final(self)@ == (ChannelDataView { have_activity_timeout: true, ..old(self)@ }),
            deadline == old(self)@.last_activity + old(self)@.activity_timeout_ms,
    {
        self.have_activity_timeout = true;
        self.last_activity + self.activity_timeout_ms
    }

    /// End the current topic if the deadline still stands at the given
    /// time; the pending mark is cleared either way.
    pub fn timeout_fired(&mut self, now_ms: u64) -> (r: TimerWake)
        requires
            old(self)@.last_activity + old(self)@.activity_timeout_ms <= u64::MAX,
        ensures
            old(self)@.current_topic is None ==> (r is NoTopic && final(self)@ == (ChannelDataView {
                have_activity_timeout: false,
                ..old(self)@
            })),
            old(self)@.current_topic is Some && now_ms >= old(self)@.last_activity + old(
                self,
            )@.activity_timeout_ms ==> (final(self)@ == spec_end_topic(
                ChannelDataView { have_activity_timeout: false, ..old(self)@ },
            ).0 && (match r {
                TimerWake::Ended(c) => (match c {
                    Some(t) => spec_end_topic(old(self)@).1 == seq![ActionView::PostComment(t@)],
                    None => spec_end_topic(old(self)@).1 == Seq::<ActionView>::empty(),
                }),
                _ => false,
            })),
            old(self)@.current_topic is Some && now_ms < old(self)@.last_activity + old(
                self,
            )@.activity_timeout_ms ==> (r is Reschedule && final(self)@ == (ChannelDataView {
                have_activity_timeout: false,
                ..old(self)@
            })),
    {
        self.have_activity_timeout = false;
        if self.current_topic.is_none() {
            TimerWake::NoTopic
        } else if now_ms >= self.last_activity + self.activity_timeout_ms {
            let c = self.end_topic();
            TimerWake::Ended(c)
        } else {
            TimerWake::Reschedule
        }
    }
}

/// What an inactivity wakeup found.
pub enum TimerWake {
    /// No topic was open; nothing to do.
    NoTopic,
    /// The topic timed out and was ended; when it earned a comment, here
    /// is its record for the comment task.
    Ended(Option<TopicData>),
    /// Activity arrived after scheduling: the caller should arm a fresh
    /// wakeup instead.
    Reschedule,
}

} // verus!
