//! Per-channel configuration as the verified logic sees it, and the switch
//! between a real and a mock GitHub connection.
//!
//! The unverified shell owns configuration loading; it hands each channel's
//! entry to the library as plain byte values.

use vstd::prelude::*;

verus! {

/// Configuration for a single IRC channel.
pub struct ChannelConfig {
    /// The name of the working group that uses this channel.
    pub group: Vec<u8>,
    /// GitHub repos that the bot can make comments on, each `owner/repo` or
    /// `owner/*`.
    pub github_repos_allowed: Vec<Vec<u8>>,
    /// Whether github comments should be resolutions only (rather than full
    /// log).
    pub publish_resolutions_only: bool,
}

/// The mathematical content of a [`ChannelConfig`].
#[verifier::ext_equal]
pub struct ChannelConfigView {
    /// The working-group name.
    pub group: Seq<u8>,
    /// The allow-list entries.
    pub github_repos_allowed: Seq<Seq<u8>>,
    /// The resolutions-only flag.
    pub publish_resolutions_only: bool,
}

impl View for ChannelConfig {
    type V = ChannelConfigView;

    open spec fn view(&self) -> ChannelConfigView {
        ChannelConfigView {
            group: self.group@,
            github_repos_allowed: self.github_repos_allowed.deep_view(),
            publish_resolutions_only: self.publish_resolutions_only,
        }
    }
}

/// Whether to use a real github connection for real use of the bot, or a
/// fake one for testing.
#[derive(Copy, Clone)]
pub enum GithubType {
    /// Use a real github connection for operating the bot.
    RealGithubConnection,
    /// Don't make real connections to github (for tests).
    MockGithubConnection,
}

} // verus!
