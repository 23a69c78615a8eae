pub mod cluster;
pub mod local;
pub mod merge;
pub mod namespace;

use vstd::prelude::*;

verus! {

/// Result of channel info queries.
#[derive(Debug, Clone, Copy, PartialEq, Eq, Structural)]
pub struct ChannelInfo {
    pub occupied: bool,
    pub subscription_count: usize,
    pub user_count: Option<usize>,
}

impl ChannelInfo {
    /// The info of a channel that nothing is known of: unoccupied, no subscriber, no user
    /// count.
    pub open spec fn spec_default() -> ChannelInfo {
        ChannelInfo { occupied: false, subscription_count: 0, user_count: None }
    }
}

impl Default for ChannelInfo {
    fn default() -> (r: Self)
        ensures
            r == ChannelInfo::spec_default(),
    {
        ChannelInfo { occupied: false, subscription_count: 0, user_count: None }
    }
}

} // verus!
