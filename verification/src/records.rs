//! Identifiers and kinds of the store records the views are built from.

use vstd::prelude::*;

verus! {

/// Identifier of a channel.
#[derive(Clone, Copy, Debug, PartialEq, Eq, Structural)]
pub struct ChannelId(pub i64);

/// Identifier of a clan; clan 0 stands for "no clan" (direct conversations).
#[derive(Clone, Copy, Debug, PartialEq, Eq, Structural)]
pub struct ClanId(pub i64);

/// Identifier of a user.
#[derive(Clone, Copy, Debug, PartialEq, Eq, Structural)]
pub struct UserId(pub i64);

impl ClanId {
    pub fn is_zero(&self) -> (r: bool)
        ensures
            r == (self.0 == 0),
    {
        self.0 == 0
    }
}

/// Kind of a channel; `Unknown` keeps the raw type of kinds without a name.
#[derive(Clone, Copy, Debug, PartialEq, Eq, Structural)]
pub enum ChannelType {
    Text,
    Voice,
    Stream,
    Thread,
    Forum,
    Announcement,
    App,
    Unknown(u32),
}

/// Kind of a direct conversation.
#[derive(Clone, Copy, Debug, PartialEq, Eq, Structural)]
pub enum DirectKind {
    /// One-to-one conversation.
    Dm,
    /// Group conversation.
    Group,
}

/// Channel type of a group conversation.
pub const GROUP_CHANNEL_TYPE: i32 = 2;
/// Channel type of a one-to-one conversation.
pub const DM_CHANNEL_TYPE: i32 = 3;

pub open spec fn direct_channel_type(kind: DirectKind) -> i32 {
    match kind {
        DirectKind::Dm => DM_CHANNEL_TYPE,
        DirectKind::Group => GROUP_CHANNEL_TYPE,
    }
}

impl DirectKind {
    /// The channel type that conversations of this kind carry.
    pub fn channel_type(&self) -> (r: i32)
        ensures
            r == direct_channel_type(*self),
    {
        match self {
            DirectKind::Dm => DM_CHANNEL_TYPE,
            DirectKind::Group => GROUP_CHANNEL_TYPE,
        }
    }
}

} // verus!
