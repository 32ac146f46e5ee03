//! The inbound chat event, as the transport hands it to the pipeline.

use vstd::prelude::*;

verus! {

/// A user-mention entity attached to an inbound event: the mentioned user's
/// id and display name.
pub struct UserMention {
    pub id: u64,
    pub name: String,
}

/// An inbound chat event: author, originating containers, raw text, and the
/// mention entities the transport attached to it.
pub struct InboundEvent {
    /// The sender's id.
    pub author_id: u64,
    /// The sender's display name.
    pub author_name: String,
    /// Whether the transport flags the sender as an automation account.
    pub author_is_bot: bool,
    /// The originating channel's id.
    pub channel_id: u64,
    /// The top-level container (guild) id, when the event carries one.
    pub guild_id: Option<u64>,
    /// The raw message text.
    pub text: String,
    /// User-mention entities attached to the event.
    pub mentions: Vec<UserMention>,
    /// Role-mention ids attached to the event.
    pub role_mentions: Vec<u64>,
}

} // verus!
