//! The records that the store keeps. Each holds, as plain values, the fields
//! by which it is filed, and its persisted encoding, which the store carries
//! as bytes and never looks into.

use vstd::prelude::*;
use vstd::utf8::encode_utf8;

use crate::bytes::Bytes;

verus! {

/// The membership of a user in a room.
#[derive(Clone, Copy, Debug, PartialEq, Eq, Structural)]
pub enum MembershipState {
    Join,
    Invite,
    Leave,
    Ban,
    Knock,
}

/// The session of the account: one per store.
#[derive(Clone, Debug, PartialEq, Eq)]
pub struct Session {
    /// The session as it is persisted.
    pub encoded: Vec<u8>,
}

impl View for Session {
    type V = Bytes;

    open spec fn view(&self) -> Bytes {
        self.encoded@
    }
}

/// The last known presence of a user.
#[derive(Clone, Debug, PartialEq, Eq)]
pub struct PresenceEvent {
    /// The user whose presence this is.
    pub sender: String,
    /// The event as it is persisted.
    pub encoded: Vec<u8>,
}

/// The summary of a room.
#[derive(Clone, Debug, PartialEq, Eq)]
pub struct RoomInfo {
    /// The room that is summed up.
    pub room_id: String,
    /// The summary as it is persisted.
    pub encoded: Vec<u8>,
}

/// An account data event, of the whole account or of one room.
#[derive(Clone, Debug, PartialEq, Eq)]
pub struct AnyBasicEvent {
    pub event_type: String,
    /// The event as it is persisted.
    pub encoded: Vec<u8>,
}

/// A state event of a room.
#[derive(Clone, Debug, PartialEq, Eq)]
pub struct AnySyncStateEvent {
    pub event_type: String,
    pub state_key: String,
    /// The event as it is persisted.
    pub encoded: Vec<u8>,
}

/// A state event of a room that is known through an invitation only.
#[derive(Clone, Debug, PartialEq, Eq)]
pub struct AnyStrippedStateEvent {
    pub event_type: String,
    pub state_key: String,
    /// The event as it is persisted.
    pub encoded: Vec<u8>,
}

/// A membership event: what a user is to a room.
#[derive(Clone, Debug, PartialEq, Eq)]
pub struct MemberEvent {
    /// The user whose membership this is.
    pub state_key: String,
    pub membership: MembershipState,
    /// The event as it is persisted.
    pub encoded: Vec<u8>,
}

/// A membership event as a mathematical value.
pub struct MemberView {
    /// The user, as the bytes of the id.
    pub state_key: Bytes,
    pub membership: MembershipState,
    pub encoded: Bytes,
}

impl View for MemberEvent {
    type V = MemberView;

    open spec fn view(&self) -> MemberView {
        MemberView {
            state_key: encode_utf8(self.state_key@),
            membership: self.membership,
            encoded: self.encoded@,
        }
    }
}

/// A membership event of a room that is known through an invitation only.
#[derive(Clone, Debug, PartialEq, Eq)]
pub struct StrippedMemberEvent {
    /// The user whose membership this is.
    pub state_key: String,
    /// The event as it is persisted.
    pub encoded: Vec<u8>,
}

} // verus!
