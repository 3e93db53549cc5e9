//! A persistent state store for a chat client, on top of the `sled` engine.
//!
//! One synchronisation cycle fills a [`StateChanges`]; [`Store::save_changes`]
//! writes it to twelve named regions in a single engine transaction and keeps
//! the per-room indices of joined and invited users in step with the member
//! records. Every contract speaks of the regions as maps from key bytes to
//! value bytes.

pub mod bytes;
pub mod changes;
pub mod engine;
pub mod error;
pub mod events;
pub mod laws;
pub mod model;
pub mod regions;
pub mod staging;
pub mod store;
pub mod table;

pub use bytes::{Bytes, Rank};
pub use changes::StateChanges;
pub use error::StoreError;
pub use events::{
    AnyBasicEvent, AnyStrippedStateEvent, AnySyncStateEvent, MemberEvent, MembershipState,
    PresenceEvent, RoomInfo, Session, StrippedMemberEvent,
};
pub use store::Store;
