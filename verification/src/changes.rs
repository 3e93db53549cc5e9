//! The changes of one synchronisation cycle, gathered before they are
//! committed in one step.

use vstd::prelude::*;
use vstd::std_specs::convert::FromSpecImpl;
use vstd::utf8::encode_utf8;

use crate::bytes::Bytes;
use crate::engine::{is_user_id, user_id_accepted};
use crate::error::StoreError;
use crate::events::{
    AnyBasicEvent, AnyStrippedStateEvent, AnySyncStateEvent, MemberEvent, MemberView,
    PresenceEvent, RoomInfo, Session, StrippedMemberEvent,
};
use crate::model::ChangesView;
use crate::table::{
    key_of_one, key_of_three, key_of_two, lemma_place_bounds, lemma_place_same_keys, place,
    upsert, Key, KeyView, Table,
};

verus! {

/// The entries of a table of encodings, each value as its bytes.
pub open spec fn records(entries: Seq<(KeyView, Vec<u8>)>) -> Seq<(KeyView, Bytes)> {
    Seq::new(entries.len(), |i: int| (entries[i].0, entries[i].1@))
}

/// The entries of the table of membership events, each event as its view.
pub open spec fn member_records(entries: Seq<(KeyView, MemberEvent)>) -> Seq<
    (KeyView, MemberView),
> {
    Seq::new(entries.len(), |i: int| (entries[i].0, entries[i].1@))
}

/// The view of a table of encodings after an insertion is the view before
/// it with the bytes put under the key.
proof fn lemma_upsert_records(entries: Seq<(KeyView, Vec<u8>)>, key: KeyView, value: Vec<u8>)
    ensures
        records(upsert(entries, key, value)) == upsert(records(entries), key, value@),
{
    let before = records(entries);
    let at = place(entries, key);
    lemma_place_same_keys(entries, before, key);
    lemma_place_bounds(entries, key);
    if at < entries.len() && entries[at].0 == key {
        assert(before[at].0 == key);
        assert(records(entries.update(at, (key, value))) =~= before.update(at, (key, value@)));
    } else {
        if at < entries.len() {
            assert(before[at].0 == entries[at].0);
        }
        assert(records(entries.insert(at, (key, value))) =~= before.insert(at, (key, value@)));
    }
}

/// The view of the table of membership events after an insertion is the view
/// before it with the event's view put under the key.
proof fn lemma_upsert_member_records(
    entries: Seq<(KeyView, MemberEvent)>,
    key: KeyView,
    value: MemberEvent,
)
    ensures
        member_records(upsert(entries, key, value)) == upsert(
            member_records(entries),
            key,
            value@,
        ),
{
    let before = member_records(entries);
    let at = place(entries, key);
    lemma_place_same_keys(entries, before, key);
    lemma_place_bounds(entries, key);
    if at < entries.len() && entries[at].0 == key {
        assert(before[at].0 == key);
        assert(member_records(entries.update(at, (key, value))) =~= before.update(
            at,
            (key, value@),
        ));
    } else {
        if at < entries.len() {
            assert(before[at].0 == entries[at].0);
        }
        assert(member_records(entries.insert(at, (key, value))) =~= before.insert(
            at,
            (key, value@),
        ));
    }
}

/// A batch of changes. Within each kind of record a key occurs once: what is
/// added under a key takes the place of what the batch held under it.
pub struct StateChanges {
    pub session: Option<Session>,
    /// Account data of the whole account, by event type.
    pub account_data: Table<Vec<u8>>,
    /// Presence, by user.
    pub presence: Table<Vec<u8>>,
    /// Membership events, by room and user.
    pub members: Table<MemberEvent>,
    /// State events, by room, event type and state key.
    pub state: Table<Vec<u8>>,
    /// Account data of rooms, by room and event type.
    pub room_account_data: Table<Vec<u8>>,
    /// Room summaries, by room.
    pub room_infos: Table<Vec<u8>>,
    /// State events of rooms known through an invitation, by room, event
    /// type and state key.
    pub stripped_state: Table<Vec<u8>>,
    /// Membership events of rooms known through an invitation, by room and user.
    pub stripped_members: Table<Vec<u8>>,
    /// Summaries of rooms known through an invitation, by room.
    pub invited_room_info: Table<Vec<u8>>,
}

impl View for StateChanges {
    type V = ChangesView;

    open spec fn view(&self) -> ChangesView {
        ChangesView {
            session: match self.session {
                Some(session) => Some(session@),
                None => None,
            },
            account_data: records(self.account_data@),
            presence: records(self.presence@),
            members: member_records(self.members@),
            state: records(self.state@),
            room_account_data: records(self.room_account_data@),
            room_infos: records(self.room_infos@),
            stripped_state: records(self.stripped_state@),
            stripped_members: records(self.stripped_members@),
            invited_room_info: records(self.invited_room_info@),
        }
    }
}

impl StateChanges {
    /// Every table of the batch is in ascending order of its keys, so that
    /// no key occurs twice. The empty batch is so, and every operation keeps
    /// a batch so.
    pub open spec fn wf(&self) -> bool {
        &&& self.account_data.wf()
        &&& self.presence.wf()
        &&& self.members.wf()
        &&& self.state.wf()
        &&& self.room_account_data.wf()
        &&& self.room_infos.wf()
        &&& self.stripped_state.wf()
        &&& self.stripped_members.wf()
        &&& self.invited_room_info.wf()
    }

    /// The batch that changes nothing.
    pub fn new() -> (changes: StateChanges)
        ensures
            changes@ == ChangesView::empty(),
            changes.wf(),
    {
        let changes = StateChanges {
            session: None,
            account_data: Table::new(),
            presence: Table::new(),
            members: Table::new(),
            state: Table::new(),
            room_account_data: Table::new(),
            room_infos: Table::new(),
            stripped_state: Table::new(),
            stripped_members: Table::new(),
            invited_room_info: Table::new(),
        };
        assert(changes@.account_data =~= Seq::empty());
        assert(changes@.presence =~= Seq::empty());
        assert(changes@.members =~= Seq::empty());
        assert(changes@.state =~= Seq::empty());
        assert(changes@.room_account_data =~= Seq::empty());
        assert(changes@.room_infos =~= Seq::empty());
        assert(changes@.stripped_state =~= Seq::empty());
        assert(changes@.stripped_members =~= Seq::empty());
        assert(changes@.invited_room_info =~= Seq::empty());
        changes
    }

    /// Records the presence of the event's sender.
    pub fn add_presence_event(&mut self, event: PresenceEvent)
        ensures
            final(self)@ == (ChangesView {
                presence: upsert(
                    old(self)@.presence,
                    key_of_one(encode_utf8(event.sender@)),
                    event.encoded@,
                ),
                ..old(self)@
            }),
            old(self).wf() ==> final(self).wf(),
    {
        let key = Key::of_one(event.sender.as_str().as_bytes());
        proof {
            lemma_upsert_records(self.presence@, key@, event.encoded);
        }
        self.presence.insert(key, event.encoded);
    }

    /// Records the summary of a room.
    pub fn add_room(&mut self, room: RoomInfo)
        ensures
            final(self)@ == (ChangesView {
                room_infos: upsert(
                    old(self)@.room_infos,
                    key_of_one(encode_utf8(room.room_id@)),
                    room.encoded@,
                ),
                ..old(self)@
            }),
            old(self).wf() ==> final(self).wf(),
    {
        let key = Key::of_one(room.room_id.as_str().as_bytes());
        proof {
            lemma_upsert_records(self.room_infos@, key@, room.encoded);
        }
        self.room_infos.insert(key, room.encoded);
    }

    /// Records the summary of a room that is known through an invitation.
    pub fn add_stripped_room(&mut self, room: RoomInfo)
        ensures
            final(self)@ == (ChangesView {
                invited_room_info: upsert(
                    old(self)@.invited_room_info,
                    key_of_one(encode_utf8(room.room_id@)),
                    room.encoded@,
                ),
                ..old(self)@
            }),
            old(self).wf() ==> final(self).wf(),
    {
        let key = Key::of_one(room.room_id.as_str().as_bytes());
        proof {
            lemma_upsert_records(self.invited_room_info@, key@, room.encoded);
        }
        self.invited_room_info.insert(key, room.encoded);
    }

    /// Records an account data event of the whole account.
    pub fn add_account_data(&mut self, event: AnyBasicEvent)
        ensures
            final(self)@ == (ChangesView {
                account_data: upsert(
                    old(self)@.account_data,
                    key_of_one(encode_utf8(event.event_type@)),
                    event.encoded@,
                ),
                ..old(self)@
            }),
            old(self).wf() ==> final(self).wf(),
    {
        let key = Key::of_one(event.event_type.as_str().as_bytes());
        proof {
            lemma_upsert_records(self.account_data@, key@, event.encoded);
        }
        self.account_data.insert(key, event.encoded);
    }

    /// Records an account data event of one room.
    pub fn add_room_account_data(&mut self, room_id: &str, event: AnyBasicEvent)
        ensures
            final(self)@ == (ChangesView {
                room_account_data: upsert(
                    old(self)@.room_account_data,
                    key_of_two(encode_utf8(room_id@), encode_utf8(event.event_type@)),
                    event.encoded@,
                ),
                ..old(self)@
            }),
            old(self).wf() ==> final(self).wf(),
    {
        let key = Key::of_two(room_id.as_bytes(), event.event_type.as_str().as_bytes());
        proof {
            lemma_upsert_records(self.room_account_data@, key@, event.encoded);
        }
        self.room_account_data.insert(key, event.encoded);
    }

    /// Records a state event of a room that is known through an invitation.
    pub fn add_stripped_state_event(&mut self, room_id: &str, event: AnyStrippedStateEvent)
        ensures
            final(self)@ == (ChangesView {
                stripped_state: upsert(
                    old(self)@.stripped_state,
                    key_of_three(
                        encode_utf8(room_id@),
                        encode_utf8(event.event_type@),
                        encode_utf8(event.state_key@),
                    ),
                    event.encoded@,
                ),
                ..old(self)@
            }),
            old(self).wf() ==> final(self).wf(),
    {
        let key = Key::of_three(
            room_id.as_bytes(),
            event.event_type.as_str().as_bytes(),
            event.state_key.as_str().as_bytes(),
        );
        proof {
            lemma_upsert_records(self.stripped_state@, key@, event.encoded);
        }
        self.stripped_state.insert(key, event.encoded);
    }

    /// Records the membership event of a room that is known through an
    /// invitation, under the room and the user that the event names. The
    /// event has to name a user id.
    pub fn add_stripped_member(&mut self, room_id: &str, event: StrippedMemberEvent)
        requires
            user_id_accepted(event.state_key@),
        ensures
            final(self)@ == (ChangesView {
                stripped_members: upsert(
                    old(self)@.stripped_members,
                    key_of_two(encode_utf8(room_id@), encode_utf8(event.state_key@)),
                    event.encoded@,
                ),
                ..old(self)@
            }),
            old(self).wf() ==> final(self).wf(),
    {
        let key = Key::of_two(room_id.as_bytes(), event.state_key.as_str().as_bytes());
        proof {
            lemma_upsert_records(self.stripped_members@, key@, event.encoded);
        }
        self.stripped_members.insert(key, event.encoded);
    }

    /// Records the membership event of a room that is known through an
    /// invitation if the event names a user id, and otherwise leaves the
    /// batch as it is and reports `Encoding`.
    pub fn try_add_stripped_member(&mut self, room_id: &str, event: StrippedMemberEvent) -> (r:
        Result<(), StoreError>)
        ensures
            user_id_accepted(event.state_key@) ==> r.is_ok() && final(self)@ == (ChangesView {
                stripped_members: upsert(
                    old(self)@.stripped_members,
                    key_of_two(encode_utf8(room_id@), encode_utf8(event.state_key@)),
                    event.encoded@,
                ),
                ..old(self)@
            }),
            !user_id_accepted(event.state_key@) ==> r == Err::<(), StoreError>(
                StoreError::Encoding,
            ) && final(self)@ == old(self)@,
            old(self).wf() ==> final(self).wf(),
    {
        if is_user_id(event.state_key.as_str()) {
            self.add_stripped_member(room_id, event);
            Ok(())
        } else {
            Err(StoreError::Encoding)
        }
    }

    /// Records a state event of a room.
    pub fn add_state_event(&mut self, room_id: &str, event: AnySyncStateEvent)
        ensures
            final(self)@ == (ChangesView {
                state: upsert(
                    old(self)@.state,
                    key_of_three(
                        encode_utf8(room_id@),
                        encode_utf8(event.event_type@),
                        encode_utf8(event.state_key@),
                    ),
                    event.encoded@,
                ),
                ..old(self)@
            }),
            old(self).wf() ==> final(self).wf(),
    {
        let key = Key::of_three(
            room_id.as_bytes(),
            event.event_type.as_str().as_bytes(),
            event.state_key.as_str().as_bytes(),
        );
        proof {
            lemma_upsert_records(self.state@, key@, event.encoded);
        }
        self.state.insert(key, event.encoded);
    }

    /// Records the membership event of a user in a room, under that room and
    /// that user.
    pub fn add_member(&mut self, room_id: &str, user_id: &str, event: MemberEvent)
        ensures
            final(self)@ == (ChangesView {
                members: upsert(
                    old(self)@.members,
                    key_of_two(encode_utf8(room_id@), encode_utf8(user_id@)),
                    event@,
                ),
                ..old(self)@
            }),
            old(self).wf() ==> final(self).wf(),
    {
        let key = Key::of_two(room_id.as_bytes(), user_id.as_bytes());
        proof {
            lemma_upsert_member_records(self.members@, key@, event);
        }
        self.members.insert(key, event);
    }
}

impl Default for StateChanges {
    /// The batch that changes nothing.
    fn default() -> (changes: StateChanges)
        ensures
            changes@ == ChangesView::empty(),
            changes.wf(),
    {
        StateChanges::new()
    }
}

impl From<Session> for StateChanges {
    /// The batch that sets the session and nothing else.
    fn from(session: Session) -> (changes: StateChanges)
        ensures
            changes@ == ChangesView::of_session(session@),
            changes.wf(),
    {
        let mut changes = StateChanges::new();
        changes.session = Some(session);
        changes
    }
}

impl FromSpecImpl<Session> for StateChanges {
    open spec fn obeys_from_spec() -> bool {
        false
    }

    open spec fn from_spec(session: Session) -> StateChanges {
        arbitrary()
    }
}

} // verus!
