//! The store as a mathematical value: twelve regions, each a map from key
//! bytes to value bytes, and what a set of staged writes makes of them.

use vstd::prelude::*;

use vstd::utf8::encode_utf8;

use crate::bytes::{bytes_lt, Bytes};
use crate::events::{MemberView, MembershipState};
use crate::table::KeyView;

verus! {

/// The entries of one region.
pub type Entries = Map<Bytes, Bytes>;

/// The staged writes of one region: `Some` value for a key that is set,
/// `None` for a key that is removed. A key outside the map is left alone.
pub type Writes = Map<Bytes, Option<Bytes>>;

/// The entry under `key`, if there is one.
pub open spec fn lookup(entries: Entries, key: Bytes) -> Option<Bytes> {
    if entries.contains_key(key) {
        Some(entries[key])
    } else {
        None
    }
}

/// What a read hands out, as bytes.
pub open spec fn option_bytes(found: Option<Vec<u8>>) -> Option<Bytes> {
    match found {
        Some(value) => Some(value@),
        None => None,
    }
}

/// The entries of a region once `writes` have been applied to it.
pub open spec fn overlay(entries: Entries, writes: Writes) -> Entries {
    Map::new(
        |key: Bytes|
            if writes.contains_key(key) {
                writes[key] is Some
            } else {
                entries.contains_key(key)
            },
        |key: Bytes|
            if writes.contains_key(key) {
                writes[key]->0
            } else {
                entries[key]
            },
    )
}

/// `after` is `before` with some of `writes` applied: every key holds what
/// it held before or what `writes` stage for it. A key that `writes` leave
/// alone is therefore as before.
pub open spec fn partly_applied(before: Entries, writes: Writes, after: Entries) -> bool {
    forall|key: Bytes|
        #![trigger lookup(after, key)]
        lookup(after, key) == lookup(before, key) || (writes.contains_key(key) && lookup(
            after,
            key,
        ) == writes[key])
}

/// What `writes` stage for `key`: `None` where they leave the key alone.
pub open spec fn staged_for(writes: Writes, key: Bytes) -> Option<Option<Bytes>> {
    if writes.contains_key(key) {
        Some(writes[key])
    } else {
        None
    }
}

/// The writes `before` with `more` put on top of them: for a key of `more`
/// what `more` stage, for any other key what `before` staged.
pub open spec fn merge(before: Writes, more: Writes) -> Writes {
    before.union_prefer_right(more)
}

/// `after` is `before` with some of `more` put on top: for every key it
/// stages what `before` staged or what `more` stage.
pub open spec fn partly_merged(before: Writes, more: Writes, after: Writes) -> bool {
    forall|key: Bytes|
        #![trigger staged_for(after, key)]
        staged_for(after, key) == staged_for(before, key) || (more.contains_key(key)
            && staged_for(after, key) == Some(more[key]))
}

/// `found` lists the entries of a region whose keys begin with `prefix`: each
/// of them once, in ascending order of the keys, and nothing else.
pub open spec fn is_scan_of(entries: Entries, prefix: Bytes, found: Seq<(Bytes, Bytes)>) -> bool {
    &&& forall|i: int|
        0 <= i < found.len() ==> {
            &&& prefix.is_prefix_of((#[trigger] found[i]).0)
            &&& entries.contains_key(found[i].0)
            &&& entries[found[i].0] == found[i].1
        }
    &&& forall|i: int, j: int|
        0 <= i < j < found.len() ==> bytes_lt((#[trigger] found[i]).0, (#[trigger] found[j]).0)
    &&& forall|key: Bytes|
        #![trigger entries.contains_key(key)]
        entries.contains_key(key) && prefix.is_prefix_of(key) ==> exists|i: int|
            0 <= i < found.len() && (#[trigger] found[i]).0 == key
}

/// One staged write: the key, and the value that it is set to, or `None`
/// where the key is removed.
pub type Op = (Bytes, Option<Bytes>);

/// `writes` once `ops` have been staged on top of them, one after the other:
/// a later write to a key takes the place of an earlier one.
pub open spec fn stage(writes: Writes, ops: Seq<Op>) -> Writes
    decreases ops.len(),
{
    if ops.len() == 0 {
        writes
    } else {
        stage(writes, ops.drop_last()).insert(ops.last().0, ops.last().1)
    }
}

/// The key under which the session is filed.
pub open spec fn session_key() -> Bytes {
    encode_utf8("session"@)
}

/// The key under which the filter of the given name is filed.
pub open spec fn filter_key(name: Seq<char>) -> Bytes {
    encode_utf8("filter"@) + encode_utf8(name)
}

/// The key under which a user's record in a room is filed, in the member
/// records and in both indices: the room's id with the user's id behind it.
pub open spec fn member_key(room: Bytes, user: Bytes) -> Bytes {
    room + user
}

/// The index `index` lists `user` for `room`: it holds the user's id under
/// the member key of the room and the user.
pub open spec fn lists(index: Entries, room: Bytes, user: Bytes) -> bool {
    lookup(index, member_key(room, user)) == Some(user)
}

/// Of the entries `found`, in their order, those that are filed for `room`:
/// an index entry holds a user's id, and it is filed for the room whose id,
/// with that user's id behind it, is the entry's key.
pub open spec fn of_room(found: Seq<(Bytes, Bytes)>, room: Bytes) -> Seq<(Bytes, Bytes)>
    decreases found.len(),
{
    if found.len() == 0 {
        Seq::empty()
    } else if found.last().0 == member_key(room, found.last().1) {
        of_room(found.drop_last(), room).push(found.last())
    } else {
        of_room(found.drop_last(), room)
    }
}

/// The write of the session, if the batch has one.
pub open spec fn session_ops(session: Option<Bytes>) -> Seq<Op> {
    match session {
        Some(encoded) => seq![(session_key(), Some(encoded))],
        None => seq![],
    }
}

/// The writes of a table of records: each is set under the parts of its key
/// run together.
pub open spec fn record_ops(entries: Seq<(KeyView, Bytes)>) -> Seq<Op> {
    Seq::new(entries.len(), |i: int| (entries[i].0.joined(), Some(entries[i].1)))
}

/// The writes of the member records: each event is set under its room and
/// the user that it names.
pub open spec fn member_ops(entries: Seq<(KeyView, MemberView)>) -> Seq<Op> {
    Seq::new(
        entries.len(),
        |i: int|
            (member_key(entries[i].0.outer, entries[i].1.state_key), Some(entries[i].1.encoded)),
    )
}

/// The writes of the index that lists the users whose membership is
/// `listed`: an event with that membership sets the user's id under the
/// member key, any other event removes that key.
pub open spec fn index_ops(entries: Seq<(KeyView, MemberView)>, listed: MembershipState) -> Seq<
    Op,
> {
    Seq::new(
        entries.len(),
        |i: int|
            (
                member_key(entries[i].0.outer, entries[i].1.state_key),
                if entries[i].1.membership == listed {
                    Some(entries[i].1.state_key)
                } else {
                    None
                },
            ),
    )
}

/// A batch of changes as a mathematical value: the session, if one is set,
/// and for each kind of record the entries in ascending order of their keys.
pub struct ChangesView {
    pub session: Option<Bytes>,
    pub account_data: Seq<(KeyView, Bytes)>,
    pub presence: Seq<(KeyView, Bytes)>,
    pub members: Seq<(KeyView, MemberView)>,
    pub state: Seq<(KeyView, Bytes)>,
    pub room_account_data: Seq<(KeyView, Bytes)>,
    pub room_infos: Seq<(KeyView, Bytes)>,
    pub stripped_state: Seq<(KeyView, Bytes)>,
    pub stripped_members: Seq<(KeyView, Bytes)>,
    pub invited_room_info: Seq<(KeyView, Bytes)>,
}

impl ChangesView {
    /// The batch that changes nothing.
    pub open spec fn empty() -> ChangesView {
        ChangesView {
            session: None,
            account_data: Seq::empty(),
            presence: Seq::empty(),
            members: Seq::empty(),
            state: Seq::empty(),
            room_account_data: Seq::empty(),
            room_infos: Seq::empty(),
            stripped_state: Seq::empty(),
            stripped_members: Seq::empty(),
            invited_room_info: Seq::empty(),
        }
    }

    /// The batch that sets the session and nothing else.
    pub open spec fn of_session(session: Bytes) -> ChangesView {
        ChangesView { session: Some(session), ..ChangesView::empty() }
    }

    /// The writes that the batch stages, region by region.
    pub open spec fn staged(self) -> WritesView {
        WritesView {
            session: stage(Map::empty(), session_ops(self.session)),
            account_data: stage(Map::empty(), record_ops(self.account_data)),
            members: stage(Map::empty(), member_ops(self.members)),
            joined_user_ids: stage(Map::empty(), index_ops(self.members, MembershipState::Join)),
            invited_user_ids: stage(
                Map::empty(),
                index_ops(self.members, MembershipState::Invite),
            ),
            room_info: stage(Map::empty(), record_ops(self.room_infos)),
            room_state: stage(Map::empty(), record_ops(self.state)),
            room_account_data: stage(Map::empty(), record_ops(self.room_account_data)),
            stripped_room_info: stage(Map::empty(), record_ops(self.invited_room_info)),
            stripped_room_state: stage(Map::empty(), record_ops(self.stripped_state)),
            stripped_members: stage(Map::empty(), record_ops(self.stripped_members)),
            presence: stage(Map::empty(), record_ops(self.presence)),
        }
    }
}

/// The twelve regions of a store.
pub struct StoreView {
    pub session: Entries,
    pub account_data: Entries,
    pub members: Entries,
    pub joined_user_ids: Entries,
    pub invited_user_ids: Entries,
    pub room_info: Entries,
    pub room_state: Entries,
    pub room_account_data: Entries,
    pub stripped_room_info: Entries,
    pub stripped_room_state: Entries,
    pub stripped_members: Entries,
    pub presence: Entries,
}

/// The writes that one commit stages, region by region.
pub struct WritesView {
    pub session: Writes,
    pub account_data: Writes,
    pub members: Writes,
    pub joined_user_ids: Writes,
    pub invited_user_ids: Writes,
    pub room_info: Writes,
    pub room_state: Writes,
    pub room_account_data: Writes,
    pub stripped_room_info: Writes,
    pub stripped_room_state: Writes,
    pub stripped_members: Writes,
    pub presence: Writes,
}

impl WritesView {
    /// These writes with `more` put on top of them, region by region.
    pub open spec fn merge(self, more: WritesView) -> WritesView {
        WritesView {
            session: merge(self.session, more.session),
            account_data: merge(self.account_data, more.account_data),
            members: merge(self.members, more.members),
            joined_user_ids: merge(self.joined_user_ids, more.joined_user_ids),
            invited_user_ids: merge(self.invited_user_ids, more.invited_user_ids),
            room_info: merge(self.room_info, more.room_info),
            room_state: merge(self.room_state, more.room_state),
            room_account_data: merge(self.room_account_data, more.room_account_data),
            stripped_room_info: merge(self.stripped_room_info, more.stripped_room_info),
            stripped_room_state: merge(self.stripped_room_state, more.stripped_room_state),
            stripped_members: merge(self.stripped_members, more.stripped_members),
            presence: merge(self.presence, more.presence),
        }
    }

    /// `after` is these writes with some of `more` put on top: in every
    /// region each key has what was staged for it or what `more` stage.
    pub open spec fn partly(self, more: WritesView, after: WritesView) -> bool {
        &&& partly_merged(self.session, more.session, after.session)
        &&& partly_merged(self.account_data, more.account_data, after.account_data)
        &&& partly_merged(self.members, more.members, after.members)
        &&& partly_merged(self.joined_user_ids, more.joined_user_ids, after.joined_user_ids)
        &&& partly_merged(self.invited_user_ids, more.invited_user_ids, after.invited_user_ids)
        &&& partly_merged(self.room_info, more.room_info, after.room_info)
        &&& partly_merged(self.room_state, more.room_state, after.room_state)
        &&& partly_merged(
            self.room_account_data,
            more.room_account_data,
            after.room_account_data,
        )
        &&& partly_merged(
            self.stripped_room_info,
            more.stripped_room_info,
            after.stripped_room_info,
        )
        &&& partly_merged(
            self.stripped_room_state,
            more.stripped_room_state,
            after.stripped_room_state,
        )
        &&& partly_merged(self.stripped_members, more.stripped_members, after.stripped_members)
        &&& partly_merged(self.presence, more.presence, after.presence)
    }
}

/// The names of the twelve regions, as the engine knows them.
pub struct RegionNames {
    pub session: Bytes,
    pub account_data: Bytes,
    pub members: Bytes,
    pub joined_user_ids: Bytes,
    pub invited_user_ids: Bytes,
    pub room_info: Bytes,
    pub room_state: Bytes,
    pub room_account_data: Bytes,
    pub stripped_room_info: Bytes,
    pub stripped_room_state: Bytes,
    pub stripped_members: Bytes,
    pub presence: Bytes,
}

impl RegionNames {
    /// The names one after the other, in the order in which a store opens
    /// its regions.
    pub open spec fn as_seq(self) -> Seq<Bytes> {
        seq![
            self.session,
            self.account_data,
            self.members,
            self.joined_user_ids,
            self.invited_user_ids,
            self.room_state,
            self.room_info,
            self.presence,
            self.room_account_data,
            self.stripped_room_info,
            self.stripped_members,
            self.stripped_room_state,
        ]
    }
}

/// What a database keeps under each tree name: the entries of the tree of
/// that name.
pub type Held = Map<Bytes, Entries>;

/// The entries that a database keeps under `name`: none where it keeps no
/// tree of that name.
pub open spec fn held_under(held: Held, name: Bytes) -> Entries {
    if held.contains_key(name) {
        held[name]
    } else {
        Map::empty()
    }
}

/// A database keeps no entry under any name.
pub open spec fn keeps_nothing(held: Held) -> bool {
    forall|name: Bytes| #[trigger] held_under(held, name) == Map::<Bytes, Bytes>::empty()
}

/// The store that a database keeps: each region with the entries that the
/// database keeps under the region's name.
pub open spec fn held_regions(held: Held) -> StoreView {
    let names = region_names();
    StoreView {
        session: held_under(held, names.session),
        account_data: held_under(held, names.account_data),
        members: held_under(held, names.members),
        joined_user_ids: held_under(held, names.joined_user_ids),
        invited_user_ids: held_under(held, names.invited_user_ids),
        room_info: held_under(held, names.room_info),
        room_state: held_under(held, names.room_state),
        room_account_data: held_under(held, names.room_account_data),
        stripped_room_info: held_under(held, names.stripped_room_info),
        stripped_room_state: held_under(held, names.stripped_room_state),
        stripped_members: held_under(held, names.stripped_members),
        presence: held_under(held, names.presence),
    }
}

/// The name under which each region is kept in the database.
pub open spec fn region_names() -> RegionNames {
    RegionNames {
        session: encode_utf8("session"@),
        account_data: encode_utf8("account_data"@),
        members: encode_utf8("members"@),
        joined_user_ids: encode_utf8("joined_user_ids"@),
        invited_user_ids: encode_utf8("invited_user_ids"@),
        room_info: encode_utf8("room_info"@),
        room_state: encode_utf8("room_state"@),
        room_account_data: encode_utf8("room_account_data"@),
        stripped_room_info: encode_utf8("stripped_room_info"@),
        stripped_room_state: encode_utf8("stripped_room_state"@),
        stripped_members: encode_utf8("stripped_members"@),
        presence: encode_utf8("presence"@),
    }
}

impl StoreView {
    /// The store that holds nothing.
    pub open spec fn empty() -> StoreView {
        StoreView {
            session: Map::empty(),
            account_data: Map::empty(),
            members: Map::empty(),
            joined_user_ids: Map::empty(),
            invited_user_ids: Map::empty(),
            room_info: Map::empty(),
            room_state: Map::empty(),
            room_account_data: Map::empty(),
            stripped_room_info: Map::empty(),
            stripped_room_state: Map::empty(),
            stripped_members: Map::empty(),
            presence: Map::empty(),
        }
    }

    /// The store once a batch of changes has been committed to it.
    pub open spec fn commit(self, changes: ChangesView) -> StoreView {
        self.apply(changes.staged())
    }

    /// `after` is this store with some of the staged writes applied: in every
    /// region each key holds what it held or what is staged for it.
    pub open spec fn partly(self, writes: WritesView, after: StoreView) -> bool {
        &&& partly_applied(self.session, writes.session, after.session)
        &&& partly_applied(self.account_data, writes.account_data, after.account_data)
        &&& partly_applied(self.members, writes.members, after.members)
        &&& partly_applied(self.joined_user_ids, writes.joined_user_ids, after.joined_user_ids)
        &&& partly_applied(
            self.invited_user_ids,
            writes.invited_user_ids,
            after.invited_user_ids,
        )
        &&& partly_applied(self.room_info, writes.room_info, after.room_info)
        &&& partly_applied(self.room_state, writes.room_state, after.room_state)
        &&& partly_applied(
            self.room_account_data,
            writes.room_account_data,
            after.room_account_data,
        )
        &&& partly_applied(
            self.stripped_room_info,
            writes.stripped_room_info,
            after.stripped_room_info,
        )
        &&& partly_applied(
            self.stripped_room_state,
            writes.stripped_room_state,
            after.stripped_room_state,
        )
        &&& partly_applied(self.stripped_members, writes.stripped_members, after.stripped_members)
        &&& partly_applied(self.presence, writes.presence, after.presence)
    }

    /// The store once every region has taken its staged writes.
    pub open spec fn apply(self, writes: WritesView) -> StoreView {
        StoreView {
            session: overlay(self.session, writes.session),
            account_data: overlay(self.account_data, writes.account_data),
            members: overlay(self.members, writes.members),
            joined_user_ids: overlay(self.joined_user_ids, writes.joined_user_ids),
            invited_user_ids: overlay(self.invited_user_ids, writes.invited_user_ids),
            room_info: overlay(self.room_info, writes.room_info),
            room_state: overlay(self.room_state, writes.room_state),
            room_account_data: overlay(self.room_account_data, writes.room_account_data),
            stripped_room_info: overlay(self.stripped_room_info, writes.stripped_room_info),
            stripped_room_state: overlay(self.stripped_room_state, writes.stripped_room_state),
            stripped_members: overlay(self.stripped_members, writes.stripped_members),
            presence: overlay(self.presence, writes.presence),
        }
    }
}

} // verus!
