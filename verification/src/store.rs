//! The store: twelve regions of one engine database, written by one atomic
//! commit for each batch of changes, and read by key or by key prefix.

use vstd::prelude::*;
use vstd::slice::slice_to_vec;
use vstd::utf8::{decode_utf8, encode_utf8, encode_utf8_decode_utf8, valid_utf8};

use crate::bytes::{join, rank_bytes, Bytes, Rank};
use crate::changes::StateChanges;
use crate::engine::{
    commit_batches, db_directory, db_held, flush, is_user_id, joined_path, open_at,
    open_temporary, open_tree, path_join,
    string_from_utf8, tree_get, tree_insert, tree_map, tree_scan_prefix, user_id_accepted,
};
use crate::error::{commit_result, flush_result, storage_result, StoreError};
use crate::events::Session;
use crate::laws::{lemma_opened, lemma_region_names_distinct};
use crate::model::{
    filter_key, held_regions, is_scan_of, lookup, member_key, of_room, option_bytes, region_names,
    session_key, RegionNames, StoreView,
};
use crate::regions::Regions;
use crate::staging::{session_key_bytes, stage_changes};

verus! {

/// `value` is the UTF-8 encoding of a text that is a user id.
pub open spec fn is_user_id_bytes(value: Bytes) -> bool {
    valid_utf8(value) && user_id_accepted(decode_utf8(value))
}

/// `ids` are the values of the entries `found`, one for one and in their
/// order, each read as the user id that it encodes.
pub open spec fn lists_users(found: Seq<(Bytes, Bytes)>, ids: Seq<Seq<char>>) -> bool {
    &&& ids.len() == found.len()
    &&& forall|i: int|
        0 <= i < found.len() ==> is_user_id_bytes((#[trigger] found[i]).1) && encode_utf8(ids[i])
            == found[i].1
}

/// Some value among the entries `found` encodes no user id.
pub open spec fn holds_no_user_id(found: Seq<(Bytes, Bytes)>) -> bool {
    exists|i: int| 0 <= i < found.len() && !is_user_id_bytes((#[trigger] found[i]).1)
}

/// `values` are the values of the entries `found`, one for one and in their order.
pub open spec fn lists_values(found: Seq<(Bytes, Bytes)>, values: Seq<Bytes>) -> bool {
    &&& values.len() == found.len()
    &&& forall|i: int| 0 <= i < found.len() ==> values[i] == (#[trigger] found[i]).1
}

/// The text that `bytes` encode, or `Encoding` where they are not UTF-8.
pub fn decode_text(bytes: &[u8]) -> (r: Result<String, StoreError>)
    ensures
        match r {
            Ok(text) => valid_utf8(bytes@) && encode_utf8(text@) == bytes@,
            Err(e) => e == StoreError::Encoding && !valid_utf8(bytes@),
        },
{
    match string_from_utf8(bytes) {
        Some(text) => Ok(text),
        None => Err(StoreError::Encoding),
    }
}

/// The user ids that the values of index entries encode, in the order of
/// the entries, or `Encoding` where one of the values encodes none.
pub fn decode_user_ids(found: &Vec<(Vec<u8>, Vec<u8>)>) -> (r: Result<Vec<String>, StoreError>)
    ensures
        match r {
            Ok(ids) => lists_users(found.deep_view(), ids.deep_view()),
            Err(e) => e == StoreError::Encoding && holds_no_user_id(found.deep_view()),
        },
{
    let mut ids: Vec<String> = Vec::new();
    let mut at: usize = 0;
    while at < found.len()
        invariant
            at <= found@.len(),
            ids@.len() == at,
            forall|i: int|
                0 <= i < at ==> is_user_id_bytes((#[trigger] found.deep_view()[i]).1)
                    && encode_utf8(ids@[i]@) == found.deep_view()[i].1,
        decreases found@.len() - at,
    {
        assert(found.deep_view()[at as int].1 == found@[at as int].1@);
        match string_from_utf8(found[at].1.as_slice()) {
            Some(text) => {
                proof {
                    encode_utf8_decode_utf8(text@);
                }
                if !is_user_id(text.as_str()) {
                    return Err(StoreError::Encoding);
                }
                ids.push(text);
            },
            None => {
                return Err(StoreError::Encoding);
            },
        }
        at += 1;
    }
    assert(ids.deep_view().len() == found.deep_view().len());
    assert forall|i: int| 0 <= i < found.deep_view().len() implies is_user_id_bytes(
        (#[trigger] found.deep_view()[i]).1,
    ) && encode_utf8(ids.deep_view()[i]) == found.deep_view()[i].1 by {
        assert(ids.deep_view()[i] == ids@[i]@);
    }
    Ok(ids)
}

/// The values of entries, in the order of the entries.
pub fn values_of(found: &Vec<(Vec<u8>, Vec<u8>)>) -> (values: Vec<Vec<u8>>)
    ensures
        lists_values(found.deep_view(), values.deep_view()),
{
    let mut values: Vec<Vec<u8>> = Vec::new();
    let mut at: usize = 0;
    while at < found.len()
        invariant
            at <= found@.len(),
            values@.len() == at,
            forall|i: int| 0 <= i < at ==> (#[trigger] values@[i])@ == found@[i].1@,
        decreases found@.len() - at,
    {
        values.push(slice_to_vec(found[at].1.as_slice()));
        at += 1;
    }
    assert forall|i: int| 0 <= i < found.deep_view().len() implies values.deep_view()[i] == (
    #[trigger] found.deep_view()[i]).1 by {
        assert(values.deep_view()[i] == values@[i]@);
        assert(found.deep_view()[i].1 == found@[i].1@);
    }
    values
}

/// Of the entries of an index, in their order, those that are filed for the
/// room: those whose key is the room's id with the entry's value behind it.
pub fn entries_of_room(found: &Vec<(Vec<u8>, Vec<u8>)>, room: &[u8]) -> (own: Vec<
    (Vec<u8>, Vec<u8>),
>)
    ensures
        own.deep_view() == of_room(found.deep_view(), room@),
{
    let mut own: Vec<(Vec<u8>, Vec<u8>)> = Vec::new();
    let mut at: usize = 0;
    assert(own.deep_view() =~= of_room(found.deep_view().take(0), room@));
    while at < found.len()
        invariant
            at <= found@.len(),
            own.deep_view() == of_room(found.deep_view().take(at as int), room@),
        decreases found@.len() - at,
    {
        let ghost seen = found.deep_view().take(at as int + 1);
        let ghost before = own.deep_view();
        assert(seen.drop_last() =~= found.deep_view().take(at as int));
        assert(seen.last() == found.deep_view()[at as int]);
        assert(found.deep_view()[at as int] == (found@[at as int].0@, found@[at as int].1@));
        let filed = join(room, found[at].1.as_slice());
        if rank_bytes(found[at].0.as_slice(), filed.as_slice()) == Rank::Same {
            let key = slice_to_vec(found[at].0.as_slice());
            let value = slice_to_vec(found[at].1.as_slice());
            own.push((key, value));
            assert(own.deep_view() =~= before.push(seen.last()));
        }
        at += 1;
    }
    assert(found.deep_view().take(at as int) =~= found.deep_view());
    own
}

/// The state store. A store is the one handle to its regions: what they hold
/// changes through `save_changes` and `save_filter` alone, each of which
/// takes the store by `&mut`. To share a store, share the handle.
#[derive(Debug)]
pub struct Store {
    inner: sled::Db,
    regions: Regions,
}

impl View for Store {
    type V = StoreView;

    closed spec fn view(&self) -> StoreView {
        self.regions@
    }
}

impl Store {
    /// The names of the trees behind the twelve regions.
    pub closed spec fn names(&self) -> RegionNames {
        self.regions.names()
    }

    /// The directory in which the store's database lies.
    pub closed spec fn directory(&self) -> Seq<char> {
        db_directory(self.inner)
    }

    /// Each region of the store is the tree that its database keeps under
    /// the region's name. A store is so when it is opened, and every
    /// operation keeps it so.
    pub open spec fn wf(&self) -> bool {
        self.names() == region_names()
    }

    /// Opens the twelve regions of a database, each under its name, and
    /// makes those that the database lacks. Every region holds what the
    /// database kept under its name: nothing is cleared. Fails with
    /// `Storage` where the engine cannot open a region.
    fn open_helper(db: sled::Db) -> (r: Result<Store, StoreError>)
        ensures
            match r {
                Ok(store) => {
                    &&& store.wf()
                    &&& store@ == held_regions(db_held(db))
                    &&& store.directory() == db_directory(db)
                },
                Err(e) => e == StoreError::Storage,
            },
    {
        let mut db = db;
        let ghost first = db_held(db);
        let ghost names = region_names().as_seq();
        proof {
            lemma_region_names_distinct();
        }
        let ghost before = db_held(db);
        let session = storage_result(open_tree(&mut db, "session"))?;
        proof {
            lemma_opened(first, before, db_held(db), names, 0);
        }
        let ghost before = db_held(db);
        let account_data = storage_result(open_tree(&mut db, "account_data"))?;
        proof {
            lemma_opened(first, before, db_held(db), names, 1);
        }
        let ghost before = db_held(db);
        let members = storage_result(open_tree(&mut db, "members"))?;
        proof {
            lemma_opened(first, before, db_held(db), names, 2);
        }
        let ghost before = db_held(db);
        let joined_user_ids = storage_result(open_tree(&mut db, "joined_user_ids"))?;
        proof {
            lemma_opened(first, before, db_held(db), names, 3);
        }
        let ghost before = db_held(db);
        let invited_user_ids = storage_result(open_tree(&mut db, "invited_user_ids"))?;
        proof {
            lemma_opened(first, before, db_held(db), names, 4);
        }
        let ghost before = db_held(db);
        let room_state = storage_result(open_tree(&mut db, "room_state"))?;
        proof {
            lemma_opened(first, before, db_held(db), names, 5);
        }
        let ghost before = db_held(db);
        let room_info = storage_result(open_tree(&mut db, "room_info"))?;
        proof {
            lemma_opened(first, before, db_held(db), names, 6);
        }
        let ghost before = db_held(db);
        let presence = storage_result(open_tree(&mut db, "presence"))?;
        proof {
            lemma_opened(first, before, db_held(db), names, 7);
        }
        let ghost before = db_held(db);
        let room_account_data = storage_result(open_tree(&mut db, "room_account_data"))?;
        proof {
            lemma_opened(first, before, db_held(db), names, 8);
        }
        let ghost before = db_held(db);
        let stripped_room_info = storage_result(open_tree(&mut db, "stripped_room_info"))?;
        proof {
            lemma_opened(first, before, db_held(db), names, 9);
        }
        let ghost before = db_held(db);
        let stripped_members = storage_result(open_tree(&mut db, "stripped_members"))?;
        proof {
            lemma_opened(first, before, db_held(db), names, 10);
        }
        let ghost before = db_held(db);
        let stripped_room_state = storage_result(open_tree(&mut db, "stripped_room_state"))?;
        proof {
            lemma_opened(first, before, db_held(db), names, 11);
        }
        Ok(
            Store {
                inner: db,
                regions: Regions {
                    session,
                    account_data,
                    members,
                    joined_user_ids,
                    invited_user_ids,
                    room_info,
                    room_state,
                    room_account_data,
                    stripped_room_info,
                    stripped_room_state,
                    stripped_members,
                    presence,
                },
            },
        )
    }

    /// Opens a new store that is discarded when it is dropped: its twelve
    /// regions, each under its name and without entries. Fails with
    /// `Storage` where the engine cannot open it.
    pub fn open() -> (r: Result<Store, StoreError>)
        ensures
            match r {
                Ok(store) => store.wf() && store@ == StoreView::empty(),
                Err(e) => e == StoreError::Storage,
            },
    {
        let db = storage_result(open_temporary())?;
        Store::open_helper(db)
    }

    /// Opens the store kept in the directory `matrix-sdk-state` of `path`,
    /// and makes it where there is none: its twelve regions, each under its
    /// name. Fails with `Storage` where the engine cannot open it.
    pub fn open_with_path(path: &str) -> (r: Result<Store, StoreError>)
        ensures
            match r {
                Ok(store) => store.wf() && store.directory() == joined_path(
                    path@,
                    "matrix-sdk-state"@,
                ),
                Err(e) => e == StoreError::Storage,
            },
    {
        let directory = path_join(path, "matrix-sdk-state");
        let db = storage_result(open_at(directory.as_str()))?;
        Store::open_helper(db)
    }

    /// Files the id of the filter of the given name, in place of the one
    /// filed before. Where the engine fails, the id is filed or nothing is
    /// changed.
    pub fn save_filter(&mut self, filter_name: &str, filter_id: &str) -> (r: Result<
        (),
        StoreError,
    >)
        ensures
            r is Ok ==> final(self)@ == (StoreView {
                session: old(self)@.session.insert(filter_key(filter_name@), encode_utf8(filter_id@)),
                ..old(self)@
            }),
            r matches Err(e) ==> e == StoreError::Storage && (final(self)@ == old(self)@
                || final(self)@ == (StoreView {
                session: old(self)@.session.insert(filter_key(filter_name@), encode_utf8(filter_id@)),
                ..old(self)@
            })),
            old(self).wf() ==> final(self).wf(),
            final(self).directory() == old(self).directory(),
    {
        let key = join("filter".as_bytes(), filter_name.as_bytes());
        storage_result(tree_insert(&mut self.regions.session, key.as_slice(), filter_id.as_bytes()))
    }

    /// The id filed for the filter of the given name, or `None` where none
    /// is filed. Fails with `Encoding` where what is filed is not UTF-8.
    pub fn get_filter(&self, filter_name: &str) -> (r: Result<Option<String>, StoreError>)
        ensures
            match r {
                Ok(Some(id)) => lookup(self@.session, filter_key(filter_name@)) == Some(
                    encode_utf8(id@),
                ),
                Ok(None) => lookup(self@.session, filter_key(filter_name@)) is None,
                Err(StoreError::Encoding) => lookup(self@.session, filter_key(filter_name@))
                    matches Some(bytes) && !valid_utf8(bytes),
                Err(e) => e == StoreError::Storage,
            },
    {
        let key = join("filter".as_bytes(), filter_name.as_bytes());
        match storage_result(tree_get(&self.regions.session, key.as_slice()))? {
            Some(bytes) => {
                let id = decode_text(bytes.as_slice())?;
                Ok(Some(id))
            },
            None => Ok(None),
        }
    }

    /// Commits a batch of changes: every region takes the writes that the
    /// batch stages for it, all in one transaction of the engine, and what
    /// is pending is then written to disk.
    ///
    /// `Ok` means that all of it is in the store and on disk. `Storage`
    /// means that the engine failed before it wrote anything: the store is
    /// as before. `Interrupted` means that the engine failed while it
    /// wrote: every key then holds what it held or what the batch stages
    /// for it, and a key that the batch does not write is as before.
    /// `Unflushed` means that all of it is in the store, and that writing
    /// it to disk failed.
    pub fn save_changes(&mut self, changes: &StateChanges) -> (r: Result<(), StoreError>)
        ensures
            match r {
                Ok(()) => final(self)@ == old(self)@.commit(changes@),
                Err(StoreError::Storage) => final(self)@ == old(self)@,
                Err(StoreError::Interrupted) => old(self)@.partly(
                    changes@.staged(),
                    final(self)@,
                ),
                Err(StoreError::Unflushed) => final(self)@ == old(self)@.commit(changes@),
                Err(StoreError::Encoding) => false,
            },
            old(self).wf() ==> final(self).wf(),
            final(self).directory() == old(self).directory(),
    {
        let batches = stage_changes(changes);
        commit_result(commit_batches(&mut self.regions, &batches))?;
        flush_result(flush(&self.inner))
    }

    /// The value under `key` in one region.
    fn read(tree: &sled::Tree, key: &[u8]) -> (r: Result<Option<Vec<u8>>, StoreError>)
        ensures
            match r {
                Ok(found) => option_bytes(found) == lookup(tree_map(*tree), key@),
                Err(e) => e == StoreError::Storage,
            },
    {
        storage_result(tree_get(tree, key))
    }

    /// The presence last saved for a user, as it is persisted, or `None`
    /// where none is.
    pub fn get_presence_event(&self, user_id: &str) -> (r: Result<Option<Vec<u8>>, StoreError>)
        ensures
            match r {
                Ok(found) => option_bytes(found) == lookup(self@.presence, encode_utf8(user_id@)),
                Err(e) => e == StoreError::Storage,
            },
    {
        Store::read(&self.regions.presence, user_id.as_bytes())
    }

    /// The state event last saved for a room under an event type and a state
    /// key, as it is persisted, or `None` where none is.
    pub fn get_state_event(&self, room_id: &str, event_type: &str, state_key: &str) -> (r: Result<
        Option<Vec<u8>>,
        StoreError,
    >)
        ensures
            match r {
                Ok(found) => option_bytes(found) == lookup(
                    self@.room_state,
                    encode_utf8(room_id@) + encode_utf8(event_type@) + encode_utf8(state_key@),
                ),
                Err(e) => e == StoreError::Storage,
            },
    {
        let mut key = join(room_id.as_bytes(), event_type.as_bytes());
        key.extend_from_slice(state_key.as_bytes());
        assert(key@ =~= encode_utf8(room_id@) + encode_utf8(event_type@) + encode_utf8(
            state_key@,
        ));
        Store::read(&self.regions.room_state, key.as_slice())
    }

    /// The membership event last saved for a user in a room, as it is
    /// persisted, or `None` where none is.
    pub fn get_member_event(&self, room_id: &str, state_key: &str) -> (r: Result<
        Option<Vec<u8>>,
        StoreError,
    >)
        ensures
            match r {
                Ok(found) => option_bytes(found) == lookup(
                    self@.members,
                    member_key(encode_utf8(room_id@), encode_utf8(state_key@)),
                ),
                Err(e) => e == StoreError::Storage,
            },
    {
        let key = join(room_id.as_bytes(), state_key.as_bytes());
        Store::read(&self.regions.members, key.as_slice())
    }

    /// The users that one index lists for a room, in ascending order of
    /// their ids: of the entries whose keys begin with the room's id, the
    /// values of those that are filed for this room.
    fn listed_user_ids(tree: &sled::Tree, room_id: &str) -> (r: Result<Vec<String>, StoreError>)
        ensures
            match r {
                Ok(ids) => exists|found: Seq<(Bytes, Bytes)>|
                    #[trigger] is_scan_of(tree_map(*tree), encode_utf8(room_id@), found)
                        && lists_users(of_room(found, encode_utf8(room_id@)), ids.deep_view()),
                Err(StoreError::Encoding) => exists|found: Seq<(Bytes, Bytes)>|
                    #[trigger] is_scan_of(tree_map(*tree), encode_utf8(room_id@), found)
                        && holds_no_user_id(of_room(found, encode_utf8(room_id@))),
                Err(e) => e == StoreError::Storage,
            },
    {
        let found = storage_result(tree_scan_prefix(tree, room_id.as_bytes()))?;
        assert(is_scan_of(tree_map(*tree), encode_utf8(room_id@), found.deep_view()));
        let own = entries_of_room(&found, room_id.as_bytes());
        decode_user_ids(&own)
    }

    /// The users invited to a room, each once, in ascending order of their
    /// ids: the index of invited users is read under the keys that begin
    /// with the room's id, and the entries filed for this room give the
    /// users; an entry of another room, whose id begins with this room's,
    /// gives none. Fails with `Encoding` where an entry of this room
    /// encodes no user id.
    pub fn get_invited_user_ids(&self, room_id: &str) -> (r: Result<Vec<String>, StoreError>)
        ensures
            match r {
                Ok(ids) => exists|found: Seq<(Bytes, Bytes)>|
                    #[trigger] is_scan_of(self@.invited_user_ids, encode_utf8(room_id@), found)
                        && lists_users(of_room(found, encode_utf8(room_id@)), ids.deep_view()),
                Err(StoreError::Encoding) => exists|found: Seq<(Bytes, Bytes)>|
                    #[trigger] is_scan_of(self@.invited_user_ids, encode_utf8(room_id@), found)
                        && holds_no_user_id(of_room(found, encode_utf8(room_id@))),
                Err(e) => e == StoreError::Storage,
            },
    {
        assert(self@.invited_user_ids == tree_map(self.regions.invited_user_ids));
        Store::listed_user_ids(&self.regions.invited_user_ids, room_id)
    }

    /// The users joined to a room, each once, in ascending order of their
    /// ids: the index of joined users is read under the keys that begin
    /// with the room's id, and the entries filed for this room give the
    /// users; an entry of another room, whose id begins with this room's,
    /// gives none. Fails with `Encoding` where an entry of this room
    /// encodes no user id.
    pub fn get_joined_user_ids(&self, room_id: &str) -> (r: Result<Vec<String>, StoreError>)
        ensures
            match r {
                Ok(ids) => exists|found: Seq<(Bytes, Bytes)>|
                    #[trigger] is_scan_of(self@.joined_user_ids, encode_utf8(room_id@), found)
                        && lists_users(of_room(found, encode_utf8(room_id@)), ids.deep_view()),
                Err(StoreError::Encoding) => exists|found: Seq<(Bytes, Bytes)>|
                    #[trigger] is_scan_of(self@.joined_user_ids, encode_utf8(room_id@), found)
                        && holds_no_user_id(of_room(found, encode_utf8(room_id@))),
                Err(e) => e == StoreError::Storage,
            },
    {
        assert(self@.joined_user_ids == tree_map(self.regions.joined_user_ids));
        Store::listed_user_ids(&self.regions.joined_user_ids, room_id)
    }

    /// Every room summary in the store, as it is persisted, in ascending
    /// order of the rooms' ids.
    pub fn get_room_infos(&self) -> (r: Result<Vec<Vec<u8>>, StoreError>)
        ensures
            match r {
                Ok(infos) => exists|found: Seq<(Bytes, Bytes)>|
                    #[trigger] is_scan_of(self@.room_info, Seq::empty(), found) && lists_values(
                        found,
                        infos.deep_view(),
                    ),
                Err(e) => e == StoreError::Storage,
            },
    {
        let all: Vec<u8> = Vec::new();
        let found = storage_result(tree_scan_prefix(&self.regions.room_info, all.as_slice()))?;
        assert(is_scan_of(self@.room_info, Seq::empty(), found.deep_view()));
        Ok(values_of(&found))
    }

    /// The session last saved, or `None` where none is.
    pub fn get_session(&self) -> (r: Result<Option<Session>, StoreError>)
        ensures
            match r {
                Ok(Some(session)) => lookup(self@.session, session_key()) == Some(session@),
                Ok(None) => lookup(self@.session, session_key()) is None,
                Err(e) => e == StoreError::Storage,
            },
    {
        let key = session_key_bytes();
        match Store::read(&self.regions.session, key.as_slice())? {
            Some(encoded) => Ok(Some(Session { encoded })),
            None => Ok(None),
        }
    }
}

} // verus!
