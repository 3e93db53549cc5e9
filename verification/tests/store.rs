use state_store::{
    AnyBasicEvent, AnyStrippedStateEvent, AnySyncStateEvent, MemberEvent, MembershipState,
    PresenceEvent, RoomInfo, Session, StateChanges, Store, StoreError, StrippedMemberEvent,
};

fn user_id() -> String {
    "@example:localhost".to_owned()
}

fn session() -> Session {
    Session {
        encoded: b"{\"access_token\":\"TEST_TOKEN\",\"user_id\":\"@example:localhost\",\"device_id\":\"DEVICEID\"}"
            .to_vec(),
    }
}

fn member(user: &str, membership: MembershipState) -> MemberEvent {
    MemberEvent {
        state_key: user.to_owned(),
        membership,
        encoded: format!("{{\"state_key\":\"{}\",\"membership\":\"{:?}\"}}", user, membership)
            .into_bytes(),
    }
}

fn commit_member(store: &mut Store, room: &str, user: &str, membership: MembershipState) {
    let mut changes = StateChanges::default();
    changes.add_member(room, user, member(user, membership));
    store.save_changes(&changes).unwrap();
}

#[test]
fn test_session_saving() {
    let session = session();
    let mut store = Store::open().unwrap();

    store.save_changes(&session.clone().into()).unwrap();
    let stored_session = store.get_session().unwrap().unwrap();

    assert_eq!(session, stored_session);
}

#[test]
fn test_member_saving() {
    let mut store = Store::open().unwrap();
    let room_id = "!test:localhost";
    let user_id = user_id();

    assert!(store.get_member_event(room_id, &user_id).unwrap().is_none());
    let mut changes = StateChanges::default();
    changes.add_member(room_id, &user_id, member(&user_id, MembershipState::Join));

    store.save_changes(&changes).unwrap();
    assert!(store.get_member_event(room_id, &user_id).unwrap().is_some());
}

#[test]
fn a_new_store_has_no_session() {
    let store = Store::open().unwrap();
    assert_eq!(store.get_session(), Ok(None));
}

#[test]
fn a_batch_without_session_keeps_the_session() {
    let mut store = Store::open().unwrap();
    store.save_changes(&session().into()).unwrap();
    commit_member(&mut store, "!r:h", "@u:h", MembershipState::Join);
    assert_eq!(store.get_session(), Ok(Some(session())));
}

#[test]
fn a_later_session_replaces_the_earlier_one() {
    let mut store = Store::open().unwrap();
    store.save_changes(&session().into()).unwrap();
    let later = Session { encoded: b"{\"access_token\":\"OTHER\"}".to_vec() };
    store.save_changes(&later.clone().into()).unwrap();
    assert_eq!(store.get_session(), Ok(Some(later)));
}

#[test]
fn joined_in_one_room_and_invited_in_another() {
    let mut store = Store::open().unwrap();
    let (r1, r2, u) = ("!one:localhost", "!two:localhost", "@example:localhost");

    let mut changes = StateChanges::default();
    changes.add_member(r1, u, member(u, MembershipState::Join));
    changes.add_member(r2, u, member(u, MembershipState::Invite));
    store.save_changes(&changes).unwrap();

    assert_eq!(store.get_joined_user_ids(r1), Ok(vec![u.to_owned()]));
    assert_eq!(store.get_invited_user_ids(r1), Ok(vec![]));
    assert_eq!(store.get_joined_user_ids(r2), Ok(vec![]));
    assert_eq!(store.get_invited_user_ids(r2), Ok(vec![u.to_owned()]));

    commit_member(&mut store, r1, u, MembershipState::Leave);

    assert_eq!(store.get_joined_user_ids(r1), Ok(vec![]));
    assert_eq!(store.get_invited_user_ids(r1), Ok(vec![]));
    assert_eq!(store.get_invited_user_ids(r2), Ok(vec![u.to_owned()]));
}

#[test]
fn the_index_follows_the_most_recent_membership() {
    let mut store = Store::open().unwrap();
    let (room, user) = ("!room:localhost", "@example:localhost");
    let listed = Ok(vec![user.to_owned()]);
    let empty = Ok(vec![]);

    commit_member(&mut store, room, user, MembershipState::Invite);
    assert_eq!(store.get_joined_user_ids(room), empty);
    assert_eq!(store.get_invited_user_ids(room), listed);

    commit_member(&mut store, room, user, MembershipState::Join);
    assert_eq!(store.get_joined_user_ids(room), listed);
    assert_eq!(store.get_invited_user_ids(room), empty);

    commit_member(&mut store, room, user, MembershipState::Ban);
    assert_eq!(store.get_joined_user_ids(room), empty);
    assert_eq!(store.get_invited_user_ids(room), empty);

    commit_member(&mut store, room, user, MembershipState::Join);
    commit_member(&mut store, room, user, MembershipState::Knock);
    assert_eq!(store.get_joined_user_ids(room), empty);
    assert_eq!(store.get_invited_user_ids(room), empty);

    commit_member(&mut store, room, user, MembershipState::Invite);
    commit_member(&mut store, room, user, MembershipState::Leave);
    assert_eq!(store.get_joined_user_ids(room), empty);
    assert_eq!(store.get_invited_user_ids(room), empty);
    assert_eq!(
        store.get_member_event(room, user),
        Ok(Some(member(user, MembershipState::Leave).encoded))
    );
}

#[test]
fn within_a_batch_the_later_event_of_a_user_replaces_the_earlier() {
    let mut store = Store::open().unwrap();
    let (room, user) = ("!room:localhost", "@example:localhost");
    let mut changes = StateChanges::default();
    changes.add_member(room, user, member(user, MembershipState::Join));
    changes.add_member(room, user, member(user, MembershipState::Invite));
    assert_eq!(changes.members.len(), 1);
    store.save_changes(&changes).unwrap();
    assert_eq!(store.get_joined_user_ids(room), Ok(vec![]));
    assert_eq!(store.get_invited_user_ids(room), Ok(vec![user.to_owned()]));
}

#[test]
fn the_users_of_a_room_come_in_the_order_of_their_ids() {
    let mut store = Store::open().unwrap();
    let room = "!room:localhost";
    let mut changes = StateChanges::default();
    for user in ["@carol:localhost", "@alice:localhost", "@bob:localhost"] {
        changes.add_member(room, user, member(user, MembershipState::Join));
    }
    store.save_changes(&changes).unwrap();
    assert_eq!(
        store.get_joined_user_ids(room),
        Ok(vec![
            "@alice:localhost".to_owned(),
            "@bob:localhost".to_owned(),
            "@carol:localhost".to_owned()
        ])
    );
}

#[test]
fn committing_a_batch_twice_is_committing_it_once() {
    let mut store = Store::open().unwrap();
    let (room, user) = ("!room:localhost", "@example:localhost");
    let mut changes: StateChanges = session().into();
    changes.add_member(room, user, member(user, MembershipState::Join));
    changes.add_member(room, "@other:localhost", member("@other:localhost", MembershipState::Invite));
    changes.add_room(RoomInfo { room_id: room.to_owned(), encoded: b"info".to_vec() });

    store.save_changes(&changes).unwrap();
    let once = (
        store.get_session(),
        store.get_joined_user_ids(room),
        store.get_invited_user_ids(room),
        store.get_member_event(room, user),
        store.get_room_infos(),
    );
    store.save_changes(&changes).unwrap();
    let twice = (
        store.get_session(),
        store.get_joined_user_ids(room),
        store.get_invited_user_ids(room),
        store.get_member_event(room, user),
        store.get_room_infos(),
    );
    assert_eq!(once, twice);
    assert_eq!(once.1, Ok(vec![user.to_owned()]));
    assert_eq!(once.2, Ok(vec!["@other:localhost".to_owned()]));
}

#[test]
fn a_room_is_not_shown_the_users_of_a_room_with_a_shorter_id() {
    let mut store = Store::open().unwrap();
    let (short, long, user) = ("!a:b", "!a:bc", "@u:h");
    commit_member(&mut store, short, user, MembershipState::Join);
    assert_eq!(store.get_joined_user_ids(long), Ok(vec![]));
    assert_eq!(store.get_joined_user_ids(short), Ok(vec![user.to_owned()]));
}

#[test]
fn a_room_is_not_shown_the_users_of_a_room_whose_id_begins_with_its_own() {
    let mut store = Store::open().unwrap();
    let (short, long, user) = ("!a:b", "!a:bc", "@u:h");
    commit_member(&mut store, long, user, MembershipState::Invite);
    assert_eq!(store.get_invited_user_ids(long), Ok(vec![user.to_owned()]));
    assert_eq!(store.get_invited_user_ids(short), Ok(vec![]));
}

#[test]
fn joined_users_of_local_and_localhost_keep_apart() {
    let (ra, rb, u) = ("!r:local", "!r:localhost", "@example:localhost");
    let mut store = Store::open().unwrap();
    commit_member(&mut store, rb, u, MembershipState::Join);
    assert_eq!(store.get_joined_user_ids(ra), Ok(vec![]));
    assert_eq!(store.get_joined_user_ids(rb), Ok(vec![u.to_owned()]));

    let mut store = Store::open().unwrap();
    commit_member(&mut store, ra, u, MembershipState::Join);
    assert_eq!(store.get_joined_user_ids(ra), Ok(vec![u.to_owned()]));
    assert_eq!(store.get_joined_user_ids(rb), Ok(vec![]));
}

#[test]
fn invited_users_of_local_and_localhost_keep_apart() {
    let (ra, rb, u) = ("!r:local", "!r:localhost", "@example:localhost");
    let mut store = Store::open().unwrap();
    commit_member(&mut store, rb, u, MembershipState::Invite);
    assert_eq!(store.get_invited_user_ids(ra), Ok(vec![]));
    assert_eq!(store.get_invited_user_ids(rb), Ok(vec![u.to_owned()]));

    let mut store = Store::open().unwrap();
    commit_member(&mut store, ra, u, MembershipState::Invite);
    assert_eq!(store.get_invited_user_ids(ra), Ok(vec![u.to_owned()]));
    assert_eq!(store.get_invited_user_ids(rb), Ok(vec![]));
}

#[test]
fn users_of_both_rooms_are_each_shown_to_their_own_room() {
    let mut store = Store::open().unwrap();
    let mut changes = StateChanges::default();
    for (room, user) in [("!r:local", "@a:h"), ("!r:localhost", "@b:h"), ("!r:local", "@c:h")] {
        changes.add_member(room, user, member(user, MembershipState::Join));
    }
    store.save_changes(&changes).unwrap();
    assert_eq!(
        store.get_joined_user_ids("!r:local"),
        Ok(vec!["@a:h".to_owned(), "@c:h".to_owned()])
    );
    assert_eq!(store.get_joined_user_ids("!r:localhost"), Ok(vec!["@b:h".to_owned()]));
    assert_eq!(store.get_joined_user_ids("!r:"), Ok(vec![]));
}

#[test]
fn an_entry_of_another_room_that_is_no_user_id_does_not_fail_the_read() {
    let mut store = Store::open().unwrap();
    commit_member(&mut store, "!r:localhost", "not a user id", MembershipState::Join);
    commit_member(&mut store, "!r:local", "@u:h", MembershipState::Join);
    assert_eq!(store.get_joined_user_ids("!r:local"), Ok(vec!["@u:h".to_owned()]));
    assert_eq!(store.get_joined_user_ids("!r:localhost"), Err(StoreError::Encoding));
}

#[test]
fn a_new_store_holds_nothing() {
    let store = Store::open().unwrap();
    assert_eq!(store.get_session(), Ok(None));
    assert_eq!(store.get_filter("sync"), Ok(None));
    assert_eq!(store.get_room_infos(), Ok(vec![]));
    assert_eq!(store.get_member_event("!r:h", "@u:h"), Ok(None));
    assert_eq!(store.get_presence_event("@u:h"), Ok(None));
    assert_eq!(store.get_state_event("!r:h", "m.room.name", ""), Ok(None));
    assert_eq!(store.get_joined_user_ids("!r:h"), Ok(vec![]));
    assert_eq!(store.get_invited_user_ids("!r:h"), Ok(vec![]));
}

#[test]
fn an_empty_batch_changes_nothing() {
    let mut store = Store::open().unwrap();
    store.save_changes(&StateChanges::default()).unwrap();
    assert_eq!(store.get_session(), Ok(None));
    assert_eq!(store.get_room_infos(), Ok(vec![]));
    assert_eq!(store.get_joined_user_ids("!r:h"), Ok(vec![]));
}

#[test]
fn rooms_with_unrelated_ids_do_not_see_each_other() {
    let mut store = Store::open().unwrap();
    commit_member(&mut store, "!one:h", "@u:h", MembershipState::Join);
    commit_member(&mut store, "!two:h", "@v:h", MembershipState::Join);
    assert_eq!(store.get_joined_user_ids("!one:h"), Ok(vec!["@u:h".to_owned()]));
    assert_eq!(store.get_joined_user_ids("!two:h"), Ok(vec!["@v:h".to_owned()]));
}

#[test]
fn an_index_value_that_is_no_user_id_is_an_encoding_error() {
    let mut store = Store::open().unwrap();
    commit_member(&mut store, "!room:h", "not a user id", MembershipState::Join);
    assert_eq!(store.get_joined_user_ids("!room:h"), Err(StoreError::Encoding));
    assert_eq!(store.get_invited_user_ids("!room:h"), Ok(vec![]));
}

#[test]
fn the_member_record_is_filed_under_the_user_that_the_event_names() {
    let mut store = Store::open().unwrap();
    let mut changes = StateChanges::default();
    changes.add_member("!room:h", "@listed:h", member("@named:h", MembershipState::Join));
    store.save_changes(&changes).unwrap();
    assert_eq!(store.get_member_event("!room:h", "@listed:h"), Ok(None));
    assert_eq!(
        store.get_member_event("!room:h", "@named:h"),
        Ok(Some(member("@named:h", MembershipState::Join).encoded))
    );
    assert_eq!(store.get_joined_user_ids("!room:h"), Ok(vec!["@named:h".to_owned()]));
}

#[test]
fn presence_is_read_back_by_user() {
    let mut store = Store::open().unwrap();
    assert_eq!(store.get_presence_event("@u:h"), Ok(None));
    let mut changes = StateChanges::default();
    changes.add_presence_event(PresenceEvent { sender: "@u:h".to_owned(), encoded: b"online".to_vec() });
    changes.add_presence_event(PresenceEvent { sender: "@v:h".to_owned(), encoded: b"offline".to_vec() });
    changes.add_presence_event(PresenceEvent { sender: "@u:h".to_owned(), encoded: b"away".to_vec() });
    assert_eq!(changes.presence.len(), 2);
    store.save_changes(&changes).unwrap();
    assert_eq!(store.get_presence_event("@u:h"), Ok(Some(b"away".to_vec())));
    assert_eq!(store.get_presence_event("@v:h"), Ok(Some(b"offline".to_vec())));
    assert_eq!(store.get_presence_event("@w:h"), Ok(None));
}

#[test]
fn state_events_are_read_back_by_room_type_and_key() {
    let mut store = Store::open().unwrap();
    let mut changes = StateChanges::default();
    changes.add_state_event(
        "!r:h",
        AnySyncStateEvent {
            event_type: "m.room.name".to_owned(),
            state_key: "".to_owned(),
            encoded: b"name".to_vec(),
        },
    );
    changes.add_state_event(
        "!r:h",
        AnySyncStateEvent {
            event_type: "m.room.member".to_owned(),
            state_key: "@u:h".to_owned(),
            encoded: b"member".to_vec(),
        },
    );
    store.save_changes(&changes).unwrap();
    assert_eq!(store.get_state_event("!r:h", "m.room.name", ""), Ok(Some(b"name".to_vec())));
    assert_eq!(
        store.get_state_event("!r:h", "m.room.member", "@u:h"),
        Ok(Some(b"member".to_vec()))
    );
    assert_eq!(store.get_state_event("!r:h", "m.room.topic", ""), Ok(None));
    assert_eq!(store.get_state_event("!s:h", "m.room.name", ""), Ok(None));
}

#[test]
fn keys_of_several_parts_are_run_together() {
    let mut store = Store::open().unwrap();
    let mut changes = StateChanges::default();
    changes.add_state_event(
        "!a:b",
        AnySyncStateEvent {
            event_type: "c".to_owned(),
            state_key: "d".to_owned(),
            encoded: b"first".to_vec(),
        },
    );
    store.save_changes(&changes).unwrap();
    assert_eq!(store.get_state_event("!a:bc", "d", ""), Ok(Some(b"first".to_vec())));
    assert_eq!(store.get_state_event("!a:", "b", "cd"), Ok(Some(b"first".to_vec())));
}

#[test]
fn room_summaries_come_in_the_order_of_the_rooms() {
    let mut store = Store::open().unwrap();
    assert_eq!(store.get_room_infos(), Ok(vec![]));
    let mut changes = StateChanges::default();
    changes.add_room(RoomInfo { room_id: "!b:h".to_owned(), encoded: b"second".to_vec() });
    changes.add_room(RoomInfo { room_id: "!a:h".to_owned(), encoded: b"first".to_vec() });
    changes.add_stripped_room(RoomInfo { room_id: "!c:h".to_owned(), encoded: b"preview".to_vec() });
    store.save_changes(&changes).unwrap();
    assert_eq!(store.get_room_infos(), Ok(vec![b"first".to_vec(), b"second".to_vec()]));
}

#[test]
fn records_of_invited_rooms_do_not_reach_the_indices() {
    let mut store = Store::open().unwrap();
    let mut changes = StateChanges::default();
    changes.add_stripped_member(
        "!r:h",
        StrippedMemberEvent { state_key: "@u:h".to_owned(), encoded: b"stripped".to_vec() },
    );
    changes.add_stripped_state_event(
        "!r:h",
        AnyStrippedStateEvent {
            event_type: "m.room.name".to_owned(),
            state_key: "".to_owned(),
            encoded: b"name".to_vec(),
        },
    );
    changes.add_account_data(AnyBasicEvent { event_type: "m.direct".to_owned(), encoded: b"d".to_vec() });
    changes.add_room_account_data(
        "!r:h",
        AnyBasicEvent { event_type: "m.tag".to_owned(), encoded: b"t".to_vec() },
    );
    store.save_changes(&changes).unwrap();
    assert_eq!(store.get_joined_user_ids("!r:h"), Ok(vec![]));
    assert_eq!(store.get_invited_user_ids("!r:h"), Ok(vec![]));
    assert_eq!(store.get_member_event("!r:h", "@u:h"), Ok(None));
    assert_eq!(store.get_state_event("!r:h", "m.room.name", ""), Ok(None));
    assert_eq!(store.get_room_infos(), Ok(vec![]));
}

#[test]
fn a_filter_is_read_back_by_name() {
    let mut store = Store::open().unwrap();
    assert_eq!(store.get_filter("sync"), Ok(None));
    store.save_filter("sync", "filter-id-1").unwrap();
    assert_eq!(store.get_filter("sync"), Ok(Some("filter-id-1".to_owned())));
    store.save_filter("sync", "filter-id-2").unwrap();
    assert_eq!(store.get_filter("sync"), Ok(Some("filter-id-2".to_owned())));
    assert_eq!(store.get_filter("other"), Ok(None));
    assert_eq!(store.get_session(), Ok(None));
}

#[test]
fn a_filter_and_the_session_share_a_region_and_keep_apart() {
    let mut store = Store::open().unwrap();
    store.save_filter("", "id").unwrap();
    store.save_changes(&session().into()).unwrap();
    assert_eq!(store.get_filter(""), Ok(Some("id".to_owned())));
    assert_eq!(store.get_session(), Ok(Some(session())));
}

#[test]
fn a_store_that_cannot_be_opened_is_a_storage_error() {
    assert_eq!(Store::open_with_path("/dev/null").err(), Some(StoreError::Storage));
}
