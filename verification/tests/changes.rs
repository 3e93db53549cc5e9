use state_store::error::{commit_result, flush_result, storage_result, CommitFailure};
use state_store::store::{decode_text, decode_user_ids, entries_of_room, values_of};
use state_store::{
    AnySyncStateEvent, MemberEvent, MembershipState, RoomInfo, Session, StateChanges, StoreError,
    StrippedMemberEvent,
};

#[test]
fn a_new_batch_is_empty() {
    let changes = StateChanges::default();
    assert!(changes.session.is_none());
    assert_eq!(changes.account_data.len(), 0);
    assert_eq!(changes.presence.len(), 0);
    assert_eq!(changes.members.len(), 0);
    assert_eq!(changes.state.len(), 0);
    assert_eq!(changes.room_account_data.len(), 0);
    assert_eq!(changes.room_infos.len(), 0);
    assert_eq!(changes.stripped_state.len(), 0);
    assert_eq!(changes.stripped_members.len(), 0);
    assert_eq!(changes.invited_room_info.len(), 0);
}

#[test]
fn a_batch_from_a_session_holds_the_session_alone() {
    let session = Session { encoded: b"session".to_vec() };
    let changes = StateChanges::from(session.clone());
    assert_eq!(changes.session, Some(session));
    assert_eq!(changes.members.len(), 0);
    assert_eq!(changes.room_infos.len(), 0);
}

#[test]
fn state_events_are_kept_by_room_then_type_then_key() {
    let mut changes = StateChanges::default();
    let event = |event_type: &str, state_key: &str, encoded: &[u8]| AnySyncStateEvent {
        event_type: event_type.to_owned(),
        state_key: state_key.to_owned(),
        encoded: encoded.to_vec(),
    };
    changes.add_state_event("!b:h", event("m.room.name", "", b"1"));
    changes.add_state_event("!a:h", event("m.room.topic", "", b"2"));
    changes.add_state_event("!a:h", event("m.room.member", "@v:h", b"3"));
    changes.add_state_event("!a:h", event("m.room.member", "@u:h", b"4"));
    changes.add_state_event("!a:h", event("m.room.member", "@v:h", b"5"));

    assert_eq!(changes.state.len(), 4);
    let at = |i: usize| {
        let key = changes.state.key_at(i);
        (key.outer.clone(), key.middle.clone(), key.inner.clone(), changes.state.value_at(i).clone())
    };
    assert_eq!(at(0), (b"!a:h".to_vec(), b"m.room.member".to_vec(), b"@u:h".to_vec(), b"4".to_vec()));
    assert_eq!(at(1), (b"!a:h".to_vec(), b"m.room.member".to_vec(), b"@v:h".to_vec(), b"5".to_vec()));
    assert_eq!(at(2), (b"!a:h".to_vec(), b"m.room.topic".to_vec(), b"".to_vec(), b"2".to_vec()));
    assert_eq!(at(3), (b"!b:h".to_vec(), b"m.room.name".to_vec(), b"".to_vec(), b"1".to_vec()));
}

#[test]
fn a_room_summary_replaces_the_earlier_one_of_the_room() {
    let mut changes = StateChanges::default();
    changes.add_room(RoomInfo { room_id: "!a:h".to_owned(), encoded: b"old".to_vec() });
    changes.add_room(RoomInfo { room_id: "!a:h".to_owned(), encoded: b"new".to_vec() });
    assert_eq!(changes.room_infos.len(), 1);
    assert_eq!(changes.room_infos.value_at(0), &b"new".to_vec());
    assert_eq!(changes.invited_room_info.len(), 0);
}

#[test]
fn members_are_kept_by_room_and_user() {
    let mut changes = StateChanges::default();
    let event = MemberEvent {
        state_key: "@u:h".to_owned(),
        membership: MembershipState::Join,
        encoded: b"e".to_vec(),
    };
    changes.add_member("!a:h", "@u:h", event.clone());
    changes.add_member("!a:", "h@u:h", event.clone());
    assert_eq!(changes.members.len(), 2);
    assert_eq!(changes.members.key_at(0).outer, b"!a:".to_vec());
    assert_eq!(changes.members.key_at(0).middle, b"h@u:h".to_vec());
    assert_eq!(changes.members.value_at(1), &event);
}

#[test]
fn a_stripped_member_that_names_no_user_is_refused() {
    let mut changes = StateChanges::default();
    let refused = changes.try_add_stripped_member(
        "!a:h",
        StrippedMemberEvent { state_key: "nobody".to_owned(), encoded: b"e".to_vec() },
    );
    assert_eq!(refused, Err(StoreError::Encoding));
    assert_eq!(changes.stripped_members.len(), 0);

    let taken = changes.try_add_stripped_member(
        "!a:h",
        StrippedMemberEvent { state_key: "@u:h".to_owned(), encoded: b"e".to_vec() },
    );
    assert_eq!(taken, Ok(()));
    assert_eq!(changes.stripped_members.len(), 1);
    assert_eq!(changes.stripped_members.key_at(0).middle, b"@u:h".to_vec());
}

#[test]
fn text_is_decoded_from_utf8_alone() {
    assert_eq!(decode_text(b"filter"), Ok("filter".to_owned()));
    assert_eq!(decode_text("\u{e9}t\u{e9}".as_bytes()), Ok("\u{e9}t\u{e9}".to_owned()));
    assert_eq!(decode_text(b""), Ok(String::new()));
    assert_eq!(decode_text(&[0xff, 0x41]), Err(StoreError::Encoding));
}

#[test]
fn user_ids_are_decoded_in_the_order_of_the_entries() {
    let entry = |key: &[u8], value: &[u8]| (key.to_vec(), value.to_vec());
    assert_eq!(decode_user_ids(&vec![]), Ok(vec![]));
    assert_eq!(
        decode_user_ids(&vec![entry(b"k1", b"@b:h"), entry(b"k2", b"@a:h")]),
        Ok(vec!["@b:h".to_owned(), "@a:h".to_owned()])
    );
    assert_eq!(
        decode_user_ids(&vec![entry(b"k1", b"@b:h"), entry(b"k2", b"a:h")]),
        Err(StoreError::Encoding)
    );
    assert_eq!(
        decode_user_ids(&vec![entry(b"k1", &[0xc3]), entry(b"k2", b"@a:h")]),
        Err(StoreError::Encoding)
    );
    assert_eq!(decode_user_ids(&vec![entry(b"k", b"@nocolon")]), Err(StoreError::Encoding));
}

#[test]
fn values_are_taken_in_the_order_of_the_entries() {
    let found = vec![(b"k1".to_vec(), b"v1".to_vec()), (b"k2".to_vec(), b"".to_vec())];
    assert_eq!(values_of(&found), vec![b"v1".to_vec(), b"".to_vec()]);
    assert_eq!(values_of(&vec![]), Vec::<Vec<u8>>::new());
}

#[test]
fn a_failure_of_the_engine_is_a_storage_error() {
    assert_eq!(storage_result(Ok::<u8, sled::Error>(7)), Ok(7));
    assert_eq!(
        storage_result(Err::<u8, sled::Error>(sled::Error::Unsupported("no".to_owned()))),
        Err(StoreError::Storage)
    );
}

#[test]
fn a_failure_to_write_to_disk_is_told_apart() {
    assert_eq!(flush_result(Ok(512)), Ok(()));
    assert_eq!(flush_result(Ok(0)), Ok(()));
    assert_eq!(
        flush_result(Err(sled::Error::Unsupported("no".to_owned()))),
        Err(StoreError::Unflushed)
    );
}

#[test]
fn the_entries_of_a_room_are_those_filed_under_its_id_and_their_value() {
    let entry = |key: &[u8], value: &[u8]| (key.to_vec(), value.to_vec());
    let found = vec![
        entry(b"!r:local@a:h", b"@a:h"),
        entry(b"!r:local@c:h", b"@c:h"),
        entry(b"!r:localhost@b:h", b"@b:h"),
        entry(b"!r:localx", b"x"),
        entry(b"!r:local@d:h", b"@a:h"),
    ];
    assert_eq!(
        entries_of_room(&found, b"!r:local"),
        vec![
            entry(b"!r:local@a:h", b"@a:h"),
            entry(b"!r:local@c:h", b"@c:h"),
            entry(b"!r:localx", b"x")
        ]
    );
    assert_eq!(
        entries_of_room(&found, b"!r:localhost"),
        vec![entry(b"!r:localhost@b:h", b"@b:h")]
    );
    assert_eq!(entries_of_room(&found, b"!r:"), vec![]);
    assert_eq!(entries_of_room(&vec![], b"!r:local"), vec![]);
}

#[test]
fn a_transaction_that_wrote_nothing_is_told_apart_from_one_that_stopped() {
    assert_eq!(commit_result(Ok(())), Ok(()));
    assert_eq!(commit_result(Err(CommitFailure::Aborted)), Err(StoreError::Storage));
    assert_eq!(commit_result(Err(CommitFailure::Stopped)), Err(StoreError::Interrupted));
}
