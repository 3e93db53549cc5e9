use state_store::{
    AnyBasicEvent, AnyStrippedStateEvent, AnySyncStateEvent, MemberEvent, MembershipState,
    PresenceEvent, RoomInfo, Session, StateChanges, Store, StrippedMemberEvent,
};

fn value(db: &sled::Db, region: &str, key: &str) -> Option<Vec<u8>> {
    db.open_tree(region).unwrap().get(key).unwrap().map(|v| v.to_vec())
}

fn keys(db: &sled::Db, region: &str) -> Vec<Vec<u8>> {
    db.open_tree(region).unwrap().iter().map(|e| e.unwrap().0.to_vec()).collect()
}

/// Opens the database at `path` as one to discard, and drops it: the engine
/// then removes it from the disk.
fn discard(path: &str) {
    drop(sled::Config::new().path(path).temporary(true).open().unwrap());
}

#[test]
fn a_store_at_a_path_keeps_every_record_in_its_region_under_its_key() {
    let path = "/tmp";
    let kept = "/tmp/matrix-sdk-state";
    discard(kept);
    {
        let mut store = Store::open_with_path(path).unwrap();
        let mut changes = StateChanges::from(Session { encoded: b"the session".to_vec() });
        changes.add_account_data(AnyBasicEvent {
            event_type: "m.push_rules".to_owned(),
            encoded: b"rules".to_vec(),
        });
        changes.add_room_account_data(
            "!r:h",
            AnyBasicEvent { event_type: "m.tag".to_owned(), encoded: b"tag".to_vec() },
        );
        changes.add_presence_event(PresenceEvent {
            sender: "@u:h".to_owned(),
            encoded: b"online".to_vec(),
        });
        changes.add_room(RoomInfo { room_id: "!r:h".to_owned(), encoded: b"info".to_vec() });
        changes
            .add_stripped_room(RoomInfo { room_id: "!i:h".to_owned(), encoded: b"preview".to_vec() });
        changes.add_state_event(
            "!r:h",
            AnySyncStateEvent {
                event_type: "m.room.member".to_owned(),
                state_key: "@u:h".to_owned(),
                encoded: b"state".to_vec(),
            },
        );
        changes.add_stripped_state_event(
            "!i:h",
            AnyStrippedStateEvent {
                event_type: "m.room.name".to_owned(),
                state_key: "".to_owned(),
                encoded: b"stripped state".to_vec(),
            },
        );
        changes.add_stripped_member(
            "!i:h",
            StrippedMemberEvent { state_key: "@u:h".to_owned(), encoded: b"stripped".to_vec() },
        );
        changes.add_member(
            "!r:h",
            "@u:h",
            MemberEvent {
                state_key: "@u:h".to_owned(),
                membership: MembershipState::Join,
                encoded: b"joined".to_vec(),
            },
        );
        changes.add_member(
            "!r:h",
            "@v:h",
            MemberEvent {
                state_key: "@v:h".to_owned(),
                membership: MembershipState::Invite,
                encoded: b"invited".to_vec(),
            },
        );
        changes.add_member(
            "!r:h",
            "@w:h",
            MemberEvent {
                state_key: "@w:h".to_owned(),
                membership: MembershipState::Leave,
                encoded: b"left".to_vec(),
            },
        );
        store.save_changes(&changes).unwrap();
        store.save_filter("sync", "abc").unwrap();
    }

    {
        let store = Store::open_with_path(path).unwrap();
        assert_eq!(store.get_session(), Ok(Some(Session { encoded: b"the session".to_vec() })));
        assert_eq!(store.get_filter("sync"), Ok(Some("abc".to_owned())));
        assert_eq!(store.get_joined_user_ids("!r:h"), Ok(vec!["@u:h".to_owned()]));
        assert_eq!(store.get_invited_user_ids("!r:h"), Ok(vec!["@v:h".to_owned()]));
        assert_eq!(store.get_room_infos(), Ok(vec![b"info".to_vec()]));
        assert_eq!(store.get_member_event("!r:h", "@w:h"), Ok(Some(b"left".to_vec())));
    }

    let db = sled::Config::new().path(kept).temporary(true).open().unwrap();
    assert_eq!(value(&db, "session", "session"), Some(b"the session".to_vec()));
    assert_eq!(value(&db, "session", "filtersync"), Some(b"abc".to_vec()));
    assert_eq!(value(&db, "account_data", "m.push_rules"), Some(b"rules".to_vec()));
    assert_eq!(value(&db, "room_account_data", "!r:hm.tag"), Some(b"tag".to_vec()));
    assert_eq!(value(&db, "presence", "@u:h"), Some(b"online".to_vec()));
    assert_eq!(value(&db, "room_info", "!r:h"), Some(b"info".to_vec()));
    assert_eq!(keys(&db, "room_infos"), Vec::<Vec<u8>>::new());
    assert_eq!(value(&db, "stripped_room_info", "!i:h"), Some(b"preview".to_vec()));
    assert_eq!(value(&db, "room_state", "!r:hm.room.member@u:h"), Some(b"state".to_vec()));
    assert_eq!(
        value(&db, "stripped_room_state", "!i:hm.room.name"),
        Some(b"stripped state".to_vec())
    );
    assert_eq!(value(&db, "stripped_members", "!i:h@u:h"), Some(b"stripped".to_vec()));
    assert_eq!(value(&db, "members", "!r:h@u:h"), Some(b"joined".to_vec()));
    assert_eq!(value(&db, "members", "!r:h@v:h"), Some(b"invited".to_vec()));
    assert_eq!(value(&db, "members", "!r:h@w:h"), Some(b"left".to_vec()));
    assert_eq!(value(&db, "joined_user_ids", "!r:h@u:h"), Some(b"@u:h".to_vec()));
    assert_eq!(value(&db, "invited_user_ids", "!r:h@v:h"), Some(b"@v:h".to_vec()));
    assert_eq!(keys(&db, "joined_user_ids"), vec![b"!r:h@u:h".to_vec()]);
    assert_eq!(keys(&db, "invited_user_ids"), vec![b"!r:h@v:h".to_vec()]);
    assert_eq!(keys(&db, "session"), vec![b"filtersync".to_vec(), b"session".to_vec()]);
}
