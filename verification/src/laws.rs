//! What holds of the store whatever it is given: proved of the model, in the
//! terms in which the operations of the store are specified.

use vstd::prelude::*;
use vstd::utf8::encode_utf8_decode_utf8;

use crate::bytes::{bytes_lt, lemma_bytes_lt_total, Bytes};
use crate::events::{MemberView, MembershipState};
use crate::model::{
    held_under, index_ops, is_scan_of, lists, lookup, member_key, member_ops, of_room, overlay,
    partly_applied,
    record_ops, region_names, session_key, session_ops, stage, ChangesView, Entries, Held, Op,
    StoreView, Writes, WritesView,
};
use crate::table::{ascending, key_of_two, lemma_key_order_total, place, upsert, KeyView};

verus! {

/// No two regions have the same name.
pub proof fn lemma_region_names_distinct()
    ensures
        region_names().as_seq().no_duplicates(),
{
    reveal_strlit("session");
    reveal_strlit("account_data");
    reveal_strlit("members");
    reveal_strlit("joined_user_ids");
    reveal_strlit("invited_user_ids");
    reveal_strlit("room_state");
    reveal_strlit("room_info");
    reveal_strlit("presence");
    reveal_strlit("room_account_data");
    reveal_strlit("stripped_room_info");
    reveal_strlit("stripped_members");
    reveal_strlit("stripped_room_state");
    encode_utf8_decode_utf8("session"@);
    encode_utf8_decode_utf8("account_data"@);
    encode_utf8_decode_utf8("members"@);
    encode_utf8_decode_utf8("joined_user_ids"@);
    encode_utf8_decode_utf8("invited_user_ids"@);
    encode_utf8_decode_utf8("room_state"@);
    encode_utf8_decode_utf8("room_info"@);
    encode_utf8_decode_utf8("presence"@);
    encode_utf8_decode_utf8("room_account_data"@);
    encode_utf8_decode_utf8("stripped_room_info"@);
    encode_utf8_decode_utf8("stripped_members"@);
    encode_utf8_decode_utf8("stripped_room_state"@);
    assert("session"@[0] != "members"@[0]);
    assert("invited_user_ids"@[0] != "stripped_members"@[0]);
}

/// Opening the tree of one name leaves alone what a database keeps under
/// the names that are still to be opened. Here `first` is what the database
/// kept at the start, `before` and `after` what it keeps before and after
/// the tree of the name at position `at` is opened.
pub proof fn lemma_opened(first: Held, before: Held, after: Held, names: Seq<Bytes>, at: int)
    requires
        names.no_duplicates(),
        0 <= at < names.len(),
        after.remove(names[at]) == before.remove(names[at]),
        forall|j: int|
            at <= j < names.len() ==> held_under(before, #[trigger] names[j]) == held_under(
                first,
                names[j],
            ),
    ensures
        held_under(before, names[at]) == held_under(first, names[at]),
        forall|j: int|
            at < j < names.len() ==> held_under(after, #[trigger] names[j]) == held_under(
                first,
                names[j],
            ),
{
    assert forall|j: int| at < j < names.len() implies held_under(after, #[trigger] names[j])
        == held_under(first, names[j]) by {
        let name = names[j];
        assert(name != names[at]);
        assert(after.remove(names[at]).contains_key(name) == after.contains_key(name));
        assert(before.remove(names[at]).contains_key(name) == before.contains_key(name));
        if after.contains_key(name) {
            assert(after.remove(names[at])[name] == after[name]);
            assert(before.remove(names[at])[name] == before[name]);
        }
    }
}

/// The write at position `at` is to `key`, and no later write is.
pub open spec fn is_last_write(ops: Seq<Op>, key: Bytes, at: int) -> bool {
    &&& 0 <= at < ops.len()
    &&& ops[at].0 == key
    &&& forall|later: int| at < later < ops.len() ==> (#[trigger] ops[later]).0 != key
}

/// Some write is to `key`.
pub open spec fn is_written(ops: Seq<Op>, key: Bytes) -> bool {
    exists|at: int| 0 <= at < ops.len() && (#[trigger] ops[at]).0 == key
}

/// Among staged writes the last one to a key decides what is staged for it.
pub proof fn lemma_stage_last_write(writes: Writes, ops: Seq<Op>, key: Bytes, at: int)
    requires
        is_last_write(ops, key, at),
    ensures
        stage(writes, ops).contains_key(key),
        stage(writes, ops)[key] == ops[at].1,
    decreases ops.len(),
{
    if at < ops.len() - 1 {
        let init = ops.drop_last();
        assert(init[at] == ops[at]);
        assert forall|later: int| at < later < init.len() implies (#[trigger] init[later]).0
            != key by {
            assert(init[later] == ops[later]);
        }
        lemma_stage_last_write(writes, init, key, at);
        assert(ops.last() == ops[ops.len() - 1]);
    }
}

/// Staging leaves a key alone that no write is to.
pub proof fn lemma_stage_unwritten(writes: Writes, ops: Seq<Op>, key: Bytes)
    requires
        !is_written(ops, key),
    ensures
        stage(writes, ops).contains_key(key) == writes.contains_key(key),
        writes.contains_key(key) ==> stage(writes, ops)[key] == writes[key],
    decreases ops.len(),
{
    if ops.len() > 0 {
        let init = ops.drop_last();
        assert(ops[ops.len() - 1].0 != key);
        assert forall|at: int| 0 <= at < init.len() implies (#[trigger] init[at]).0 != key by {
            assert(init[at] == ops[at]);
        }
        lemma_stage_unwritten(writes, init, key);
    }
}

/// Where some write is to a key, one of them is the last.
pub proof fn lemma_last_write_exists(ops: Seq<Op>, key: Bytes)
    requires
        is_written(ops, key),
    ensures
        exists|at: int| is_last_write(ops, key, at),
    decreases ops.len(),
{
    let last = ops.len() - 1;
    if ops[last].0 == key {
        assert(is_last_write(ops, key, last));
    } else {
        let init = ops.drop_last();
        let some = choose|at: int| 0 <= at < ops.len() && (#[trigger] ops[at]).0 == key;
        assert(init[some] == ops[some]);
        lemma_last_write_exists(init, key);
        let at = choose|at: int| is_last_write(init, key, at);
        assert(init[at] == ops[at]);
        assert forall|later: int| at < later < ops.len() implies (#[trigger] ops[later]).0
            != key by {
            if later < last {
                assert(init[later] == ops[later]);
            }
        }
        assert(is_last_write(ops, key, at));
    }
}

/// Applying the same writes a second time changes nothing.
pub proof fn lemma_overlay_idempotent(entries: Entries, writes: Writes)
    ensures
        overlay(overlay(entries, writes), writes) == overlay(entries, writes),
{
    assert(overlay(overlay(entries, writes), writes) =~= overlay(entries, writes));
}

/// What a failed attempt has applied of some writes does not show once they
/// are applied in full: the region is then as if the attempt had not been made.
pub proof fn lemma_overlay_after_part(
    entries: Entries,
    writes: Writes,
    part: Entries,
)
    requires
        partly_applied(entries, writes, part),
    ensures
        overlay(part, writes) == overlay(entries, writes),
{
    let left = overlay(part, writes);
    let right = overlay(entries, writes);
    assert forall|key: Bytes| #[trigger] left.dom().contains(key) == right.dom().contains(key) by {
        assert(lookup(part, key) == lookup(entries, key) || writes.contains_key(key));
    }
    assert forall|key: Bytes| left.dom().contains(key) implies #[trigger] left[key] == right[key] by {
        assert(lookup(part, key) == lookup(entries, key) || writes.contains_key(key));
    }
    assert(left.dom() =~= right.dom());
    assert(overlay(part, writes) =~= overlay(entries, writes));
}

/// Retry after a failure: whatever a failed commit of a batch has left in
/// the store, a commit of the same batch that succeeds leaves the store as
/// a first successful commit would have.
pub proof fn lemma_retry_after_failure(store: StoreView, changes: ChangesView, failed: StoreView)
    requires
        store.partly(changes.staged(), failed),
    ensures
        failed.commit(changes) == store.commit(changes),
{
    let writes = changes.staged();
    lemma_overlay_after_part(store.session, writes.session, failed.session);
    lemma_overlay_after_part(store.account_data, writes.account_data, failed.account_data);
    lemma_overlay_after_part(store.members, writes.members, failed.members);
    lemma_overlay_after_part(
        store.joined_user_ids,
        writes.joined_user_ids,
        failed.joined_user_ids,
    );
    lemma_overlay_after_part(
        store.invited_user_ids,
        writes.invited_user_ids,
        failed.invited_user_ids,
    );
    lemma_overlay_after_part(store.room_info, writes.room_info, failed.room_info);
    lemma_overlay_after_part(store.room_state, writes.room_state, failed.room_state);
    lemma_overlay_after_part(
        store.room_account_data,
        writes.room_account_data,
        failed.room_account_data,
    );
    lemma_overlay_after_part(
        store.stripped_room_info,
        writes.stripped_room_info,
        failed.stripped_room_info,
    );
    lemma_overlay_after_part(
        store.stripped_room_state,
        writes.stripped_room_state,
        failed.stripped_room_state,
    );
    lemma_overlay_after_part(
        store.stripped_members,
        writes.stripped_members,
        failed.stripped_members,
    );
    lemma_overlay_after_part(store.presence, writes.presence, failed.presence);
}

/// A record that a table of a batch holds is in its region once the batch
/// is committed, under the parts of its key run together, if no later entry
/// of the table has the same parts run together.
pub proof fn lemma_record_saved(region: Entries, entries: Seq<(KeyView, Bytes)>, at: int)
    requires
        is_last_write(record_ops(entries), entries[at].0.joined(), at),
    ensures
        lookup(overlay(region, stage(Map::empty(), record_ops(entries))), entries[at].0.joined())
            == Some(entries[at].1),
{
    lemma_stage_last_write(Map::empty(), record_ops(entries), entries[at].0.joined(), at);
}

/// A region keeps what it holds under a key that no entry of the table is
/// filed under.
pub proof fn lemma_record_kept(region: Entries, entries: Seq<(KeyView, Bytes)>, key: Bytes)
    requires
        !is_written(record_ops(entries), key),
    ensures
        lookup(overlay(region, stage(Map::empty(), record_ops(entries))), key) == lookup(
            region,
            key,
        ),
{
    lemma_stage_unwritten(Map::empty(), record_ops(entries), key);
}

/// Round trip of the session: once a batch that sets a session is committed,
/// the session read back is the one that the batch held.
pub proof fn lemma_session_saved(store: StoreView, changes: ChangesView, session: Bytes)
    requires
        changes.session == Some(session),
    ensures
        lookup(store.commit(changes).session, session_key()) == Some(session),
{
    let ops = session_ops(changes.session);
    assert(is_last_write(ops, session_key(), 0));
    lemma_stage_last_write(Map::empty(), ops, session_key(), 0);
}

/// Round trip of the session for the batch built from a session alone.
pub proof fn lemma_session_round_trip(store: StoreView, session: Bytes)
    ensures
        lookup(store.commit(ChangesView::of_session(session)).session, session_key()) == Some(
            session,
        ),
{
    lemma_session_saved(store, ChangesView::of_session(session), session);
}

/// A batch that sets no session leaves the session as it is.
pub proof fn lemma_session_kept(store: StoreView, changes: ChangesView)
    requires
        changes.session is None,
    ensures
        store.commit(changes).session == store.session,
{
    assert(store.commit(changes).session =~= store.session);
}

/// Idempotence: committing a batch a second time leaves the store as the
/// first commit left it.
pub proof fn lemma_commit_idempotent(store: StoreView, changes: ChangesView)
    ensures
        store.commit(changes).commit(changes) == store.commit(changes),
{
    let writes = changes.staged();
    lemma_overlay_idempotent(store.session, writes.session);
    lemma_overlay_idempotent(store.account_data, writes.account_data);
    lemma_overlay_idempotent(store.members, writes.members);
    lemma_overlay_idempotent(store.joined_user_ids, writes.joined_user_ids);
    lemma_overlay_idempotent(store.invited_user_ids, writes.invited_user_ids);
    lemma_overlay_idempotent(store.room_info, writes.room_info);
    lemma_overlay_idempotent(store.room_state, writes.room_state);
    lemma_overlay_idempotent(store.room_account_data, writes.room_account_data);
    lemma_overlay_idempotent(store.stripped_room_info, writes.stripped_room_info);
    lemma_overlay_idempotent(store.stripped_room_state, writes.stripped_room_state);
    lemma_overlay_idempotent(store.stripped_members, writes.stripped_members);
    lemma_overlay_idempotent(store.presence, writes.presence);
}

/// The key under which the event at position `at` is filed.
pub open spec fn member_key_at(members: Seq<(KeyView, MemberView)>, at: int) -> Bytes {
    member_key(members[at].0.outer, members[at].1.state_key)
}

/// The batch holds a membership event that is filed under `key`.
pub open spec fn touches(changes: ChangesView, key: Bytes) -> bool {
    exists|at: int|
        0 <= at < changes.members.len() && #[trigger] member_key_at(changes.members, at) == key
}

/// The event at position `at` is the last of the batch that is filed under its key.
pub open spec fn is_last_event(changes: ChangesView, at: int) -> bool {
    &&& 0 <= at < changes.members.len()
    &&& forall|later: int|
        at < later < changes.members.len() ==> #[trigger] member_key_at(changes.members, later)
            != member_key_at(changes.members, at)
}

/// Each event of the batch is filed under the user that it names.
pub open spec fn files_named_users(changes: ChangesView) -> bool {
    forall|i: int|
        0 <= i < changes.members.len() ==> (#[trigger] changes.members[i]).0 == key_of_two(
            changes.members[i].0.outer,
            changes.members[i].1.state_key,
        )
}

/// In a batch in ascending order that files each event under the user that
/// it names, and whose rooms have ids of one length, no two events run to
/// the same member key: each event is the last under its key.
pub proof fn lemma_events_keep_apart(changes: ChangesView, at: int)
    requires
        ascending(changes.members),
        files_named_users(changes),
        0 <= at < changes.members.len(),
        forall|i: int|
            0 <= i < changes.members.len() ==> (#[trigger] changes.members[i]).0.outer.len()
                == changes.members[at].0.outer.len(),
    ensures
        is_last_event(changes, at),
{
    let members = changes.members;
    assert forall|later: int| at < later < members.len() implies #[trigger] member_key_at(
        members,
        later,
    ) != member_key_at(members, at) by {
        lemma_key_order_total(members[at].0, members[later].0);
        assert(members[at].0.below(members[later].0));
        if member_key_at(members, later) == member_key_at(members, at) {
            lemma_member_key_unambiguous(
                members[later].0.outer,
                members[later].1.state_key,
                members[at].0.outer,
                members[at].1.state_key,
            );
        }
    }
}

/// `room` has the shape of a room id, as far as keys go: it holds a colon,
/// and no `@` behind a colon.
pub open spec fn is_room_like(room: Bytes) -> bool {
    &&& exists|c: int| 0 <= c < room.len() && #[trigger] room[c] == 0x3au8
    &&& forall|c: int, i: int|
        0 <= c < i < room.len() && #[trigger] room[c] == 0x3au8 ==> #[trigger] room[i] != 0x40u8
}

/// `user` has the shape of a user id, as far as keys go: it begins with `@`.
pub open spec fn is_user_like(user: Bytes) -> bool {
    user.len() > 0 && user[0] == 0x40u8
}

/// Every event of the batch is filed for a room and names a user that have
/// the shapes of a room id and of a user id.
pub open spec fn files_ids(changes: ChangesView) -> bool {
    forall|i: int|
        0 <= i < changes.members.len() ==> is_room_like((#[trigger] changes.members[i]).0.outer)
            && is_user_like(changes.members[i].1.state_key)
}

/// Ids keep member keys apart: of rooms and users with the shapes of ids,
/// two pairs run to the same member key only if they are the same pair.
pub proof fn lemma_ids_keep_keys_apart(room: Bytes, user: Bytes, other: Bytes, whom: Bytes)
    requires
        is_room_like(room),
        is_room_like(other),
        is_user_like(user),
        is_user_like(whom),
        member_key(room, user) == member_key(other, whom),
    ensures
        room == other,
        user == whom,
{
    let key = member_key(room, user);
    assert(key.len() == room.len() + user.len());
    assert(key.len() == other.len() + whom.len());
    if room.len() < other.len() {
        let c = choose|c: int| 0 <= c < room.len() && #[trigger] room[c] == 0x3au8;
        assert(key[c] == room[c]);
        assert(member_key(other, whom)[c] == other[c]);
        assert(key[room.len() as int] == user[0]);
        assert(member_key(other, whom)[room.len() as int] == other[room.len() as int]);
        assert(false);
    } else if other.len() < room.len() {
        let c = choose|c: int| 0 <= c < other.len() && #[trigger] other[c] == 0x3au8;
        assert(member_key(other, whom)[c] == other[c]);
        assert(key[c] == room[c]);
        assert(member_key(other, whom)[other.len() as int] == whom[0]);
        assert(key[other.len() as int] == room[other.len() as int]);
        assert(false);
    } else {
        lemma_member_key_unambiguous(room, user, other, whom);
    }
}

/// In a batch in ascending order that files each event under the user that
/// it names, for rooms and users with the shapes of ids, no two events run
/// to the same member key: each event is the last under its key.
pub proof fn lemma_id_events_keep_apart(changes: ChangesView, at: int)
    requires
        ascending(changes.members),
        files_named_users(changes),
        files_ids(changes),
        0 <= at < changes.members.len(),
    ensures
        is_last_event(changes, at),
{
    let members = changes.members;
    assert forall|later: int| at < later < members.len() implies #[trigger] member_key_at(
        members,
        later,
    ) != member_key_at(members, at) by {
        lemma_key_order_total(members[at].0, members[later].0);
        assert(members[at].0.below(members[later].0));
        if member_key_at(members, later) == member_key_at(members, at) {
            lemma_ids_keep_keys_apart(
                members[later].0.outer,
                members[later].1.state_key,
                members[at].0.outer,
                members[at].1.state_key,
            );
        }
    }
}

/// Membership follows the event: once a batch of events for ids is
/// committed, each of its events decides, whatever the store held before,
/// where its user is listed for its room: as joined and not as invited for
/// a `Join`, as invited and not as joined for an `Invite`, and otherwise in
/// neither index.
pub proof fn lemma_membership_follows_event(store: StoreView, changes: ChangesView, at: int)
    requires
        ascending(changes.members),
        files_named_users(changes),
        files_ids(changes),
        0 <= at < changes.members.len(),
    ensures
        ({
            let room = changes.members[at].0.outer;
            let event = changes.members[at].1;
            let after = store.commit(changes);
            &&& lists(after.joined_user_ids, room, event.state_key) <==> event.membership
                == MembershipState::Join
            &&& lists(after.invited_user_ids, room, event.state_key) <==> event.membership
                == MembershipState::Invite
            &&& lookup(after.members, member_key(room, event.state_key)) == Some(event.encoded)
        }),
{
    lemma_id_events_keep_apart(changes, at);
    lemma_commit_reflects_last_event(store, changes, at);
}

/// The two indices and the member records hold under `key` what the
/// membership event `event` calls for: the user is listed as joined if and
/// only if the membership is `Join`, as invited if and only if it is
/// `Invite`, each time under the user's own id, and the event is the record.
pub open spec fn reflects(store: StoreView, key: Bytes, event: MemberView) -> bool {
    &&& lookup(store.joined_user_ids, key) == if event.membership == MembershipState::Join {
        Some(event.state_key)
    } else {
        None
    }
    &&& lookup(store.invited_user_ids, key) == if event.membership == MembershipState::Invite {
        Some(event.state_key)
    } else {
        None
    }
    &&& lookup(store.members, key) == Some(event.encoded)
}

/// The indices and the member records agree on `key` in two stores.
pub open spec fn same_membership(left: StoreView, right: StoreView, key: Bytes) -> bool {
    &&& lookup(left.joined_user_ids, key) == lookup(right.joined_user_ids, key)
    &&& lookup(left.invited_user_ids, key) == lookup(right.invited_user_ids, key)
    &&& lookup(left.members, key) == lookup(right.members, key)
}

/// No key is in the index of joined users and in that of invited users.
pub open spec fn indices_disjoint(store: StoreView) -> bool {
    forall|key: Bytes|
        !(#[trigger] store.joined_user_ids.contains_key(key) && store.invited_user_ids.contains_key(
            key,
        ))
}

/// Membership after one commit: for the last event that the batch files
/// under a key, the indices and the member records hold what that event
/// calls for, whatever the store held before.
pub proof fn lemma_commit_reflects_last_event(store: StoreView, changes: ChangesView, at: int)
    requires
        is_last_event(changes, at),
    ensures
        reflects(
            store.commit(changes),
            member_key_at(changes.members, at),
            changes.members[at].1,
        ),
{
    let key = member_key_at(changes.members, at);
    let records = member_ops(changes.members);
    let joined = index_ops(changes.members, MembershipState::Join);
    let invited = index_ops(changes.members, MembershipState::Invite);
    assert forall|later: int| at < later < records.len() implies (#[trigger] records[later]).0
        != key by {
        assert(records[later].0 == member_key_at(changes.members, later));
    }
    assert forall|later: int| at < later < joined.len() implies (#[trigger] joined[later]).0
        != key by {
        assert(joined[later].0 == member_key_at(changes.members, later));
    }
    assert forall|later: int| at < later < invited.len() implies (#[trigger] invited[later]).0
        != key by {
        assert(invited[later].0 == member_key_at(changes.members, later));
    }
    lemma_stage_last_write(Map::empty(), records, key, at);
    lemma_stage_last_write(Map::empty(), joined, key, at);
    lemma_stage_last_write(Map::empty(), invited, key, at);
}

/// A commit leaves the membership under a key alone that no event of the
/// batch is filed under.
pub proof fn lemma_commit_keeps_untouched(store: StoreView, changes: ChangesView, key: Bytes)
    requires
        !touches(changes, key),
    ensures
        same_membership(store.commit(changes), store, key),
{
    let records = member_ops(changes.members);
    let joined = index_ops(changes.members, MembershipState::Join);
    let invited = index_ops(changes.members, MembershipState::Invite);
    assert forall|at: int| 0 <= at < changes.members.len() implies member_key_at(
        changes.members,
        at,
    ) != key by {
        assert(member_key_at(changes.members, at) == member_key_at(changes.members, at));
    }
    assert(!is_written(records, key)) by {
        if is_written(records, key) {
            let at = choose|at: int| 0 <= at < records.len() && (#[trigger] records[at]).0 == key;
            assert(records[at].0 == member_key_at(changes.members, at));
        }
    }
    assert(!is_written(joined, key)) by {
        if is_written(joined, key) {
            let at = choose|at: int| 0 <= at < joined.len() && (#[trigger] joined[at]).0 == key;
            assert(joined[at].0 == member_key_at(changes.members, at));
        }
    }
    assert(!is_written(invited, key)) by {
        if is_written(invited, key) {
            let at = choose|at: int| 0 <= at < invited.len() && (#[trigger] invited[at]).0 == key;
            assert(invited[at].0 == member_key_at(changes.members, at));
        }
    }
    lemma_stage_unwritten(Map::empty(), records, key);
    lemma_stage_unwritten(Map::empty(), joined, key);
    lemma_stage_unwritten(Map::empty(), invited, key);
}

/// Where a batch files an event under a key, one of them is the last.
pub proof fn lemma_last_event_exists(changes: ChangesView, key: Bytes)
    requires
        touches(changes, key),
    ensures
        exists|at: int|
            is_last_event(changes, at) && #[trigger] member_key_at(changes.members, at) == key,
{
    let records = member_ops(changes.members);
    let some = choose|at: int|
        0 <= at < changes.members.len() && #[trigger] member_key_at(changes.members, at) == key;
    assert(records[some].0 == key);
    lemma_last_write_exists(records, key);
    let at = choose|at: int| is_last_write(records, key, at);
    assert forall|later: int| at < later < changes.members.len() implies #[trigger] member_key_at(
        changes.members,
        later,
    ) != member_key_at(changes.members, at) by {
        assert(records[later].0 == member_key_at(changes.members, later));
    }
    assert(is_last_event(changes, at) && member_key_at(changes.members, at) == key);
}

/// A commit keeps the two indices disjoint: no user is listed as joined and
/// as invited under one key.
pub proof fn lemma_commit_keeps_indices_disjoint(store: StoreView, changes: ChangesView)
    requires
        indices_disjoint(store),
    ensures
        indices_disjoint(store.commit(changes)),
{
    let after = store.commit(changes);
    assert forall|key: Bytes|
        !(#[trigger] after.joined_user_ids.contains_key(key) && after.invited_user_ids.contains_key(
            key,
        )) by {
        if touches(changes, key) {
            lemma_last_event_exists(changes, key);
            let at = choose|at: int|
                is_last_event(changes, at) && #[trigger] member_key_at(changes.members, at) == key;
            lemma_commit_reflects_last_event(store, changes, at);
        } else {
            lemma_commit_keeps_untouched(store, changes, key);
            assert(!(store.joined_user_ids.contains_key(key) && store.invited_user_ids.contains_key(
                key,
            )));
        }
    }
}

/// The store once the batches have been committed, one after the other.
pub open spec fn commit_all(store: StoreView, batches: Seq<ChangesView>) -> StoreView
    decreases batches.len(),
{
    if batches.len() == 0 {
        store
    } else {
        commit_all(store, batches.drop_last()).commit(batches.last())
    }
}

/// Membership after any sequence of commits: the indices and the member
/// records hold under a key what the most recent event filed under it calls
/// for. That event is the last one under its key in batch `n`, and no later
/// batch files an event under the key.
pub proof fn lemma_membership_after_commits(
    store: StoreView,
    batches: Seq<ChangesView>,
    n: int,
    at: int,
)
    requires
        0 <= n < batches.len(),
        is_last_event(batches[n], at),
        forall|m: int|
            n < m < batches.len() ==> !touches(
                #[trigger] batches[m],
                member_key_at(batches[n].members, at),
            ),
    ensures
        reflects(
            commit_all(store, batches),
            member_key_at(batches[n].members, at),
            batches[n].members[at].1,
        ),
    decreases batches.len(),
{
    let key = member_key_at(batches[n].members, at);
    let init = batches.drop_last();
    let before = commit_all(store, init);
    if n == batches.len() - 1 {
        lemma_commit_reflects_last_event(before, batches.last(), at);
    } else {
        assert(init[n] == batches[n]);
        assert forall|m: int| n < m < init.len() implies !touches(#[trigger] init[m], key) by {
            assert(init[m] == batches[m]);
        }
        lemma_membership_after_commits(store, init, n, at);
        assert(batches.last() == batches[batches.len() - 1]);
        lemma_commit_keeps_untouched(before, batches.last(), key);
    }
}

/// The batch has an event that is filed for `room` and names `user`.
pub open spec fn has_event_for(changes: ChangesView, room: Bytes, user: Bytes) -> bool {
    exists|i: int|
        0 <= i < changes.members.len() && (#[trigger] changes.members[i]).0.outer == room
            && changes.members[i].1.state_key == user
}

/// Membership follows the latest event: after any sequence of commits of
/// batches of events for ids, the indices and the member records hold for
/// a room and a user what the most recent event for the two calls for.
/// That event is at position `at` of batch `n`, and no later batch has an
/// event for the room and the user.
pub proof fn lemma_membership_follows_latest_event(
    store: StoreView,
    batches: Seq<ChangesView>,
    n: int,
    at: int,
)
    requires
        forall|m: int|
            0 <= m < batches.len() ==> ascending((#[trigger] batches[m]).members)
                && files_named_users(batches[m]) && files_ids(batches[m]),
        0 <= n < batches.len(),
        0 <= at < batches[n].members.len(),
        forall|m: int|
            n < m < batches.len() ==> !has_event_for(
                #[trigger] batches[m],
                batches[n].members[at].0.outer,
                batches[n].members[at].1.state_key,
            ),
    ensures
        reflects(
            commit_all(store, batches),
            member_key_at(batches[n].members, at),
            batches[n].members[at].1,
        ),
{
    let room = batches[n].members[at].0.outer;
    let user = batches[n].members[at].1.state_key;
    let key = member_key(room, user);
    lemma_id_events_keep_apart(batches[n], at);
    assert forall|m: int| n < m < batches.len() implies !touches(#[trigger] batches[m], key) by {
        if touches(batches[m], key) {
            let i = choose|i: int|
                0 <= i < batches[m].members.len() && #[trigger] member_key_at(
                    batches[m].members,
                    i,
                ) == key;
            lemma_ids_keep_keys_apart(
                batches[m].members[i].0.outer,
                batches[m].members[i].1.state_key,
                room,
                user,
            );
            assert(has_event_for(batches[m], room, user));
        }
    }
    lemma_membership_after_commits(store, batches, n, at);
}

/// After any sequence of commits no user is listed as joined and as invited
/// under one key, if none was before.
pub proof fn lemma_indices_disjoint_after_commits(store: StoreView, batches: Seq<ChangesView>)
    requires
        indices_disjoint(store),
    ensures
        indices_disjoint(commit_all(store, batches)),
    decreases batches.len(),
{
    if batches.len() > 0 {
        lemma_indices_disjoint_after_commits(store, batches.drop_last());
        lemma_commit_keeps_indices_disjoint(
            commit_all(store, batches.drop_last()),
            batches.last(),
        );
    }
}

/// The entries filed for a room are those of the entries at hand whose key
/// is the room's id with the entry's value behind it.
pub proof fn lemma_of_room(found: Seq<(Bytes, Bytes)>, room: Bytes)
    ensures
        forall|i: int|
            0 <= i < of_room(found, room).len() ==> {
                &&& found.contains(#[trigger] of_room(found, room)[i])
                &&& of_room(found, room)[i].0 == member_key(room, of_room(found, room)[i].1)
            },
        forall|i: int|
            0 <= i < found.len() && (#[trigger] found[i]).0 == member_key(room, found[i].1)
                ==> of_room(found, room).contains(found[i]),
    decreases found.len(),
{
    if found.len() > 0 {
        let init = found.drop_last();
        let own = of_room(found, room);
        let last = found.last();
        lemma_of_room(init, room);
        assert forall|i: int| 0 <= i < own.len() implies found.contains(#[trigger] own[i])
            && own[i].0 == member_key(room, own[i].1) by {
            if i < of_room(init, room).len() {
                assert(own[i] == of_room(init, room)[i]);
                let k = choose|k: int| 0 <= k < init.len() && init[k] == own[i];
                assert(found[k] == own[i]);
            } else {
                assert(own[i] == last);
                assert(found[found.len() - 1] == last);
            }
        }
        assert forall|i: int|
            0 <= i < found.len() && (#[trigger] found[i]).0 == member_key(
                room,
                found[i].1,
            ) implies own.contains(found[i]) by {
            if i < init.len() {
                assert(init[i] == found[i]);
                let k = choose|k: int|
                    0 <= k < of_room(init, room).len() && of_room(init, room)[k] == found[i];
                assert(own[k] == found[i]);
            } else {
                assert(own[own.len() - 1] == found[i]);
            }
        }
    }
}

/// The entries filed for a room stand in ascending order of their keys, as
/// the entries at hand do.
pub proof fn lemma_of_room_ascending(found: Seq<(Bytes, Bytes)>, room: Bytes)
    requires
        forall|i: int, j: int|
            0 <= i < j < found.len() ==> bytes_lt((#[trigger] found[i]).0, (#[trigger] found[j]).0),
    ensures
        forall|i: int, j: int|
            0 <= i < j < of_room(found, room).len() ==> bytes_lt(
                (#[trigger] of_room(found, room)[i]).0,
                (#[trigger] of_room(found, room)[j]).0,
            ),
    decreases found.len(),
{
    if found.len() > 0 {
        let init = found.drop_last();
        let own = of_room(found, room);
        let before = of_room(init, room);
        assert forall|i: int, j: int| 0 <= i < j < init.len() implies bytes_lt(
            (#[trigger] init[i]).0,
            (#[trigger] init[j]).0,
        ) by {
            assert(init[i] == found[i] && init[j] == found[j]);
        }
        lemma_of_room_ascending(init, room);
        lemma_of_room(init, room);
        assert forall|i: int, j: int| 0 <= i < j < own.len() implies bytes_lt(
            (#[trigger] own[i]).0,
            (#[trigger] own[j]).0,
        ) by {
            assert(own[i] == before[i]);
            if j < before.len() {
                assert(own[j] == before[j]);
            } else {
                assert(own[j] == found.last());
                let k = choose|k: int| 0 <= k < init.len() && init[k] == before[i];
                assert(found[k] == before[i]);
                assert(found[found.len() - 1] == found.last());
            }
        }
    }
}

/// What a read of an index gives for a room, both ways: a user is among the
/// entries filed for the room, of those that a scan for the room's id finds,
/// if and only if the index lists the user for the room.
pub proof fn lemma_listed_users(
    index: Entries,
    room: Bytes,
    found: Seq<(Bytes, Bytes)>,
    user: Bytes,
)
    requires
        is_scan_of(index, room, found),
    ensures
        lists(index, room, user) <==> exists|i: int|
            0 <= i < of_room(found, room).len() && (#[trigger] of_room(found, room)[i]).1 == user,
{
    let own = of_room(found, room);
    let key = member_key(room, user);
    lemma_of_room(found, room);
    if lists(index, room, user) {
        assert(room.is_prefix_of(key)) by {
            assert(room =~= key.subrange(0, room.len() as int));
        }
        assert(index.contains_key(key));
        let k = choose|k: int| 0 <= k < found.len() && (#[trigger] found[k]).0 == key;
        assert(found[k].1 == user);
        assert(own.contains(found[k]));
        let i = choose|i: int| 0 <= i < own.len() && own[i] == found[k];
        assert(own[i].1 == user);
    }
    if exists|i: int| 0 <= i < own.len() && (#[trigger] own[i]).1 == user {
        let i = choose|i: int| 0 <= i < own.len() && (#[trigger] own[i]).1 == user;
        assert(found.contains(own[i]));
        let k = choose|k: int| 0 <= k < found.len() && found[k] == own[i];
        assert(found[k].0 == key);
    }
}

/// A read of an index gives no user twice for a room.
pub proof fn lemma_listed_once(index: Entries, room: Bytes, found: Seq<(Bytes, Bytes)>)
    requires
        is_scan_of(index, room, found),
    ensures
        forall|i: int, j: int|
            0 <= i < j < of_room(found, room).len() ==> (#[trigger] of_room(found, room)[i]).1 != (
            #[trigger] of_room(found, room)[j]).1,
{
    let own = of_room(found, room);
    lemma_of_room(found, room);
    lemma_of_room_ascending(found, room);
    assert forall|i: int, j: int| 0 <= i < j < own.len() implies (#[trigger] own[i]).1 != (
    #[trigger] own[j]).1 by {
        lemma_bytes_lt_total(own[i].0, own[j].0);
    }
}

/// Prefix isolation: a read of an index for one room gives no entry that is
/// filed for another room, whatever the two ids have in common.
pub proof fn lemma_prefix_isolation(
    index: Entries,
    room: Bytes,
    other: Bytes,
    found: Seq<(Bytes, Bytes)>,
)
    requires
        is_scan_of(index, room, found),
        other != room,
    ensures
        forall|i: int|
            0 <= i < of_room(found, room).len() ==> (#[trigger] of_room(found, room)[i]).0
                != member_key(other, of_room(found, room)[i].1),
{
    let own = of_room(found, room);
    lemma_of_room(found, room);
    assert forall|i: int| 0 <= i < own.len() implies (#[trigger] own[i]).0 != member_key(
        other,
        own[i].1,
    ) by {
        if own[i].0 == member_key(other, own[i].1) {
            lemma_member_keys_of_rooms(room, other, own[i].1);
        }
    }
}

/// The same user under two rooms gives two member keys.
pub proof fn lemma_member_keys_of_rooms(room: Bytes, other: Bytes, user: Bytes)
    requires
        room != other,
    ensures
        member_key(room, user) != member_key(other, user),
{
    if member_key(room, user) == member_key(other, user) {
        assert(member_key(room, user).len() == room.len() + user.len());
        assert(member_key(other, user).len() == other.len() + user.len());
        lemma_member_key_unambiguous(room, user, other, user);
    }
}

/// A user who joins one room and is invited to another, and then leaves the
/// first. On a store without entries, a first batch files for the user a
/// `Join` in `one` and an `Invite` in `two`: the user, and nobody else, is
/// then listed as joined to `one` and as invited to `two`, and nobody as
/// invited to `one` or joined to `two`. A second batch files for the user
/// an event in `one` that is neither `Join` nor `Invite`: nobody is then
/// listed for `one`, and `two` is as it was.
pub proof fn lemma_join_invite_then_leave(
    one: Bytes,
    two: Bytes,
    user: Bytes,
    join: MemberView,
    invite: MemberView,
    leave: MemberView,
    first: ChangesView,
    second: ChangesView,
)
    requires
        one != two,
        join.state_key == user && join.membership == MembershipState::Join,
        invite.state_key == user && invite.membership == MembershipState::Invite,
        leave.state_key == user && leave.membership != MembershipState::Join && leave.membership
            != MembershipState::Invite,
        first == (ChangesView {
            members: upsert(
                upsert(Seq::empty(), key_of_two(one, user), join),
                key_of_two(two, user),
                invite,
            ),
            ..ChangesView::empty()
        }),
        second == (ChangesView {
            members: upsert(Seq::empty(), key_of_two(one, user), leave),
            ..ChangesView::empty()
        }),
    ensures
        ({
            let after = StoreView::empty().commit(first);
            let last = after.commit(second);
            &&& forall|x: Bytes| #[trigger] lists(after.joined_user_ids, one, x) <==> x == user
            &&& forall|x: Bytes| !#[trigger] lists(after.invited_user_ids, one, x)
            &&& forall|x: Bytes| !#[trigger] lists(after.joined_user_ids, two, x)
            &&& forall|x: Bytes| #[trigger] lists(after.invited_user_ids, two, x) <==> x == user
            &&& forall|x: Bytes| !#[trigger] lists(last.joined_user_ids, one, x)
            &&& forall|x: Bytes| !#[trigger] lists(last.invited_user_ids, one, x)
            &&& forall|x: Bytes| !#[trigger] lists(last.joined_user_ids, two, x)
            &&& forall|x: Bytes| #[trigger] lists(last.invited_user_ids, two, x) <==> x == user
        }),
{
    let empty = StoreView::empty();
    let after = empty.commit(first);
    let last = after.commit(second);
    let k1 = key_of_two(one, user);
    let k2 = key_of_two(two, user);
    let key1 = member_key(one, user);
    let key2 = member_key(two, user);
    lemma_member_keys_of_rooms(one, two, user);

    reveal_with_fuel(place, 3);
    let single = upsert(Seq::<(KeyView, MemberView)>::empty(), k1, join);
    assert(single =~= seq![(k1, join)]);
    lemma_key_order_total(k1, k2);
    let at1: int = if k1.below(k2) { 0 } else { 1 };
    let at2: int = 1 - at1;
    if k1.below(k2) {
        assert(place(single, k2) == 1);
        assert(first.members =~= seq![(k1, join), (k2, invite)]);
    } else {
        assert(place(single, k2) == 0);
        assert(first.members =~= seq![(k2, invite), (k1, join)]);
    }
    assert(first.members.len() == 2);
    assert(first.members[at1] == (k1, join));
    assert(first.members[at2] == (k2, invite));
    assert(member_key_at(first.members, at1) == key1);
    assert(member_key_at(first.members, at2) == key2);
    assert(is_last_event(first, at1));
    assert(is_last_event(first, at2));
    lemma_commit_reflects_last_event(empty, first, at1);
    lemma_commit_reflects_last_event(empty, first, at2);

    assert(second.members =~= seq![(k1, leave)]);
    assert(member_key_at(second.members, 0) == key1);
    assert(is_last_event(second, 0));
    lemma_commit_reflects_last_event(after, second, 0);

    assert forall|room: Bytes, x: Bytes| room == one || room == two implies {
        &&& lists(after.joined_user_ids, room, x) <==> room == one && x == user
        &&& lists(after.invited_user_ids, room, x) <==> room == two && x == user
        &&& !lists(last.joined_user_ids, room, x)
        &&& lists(last.invited_user_ids, room, x) <==> room == two && x == user
    } by {
        let key = member_key(room, x);
        if x == user {
            assert(key == if room == one { key1 } else { key2 });
        } else {
            if key == key1 {
                if room == one {
                    lemma_member_key_unambiguous(room, x, one, user);
                }
            }
            if key == key2 {
                if room == two {
                    lemma_member_key_unambiguous(room, x, two, user);
                }
            }
        }
        if key != key1 && key != key2 {
            assert(!touches(first, key)) by {
                if touches(first, key) {
                    let at = choose|at: int|
                        0 <= at < first.members.len() && #[trigger] member_key_at(
                            first.members,
                            at,
                        ) == key;
                    assert(at == at1 || at == at2);
                }
            }
            lemma_commit_keeps_untouched(empty, first, key);
        }
        if key != key1 {
            assert(!touches(second, key)) by {
                if touches(second, key) {
                    let at = choose|at: int|
                        0 <= at < second.members.len() && #[trigger] member_key_at(
                            second.members,
                            at,
                        ) == key;
                    assert(at == 0);
                }
            }
            lemma_commit_keeps_untouched(after, second, key);
        }
    }
    assert forall|x: Bytes| #[trigger] lists(after.joined_user_ids, one, x) <==> x == user by {
        assert(one == one || one == two);
    }
    assert forall|x: Bytes| !#[trigger] lists(after.invited_user_ids, one, x) by {
        assert(one == one || one == two);
    }
    assert forall|x: Bytes| !#[trigger] lists(after.joined_user_ids, two, x) by {
        assert(two == one || two == two);
    }
    assert forall|x: Bytes| #[trigger] lists(after.invited_user_ids, two, x) <==> x == user by {
        assert(two == one || two == two);
    }
    assert forall|x: Bytes| !#[trigger] lists(last.joined_user_ids, one, x) by {
        assert(one == one || one == two);
    }
    assert forall|x: Bytes| !#[trigger] lists(last.invited_user_ids, one, x) by {
        assert(one == one || one == two);
    }
    assert forall|x: Bytes| !#[trigger] lists(last.joined_user_ids, two, x) by {
        assert(two == one || two == two);
    }
    assert forall|x: Bytes| #[trigger] lists(last.invited_user_ids, two, x) <==> x == user by {
        assert(two == one || two == two);
    }
}

/// Member keys tell rooms and users apart where the rooms' ids are of one
/// length: two keys are then equal only for the same room and the same user.
pub proof fn lemma_member_key_unambiguous(room: Bytes, user: Bytes, other: Bytes, whom: Bytes)
    requires
        room.len() == other.len(),
        member_key(room, user) == member_key(other, whom),
    ensures
        room == other,
        user == whom,
{
    let left = member_key(room, user);
    let right = member_key(other, whom);
    assert(room =~= left.subrange(0, room.len() as int));
    assert(other =~= right.subrange(0, other.len() as int));
    assert(user =~= left.subrange(room.len() as int, left.len() as int));
    assert(whom =~= right.subrange(other.len() as int, right.len() as int));
}

} // verus!
