//! From a batch of changes to the engine's batches: one batch of writes for
//! each region, filled in the order of the tables' entries.

use vstd::prelude::*;

use crate::changes::{member_records, records, StateChanges};
use crate::engine::{batch_insert, batch_new, batch_remove, batch_writes};
use crate::events::{MemberEvent, MembershipState, Session};
use crate::model::{index_ops, member_ops, record_ops, session_key, session_ops, stage, Op};
use crate::regions::Batches;
use crate::table::Table;

verus! {

/// Staging one write more is staging the writes before it and then that one.
proof fn lemma_stage_next(writes: crate::model::Writes, ops: Seq<Op>, done: int)
    requires
        0 <= done < ops.len(),
    ensures
        stage(writes, ops.take(done + 1)) == stage(writes, ops.take(done)).insert(
            ops[done].0,
            ops[done].1,
        ),
{
    assert(ops.take(done + 1).drop_last() =~= ops.take(done));
}

/// The key under which the session is filed, as bytes.
pub fn session_key_bytes() -> (key: Vec<u8>)
    ensures
        key@ == session_key(),
{
    vstd::slice::slice_to_vec("session".as_bytes())
}

/// Stages the write of the session, if the batch of changes has one.
pub(crate) fn stage_session(batch: &mut sled::Batch, session: &Option<Session>)
    ensures
        batch_writes(*final(batch)) == stage(
            batch_writes(*old(batch)),
            session_ops(
                match *session {
                    Some(s) => Some(s@),
                    None => None,
                },
            ),
        ),
{
    match session {
        Some(s) => {
            let key = session_key_bytes();
            batch_insert(batch, key.as_slice(), s.encoded.as_slice());
            proof {
                let ops = session_ops(Some(s@));
                assert(ops.drop_last() =~= Seq::<Op>::empty());
                assert(stage(batch_writes(*old(batch)), ops.drop_last()) == batch_writes(
                    *old(batch),
                ));
            }
        },
        None => {},
    }
}

/// Stages the records of one table: each is set under the parts of its key
/// run together.
pub(crate) fn stage_records(batch: &mut sled::Batch, table: &Table<Vec<u8>>)
    ensures
        batch_writes(*final(batch)) == stage(
            batch_writes(*old(batch)),
            record_ops(records(table@)),
        ),
{
    let ghost ops = record_ops(records(table@));
    let ghost start = batch_writes(*batch);
    let mut at: usize = 0;
    while at < table.len()
        invariant
            at <= table@.len(),
            ops == record_ops(records(table@)),
            batch_writes(*batch) == stage(start, ops.take(at as int)),
        decreases table@.len() - at,
    {
        let key = table.key_at(at).joined();
        batch_insert(batch, key.as_slice(), table.value_at(at).as_slice());
        proof {
            lemma_stage_next(start, ops, at as int);
        }
        at += 1;
    }
    assert(ops.take(at as int) =~= ops);
}

/// Stages the membership events: each event is set among the member records,
/// and the user that it names is listed in the index that its membership
/// calls for and taken out of the other, or out of both.
pub(crate) fn stage_members(
    members: &mut sled::Batch,
    joined: &mut sled::Batch,
    invited: &mut sled::Batch,
    table: &Table<MemberEvent>,
)
    ensures
        batch_writes(*final(members)) == stage(
            batch_writes(*old(members)),
            member_ops(member_records(table@)),
        ),
        batch_writes(*final(joined)) == stage(
            batch_writes(*old(joined)),
            index_ops(member_records(table@), MembershipState::Join),
        ),
        batch_writes(*final(invited)) == stage(
            batch_writes(*old(invited)),
            index_ops(member_records(table@), MembershipState::Invite),
        ),
{
    let ghost records_ops = member_ops(member_records(table@));
    let ghost joined_ops = index_ops(member_records(table@), MembershipState::Join);
    let ghost invited_ops = index_ops(member_records(table@), MembershipState::Invite);
    let ghost members_start = batch_writes(*members);
    let ghost joined_start = batch_writes(*joined);
    let ghost invited_start = batch_writes(*invited);
    let mut at: usize = 0;
    while at < table.len()
        invariant
            at <= table@.len(),
            records_ops == member_ops(member_records(table@)),
            joined_ops == index_ops(member_records(table@), MembershipState::Join),
            invited_ops == index_ops(member_records(table@), MembershipState::Invite),
            batch_writes(*members) == stage(members_start, records_ops.take(at as int)),
            batch_writes(*joined) == stage(joined_start, joined_ops.take(at as int)),
            batch_writes(*invited) == stage(invited_start, invited_ops.take(at as int)),
        decreases table@.len() - at,
    {
        let event = table.value_at(at);
        let user = event.state_key.as_str().as_bytes();
        let key = crate::bytes::join(table.key_at(at).outer.as_slice(), user);
        match event.membership {
            MembershipState::Join => {
                batch_insert(joined, key.as_slice(), user);
                batch_remove(invited, key.as_slice());
            },
            MembershipState::Invite => {
                batch_insert(invited, key.as_slice(), user);
                batch_remove(joined, key.as_slice());
            },
            _ => {
                batch_remove(joined, key.as_slice());
                batch_remove(invited, key.as_slice());
            },
        }
        batch_insert(members, key.as_slice(), event.encoded.as_slice());
        proof {
            lemma_stage_next(members_start, records_ops, at as int);
            lemma_stage_next(joined_start, joined_ops, at as int);
            lemma_stage_next(invited_start, invited_ops, at as int);
        }
        at += 1;
    }
    assert(records_ops.take(at as int) =~= records_ops);
    assert(joined_ops.take(at as int) =~= joined_ops);
    assert(invited_ops.take(at as int) =~= invited_ops);
}

/// The engine's batches for a batch of changes: for each region the writes
/// that the changes stage for it.
pub fn stage_changes(changes: &StateChanges) -> (batches: Batches)
    ensures
        batches@ == changes@.staged(),
{
    let mut batches = Batches {
        session: batch_new(),
        account_data: batch_new(),
        members: batch_new(),
        joined_user_ids: batch_new(),
        invited_user_ids: batch_new(),
        room_info: batch_new(),
        room_state: batch_new(),
        room_account_data: batch_new(),
        stripped_room_info: batch_new(),
        stripped_room_state: batch_new(),
        stripped_members: batch_new(),
        presence: batch_new(),
    };
    stage_session(&mut batches.session, &changes.session);
    stage_members(
        &mut batches.members,
        &mut batches.joined_user_ids,
        &mut batches.invited_user_ids,
        &changes.members,
    );
    stage_records(&mut batches.account_data, &changes.account_data);
    stage_records(&mut batches.room_account_data, &changes.room_account_data);
    stage_records(&mut batches.room_state, &changes.state);
    stage_records(&mut batches.room_info, &changes.room_infos);
    stage_records(&mut batches.presence, &changes.presence);
    stage_records(&mut batches.stripped_room_info, &changes.invited_room_info);
    stage_records(&mut batches.stripped_members, &changes.stripped_members);
    stage_records(&mut batches.stripped_room_state, &changes.stripped_state);
    batches
}

} // verus!
