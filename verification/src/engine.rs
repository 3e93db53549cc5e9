//! The storage engine and the other outside code, as far as the store uses
//! them. Nothing in this file is proved but `write_batches` and its lemma:
//! each contract records what the named outside function is taken to do.
//!
//! What a tree holds is spoken of as a value of the tree (`tree_map`). A tree
//! is a handle, and clones of it share their entries, so this holds only
//! while one owner writes: the store keeps its trees to itself, clones none
//! of them, and writes through `&mut` alone.

use vstd::prelude::*;
use vstd::utf8::{encode_utf8, valid_utf8};

use crate::bytes::Bytes;
use crate::error::CommitFailure;
use crate::model::{
    held_under, is_scan_of, keeps_nothing, lookup, merge, option_bytes, partly_merged, Writes,
    WritesView,
};
use crate::regions::{Batches, Regions};
use matrix_sdk_common::identifiers::UserId;
use sled::transaction::{
    ConflictableTransactionError, TransactionError, TransactionalTree,
    UnabortableTransactionError,
};
use sled::Transactional;

verus! {

/// `sled::Db`: the handle to a database.
#[verifier::external_type_specification]
#[verifier::external_body]
pub struct ExDb(sled::Db);

/// `sled::Tree`: the handle to one keyspace of a database.
#[verifier::external_type_specification]
#[verifier::external_body]
pub struct ExTree(sled::Tree);

/// `sled::Batch`: writes gathered for one tree.
#[verifier::external_type_specification]
#[verifier::external_body]
pub struct ExBatch(sled::Batch);

/// `sled::Error`: a failure of the engine.
#[verifier::external_type_specification]
#[verifier::external_body]
pub struct ExEngineError(sled::Error);

/// `sled::transaction::TransactionalTree`: one tree as a running transaction
/// sees it.
#[verifier::external_type_specification]
#[verifier::external_body]
pub struct ExTransactionalTree(sled::transaction::TransactionalTree);

/// `sled::transaction::ConflictableTransactionError`: what the closure of a
/// transaction fails with.
#[verifier::external_type_specification]
#[verifier::external_body]
#[verifier::reject_recursive_types(T)]
pub struct ExConflictableTransactionError<T>(sled::transaction::ConflictableTransactionError<T>);

/// The entries of a `sled::Tree`: which keys it holds, and the value under each.
pub uninterp spec fn tree_map(tree: sled::Tree) -> Map<Bytes, Bytes>;

/// What a `sled::Db` keeps under each tree name: the entries of the tree of
/// that name. It speaks for a name until the tree of that name is opened;
/// from then on the tree's handle does (`tree_map`).
pub uninterp spec fn db_held(db: sled::Db) -> Map<Bytes, Map<Bytes, Bytes>>;

/// The directory in which a `sled::Db` lies, as it was given when the
/// database was opened.
pub uninterp spec fn db_directory(db: sled::Db) -> Seq<char>;

/// What `std::path::Path::join` makes of a directory `root` and a path
/// `child` within it, as text.
pub uninterp spec fn joined_path(root: Seq<char>, child: Seq<char>) -> Seq<char>;

/// The name of a `sled::Tree`, as `sled::Tree::name` gives it: the name under
/// which the database keeps the tree.
pub uninterp spec fn tree_name(tree: sled::Tree) -> Bytes;

/// The writes that a running transaction holds for one tree and has not yet
/// committed: `Some` value for a key that it sets, `None` for a key that it
/// removes.
pub uninterp spec fn tx_writes(view: sled::transaction::TransactionalTree) -> Map<
    Bytes,
    Option<Bytes>,
>;

/// The writes that a `sled::Batch` holds: `Some` value for a key that it sets,
/// `None` for a key that it removes.
pub uninterp spec fn batch_writes(batch: sled::Batch) -> Map<Bytes, Option<Bytes>>;

/// The writes of a batch that holds none.
pub open spec fn no_writes() -> Writes {
    Map::empty()
}

/// `sled::Batch::default`: a batch that holds no write.
#[verifier::external_body]
pub(crate) fn batch_new() -> (fresh: sled::Batch)
    ensures
        batch_writes(fresh) == no_writes(),
{
    sled::Batch::default()
}

/// `sled::Batch::insert`: the batch then sets `key` to `value`, whatever it
/// held for `key` before, and holds its other writes as before.
#[verifier::external_body]
pub(crate) fn batch_insert(batch: &mut sled::Batch, key: &[u8], value: &[u8])
    ensures
        batch_writes(*final(batch)) == batch_writes(*old(batch)).insert(key@, Some(value@)),
{
    batch.insert(key, value)
}

/// `sled::Batch::remove`: the batch then removes `key`, whatever it held for
/// `key` before, and holds its other writes as before.
#[verifier::external_body]
pub(crate) fn batch_remove(batch: &mut sled::Batch, key: &[u8])
    ensures
        batch_writes(*final(batch)) == batch_writes(*old(batch)).insert(key@, None),
{
    batch.remove(key)
}

/// `sled::Config::open`, for a database that is discarded when it is
/// dropped. The engine makes it in a directory of its own, new for each
/// call: where it succeeds, the database keeps no entry under any name.
#[verifier::external_body]
pub(crate) fn open_temporary() -> (r: Result<sled::Db, sled::Error>)
    ensures
        r matches Ok(db) ==> keeps_nothing(db_held(db)),
{
    sled::Config::new().temporary(true).open()
}

/// `std::path::Path::join`: the path of `child` within the directory `root`,
/// as text.
#[verifier::external_body]
pub(crate) fn path_join(root: &str, child: &str) -> (joined: String)
    ensures
        joined@ == joined_path(root@, child@),
{
    std::path::Path::new(root).join(child).to_string_lossy().into_owned()
}

/// `sled::Config::open`, for a database kept in the directory `path`: where
/// it succeeds, the database lies there.
#[verifier::external_body]
pub(crate) fn open_at(path: &str) -> (r: Result<sled::Db, sled::Error>)
    ensures
        r matches Ok(db) ==> db_directory(db) == path@,
{
    sled::Config::new().temporary(false).path(path).open()
}

/// `sled::Db::open_tree`: where it succeeds, the tree that the database keeps
/// under `name`, with the entries that the database kept under that name,
/// and made without entries if the database lacked it. What the database
/// keeps under other names is as before, and it lies where it lay.
#[verifier::external_body]
pub(crate) fn open_tree(db: &mut sled::Db, name: &str) -> (r: Result<sled::Tree, sled::Error>)
    ensures
        r matches Ok(tree) ==> tree_name(tree) == encode_utf8(name@) && tree_map(tree)
            == held_under(db_held(*old(db)), encode_utf8(name@)),
        db_held(*final(db)).remove(encode_utf8(name@)) == db_held(*old(db)).remove(
            encode_utf8(name@),
        ),
        db_directory(*final(db)) == db_directory(*old(db)),
{
    db.open_tree(name)
}

/// `sled::Tree::get`: where it succeeds, the value under `key`, or `None`
/// where the tree has no such key.
#[verifier::external_body]
pub(crate) fn tree_get(tree: &sled::Tree, key: &[u8]) -> (r: Result<Option<Vec<u8>>, sled::Error>)
    ensures
        r matches Ok(found) ==> option_bytes(found) == lookup(tree_map(*tree), key@),
{
    tree.get(key).map(|found| found.map(|value| value.to_vec()))
}

/// `sled::Tree::insert`: where it succeeds, the tree holds `value` under `key`
/// and is otherwise as before. Where it fails, the engine may have set the
/// value before it failed: the tree is as before, or as before but for
/// `value` under `key`. The tree keeps its name.
#[verifier::external_body]
pub(crate) fn tree_insert(tree: &mut sled::Tree, key: &[u8], value: &[u8]) -> (r: Result<
    (),
    sled::Error,
>)
    ensures
        r is Ok ==> tree_map(*final(tree)) == tree_map(*old(tree)).insert(key@, value@),
        r is Err ==> tree_map(*final(tree)) == tree_map(*old(tree)) || tree_map(*final(tree))
            == tree_map(*old(tree)).insert(key@, value@),
        tree_name(*final(tree)) == tree_name(*old(tree)),
{
    tree.insert(key, value).map(|_| ())
}

/// `sled::Tree::scan_prefix`, run to its end: where no step fails, the entries
/// whose keys begin with `prefix`, in ascending order of the keys.
#[verifier::external_body]
pub(crate) fn tree_scan_prefix(tree: &sled::Tree, prefix: &[u8]) -> (r: Result<
    Vec<(Vec<u8>, Vec<u8>)>,
    sled::Error,
>)
    ensures
        r matches Ok(found) ==> is_scan_of(tree_map(*tree), prefix@, found.deep_view()),
{
    tree.scan_prefix(prefix).map(|step| step.map(|(key, value)| (key.to_vec(), value.to_vec()))).collect()
}

/// `sled::transaction::TransactionalTree::apply_batch`: where it succeeds,
/// the transaction holds for this tree every write of `batch`, on top of
/// what it held. Where it fails it may have taken some of them: for every
/// key it holds what it held or what `batch` has. A failure of the storage
/// is handed on as the error with which a transaction is given up.
#[verifier::external_body]
pub(crate) fn tx_apply(view: &mut TransactionalTree, batch: &sled::Batch) -> (r: Result<
    (),
    ConflictableTransactionError<sled::Error>,
>)
    ensures
        r is Ok ==> tx_writes(*final(view)) == merge(tx_writes(*old(view)), batch_writes(*batch)),
        r is Err ==> partly_merged(
            tx_writes(*old(view)),
            batch_writes(*batch),
            tx_writes(*final(view)),
        ),
{
    match view.apply_batch(batch) {
        Ok(()) => Ok(()),
        Err(UnabortableTransactionError::Conflict) => Err(ConflictableTransactionError::Conflict),
        Err(UnabortableTransactionError::Storage(e)) => Err(ConflictableTransactionError::Abort(e)),
    }
}

/// The twelve trees as a running transaction sees them, in the order of the
/// regions.
pub type TxViews = (
    TransactionalTree,
    TransactionalTree,
    TransactionalTree,
    TransactionalTree,
    TransactionalTree,
    TransactionalTree,
    TransactionalTree,
    TransactionalTree,
    TransactionalTree,
    TransactionalTree,
    TransactionalTree,
    TransactionalTree,
);

/// The writes that a running transaction holds, region by region.
pub open spec fn pending(views: TxViews) -> WritesView {
    WritesView {
        session: tx_writes(views.0),
        account_data: tx_writes(views.1),
        members: tx_writes(views.2),
        joined_user_ids: tx_writes(views.3),
        invited_user_ids: tx_writes(views.4),
        room_info: tx_writes(views.5),
        room_state: tx_writes(views.6),
        room_account_data: tx_writes(views.7),
        stripped_room_info: tx_writes(views.8),
        stripped_room_state: tx_writes(views.9),
        stripped_members: tx_writes(views.10),
        presence: tx_writes(views.11),
    }
}

/// Hands each region's batch to that region's part of a running transaction,
/// and stops at the first that the engine refuses. Where all are taken, the
/// transaction holds for every region the writes of its batch, on top of
/// what it held. Where one is refused, the transaction holds for every key
/// what it held or what its region's batch has.
pub(crate) fn write_batches(views: &mut TxViews, batches: &Batches) -> (r: Result<
    (),
    ConflictableTransactionError<sled::Error>,
>)
    ensures
        r is Ok ==> pending(*final(views)) == pending(*old(views)).merge(batches@),
        r is Err ==> pending(*old(views)).partly(batches@, pending(*final(views))),
{
    proof {
        lemma_merged_is_partly(pending(*views), batches@);
    }
    tx_apply(&mut views.0, &batches.session)?;
    tx_apply(&mut views.1, &batches.account_data)?;
    tx_apply(&mut views.2, &batches.members)?;
    tx_apply(&mut views.3, &batches.joined_user_ids)?;
    tx_apply(&mut views.4, &batches.invited_user_ids)?;
    tx_apply(&mut views.5, &batches.room_info)?;
    tx_apply(&mut views.6, &batches.room_state)?;
    tx_apply(&mut views.7, &batches.room_account_data)?;
    tx_apply(&mut views.8, &batches.stripped_room_info)?;
    tx_apply(&mut views.9, &batches.stripped_room_state)?;
    tx_apply(&mut views.10, &batches.stripped_members)?;
    tx_apply(&mut views.11, &batches.presence)?;
    Ok(())
}

/// Writes that are merged in full are merged in part, and so are writes of
/// which nothing is merged.
pub proof fn lemma_merged_is_partly(before: WritesView, more: WritesView)
    ensures
        before.partly(more, before.merge(more)),
        before.partly(more, before),
{
}

/// `sled::Transactional::transaction` over the twelve trees. A transaction
/// starts with no write held for any tree; the closure has `write_batches`
/// put each region's batch on the transaction's view of its tree (through a
/// clone of the views, which holds the same writes). Where the transaction
/// succeeds, every region has taken all the writes of its batch. Where the
/// closure gives the transaction up, the engine has written nothing, and
/// the regions are as before (`Aborted`). Where the engine fails on its own
/// part, it may have stopped in the middle of writing: every key then holds
/// what it held or what its region's batch sets for it (`Stopped`). The
/// trees keep their names.
#[verifier::external_body]
pub(crate) fn commit_batches(regions: &mut Regions, batches: &Batches) -> (r: Result<
    (),
    CommitFailure,
>)
    ensures
        r is Ok ==> final(regions)@ == old(regions)@.apply(batches@),
        r == Err::<(), CommitFailure>(CommitFailure::Aborted) ==> final(regions)@ == old(regions)@,
        r == Err::<(), CommitFailure>(CommitFailure::Stopped) ==> old(regions)@.partly(
            batches@,
            final(regions)@,
        ),
        final(regions).names() == old(regions).names(),
{
    let trees = (
        &regions.session, &regions.account_data, &regions.members, &regions.joined_user_ids,
        &regions.invited_user_ids, &regions.room_info, &regions.room_state,
        &regions.room_account_data, &regions.stripped_room_info, &regions.stripped_room_state,
        &regions.stripped_members, &regions.presence,
    );
    match trees.transaction(|views| write_batches(&mut views.clone(), batches)) {
        Ok(()) => Ok(()),
        Err(TransactionError::Abort(_)) => Err(CommitFailure::Aborted),
        Err(TransactionError::Storage(_)) => Err(CommitFailure::Stopped),
    }
}

/// `sled::Tree::flush`, through the database handle: writes what is pending
/// to disk and returns the number of bytes written.
#[verifier::external_body]
pub(crate) fn flush(db: &sled::Db) -> (r: Result<usize, sled::Error>) {
    db.flush()
}

/// `String::from_utf8`: the string whose UTF-8 encoding is `bytes`, or `None`
/// where `bytes` is not valid UTF-8.
#[verifier::external_body]
pub(crate) fn string_from_utf8(bytes: &[u8]) -> (r: Option<String>)
    ensures
        r is Some == valid_utf8(bytes@),
        r matches Some(text) ==> encode_utf8(text@) == bytes@,
{
    String::from_utf8(bytes.to_vec()).ok()
}

/// Whether `UserId::try_from` accepts `text` as a Matrix user id.
pub uninterp spec fn user_id_accepted(text: Seq<char>) -> bool;

/// `UserId::try_from`, for its verdict alone.
#[verifier::external_body]
pub(crate) fn is_user_id(text: &str) -> (ok: bool)
    ensures
        ok == user_id_accepted(text@),
{
    UserId::try_from(text).is_ok()
}

} // verus!
