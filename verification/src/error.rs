//! What can go wrong in the store.

use vstd::prelude::*;

verus! {

/// The ways in which an operation of the store fails. That a key has no
/// record is no failure: a read then returns `None`.
#[derive(Clone, Copy, Debug, PartialEq, Eq, Structural)]
pub enum StoreError {
    /// The storage engine reported a failure. From a commit this means that
    /// the engine failed before it wrote anything of the batch.
    Storage,
    /// A value is not what it has to be: a persisted value that is not UTF-8
    /// where text is kept, or no user id where a user is named.
    Encoding,
    /// The engine failed while it wrote a batch of changes: the store may
    /// hold a part of the batch.
    Interrupted,
    /// The engine committed a batch of changes and then failed to write it
    /// to disk: the store holds the batch, and may lose it if the process
    /// stops.
    Unflushed,
}

/// How a transaction of the engine failed.
#[derive(Clone, Copy, Debug, PartialEq, Eq, Structural)]
pub enum CommitFailure {
    /// The transaction was given up while its writes were gathered: the
    /// engine wrote none of them.
    Aborted,
    /// The engine failed on its own part of the transaction: it may have
    /// written some of what was gathered.
    Stopped,
}

/// The engine's verdict on a transaction as the store reports it: `Storage`
/// where nothing was written, `Interrupted` where a part may have been.
pub fn commit_result(raw: Result<(), CommitFailure>) -> (r: Result<(), StoreError>)
    ensures
        match raw {
            Ok(()) => r == Ok::<(), StoreError>(()),
            Err(CommitFailure::Aborted) => r == Err::<(), StoreError>(StoreError::Storage),
            Err(CommitFailure::Stopped) => r == Err::<(), StoreError>(StoreError::Interrupted),
        },
{
    match raw {
        Ok(()) => Ok(()),
        Err(CommitFailure::Aborted) => Err(StoreError::Storage),
        Err(CommitFailure::Stopped) => Err(StoreError::Interrupted),
    }
}

/// The engine's verdict on an operation as the store reports it: its value
/// where it succeeded, `Storage` where it failed.
pub fn storage_result<T>(raw: Result<T, sled::Error>) -> (r: Result<T, StoreError>)
    ensures
        match raw {
            Ok(value) => r == Ok::<T, StoreError>(value),
            Err(_) => r == Err::<T, StoreError>(StoreError::Storage),
        },
{
    match raw {
        Ok(value) => Ok(value),
        Err(_) => Err(StoreError::Storage),
    }
}

/// The engine's verdict on writing to disk what a commit has left pending,
/// as the store reports it: `Unflushed` where it failed.
pub fn flush_result(raw: Result<usize, sled::Error>) -> (r: Result<(), StoreError>)
    ensures
        match raw {
            Ok(_) => r == Ok::<(), StoreError>(()),
            Err(_) => r == Err::<(), StoreError>(StoreError::Unflushed),
        },
{
    match raw {
        Ok(_) => Ok(()),
        Err(_) => Err(StoreError::Unflushed),
    }
}

} // verus!
