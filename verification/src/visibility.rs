//! Which version of a value a transaction sees.

use vstd::prelude::*;

use crate::values::{GlobalSnapshot, GranuleId, ObjectId, ObjectPayload, TableGranuleSnapshot};

verus! {

/// Why a read or a snapshot failed.
#[derive(Clone, Debug, PartialEq, Eq)]
pub struct TransactionError {
    pub message: String,
}

/// The time of a commit.
pub type CommitTimestamp = u64;

/// The time of the versions that are older than every timed commit.
pub const BASELINE_TIMESTAMP: CommitTimestamp = 0;

/// A policy that decides which version of a value a transaction sees.
///
/// Each read is handed the granule or object to read, the time of the reader's snapshot, and
/// a way to read the current value.
pub trait TransactionVisibility: Clone + core::fmt::Debug + Default {
    /// What a transaction holds while it reads.
    type Snapshot: core::fmt::Debug;

    /// Begins to read.
    fn begin_snapshot(&self) -> Result<Self::Snapshot, TransactionError>;

    /// The time of a snapshot.
    fn snapshot_timestamp(snapshot: &Self::Snapshot) -> CommitTimestamp;

    /// Ends to read.
    fn finish_snapshot(&self, snapshot: Self::Snapshot) -> Result<(), TransactionError>;

    /// The bytes of a memory granule.
    fn read_memory<F>(
        &self,
        snapshot: CommitTimestamp,
        granule: GranuleId,
        current: F,
    ) -> Result<Vec<u8>, TransactionError> where F: FnOnce() -> Result<Vec<u8>, TransactionError>
        requires
            call_requires(current, ()),
    ;

    /// The size of a memory.
    fn read_memory_size<F>(
        &self,
        snapshot: CommitTimestamp,
        granule: GranuleId,
        current: F,
    ) -> Result<u64, TransactionError> where F: FnOnce() -> Result<u64, TransactionError>
        requires
            call_requires(current, ()),
    ;

    /// The value of a global.
    fn read_global<F>(
        &self,
        snapshot: CommitTimestamp,
        granule: GranuleId,
        current: F,
    ) -> Result<GlobalSnapshot, TransactionError> where
        F: FnOnce() -> Result<GlobalSnapshot, TransactionError>,

        requires
            call_requires(current, ()),
    ;

    /// The slots of a table granule.
    fn read_table<F>(
        &self,
        snapshot: CommitTimestamp,
        granule: GranuleId,
        current: F,
    ) -> Result<TableGranuleSnapshot, TransactionError> where
        F: FnOnce() -> Result<TableGranuleSnapshot, TransactionError>,

        requires
            call_requires(current, ()),
    ;

    /// The size of a table.
    fn read_table_size<F>(
        &self,
        snapshot: CommitTimestamp,
        granule: GranuleId,
        current: F,
    ) -> Result<u64, TransactionError> where F: FnOnce() -> Result<u64, TransactionError>
        requires
            call_requires(current, ()),
    ;

    /// The contents of an object, if there is such an object.
    fn read_object<F>(
        &self,
        snapshot: CommitTimestamp,
        object: ObjectId,
        current: F,
    ) -> Result<Option<ObjectPayload>, TransactionError> where
        F: FnOnce() -> Result<Option<ObjectPayload>, TransactionError>,

        requires
            call_requires(current, ()),
    ;
}

/// Shows every transaction the current value.
#[derive(Clone, Copy, Debug)]
pub struct SingleVersionVisibility;

impl Default for SingleVersionVisibility {
    fn default() -> SingleVersionVisibility {
        SingleVersionVisibility
    }
}

impl SingleVersionVisibility {
    /// Whether older versions than the current one can be seen.
    pub fn is_multiversion(&self) -> (multiversion: bool)
        ensures
            !multiversion,
    {
        false
    }
}

impl TransactionVisibility for SingleVersionVisibility {
    type Snapshot = ();

    fn begin_snapshot(&self) -> (result: Result<(), TransactionError>)
        ensures
            result == Ok::<(), TransactionError>(()),
    {
        Ok(())
    }

    fn snapshot_timestamp(snapshot: &()) -> (timestamp: CommitTimestamp)
        ensures
            timestamp == BASELINE_TIMESTAMP,
            timestamp == 0,
    {
        BASELINE_TIMESTAMP
    }

    fn finish_snapshot(&self, snapshot: ()) -> (result: Result<(), TransactionError>)
        ensures
            result == Ok::<(), TransactionError>(()),
    {
        Ok(())
    }

    fn read_memory<F>(
        &self,
        snapshot: CommitTimestamp,
        granule: GranuleId,
        current: F,
    ) -> (result: Result<Vec<u8>, TransactionError>) where
        F: FnOnce() -> Result<Vec<u8>, TransactionError>,

        ensures
            call_ensures(current, (), result),
    {
        current()
    }

    fn read_memory_size<F>(
        &self,
        snapshot: CommitTimestamp,
        granule: GranuleId,
        current: F,
    ) -> (result: Result<u64, TransactionError>) where
        F: FnOnce() -> Result<u64, TransactionError>,

        ensures
            call_ensures(current, (), result),
    {
        current()
    }

    fn read_global<F>(
        &self,
        snapshot: CommitTimestamp,
        granule: GranuleId,
        current: F,
    ) -> (result: Result<GlobalSnapshot, TransactionError>) where
        F: FnOnce() -> Result<GlobalSnapshot, TransactionError>,

        ensures
            call_ensures(current, (), result),
    {
        current()
    }

    fn read_table<F>(
        &self,
        snapshot: CommitTimestamp,
        granule: GranuleId,
        current: F,
    ) -> (result: Result<TableGranuleSnapshot, TransactionError>) where
        F: FnOnce() -> Result<TableGranuleSnapshot, TransactionError>,

        ensures
            call_ensures(current, (), result),
    {
        current()
    }

    fn read_table_size<F>(
        &self,
        snapshot: CommitTimestamp,
        granule: GranuleId,
        current: F,
    ) -> (result: Result<u64, TransactionError>) where
        F: FnOnce() -> Result<u64, TransactionError>,

        ensures
            call_ensures(current, (), result),
    {
        current()
    }

    fn read_object<F>(
        &self,
        snapshot: CommitTimestamp,
        object: ObjectId,
        current: F,
    ) -> (result: Result<Option<ObjectPayload>, TransactionError>) where
        F: FnOnce() -> Result<Option<ObjectPayload>, TransactionError>,

        ensures
            call_ensures(current, (), result),
    {
        current()
    }
}

/// The policy in use.
pub type SelectedTransactionVisibility = SingleVersionVisibility;

/// What a transaction holds while it reads under the policy in use.
pub type SelectedVisibilitySnapshot =
    <SelectedTransactionVisibility as TransactionVisibility>::Snapshot;

} // verus!
