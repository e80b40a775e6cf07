//! Filling empty collections from the newest remote snapshot at start.
use crate::codec::{parse_snapshot, Snapshot, SnapshotView};
use crate::compress::{decode_snapshot, zstd_decoded};
use crate::config::BackupError;
use crate::model::RecordView;
use crate::store::{records_by_id, NameSet, RecordSet};
use vstd::prelude::*;

verus! {

/// The records after a restore from `v`: replaced only where they were empty.
pub open spec fn restored_records(old: Map<u128, RecordView>, v: SnapshotView) -> Map<u128, RecordView> {
    if old == Map::<u128, RecordView>::empty() {
        records_by_id(v.records)
    } else {
        old
    }
}

/// A name collection after a restore from `names`: replaced only where it
/// was empty.
pub open spec fn restored_names(old: Set<Seq<char>>, names: Seq<Seq<char>>) -> Set<Seq<char>> {
    if old == Set::<Seq<char>>::empty() {
        names.to_set()
    } else {
        old
    }
}

/// Whether any collection is empty, so that a restore is worth attempting.
pub fn needs_restore(records: &RecordSet, instructors: &NameSet, hosts: &NameSet) -> (r: bool)
    ensures
        r == (records@ == Map::<u128, RecordView>::empty() || instructors@ == Set::<Seq<char>>::empty()
            || hosts@ == Set::<Seq<char>>::empty()),
{
    records.is_empty() || instructors.is_empty() || hosts.is_empty()
}

/// Replaces each empty collection by its part of `snapshot`; a collection
/// that holds anything is left as it is.
pub fn restore_into(records: &mut RecordSet, instructors: &mut NameSet, hosts: &mut NameSet, snapshot: &Snapshot)
    ensures
        final(records)@ == restored_records(old(records)@, snapshot@),
        final(instructors)@ == restored_names(old(instructors)@, snapshot@.instructors),
        final(hosts)@ == restored_names(old(hosts)@, snapshot@.hosts),
{
    if records.is_empty() {
        *records = RecordSet::from_records(&snapshot.engagements);
    }
    if instructors.is_empty() {
        *instructors = NameSet::from_names(&snapshot.instructors);
    }
    if hosts.is_empty() {
        *hosts = NameSet::from_names(&snapshot.hosts);
    }
}

/// Restores the empty collections from the downloaded blob `blob`. Where the
/// blob does not decode, every collection is left as it is.
pub fn restore_from_blob(records: &mut RecordSet, instructors: &mut NameSet, hosts: &mut NameSet, blob: &Vec<u8>) -> (r: Result<(), BackupError>)
    ensures
        match r {
            Ok(()) => zstd_decoded(blob@) is Some && parse_snapshot(zstd_decoded(blob@)->0) is Some && {
                let v = parse_snapshot(zstd_decoded(blob@)->0)->0;
                &&& final(records)@ == restored_records(old(records)@, v)
                &&& final(instructors)@ == restored_names(old(instructors)@, v.instructors)
                &&& final(hosts)@ == restored_names(old(hosts)@, v.hosts)
            },
            Err(e) => {
                &&& final(records)@ == old(records)@
                &&& final(instructors)@ == old(instructors)@
                &&& final(hosts)@ == old(hosts)@
                &&& ((e == BackupError::Compression && zstd_decoded(blob@) is None)
                    || (e == BackupError::CorruptSnapshot && zstd_decoded(blob@) is Some
                    && parse_snapshot(zstd_decoded(blob@)->0) is None))
            },
        },
{
    match decode_snapshot(blob) {
        Ok(s) => {
            restore_into(records, instructors, hosts, &s);
            Ok(())
        },
        Err(e) => Err(e),
    }
}

} // verus!
