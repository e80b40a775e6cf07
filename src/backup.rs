//! The computing part of one backup tick: the object key, the blob to
//! upload, and what the tick reports.
use crate::codec::{enc_snapshot, fits, Snapshot};
use crate::compress::{encode_snapshot, zstd_decoded};
use crate::config::{BackupError, BackupMetrics};
use vstd::prelude::*;

verus! {

/// The UTC date and time of `secs` seconds since the Unix epoch, written
/// `YYYYMMDD_HHMMSS`, where chrono can represent that instant.
pub uninterp spec fn utc_stamp(secs: i64) -> Option<Seq<char>>;

/// Relies on chrono's `DateTime::from_timestamp(secs, 0)`, formatted with
/// `%Y%m%d_%H%M%S`: none outside chrono's range, else the formatted instant.
#[verifier::external_body]
fn format_utc_stamp(secs: i64) -> (r: Option<String>)
    ensures
        match r {
            Some(s) => utc_stamp(secs) == Some(s@),
            None => utc_stamp(secs) is None,
        },
{
    match chrono::DateTime::from_timestamp(secs, 0) {
        Some(t) => Some(t.format("%Y%m%d_%H%M%S").to_string()),
        None => None,
    }
}

/// The key of a snapshot object under `prefix` stamped `stamp`.
pub open spec fn key_for(prefix: Seq<char>, stamp: Seq<char>) -> Seq<char> {
    prefix + "/backup_"@ + stamp + ".bin.zst"@
}

/// The key under which a snapshot taken at `now_secs` is stored.
pub fn backup_key(prefix: &String, now_secs: i64) -> (r: Option<String>)
    ensures
        match r {
            Some(k) => utc_stamp(now_secs) is Some && k@ == key_for(prefix@, utc_stamp(now_secs)->0),
            None => utc_stamp(now_secs) is None,
        },
{
    match format_utc_stamp(now_secs) {
        Some(stamp) => Some(key_with_stamp(prefix, &stamp)),
        None => None,
    }
}

/// The key of a snapshot object under `prefix` stamped `stamp`.
pub fn key_with_stamp(prefix: &String, stamp: &String) -> (r: String)
    ensures
        r@ == key_for(prefix@, stamp@),
{
    let mut k = prefix.clone();
    k.append("/backup_");
    k.append(stamp.as_str());
    k.append(".bin.zst");
    k
}

/// A blob ready for upload, with what is recorded beside it.
pub struct PreparedBackup {
    pub key: String,
    pub blob: Vec<u8>,
    pub eng_count: usize,
    pub instructor_count: usize,
    pub host_count: usize,
    pub compressed_size: usize,
}

/// Encodes and compresses `snapshot` at `level` and names it for
/// `now_secs` under `prefix`.
pub fn prepare_backup(snapshot: &Snapshot, prefix: &String, level: i32, now_secs: i64) -> (r: Result<PreparedBackup, BackupError>)
    ensures
        utc_stamp(now_secs) is Some <==> r is Ok,
        match r {
            Ok(p) => {
                &&& fits(snapshot@)
                &&& zstd_decoded(p.blob@) == Some(enc_snapshot(snapshot@))
                &&& utc_stamp(now_secs) is Some
                &&& p.key@ == key_for(prefix@, utc_stamp(now_secs)->0)
                &&& p.eng_count == snapshot@.records.len()
                &&& p.instructor_count == snapshot@.instructors.len()
                &&& p.host_count == snapshot@.hosts.len()
                &&& p.compressed_size == p.blob@.len()
            },
            Err(e) => e matches BackupError::Configuration(_),
        },
{
    let key = match backup_key(prefix, now_secs) {
        Some(k) => k,
        None => return Err(BackupError::Configuration(String::from_str("clock"))),
    };
    let blob = match encode_snapshot(snapshot, level) {
        Ok(b) => b,
        Err(e) => return Err(e),
    };
    let compressed_size = blob.len();
    Ok(PreparedBackup {
        key,
        blob,
        eng_count: snapshot.record_count(),
        instructor_count: snapshot.instructor_count(),
        host_count: snapshot.host_count(),
        compressed_size,
    })
}

impl BackupMetrics {
    /// The report of a tick that uploaded `p`, with the measured durations.
    pub fn for_upload(p: &PreparedBackup, compression_time_ms: u128, upload_time_ms: u128) -> (r: BackupMetrics)
        ensures
            r.eng_count == p.eng_count,
            r.instructor_count == p.instructor_count,
            r.host_count == p.host_count,
            r.compressed_size == p.compressed_size,
            r.compression_time_ms == compression_time_ms,
            r.upload_time_ms == upload_time_ms,
    {
        BackupMetrics {
            eng_count: p.eng_count,
            instructor_count: p.instructor_count,
            host_count: p.host_count,
            compressed_size: p.compressed_size,
            compression_time_ms,
            upload_time_ms,
        }
    }
}

} // verus!
