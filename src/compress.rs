//! Compression of encoded snapshots, through zstd.
use crate::codec::{deserialize, enc_snapshot, fits, parse_snapshot, serialize, Snapshot, SnapshotView};
use crate::codec_laws::lemma_round_trip;
use crate::config::BackupError;
use vstd::prelude::*;

verus! {

/// What `zstd::stream::decode_all` gives for the bytes `c`, where it gives
/// anything.
pub uninterp spec fn zstd_decoded(c: Seq<u8>) -> Option<Seq<u8>>;

/// Relies on `zstd::stream::encode_all`: from a byte slice into a `Vec` it
/// does not fail (zstd clamps the level rather than refusing it), and the
/// frame it returns decodes to its input.
#[verifier::external_body]
fn zstd_encode_all(data: &Vec<u8>, level: i32) -> (r: Option<Vec<u8>>)
    ensures
        r is Some,
        r matches Some(c) ==> zstd_decoded(c@) == Some(data@),
{
    zstd::stream::encode_all(data.as_slice(), level).ok()
}

/// Relies on `zstd::stream::decode_all`: whether it succeeds, and what it
/// returns, depend on the bytes alone.
#[verifier::external_body]
fn zstd_decode_all(c: &Vec<u8>) -> (r: Option<Vec<u8>>)
    ensures
        match r {
            Some(v) => zstd_decoded(c@) == Some(v@),
            None => zstd_decoded(c@) is None,
        },
{
    zstd::stream::decode_all(c.as_slice()).ok()
}

/// Compresses `data` at `level` (0 picks zstd's default; levels out of
/// zstd's range are clamped).
pub fn compress(data: &Vec<u8>, level: i32) -> (r: Result<Vec<u8>, BackupError>)
    ensures
        r is Ok,
        match r {
            Ok(c) => zstd_decoded(c@) == Some(data@),
            Err(e) => e == BackupError::Compression,
        },
{
    match zstd_encode_all(data, level) {
        Some(c) => Ok(c),
        None => Err(BackupError::Compression),
    }
}

/// Decompresses `c`.
pub fn decompress(c: &Vec<u8>) -> (r: Result<Vec<u8>, BackupError>)
    ensures
        match r {
            Ok(v) => zstd_decoded(c@) == Some(v@),
            Err(e) => e == BackupError::Compression && zstd_decoded(c@) is None,
        },
{
    match zstd_decode_all(c) {
        Some(v) => Ok(v),
        None => Err(BackupError::Compression),
    }
}

/// The compressed encoding of `s`, the blob that is stored remotely.
pub fn encode_snapshot(s: &Snapshot, level: i32) -> (r: Result<Vec<u8>, BackupError>)
    ensures
        r is Ok,
        fits(s@),
        match r {
            Ok(c) => zstd_decoded(c@) == Some(enc_snapshot(s@)),
            Err(e) => e == BackupError::Compression,
        },
{
    let bytes = serialize(s);
    compress(&bytes, level)
}

/// The snapshot that the blob `c` holds. A blob made by [`encode_snapshot`]
/// gives back the snapshot it was made from.
pub fn decode_snapshot(c: &Vec<u8>) -> (r: Result<Snapshot, BackupError>)
    ensures
        match r {
            Ok(s) => zstd_decoded(c@) is Some && parse_snapshot(zstd_decoded(c@)->0) == Some(s@),
            Err(e) => (e == BackupError::Compression && zstd_decoded(c@) is None)
                || (e == BackupError::CorruptSnapshot && zstd_decoded(c@) is Some
                && parse_snapshot(zstd_decoded(c@)->0) is None),
        },
        forall|v: SnapshotView| fits(v) && zstd_decoded(c@) == Some(#[trigger] enc_snapshot(v))
            ==> r is Ok && r->Ok_0@ == v,
{
    proof {
        assert forall|v: SnapshotView| fits(v) && zstd_decoded(c@) == Some(#[trigger] enc_snapshot(v))
            implies parse_snapshot(enc_snapshot(v)) == Some(v) by {
            lemma_round_trip(v);
        }
    }
    let bytes = match decompress(c) {
        Ok(b) => b,
        Err(e) => return Err(e),
    };
    deserialize(&bytes)
}

} // verus!
