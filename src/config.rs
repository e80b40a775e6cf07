//! Settings of the backup subsystem, its errors, and its per-tick metrics.
use vstd::prelude::*;

verus! {

/// What can go wrong while backing up or restoring.
#[derive(Debug, PartialEq, Eq)]
pub enum BackupError {
    /// The object store failed: network, permission, or a missing object.
    RemoteStore(String),
    /// Compressing or decompressing failed.
    Compression,
    /// The bytes do not hold a snapshot.
    CorruptSnapshot,
    /// A required setting is missing or invalid; it names the setting.
    Configuration(String),
}

/// Where and how snapshots are kept.
#[derive(Debug)]
pub struct BackupConfig {
    pub bucket_name: String,
    pub prefix: String,
    pub region: String,
    pub retention_days: i64,
    pub backup_interval_hours: u64,
    pub compression_level: i32,
}

/// What one successful tick reports.
#[derive(Clone, Copy, Debug)]
pub struct BackupMetrics {
    pub eng_count: usize,
    pub instructor_count: usize,
    pub host_count: usize,
    pub compressed_size: usize,
    pub compression_time_ms: u128,
    pub upload_time_ms: u128,
}

pub open spec fn is_digit(c: char) -> bool {
    '0' <= c <= '9'
}

/// The value of a string of decimal digits.
pub open spec fn digits_value(s: Seq<char>) -> int
    decreases s.len(),
{
    if s.len() == 0 {
        0
    } else {
        10 * digits_value(s.drop_last()) + ((s.last() as u32) - ('0' as u32))
    }
}

/// Whether `s` starts with a minus sign that counts (only where `signed`).
pub open spec fn negative_sign(s: Seq<char>, signed: bool) -> bool {
    s.len() > 0 && s[0] == '-' && signed
}

/// `s` without its leading sign, if it has one that counts.
pub open spec fn unsigned_part(s: Seq<char>, signed: bool) -> Seq<char> {
    if s.len() > 0 && (s[0] == '+' || negative_sign(s, signed)) {
        s.skip(1)
    } else {
        s
    }
}

pub open spec fn all_digits(d: Seq<char>) -> bool {
    forall|i: int| 0 <= i < d.len() ==> is_digit(#[trigger] d[i])
}

/// The integer that `s` writes in decimal: an optional sign (`-` only where
/// `signed`), then one or more digits, nothing else.
pub open spec fn decimal_value(s: Seq<char>, signed: bool) -> Option<int> {
    let d = unsigned_part(s, signed);
    if d.len() > 0 && all_digits(d) {
        Some(if negative_sign(s, signed) { -digits_value(d) } else { digits_value(d) })
    } else {
        None
    }
}

proof fn lemma_digits_prefix(d: Seq<char>, i: int)
    requires
        0 <= i <= d.len(),
        forall|j: int| 0 <= j < d.len() ==> is_digit(#[trigger] d[j]),
    ensures
        digits_value(d.take(i)) <= digits_value(d),
        0 <= digits_value(d.take(i)),
    decreases d.len(),
{
    if i == d.len() {
        assert(d.take(i) =~= d);
        if d.len() > 0 {
            lemma_digits_prefix(d.drop_last(), 0);
        }
    } else {
        let p = d.drop_last();
        lemma_digits_prefix(p, i);
        assert(p.take(i) =~= d.take(i));
        lemma_digits_prefix(p, p.len() as int);
        assert(p.take(p.len() as int) =~= p);
    }
}

/// The integer that `s` writes in decimal (see [`decimal_value`]), where it
/// writes one between `lo` and `hi`.
fn decimal_in_range(s: &str, signed: bool, lo: i128, hi: i128) -> (r: Option<i128>)
    requires
        -0x1_0000_0000_0000_0000 <= lo <= 0 <= hi <= 0x1_0000_0000_0000_0000,
    ensures
        r == (match decimal_value(s@, signed) {
            Some(v) => if lo <= v <= hi { Some(v as i128) } else { None },
            None => None,
        }),
{
    let n = s.unicode_len();
    let neg = n > 0 && s.get_char(0) == '-' && signed;
    let start: usize = if n > 0 && (s.get_char(0) == '+' || neg) { 1 } else { 0 };
    let ghost d = unsigned_part(s@, signed);
    proof {
        assert(neg == negative_sign(s@, signed));
        assert(d =~= s@.skip(start as int));
    }
    if start == n {
        return None;
    }
    let mut acc: i128 = 0;
    let mut i: usize = start;
    while i < n
        invariant
            start <= i <= n,
            n == s@.len(),
            d == s@.skip(start as int),
            d == unsigned_part(s@, signed),
            neg == negative_sign(s@, signed),
            -0x1_0000_0000_0000_0000 <= lo <= 0 <= hi <= 0x1_0000_0000_0000_0000,
            forall|j: int| 0 <= j < i - start ==> is_digit(#[trigger] d[j]),
            acc == digits_value(d.take(i - start)),
            0 <= acc <= 0x1_0000_0000_0000_0000,
        decreases n - i,
    {
        let c = s.get_char(i);
        proof {
            assert(d[i - start] == c);
        }
        if !('0' <= c && c <= '9') {
            proof {
                assert(!is_digit(d[i - start]));
                assert(!all_digits(d));
            }
            return None;
        }
        let digit = (c as u32 - '0' as u32) as i128;
        proof {
            let t = d.take(i - start + 1);
            assert(t.drop_last() =~= d.take(i - start));
            assert(t.last() == c);
        }
        acc = acc * 10 + digit;
        i = i + 1;
        if acc > 0x1_0000_0000_0000_0000 {
            proof {
                if all_digits(d) {
                    lemma_digits_prefix(d, i - start);
                }
            }
            return None;
        }
    }
    proof {
        assert(d.take(i - start) =~= d);
    }
    let v = if neg { -acc } else { acc };
    if lo <= v && v <= hi {
        Some(v)
    } else {
        None
    }
}

/// Parses as `str::parse::<i64>` does: a decimal integer with an optional sign, refused
/// when out of range.
fn parse_i64(s: &str) -> (r: Option<i64>)
    ensures
        r == (match decimal_value(s@, true) {
            Some(v) => if i64::MIN <= v <= i64::MAX { Some(v as i64) } else { None },
            None => None,
        }),
{
    match decimal_in_range(s, true, i64::MIN as i128, i64::MAX as i128) {
        Some(v) => Some(v as i64),
        None => None,
    }
}

/// Parses as `str::parse::<u64>` does: decimal digits after an optional `+`, refused when
/// out of range.
fn parse_u64(s: &str) -> (r: Option<u64>)
    ensures
        r == (match decimal_value(s@, false) {
            Some(v) => if 0 <= v <= u64::MAX { Some(v as u64) } else { None },
            None => None,
        }),
{
    match decimal_in_range(s, false, 0, u64::MAX as i128) {
        Some(v) => Some(v as u64),
        None => None,
    }
}

/// Parses as `str::parse::<i32>` does: a decimal integer with an optional sign, refused
/// when out of range.
fn parse_i32(s: &str) -> (r: Option<i32>)
    ensures
        r == (match decimal_value(s@, true) {
            Some(v) => if i32::MIN <= v <= i32::MAX { Some(v as i32) } else { None },
            None => None,
        }),
{
    match decimal_in_range(s, true, i32::MIN as i128, i32::MAX as i128) {
        Some(v) => Some(v as i32),
        None => None,
    }
}

/// The value of an optional numeric setting: the parsed text, or `default`
/// where the setting is missing or does not parse.
pub open spec fn setting_or(parsed: Option<int>, default: int) -> int {
    match parsed {
        Some(v) => v,
        None => default,
    }
}

pub open spec fn in_i64(v: Option<int>) -> Option<int> {
    match v {
        Some(x) => if i64::MIN <= x <= i64::MAX { Some(x) } else { None },
        None => None,
    }
}

pub open spec fn in_u64(v: Option<int>) -> Option<int> {
    match v {
        Some(x) => if 0 <= x <= u64::MAX { Some(x) } else { None },
        None => None,
    }
}

pub open spec fn in_i32(v: Option<int>) -> Option<int> {
    match v {
        Some(x) => if i32::MIN <= x <= i32::MAX { Some(x) } else { None },
        None => None,
    }
}

pub open spec fn text_setting(s: Option<String>) -> Option<Seq<char>> {
    match s {
        Some(t) => Some(t@),
        None => None,
    }
}

/// The number that the setting `s` writes in decimal, if it is set and
/// writes one.
pub open spec fn numeric_setting(s: Option<Seq<char>>, signed: bool) -> Option<int> {
    match s {
        Some(t) => decimal_value(t, signed),
        None => None,
    }
}

impl BackupConfig {
    /// The configuration from the raw settings, each absent where it is not
    /// set. Bucket and region are required. The prefix defaults to
    /// `message-backups`, the retention to 30 days, the interval to 24 hours
    /// and the compression level to 3; a number that does not parse takes
    /// its default too. An interval of zero hours is refused, and so is a
    /// negative retention, which would put the cutoff in the future and
    /// have every sweep delete every snapshot.
    pub fn from_settings(
        bucket: Option<String>,
        prefix: Option<String>,
        region: Option<String>,
        retention_days: Option<String>,
        interval_hours: Option<String>,
        compression_level: Option<String>,
    ) -> (r: Result<BackupConfig, BackupError>)
        ensures
            match r {
                Ok(c) => {
                    &&& bucket matches Some(b) && c.bucket_name@ == b@
                    &&& region matches Some(g) && c.region@ == g@
                    &&& c.prefix@ == (match prefix {
                        Some(p) => p@,
                        None => "message-backups"@,
                    })
                    &&& c.retention_days == setting_or(in_i64(numeric_setting(text_setting(retention_days), true)), 30)
                    &&& c.backup_interval_hours == setting_or(in_u64(numeric_setting(text_setting(interval_hours), false)), 24)
                    &&& c.backup_interval_hours > 0
                    &&& c.retention_days >= 0
                    &&& c.compression_level == setting_or(in_i32(numeric_setting(text_setting(compression_level), true)), 3)
                },
                Err(e) => e matches BackupError::Configuration(_) && (bucket is None || region is None
                    || setting_or(in_i64(numeric_setting(text_setting(retention_days), true)), 30) < 0
                    || setting_or(in_u64(numeric_setting(text_setting(interval_hours), false)), 24) == 0),
            },
    {
        let bucket_name = match bucket {
            Some(b) => b,
            None => return Err(BackupError::Configuration(String::from_str("AWS_BACKUP_BUCKET"))),
        };
        let region = match region {
            Some(g) => g,
            None => return Err(BackupError::Configuration(String::from_str("AWS_REGION"))),
        };
        let prefix = match prefix {
            Some(p) => p,
            None => String::from_str("message-backups"),
        };
        let retention_days = match &retention_days {
            Some(t) => match parse_i64(t.as_str()) {
                Some(v) => v,
                None => 30,
            },
            None => 30,
        };
        if retention_days < 0 {
            return Err(BackupError::Configuration(String::from_str("BACKUP_RETENTION_DAYS")));
        }
        let backup_interval_hours = match &interval_hours {
            Some(t) => match parse_u64(t.as_str()) {
                Some(v) => v,
                None => 24,
            },
            None => 24,
        };
        if backup_interval_hours == 0 {
            return Err(BackupError::Configuration(String::from_str("BACKUP_INTERVAL_HOURS")));
        }
        let compression_level = match &compression_level {
            Some(t) => match parse_i32(t.as_str()) {
                Some(v) => v,
                None => 3,
            },
            None => 3,
        };
        Ok(BackupConfig { bucket_name, prefix, region, retention_days, backup_interval_hours, compression_level })
    }
}

} // verus!
