use snapshot_backup::backup::{backup_key, key_with_stamp, prepare_backup};
use snapshot_backup::codec::{deserialize, serialize, Snapshot};
use snapshot_backup::compress::{compress, decode_snapshot, decompress, encode_snapshot};
use snapshot_backup::config::{BackupConfig, BackupError, BackupMetrics};
use snapshot_backup::model::{Engagement, Language, Status};
use snapshot_backup::restore::{needs_restore, restore_from_blob, restore_into};
use snapshot_backup::retention::{cutoff_ms, expired_keys, latest_key, ObjectEntry};
use snapshot_backup::scheduler::{BackupScheduler, SchedulerAction, TickOutcome};
use snapshot_backup::store::{HostRepo, InstructorRepo, NameSet, RecordSet};

const DAY: i64 = 86_400_000;

fn record(id: u128, instructor: &str, lang: Language) -> Engagement {
    Engagement {
        id,
        instructor: instructor.to_string(),
        host: "Hall \"A\" — ünïcode".to_string(),
        date: "2024-05-01".to_string(),
        language: lang,
        title: "Intro".to_string(),
        part: 1,
        num_parts: 3,
        status: Status::Invited,
    }
}

fn sample() -> Snapshot {
    Snapshot {
        engagements: vec![record(7, "Ana", Language::Spanish), record(u128::MAX, "Bo", Language::German)],
        instructors: vec!["Ana".to_string(), "Bo".to_string()],
        hosts: vec!["".to_string(), "Hall".to_string()],
    }
}

fn same_record(a: &Engagement, b: &Engagement) -> bool {
    a.id == b.id && a.instructor == b.instructor && a.host == b.host && a.date == b.date
        && a.language == b.language && a.title == b.title && a.part == b.part
        && a.num_parts == b.num_parts && a.status == b.status
}

fn same_snapshot(a: &Snapshot, b: &Snapshot) -> bool {
    a.engagements.len() == b.engagements.len()
        && a.engagements.iter().zip(b.engagements.iter()).all(|(x, y)| same_record(x, y))
        && a.instructors == b.instructors
        && a.hosts == b.hosts
}

fn entry(key: &str, ms: i64) -> ObjectEntry {
    ObjectEntry { key: Some(key.to_string()), last_modified_ms: Some(ms) }
}

#[test]
fn serialize_then_deserialize_gives_the_snapshot() {
    let s = sample();
    let bytes = serialize(&s);
    let back = deserialize(&bytes).unwrap();
    assert!(same_snapshot(&s, &back));
}

#[test]
fn encoding_names_its_fields() {
    let bytes = serialize(&sample());
    let text = String::from_utf8_lossy(&bytes);
    for name in ["engagements", "instructors", "hosts", "id", "num_parts", "status"] {
        assert!(text.contains(name));
    }
}

#[test]
fn blob_round_trip() {
    let s = sample();
    let blob = encode_snapshot(&s, 3).unwrap();
    let plain = serialize(&s);
    assert_ne!(blob, plain);
    let back = decode_snapshot(&blob).unwrap();
    assert!(same_snapshot(&s, &back));
}

#[test]
fn compress_then_decompress() {
    let data: Vec<u8> = (0..5000u32).map(|i| (i % 7) as u8).collect();
    for level in [-5, 0, 1, 22, 1000, i32::MIN] {
        assert_eq!(decompress(&compress(&data, level).unwrap()).unwrap(), data);
    }
    let c = compress(&data, 3).unwrap();
    assert!(c.len() < data.len());
    assert_eq!(decompress(&c).unwrap(), data);
}

#[test]
fn garbage_is_corrupt() {
    assert_eq!(deserialize(&vec![1, 2, 3]).err(), Some(BackupError::CorruptSnapshot));
    let mut bytes = serialize(&sample());
    bytes.push(0);
    assert_eq!(deserialize(&bytes).err(), Some(BackupError::CorruptSnapshot));
    let bytes = serialize(&sample());
    assert_eq!(deserialize(&bytes[..bytes.len() - 1].to_vec()).err(), Some(BackupError::CorruptSnapshot));
}

#[test]
fn valid_frame_of_garbage_is_corrupt() {
    let blob = compress(&vec![9, 9, 9], 3).unwrap();
    assert_eq!(decode_snapshot(&blob).err(), Some(BackupError::CorruptSnapshot));
}

#[test]
fn undecompressable_blob_is_a_compression_error() {
    assert_eq!(decode_snapshot(&vec![1, 2, 3, 4]).err(), Some(BackupError::Compression));
    assert_eq!(decompress(&vec![1, 2, 3, 4]).err(), Some(BackupError::Compression));
}

#[test]
fn empty_state_backup_decodes_to_zero_counts() {
    let s = Snapshot::capture(&RecordSet::new(), &NameSet::new(), &NameSet::new());
    assert_eq!((s.record_count(), s.instructor_count(), s.host_count()), (0, 0, 0));
    let p = prepare_backup(&s, &"message-backups".to_string(), 3, 0).unwrap();
    assert_eq!((p.eng_count, p.instructor_count, p.host_count), (0, 0, 0));
    let back = decode_snapshot(&p.blob).unwrap();
    assert_eq!((back.record_count(), back.instructor_count(), back.host_count()), (0, 0, 0));
}

#[test]
fn capture_copies_all_three_collections() {
    let mut records = RecordSet::new();
    records.insert(record(1, "Ana", Language::English));
    records.insert(record(2, "Bo", Language::French));
    let mut instructors = NameSet::new();
    instructors.insert("Ana".to_string());
    let mut hosts = NameSet::new();
    hosts.insert("Hall".to_string());
    hosts.insert("Room".to_string());
    let s = Snapshot::capture(&records, &instructors, &hosts);
    assert_eq!((s.record_count(), s.instructor_count(), s.host_count()), (2, 1, 2));
    let mut ids: Vec<u128> = s.engagements.iter().map(|e| e.id).collect();
    ids.sort();
    assert_eq!(ids, vec![1, 2]);
}

#[test]
fn retention_boundary_deletes_only_the_older_object() {
    let now = 1_000 * DAY;
    let objects = vec![
        entry("p/backup_29.bin.zst", now - 29 * DAY),
        entry("p/backup_30.bin.zst", now - 30 * DAY),
        entry("p/backup_31.bin.zst", now - 31 * DAY),
    ];
    assert_eq!(expired_keys(&objects, now, 30), vec!["p/backup_31.bin.zst".to_string()]);
}

#[test]
fn cutoff_is_retention_days_before_now() {
    assert_eq!(cutoff_ms(100 * DAY, 30), (70 * DAY) as i128);
    assert_eq!(cutoff_ms(i64::MIN, i64::MAX), i64::MIN as i128 - i64::MAX as i128 * 86_400_000);
}

#[test]
fn objects_without_key_or_time_are_never_deleted() {
    let objects = vec![
        ObjectEntry { key: None, last_modified_ms: Some(0) },
        ObjectEntry { key: Some("k".to_string()), last_modified_ms: None },
    ];
    assert!(expired_keys(&objects, 100 * DAY, 1).is_empty());
}

#[test]
fn second_sweep_deletes_nothing() {
    let now = 500 * DAY;
    let mut objects = vec![entry("a", now - 40 * DAY), entry("b", now - 2 * DAY), entry("c", now - 31 * DAY)];
    let first = expired_keys(&objects, now, 30);
    assert_eq!(first, vec!["a".to_string(), "c".to_string()]);
    objects.retain(|o| !first.contains(o.key.as_ref().unwrap()));
    assert!(expired_keys(&objects, now, 30).is_empty());
}

#[test]
fn latest_key_takes_the_newest_and_the_last_of_ties() {
    assert_eq!(latest_key(&vec![]), None);
    let objects = vec![entry("a", 5), entry("b", 9), entry("c", 2), entry("d", 9)];
    assert_eq!(latest_key(&objects), Some("d".to_string()));
    let objects = vec![entry("a", 5), ObjectEntry { key: None, last_modified_ms: Some(6) }];
    assert_eq!(latest_key(&objects), None);
    let objects = vec![entry("a", 5), ObjectEntry { key: Some("x".to_string()), last_modified_ms: None }];
    assert_eq!(latest_key(&objects), Some("a".to_string()));
}

#[test]
fn partial_restore_fills_only_empty_collections() {
    let mut records = RecordSet::new();
    records.insert(record(42, "Live", Language::Italian));
    let mut instructors = NameSet::new();
    let mut hosts = NameSet::new();
    assert!(needs_restore(&records, &instructors, &hosts));
    restore_into(&mut records, &mut instructors, &mut hosts, &sample());
    assert_eq!(records.len(), 1);
    assert!(records.contains_id(42));
    assert!(!records.contains_id(7));
    assert_eq!(instructors.len(), 2);
    assert!(instructors.contains(&"Bo".to_string()));
    assert_eq!(hosts.len(), 2);
    assert!(!needs_restore(&records, &instructors, &hosts));
}

#[test]
fn restore_from_a_bad_blob_changes_nothing() {
    let mut records = RecordSet::new();
    let mut instructors = NameSet::new();
    instructors.insert("Kept".to_string());
    let mut hosts = NameSet::new();
    assert_eq!(restore_from_blob(&mut records, &mut instructors, &mut hosts, &vec![0, 1]), Err(BackupError::Compression));
    assert!(records.is_empty());
    assert_eq!(instructors.len(), 1);
    assert!(hosts.is_empty());
}

#[test]
fn restore_from_blob_fills_empty_collections() {
    let blob = encode_snapshot(&sample(), 3).unwrap();
    let mut records = RecordSet::new();
    let mut instructors = NameSet::new();
    instructors.insert("Kept".to_string());
    let mut hosts = NameSet::new();
    assert_eq!(restore_from_blob(&mut records, &mut instructors, &mut hosts, &blob), Ok(()));
    assert_eq!(records.len(), 2);
    assert!(records.contains_id(u128::MAX));
    assert_eq!(instructors.len(), 1);
    assert!(instructors.contains(&"Kept".to_string()));
    assert!(hosts.contains(&"".to_string()));
}

#[test]
fn no_backup_before_one_interval() {
    let s = BackupScheduler::new(1, 0);
    assert_eq!(s.poll(0), SchedulerAction::Wait(3_600_000));
    assert_eq!(s.poll(3_599_999), SchedulerAction::Wait(1));
    assert_eq!(s.poll(3_600_000), SchedulerAction::RunBackup);
    assert_eq!(s.poll(3_600_001), SchedulerAction::RunBackup);
}

#[test]
fn failed_tick_does_not_stop_the_next() {
    let mut s = BackupScheduler::new(2, 1000);
    assert_eq!(s.poll(1000 + 7_200_000), SchedulerAction::RunBackup);
    s.finish_tick(TickOutcome::Failed);
    assert_eq!(s.poll(1000 + 7_200_000), SchedulerAction::Wait(7_200_000));
    assert_eq!(s.poll(1000 + 14_400_000), SchedulerAction::RunBackup);
    s.finish_tick(TickOutcome::Succeeded);
    assert_eq!(s.poll(1000 + 14_400_000), SchedulerAction::Wait(7_200_000));
}

#[test]
fn name_set_operations() {
    let mut n = NameSet::new();
    assert!(n.is_empty());
    assert!(n.insert("x".to_string()));
    assert!(!n.insert("x".to_string()));
    assert!(n.insert("y".to_string()));
    assert_eq!(n.len(), 2);
    assert!(n.remove(&"x".to_string()));
    assert!(!n.remove(&"x".to_string()));
    assert!(!n.contains(&"x".to_string()));
    assert_eq!(n.to_vec(), vec!["y".to_string()]);
    let m = NameSet::from_names(&vec!["a".to_string(), "b".to_string(), "a".to_string()]);
    assert_eq!(m.len(), 2);
}

#[test]
fn record_set_keeps_the_first_of_equal_ids() {
    let mut r = RecordSet::new();
    assert!(r.insert(record(1, "first", Language::English)));
    assert!(!r.insert(record(1, "second", Language::English)));
    assert_eq!(r.len(), 1);
    assert_eq!(r.to_vec()[0].instructor, "first");
    let f = RecordSet::from_records(&vec![record(3, "a", Language::French), record(3, "b", Language::French)]);
    assert_eq!(f.len(), 1);
    assert_eq!(f.to_vec()[0].instructor, "a");
}

#[test]
fn repos_lock_their_names() {
    let mut i = InstructorRepo::new();
    i.lock().insert("Ana".to_string());
    assert!(i.lock().contains(&"Ana".to_string()));
    let mut h = HostRepo::new();
    assert!(h.lock().is_empty());
    h.lock().insert("Hall".to_string());
    assert_eq!(h.0.len(), 1);
}

#[test]
fn keys_carry_prefix_and_utc_stamp() {
    assert_eq!(key_with_stamp(&"p".to_string(), &"s".to_string()), "p/backup_s.bin.zst");
    assert_eq!(backup_key(&"message-backups".to_string(), 0), Some("message-backups/backup_19700101_000000.bin.zst".to_string()));
    assert_eq!(backup_key(&"b".to_string(), 1_700_000_000), Some("b/backup_20231114_221320.bin.zst".to_string()));
    assert_eq!(backup_key(&"b".to_string(), i64::MAX), None);
}

#[test]
fn prepared_backup_reports_counts_and_size() {
    let p = prepare_backup(&sample(), &"pre".to_string(), 3, 86_400).unwrap();
    assert_eq!(p.key, "pre/backup_19700102_000000.bin.zst");
    assert_eq!((p.eng_count, p.instructor_count, p.host_count), (2, 2, 2));
    assert_eq!(p.compressed_size, p.blob.len());
    let m = BackupMetrics::for_upload(&p, 5, 9);
    assert_eq!((m.eng_count, m.compressed_size, m.compression_time_ms, m.upload_time_ms), (2, p.blob.len(), 5, 9));
}

fn some(s: &str) -> Option<String> {
    Some(s.to_string())
}

#[test]
fn config_defaults_and_parsing() {
    let c = BackupConfig::from_settings(some("bkt"), None, some("eu"), None, None, None).unwrap();
    assert_eq!(c.prefix, "message-backups");
    assert_eq!((c.retention_days, c.backup_interval_hours, c.compression_level), (30, 24, 3));
    let c = BackupConfig::from_settings(some("bkt"), some("x"), some("eu"), some("+7"), some("+5"), some("-19")).unwrap();
    assert_eq!(c.prefix, "x");
    assert_eq!((c.retention_days, c.backup_interval_hours, c.compression_level), (7, 5, -19));
    let c = BackupConfig::from_settings(some("bkt"), None, some("eu"), some("0"), None, None).unwrap();
    assert_eq!(c.retention_days, 0);
    let c = BackupConfig::from_settings(some("bkt"), None, some("eu"), some("abc"), some("-5"), some("99999999999")).unwrap();
    assert_eq!((c.retention_days, c.backup_interval_hours, c.compression_level), (30, 24, 3));
}

#[test]
fn config_errors() {
    assert!(matches!(BackupConfig::from_settings(None, None, some("eu"), None, None, None), Err(BackupError::Configuration(_))));
    assert!(matches!(BackupConfig::from_settings(some("b"), None, None, None, None, None), Err(BackupError::Configuration(_))));
    assert!(matches!(BackupConfig::from_settings(some("b"), None, some("eu"), None, some("0"), None), Err(BackupError::Configuration(_))));
    assert!(matches!(BackupConfig::from_settings(some("b"), None, some("eu"), some("-7"), None, None), Err(BackupError::Configuration(_))));
}

#[test]
fn status_names() {
    assert_eq!(Status::Planning.name(), "Planning");
    assert_eq!(Status::Invited.name(), "Invited");
    assert_eq!(Status::Confirmed.name(), "Confirmed");
}

fn generated(seed: u64) -> Snapshot {
    let mut x = seed.wrapping_mul(6364136223846793005).wrapping_add(1442695040888963407);
    let mut next = move || {
        x ^= x << 13;
        x ^= x >> 7;
        x ^= x << 17;
        x
    };
    let langs = [Language::English, Language::Spanish, Language::French, Language::Italian, Language::Portuguese, Language::German];
    let statuses = [Status::Planning, Status::Invited, Status::Confirmed];
    let n = (next() % 5) as usize;
    let engagements = (0..n)
        .map(|i| Engagement {
            id: ((next() as u128) << 64) | i as u128,
            instructor: format!("ins{}é", next() % 100),
            host: format!("h{}", next()),
            date: format!("2025-0{}-1{}", 1 + next() % 9, next() % 10),
            language: langs[(next() % 6) as usize],
            title: "t".repeat((next() % 40) as usize),
            part: (next() % 4) as usize,
            num_parts: usize::MAX - (next() % 3) as usize,
            status: statuses[(next() % 3) as usize],
        })
        .collect();
    let instructors = (0..next() % 4).map(|i| format!("i{}", i)).collect();
    let hosts = (0..next() % 4).map(|i| format!("日本{}", i)).collect();
    Snapshot { engagements, instructors, hosts }
}

#[test]
fn generated_snapshots_round_trip() {
    for seed in 0..200 {
        let s = generated(seed);
        let back = deserialize(&serialize(&s)).unwrap();
        assert!(same_snapshot(&s, &back));
        let blob = encode_snapshot(&s, 1 + (seed % 5) as i32).unwrap();
        assert!(same_snapshot(&s, &decode_snapshot(&blob).unwrap()));
    }
}

#[test]
fn invalid_utf8_text_is_corrupt() {
    let s = Snapshot { engagements: vec![], instructors: vec!["zz".to_string()], hosts: vec![] };
    let mut bytes = serialize(&s);
    let at = bytes.windows(2).rposition(|w| w == b"zz").unwrap();
    bytes[at] = 0xff;
    bytes[at + 1] = 0xfe;
    assert_eq!(deserialize(&bytes).err(), Some(BackupError::CorruptSnapshot));
}

#[test]
fn unknown_tag_is_corrupt() {
    let s = Snapshot { engagements: vec![record(1, "a", Language::English)], instructors: vec![], hosts: vec![] };
    let mut bytes = serialize(&s);
    let at = bytes.windows(8).position(|w| w == b"language").unwrap() + 8;
    bytes[at] = 6;
    assert_eq!(deserialize(&bytes).err(), Some(BackupError::CorruptSnapshot));
}

#[test]
fn record_set_remove() {
    let mut r = RecordSet::new();
    r.insert(record(1, "a", Language::English));
    r.insert(record(2, "b", Language::English));
    r.insert(record(3, "c", Language::English));
    assert!(r.remove(2));
    assert!(!r.remove(2));
    assert_eq!(r.len(), 2);
    assert!(r.contains_id(1) && r.contains_id(3) && !r.contains_id(2));
    assert!(r.remove(1) && r.remove(3));
    assert!(r.is_empty());
}

#[test]
fn numeric_settings_parse_as_decimal() {
    let ret = |t: &str| BackupConfig::from_settings(some("b"), None, some("eu"), some(t), None, None).map(|c| c.retention_days);
    assert_eq!(ret("9223372036854775807"), Ok(i64::MAX));
    assert_eq!(ret("9223372036854775808"), Ok(30));
    assert_eq!(ret("000120"), Ok(120));
    for bad in ["", "+", "-", "1 ", " 1", "1e3", "99999999999999999999999999999999999999999", "+-1", "١٢"] {
        assert_eq!(ret(bad), Ok(30), "{bad}");
    }
    assert!(matches!(ret("-1"), Err(BackupError::Configuration(_))));
    let hours = |t: &str| BackupConfig::from_settings(some("b"), None, some("eu"), None, some(t), None).map(|c| c.backup_interval_hours);
    assert_eq!(hours("18446744073709551615"), Ok(u64::MAX));
    assert_eq!(hours("18446744073709551616"), Ok(24));
    assert_eq!(hours("-3"), Ok(24));
    assert_eq!(hours("+3"), Ok(3));
    let level = |t: &str| BackupConfig::from_settings(some("b"), None, some("eu"), None, None, some(t)).map(|c| c.compression_level);
    assert_eq!(level("-2147483648"), Ok(i32::MIN));
    assert_eq!(level("2147483648"), Ok(3));
    assert_eq!(level("-7"), Ok(-7));
}
