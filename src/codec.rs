//! The snapshot and its self-describing binary encoding.
//!
//! Every value is preceded by its field name. A text is its UTF-8 length as
//! eight little-endian bytes followed by its UTF-8 bytes; an integer is its
//! little-endian bytes; an enum is one tag byte. A collection is its name,
//! its element count, then its elements.
//!
//! This format is the only one read back. An object under the backup prefix
//! that holds another format (a JSON snapshot, say) decodes to
//! `CorruptSnapshot`; when it is the newest object, restore leaves the
//! empty collections empty.
use crate::codec_laws::{lemma_assoc, lemma_decode_canonical, lemma_records_push, lemma_round_trip, lemma_texts_push};
use crate::config::BackupError;
use crate::model::{Engagement, Language, RecordView, Status};
use crate::store::{distinct_ids, record_views, records_by_id, text_views, NameSet, RecordSet};
use vstd::bytes::*;
use vstd::prelude::*;
use vstd::utf8::*;

verus! {

broadcast use vstd::seq_lib::group_seq_properties;

/// The three collections of the store, copied at one point of time each.
pub struct Snapshot {
    pub engagements: Vec<Engagement>,
    pub instructors: Vec<String>,
    pub hosts: Vec<String>,
}

/// The mathematical value of a [`Snapshot`].
pub struct SnapshotView {
    pub records: Seq<RecordView>,
    pub instructors: Seq<Seq<char>>,
    pub hosts: Seq<Seq<char>>,
}

impl View for Snapshot {
    type V = SnapshotView;

    open spec fn view(&self) -> SnapshotView {
        SnapshotView {
            records: record_views(self.engagements@),
            instructors: text_views(self.instructors@),
            hosts: text_views(self.hosts@),
        }
    }
}

impl Snapshot {
    /// Copies the three collections. Each is read through its own borrow;
    /// nothing ties the three to one instant but the caller holding all
    /// three borrows at once.
    pub fn capture(records: &RecordSet, instructors: &NameSet, hosts: &NameSet) -> (r: Snapshot)
        ensures
            distinct_ids(r@.records),
            records_by_id(r@.records) == records@,
            r@.instructors.no_duplicates(),
            r@.instructors.to_set() == instructors@,
            r@.hosts.no_duplicates(),
            r@.hosts.to_set() == hosts@,
            r.engagements@.len() == records@.len(),
            r.instructors@.len() == instructors@.len(),
            r.hosts@.len() == hosts@.len(),
    {
        let engagements = records.to_vec();
        let instructors = instructors.to_vec();
        let hosts = hosts.to_vec();
        proof {
            crate::store::lemma_records_by_id(record_views(engagements@));
            text_views(instructors@).unique_seq_to_set();
            text_views(hosts@).unique_seq_to_set();
        }
        Snapshot { engagements, instructors, hosts }
    }

    /// The number of records.
    pub fn record_count(&self) -> (r: usize)
        ensures
            r == self@.records.len(),
    {
        self.engagements.len()
    }

    /// The number of instructor names.
    pub fn instructor_count(&self) -> (r: usize)
        ensures
            r == self@.instructors.len(),
    {
        self.instructors.len()
    }

    /// The number of host names.
    pub fn host_count(&self) -> (r: usize)
        ensures
            r == self@.hosts.len(),
    {
        self.hosts.len()
    }
}

/// The snapshot of three empty collections.
pub open spec fn empty_snapshot() -> SnapshotView {
    SnapshotView { records: Seq::empty(), instructors: Seq::empty(), hosts: Seq::empty() }
}

// ---- encoding ----

pub open spec fn enc_u64(n: u64) -> Seq<u8> {
    spec_u64_to_le_bytes(n)
}

pub open spec fn enc_text(s: Seq<char>) -> Seq<u8> {
    enc_u64(encode_utf8(s).len() as u64) + encode_utf8(s)
}

pub open spec fn language_tag(l: Language) -> u8 {
    match l {
        Language::English => 0,
        Language::Spanish => 1,
        Language::French => 2,
        Language::Italian => 3,
        Language::Portuguese => 4,
        Language::German => 5,
    }
}

pub open spec fn language_of_tag(b: u8) -> Option<Language> {
    if b == 0 {
        Some(Language::English)
    } else if b == 1 {
        Some(Language::Spanish)
    } else if b == 2 {
        Some(Language::French)
    } else if b == 3 {
        Some(Language::Italian)
    } else if b == 4 {
        Some(Language::Portuguese)
    } else if b == 5 {
        Some(Language::German)
    } else {
        None
    }
}

pub open spec fn status_tag(s: Status) -> u8 {
    match s {
        Status::Planning => 0,
        Status::Invited => 1,
        Status::Confirmed => 2,
    }
}

pub open spec fn status_of_tag(b: u8) -> Option<Status> {
    if b == 0 {
        Some(Status::Planning)
    } else if b == 1 {
        Some(Status::Invited)
    } else if b == 2 {
        Some(Status::Confirmed)
    } else {
        None
    }
}

/// A text field: its name, then its value.
pub open spec fn field_text(name: Seq<char>, v: Seq<char>) -> Seq<u8> {
    enc_text(name) + enc_text(v)
}

/// An eight-byte integer field.
pub open spec fn field_u64(name: Seq<char>, v: u64) -> Seq<u8> {
    enc_text(name) + enc_u64(v)
}

/// A sixteen-byte integer field.
pub open spec fn field_u128(name: Seq<char>, v: u128) -> Seq<u8> {
    enc_text(name) + spec_u128_to_le_bytes(v)
}

/// A one-byte tag field.
pub open spec fn field_byte(name: Seq<char>, v: u8) -> Seq<u8> {
    enc_text(name) + seq![v]
}

#[verifier::opaque]
pub open spec fn enc_record_head(r: RecordView) -> Seq<u8> {
    field_u128("id"@, r.id) + (field_text("instructor"@, r.instructor) + (
    field_text("host"@, r.host) + field_text("date"@, r.date)))
}

#[verifier::opaque]
pub open spec fn enc_record_tail(r: RecordView) -> Seq<u8> {
    field_byte("language"@, language_tag(r.language)) + (field_text("title"@, r.title) + (
    field_u64("part"@, r.part as u64) + (field_u64("num_parts"@, r.num_parts as u64) +
    field_byte("status"@, status_tag(r.status)))))
}

/// The encoding of one record: each field after its name.
#[verifier::opaque]
pub open spec fn enc_record(r: RecordView) -> Seq<u8> {
    enc_record_head(r) + enc_record_tail(r)
}

/// The encodings of the records of `s`, one after another.
pub open spec fn enc_records(s: Seq<RecordView>) -> Seq<u8>
    decreases s.len(),
{
    if s.len() == 0 {
        Seq::empty()
    } else {
        enc_record(s[0]) + enc_records(s.skip(1))
    }
}

/// The encodings of the texts of `s`, one after another.
pub open spec fn enc_texts(s: Seq<Seq<char>>) -> Seq<u8>
    decreases s.len(),
{
    if s.len() == 0 {
        Seq::empty()
    } else {
        enc_text(s[0]) + enc_texts(s.skip(1))
    }
}

/// A collection of records: its name, its count, its records.
#[verifier::opaque]
pub open spec fn section_records(s: Seq<RecordView>) -> Seq<u8> {
    enc_text("engagements"@) + (enc_u64(s.len() as u64) + enc_records(s))
}

/// A collection of texts: its name, its count, its texts.
#[verifier::opaque]
pub open spec fn section_texts(name: Seq<char>, s: Seq<Seq<char>>) -> Seq<u8> {
    enc_text(name) + (enc_u64(s.len() as u64) + enc_texts(s))
}

/// The encoding of a snapshot.
#[verifier::opaque]
pub open spec fn enc_snapshot(v: SnapshotView) -> Seq<u8> {
    section_records(v.records) + (section_texts("instructors"@, v.instructors) +
    section_texts("hosts"@, v.hosts))
}

/// Every length and count of `v` fits the eight bytes that encode it.
pub open spec fn fits(v: SnapshotView) -> bool {
    &&& v.records.len() <= u64::MAX
    &&& v.instructors.len() <= u64::MAX
    &&& v.hosts.len() <= u64::MAX
    &&& forall|i: int| 0 <= i < v.records.len() ==> record_fits(#[trigger] v.records[i])
    &&& forall|i: int| 0 <= i < v.instructors.len() ==> text_fits(#[trigger] v.instructors[i])
    &&& forall|i: int| 0 <= i < v.hosts.len() ==> text_fits(#[trigger] v.hosts[i])
}

pub open spec fn text_fits(s: Seq<char>) -> bool {
    encode_utf8(s).len() <= u64::MAX
}

pub open spec fn record_fits(r: RecordView) -> bool {
    text_fits(r.instructor) && text_fits(r.host) && text_fits(r.date) && text_fits(r.title)
}

// ---- decoding ----

pub open spec fn take_u64(d: Seq<u8>) -> Option<(u64, Seq<u8>)> {
    if d.len() >= 8 {
        Some((spec_u64_from_le_bytes(d.take(8)), d.skip(8)))
    } else {
        None
    }
}

pub open spec fn take_u128(d: Seq<u8>) -> Option<(u128, Seq<u8>)> {
    if d.len() >= 16 {
        Some((spec_u128_from_le_bytes(d.take(16)), d.skip(16)))
    } else {
        None
    }
}

pub open spec fn take_byte(d: Seq<u8>) -> Option<(u8, Seq<u8>)> {
    if d.len() >= 1 {
        Some((d[0], d.skip(1)))
    } else {
        None
    }
}

pub open spec fn take_text(d: Seq<u8>) -> Option<(Seq<char>, Seq<u8>)> {
    match take_u64(d) {
        Some((n, r)) => if n <= r.len() && valid_utf8(r.take(n as int)) {
            Some((decode_utf8(r.take(n as int)), r.skip(n as int)))
        } else {
            None
        },
        None => None,
    }
}

/// What follows the text `name` at the front of `d`.
pub open spec fn after_name(d: Seq<u8>, name: Seq<char>) -> Option<Seq<u8>> {
    match take_text(d) {
        Some((t, r)) => if t == name { Some(r) } else { None },
        None => None,
    }
}

#[verifier::opaque]
pub open spec fn take_named_text(d: Seq<u8>, name: Seq<char>) -> Option<(Seq<char>, Seq<u8>)> {
    match after_name(d, name) {
        Some(d) => take_text(d),
        None => None,
    }
}

#[verifier::opaque]
pub open spec fn take_named_u64(d: Seq<u8>, name: Seq<char>) -> Option<(u64, Seq<u8>)> {
    match after_name(d, name) {
        Some(d) => take_u64(d),
        None => None,
    }
}

#[verifier::opaque]
pub open spec fn take_named_u128(d: Seq<u8>, name: Seq<char>) -> Option<(u128, Seq<u8>)> {
    match after_name(d, name) {
        Some(d) => take_u128(d),
        None => None,
    }
}

#[verifier::opaque]
pub open spec fn take_named_byte(d: Seq<u8>, name: Seq<char>) -> Option<(u8, Seq<u8>)> {
    match after_name(d, name) {
        Some(d) => take_byte(d),
        None => None,
    }
}

/// The identifier, instructor, host and date of a record.
#[verifier::opaque]
pub open spec fn take_record_head(d: Seq<u8>) -> Option<(u128, Seq<char>, Seq<char>, Seq<char>, Seq<u8>)> {
    match take_named_u128(d, "id"@) { None => None, Some((id, d)) =>
    match take_named_text(d, "instructor"@) { None => None, Some((instructor, d)) =>
    match take_named_text(d, "host"@) { None => None, Some((host, d)) =>
    match take_named_text(d, "date"@) { None => None, Some((date, d)) =>
    Some((id, instructor, host, date, d))
    }}}}
}

/// The language, title, part, number of parts and status of a record.
#[verifier::opaque]
pub open spec fn take_record_tail(d: Seq<u8>) -> Option<(Language, Seq<char>, usize, usize, Status, Seq<u8>)> {
    match take_named_byte(d, "language"@) { None => None, Some((lt, d)) =>
    match take_named_text(d, "title"@) { None => None, Some((title, d)) =>
    match take_named_u64(d, "part"@) { None => None, Some((part, d)) =>
    match take_named_u64(d, "num_parts"@) { None => None, Some((num_parts, d)) =>
    match take_named_byte(d, "status"@) { None => None, Some((st, d)) =>
    if language_of_tag(lt) is Some && status_of_tag(st) is Some && part <= usize::MAX && num_parts <= usize::MAX {
        Some((language_of_tag(lt)->0, title, part as usize, num_parts as usize, status_of_tag(st)->0, d))
    } else {
        None
    }
    }}}}}
}

#[verifier::opaque]
pub open spec fn take_record(d: Seq<u8>) -> Option<(RecordView, Seq<u8>)> {
    match take_record_head(d) {
        None => None,
        Some((id, instructor, host, date, d)) => match take_record_tail(d) {
            None => None,
            Some((language, title, part, num_parts, status, d)) => Some((RecordView {
                id, instructor, host, date, language, title, part, num_parts, status,
            }, d)),
        },
    }
}

/// `n` records read from the front of `d`, after those already in `acc`.
pub open spec fn take_records(d: Seq<u8>, n: nat, acc: Seq<RecordView>) -> Option<(Seq<RecordView>, Seq<u8>)>
    decreases n,
{
    if n == 0 {
        Some((acc, d))
    } else {
        match take_record(d) {
            Some((r, rest)) => take_records(rest, (n - 1) as nat, acc.push(r)),
            None => None,
        }
    }
}

/// `n` texts read from the front of `d`, after those already in `acc`.
pub open spec fn take_texts(d: Seq<u8>, n: nat, acc: Seq<Seq<char>>) -> Option<(Seq<Seq<char>>, Seq<u8>)>
    decreases n,
{
    if n == 0 {
        Some((acc, d))
    } else {
        match take_text(d) {
            Some((t, rest)) => take_texts(rest, (n - 1) as nat, acc.push(t)),
            None => None,
        }
    }
}

/// The records collection at the front of `d`.
#[verifier::opaque]
pub open spec fn take_record_section(d: Seq<u8>) -> Option<(Seq<RecordView>, Seq<u8>)> {
    match take_named_u64(d, "engagements"@) {
        Some((n, d)) => take_records(d, n as nat, Seq::empty()),
        None => None,
    }
}

/// The texts collection called `name` at the front of `d`.
#[verifier::opaque]
pub open spec fn take_text_section(d: Seq<u8>, name: Seq<char>) -> Option<(Seq<Seq<char>>, Seq<u8>)> {
    match take_named_u64(d, name) {
        Some((n, d)) => take_texts(d, n as nat, Seq::empty()),
        None => None,
    }
}

/// The snapshot that `d` encodes, if it is one; nothing may follow it.
#[verifier::opaque]
pub open spec fn parse_snapshot(d: Seq<u8>) -> Option<SnapshotView> {
    match take_record_section(d) { None => None, Some((records, d)) =>
    match take_text_section(d, "instructors"@) { None => None, Some((instructors, d)) =>
    match take_text_section(d, "hosts"@) { None => None, Some((hosts, d)) =>
    if d.len() == 0 {
        Some(SnapshotView { records, instructors, hosts })
    } else {
        None
    }
    }}}
}

// ---- writing ----

fn put_bytes(out: &mut Vec<u8>, b: &[u8])
    ensures
        final(out)@ == old(out)@ + b@,
{
    let ghost start = out@;
    let mut i: usize = 0;
    while i < b.len()
        invariant
            i <= b@.len(),
            out@ == start + b@.take(i as int),
        decreases b@.len() - i,
    {
        out.push(b[i]);
        proof {
            assert(b@.take(i + 1) =~= b@.take(i as int).push(b@[i as int]));
        }
        i = i + 1;
    }
    proof {
        assert(b@.take(i as int) =~= b@);
    }
}

fn put_u64(out: &mut Vec<u8>, n: u64)
    ensures
        final(out)@ == old(out)@ + enc_u64(n),
{
    let b = u64_to_le_bytes(n);
    put_bytes(out, b.as_slice());
}

fn put_text(out: &mut Vec<u8>, s: &str)
    ensures
        final(out)@ == old(out)@ + enc_text(s@),
        text_fits(s@),
{
    let b = s.as_bytes();
    let ghost start = out@;
    put_u64(out, b.len() as u64);
    put_bytes(out, b);
    proof {
        lemma_assoc(start, enc_u64(encode_utf8(s@).len() as u64), encode_utf8(s@));
    }
}

fn put_field_text(out: &mut Vec<u8>, name: &str, v: &str)
    ensures
        final(out)@ == old(out)@ + field_text(name@, v@),
        text_fits(v@),
{
    let ghost start = out@;
    put_text(out, name);
    put_text(out, v);
    proof {
        lemma_assoc(start, enc_text(name@), enc_text(v@));
    }
}

fn put_field_u64(out: &mut Vec<u8>, name: &str, v: u64)
    ensures
        final(out)@ == old(out)@ + field_u64(name@, v),
{
    let ghost start = out@;
    put_text(out, name);
    put_u64(out, v);
    proof {
        lemma_assoc(start, enc_text(name@), enc_u64(v));
    }
}

fn put_field_u128(out: &mut Vec<u8>, name: &str, v: u128)
    ensures
        final(out)@ == old(out)@ + field_u128(name@, v),
{
    let ghost start = out@;
    put_text(out, name);
    let b = u128_to_le_bytes(v);
    put_bytes(out, b.as_slice());
    proof {
        lemma_assoc(start, enc_text(name@), spec_u128_to_le_bytes(v));
    }
}

fn put_field_byte(out: &mut Vec<u8>, name: &str, v: u8)
    ensures
        final(out)@ == old(out)@ + field_byte(name@, v),
{
    let ghost start = out@;
    put_text(out, name);
    let ghost mid = out@;
    out.push(v);
    proof {
        assert(out@ =~= mid + seq![v]);
        lemma_assoc(start, enc_text(name@), seq![v]);
    }
}

fn tag_of_language(l: Language) -> (r: u8)
    ensures
        r == language_tag(l),
{
    match l {
        Language::English => 0,
        Language::Spanish => 1,
        Language::French => 2,
        Language::Italian => 3,
        Language::Portuguese => 4,
        Language::German => 5,
    }
}

fn tag_of_status(s: Status) -> (r: u8)
    ensures
        r == status_tag(s),
{
    match s {
        Status::Planning => 0,
        Status::Invited => 1,
        Status::Confirmed => 2,
    }
}

fn put_record(out: &mut Vec<u8>, e: &Engagement)
    ensures
        final(out)@ == old(out)@ + enc_record(e@),
        record_fits(e@),
{
    proof {
        reveal(enc_record);
        reveal(enc_record_head);
        reveal(enc_record_tail);
    }
    let ghost s0 = out@;
    put_field_u128(out, "id", e.id);
    let ghost s1 = out@;
    put_field_text(out, "instructor", e.instructor.as_str());
    let ghost s2 = out@;
    put_field_text(out, "host", e.host.as_str());
    let ghost s3 = out@;
    put_field_text(out, "date", e.date.as_str());
    let ghost s4 = out@;
    proof {
        let r = e@;
        assert(s4 =~= s0 + enc_record_head(r));
    }
    put_field_byte(out, "language", tag_of_language(e.language));
    put_field_text(out, "title", e.title.as_str());
    put_field_u64(out, "part", e.part as u64);
    put_field_u64(out, "num_parts", e.num_parts as u64);
    put_field_byte(out, "status", tag_of_status(e.status));
    proof {
        let r = e@;
        assert(out@ =~= s4 + enc_record_tail(r));
        lemma_assoc(s0, enc_record_head(r), enc_record_tail(r));
    }
}

/// The encoding of `s`.
pub fn serialize(s: &Snapshot) -> (r: Vec<u8>)
    ensures
        r@ == enc_snapshot(s@),
        fits(s@),
{
    proof {
        reveal(enc_snapshot);
        reveal(section_records);
        reveal(section_texts);
    }
    let mut out: Vec<u8> = Vec::new();
    put_field_u64(&mut out, "engagements", s.engagements.len() as u64);
    let ghost s1 = out@;
    let mut i: usize = 0;
    while i < s.engagements.len()
        invariant
            i <= s.engagements@.len(),
            out@ == s1 + enc_records(record_views(s.engagements@).take(i as int)),
            forall|j: int| 0 <= j < i ==> record_fits(#[trigger] record_views(s.engagements@)[j]),
        decreases s.engagements@.len() - i,
    {
        let ghost prev = out@;
        put_record(&mut out, &s.engagements[i]);
        proof {
            let rv = record_views(s.engagements@);
            assert(rv.take(i + 1) =~= rv.take(i as int).push(rv[i as int]));
            lemma_records_push(rv.take(i as int), rv[i as int]);
            lemma_assoc(s1, enc_records(rv.take(i as int)), enc_record(rv[i as int]));
        }
        i = i + 1;
    }
    proof {
        assert(record_views(s.engagements@).take(i as int) =~= record_views(s.engagements@));
    }
    let ghost s2 = out@;
    put_names(&mut out, "instructors", &s.instructors);
    let ghost s3 = out@;
    put_names(&mut out, "hosts", &s.hosts);
    proof {
        let v = s@;
        assert(v.records.len() <= u64::MAX);
        assert(v.instructors.len() <= u64::MAX);
        assert(v.hosts.len() <= u64::MAX);
        assert(s2 =~= section_records(v.records));
        assert(out@ =~= section_records(v.records) + (section_texts("instructors"@, v.instructors) + section_texts("hosts"@, v.hosts)));
    }
    out
}

fn put_names(out: &mut Vec<u8>, name: &str, names: &Vec<String>)
    ensures
        names@.len() <= usize::MAX,
        forall|j: int| 0 <= j < names@.len() ==> text_fits(#[trigger] text_views(names@)[j]),
        final(out)@ == old(out)@ + section_texts(name@, text_views(names@)),
{
    proof {
        reveal(section_texts);
    }
    let ghost s0 = out@;
    put_field_u64(out, name, names.len() as u64);
    let ghost s1 = out@;
    let mut i: usize = 0;
    while i < names.len()
        invariant
            i <= names@.len(),
            out@ == s1 + enc_texts(text_views(names@).take(i as int)),
            forall|j: int| 0 <= j < i ==> text_fits(#[trigger] text_views(names@)[j]),
        decreases names@.len() - i,
    {
        put_text(out, names[i].as_str());
        proof {
            let tv = text_views(names@);
            assert(tv.take(i + 1) =~= tv.take(i as int).push(tv[i as int]));
            lemma_texts_push(tv.take(i as int), tv[i as int]);
            lemma_assoc(s1, enc_texts(tv.take(i as int)), enc_text(tv[i as int]));
        }
        i = i + 1;
    }
    proof {
        let tv = text_views(names@);
        assert(tv.take(i as int) =~= tv);
        lemma_assoc(s0, field_u64(name@, names@.len() as u64), enc_texts(tv));
        assert(section_texts(name@, tv) =~= field_u64(name@, names@.len() as u64) + enc_texts(tv));
    }
}

// ---- reading ----

/// Relies on `String::from_utf8`: it succeeds exactly on valid UTF-8, and
/// the string it returns has exactly the given bytes.
#[verifier::external_body]
fn string_from_utf8(b: Vec<u8>) -> (r: Option<String>)
    ensures
        match r {
            Some(s) => encode_utf8(s@) == b@,
            None => !valid_utf8(b@),
        },
{
    String::from_utf8(b).ok()
}

fn copy_range(d: &Vec<u8>, from: usize, to: usize) -> (r: Vec<u8>)
    requires
        from <= to <= d@.len(),
    ensures
        r@ == d@.subrange(from as int, to as int),
{
    let mut r: Vec<u8> = Vec::new();
    let mut i: usize = from;
    while i < to
        invariant
            from <= i <= to <= d@.len(),
            r@ == d@.subrange(from as int, i as int),
        decreases to - i,
    {
        r.push(d[i]);
        proof {
            assert(d@.subrange(from as int, i + 1) =~= d@.subrange(from as int, i as int).push(d@[i as int]));
        }
        i = i + 1;
    }
    r
}

fn get_u64(d: &Vec<u8>, pos: usize) -> (r: Option<(u64, usize)>)
    requires
        pos <= d@.len(),
    ensures
        match r {
            Some((n, p)) => pos <= p <= d@.len() && take_u64(d@.skip(pos as int)) == Some((n, d@.skip(p as int))),
            None => take_u64(d@.skip(pos as int)) is None,
        },
{
    if d.len() - pos < 8 {
        return None;
    }
    let b = copy_range(d, pos, pos + 8);
    let n = u64_from_le_bytes(b.as_slice());
    proof {
        assert(b@ =~= d@.skip(pos as int).take(8));
        assert(d@.skip(pos as int).skip(8) =~= d@.skip(pos + 8));
    }
    Some((n, pos + 8))
}

fn get_u128(d: &Vec<u8>, pos: usize) -> (r: Option<(u128, usize)>)
    requires
        pos <= d@.len(),
    ensures
        match r {
            Some((n, p)) => pos <= p <= d@.len() && take_u128(d@.skip(pos as int)) == Some((n, d@.skip(p as int))),
            None => take_u128(d@.skip(pos as int)) is None,
        },
{
    if d.len() - pos < 16 {
        return None;
    }
    let b = copy_range(d, pos, pos + 16);
    let n = u128_from_le_bytes(b.as_slice());
    proof {
        assert(b@ =~= d@.skip(pos as int).take(16));
        assert(d@.skip(pos as int).skip(16) =~= d@.skip(pos + 16));
    }
    Some((n, pos + 16))
}

fn get_byte(d: &Vec<u8>, pos: usize) -> (r: Option<(u8, usize)>)
    requires
        pos <= d@.len(),
    ensures
        match r {
            Some((n, p)) => pos <= p <= d@.len() && take_byte(d@.skip(pos as int)) == Some((n, d@.skip(p as int))),
            None => take_byte(d@.skip(pos as int)) is None,
        },
{
    if d.len() - pos < 1 {
        return None;
    }
    proof {
        assert(d@.skip(pos as int).skip(1) =~= d@.skip(pos + 1));
    }
    Some((d[pos], pos + 1))
}

fn get_text(d: &Vec<u8>, pos: usize) -> (r: Option<(String, usize)>)
    requires
        pos <= d@.len(),
    ensures
        match r {
            Some((t, p)) => pos <= p <= d@.len() && take_text(d@.skip(pos as int)) == Some((t@, d@.skip(p as int))),
            None => take_text(d@.skip(pos as int)) is None,
        },
{
    let (n, p1) = match get_u64(d, pos) {
        Some(x) => x,
        None => return None,
    };
    if n > (d.len() - p1) as u64 {
        return None;
    }
    let end = p1 + n as usize;
    let b = copy_range(d, p1, end);
    let ghost rest = d@.skip(p1 as int);
    proof {
        assert(b@ =~= rest.take(n as int));
        assert(rest.skip(n as int) =~= d@.skip(end as int));
    }
    match string_from_utf8(b) {
        Some(t) => {
            proof {
                encode_utf8_valid_utf8(t@);
                encode_utf8_decode_utf8(t@);
            }
            Some((t, end))
        },
        None => None,
    }
}

fn get_name(d: &Vec<u8>, pos: usize, name: &str) -> (r: Option<usize>)
    requires
        pos <= d@.len(),
    ensures
        match r {
            Some(p) => pos <= p <= d@.len() && after_name(d@.skip(pos as int), name@) == Some(d@.skip(p as int)),
            None => after_name(d@.skip(pos as int), name@) is None,
        },
{
    match get_text(d, pos) {
        Some((t, p)) => {
            let expected = String::from_str(name);
            if t.eq(&expected) {
                Some(p)
            } else {
                None
            }
        },
        None => None,
    }
}

fn get_named_text(d: &Vec<u8>, pos: usize, name: &str) -> (r: Option<(String, usize)>)
    requires
        pos <= d@.len(),
    ensures
        match r {
            Some((t, p)) => pos <= p <= d@.len() && take_named_text(d@.skip(pos as int), name@) == Some((t@, d@.skip(p as int))),
            None => take_named_text(d@.skip(pos as int), name@) is None,
        },
{
    reveal(take_named_text);
    match get_name(d, pos, name) {
        Some(p) => get_text(d, p),
        None => None,
    }
}

fn get_named_u64(d: &Vec<u8>, pos: usize, name: &str) -> (r: Option<(u64, usize)>)
    requires
        pos <= d@.len(),
    ensures
        match r {
            Some((n, p)) => pos <= p <= d@.len() && take_named_u64(d@.skip(pos as int), name@) == Some((n, d@.skip(p as int))),
            None => take_named_u64(d@.skip(pos as int), name@) is None,
        },
{
    reveal(take_named_u64);
    match get_name(d, pos, name) {
        Some(p) => get_u64(d, p),
        None => None,
    }
}

fn get_named_u128(d: &Vec<u8>, pos: usize, name: &str) -> (r: Option<(u128, usize)>)
    requires
        pos <= d@.len(),
    ensures
        match r {
            Some((n, p)) => pos <= p <= d@.len() && take_named_u128(d@.skip(pos as int), name@) == Some((n, d@.skip(p as int))),
            None => take_named_u128(d@.skip(pos as int), name@) is None,
        },
{
    reveal(take_named_u128);
    match get_name(d, pos, name) {
        Some(p) => get_u128(d, p),
        None => None,
    }
}

fn get_named_byte(d: &Vec<u8>, pos: usize, name: &str) -> (r: Option<(u8, usize)>)
    requires
        pos <= d@.len(),
    ensures
        match r {
            Some((n, p)) => pos <= p <= d@.len() && take_named_byte(d@.skip(pos as int), name@) == Some((n, d@.skip(p as int))),
            None => take_named_byte(d@.skip(pos as int), name@) is None,
        },
{
    reveal(take_named_byte);
    match get_name(d, pos, name) {
        Some(p) => get_byte(d, p),
        None => None,
    }
}

fn language_from_tag(b: u8) -> (r: Option<Language>)
    ensures
        r == language_of_tag(b),
{
    if b == 0 {
        Some(Language::English)
    } else if b == 1 {
        Some(Language::Spanish)
    } else if b == 2 {
        Some(Language::French)
    } else if b == 3 {
        Some(Language::Italian)
    } else if b == 4 {
        Some(Language::Portuguese)
    } else if b == 5 {
        Some(Language::German)
    } else {
        None
    }
}

fn status_from_tag(b: u8) -> (r: Option<Status>)
    ensures
        r == status_of_tag(b),
{
    if b == 0 {
        Some(Status::Planning)
    } else if b == 1 {
        Some(Status::Invited)
    } else if b == 2 {
        Some(Status::Confirmed)
    } else {
        None
    }
}

fn get_record(d: &Vec<u8>, pos: usize) -> (r: Option<(Engagement, usize)>)
    requires
        pos <= d@.len(),
    ensures
        match r {
            Some((e, p)) => pos <= p <= d@.len() && take_record(d@.skip(pos as int)) == Some((e@, d@.skip(p as int))),
            None => take_record(d@.skip(pos as int)) is None,
        },
{
    proof {
        reveal(take_record);
        reveal(take_record_head);
        reveal(take_record_tail);
    }
    let (id, p) = match get_named_u128(d, pos, "id") { Some(x) => x, None => return None };
    let (instructor, p) = match get_named_text(d, p, "instructor") { Some(x) => x, None => return None };
    let (host, p) = match get_named_text(d, p, "host") { Some(x) => x, None => return None };
    let (date, p) = match get_named_text(d, p, "date") { Some(x) => x, None => return None };
    let (lt, p) = match get_named_byte(d, p, "language") { Some(x) => x, None => return None };
    let (title, p) = match get_named_text(d, p, "title") { Some(x) => x, None => return None };
    let (part, p) = match get_named_u64(d, p, "part") { Some(x) => x, None => return None };
    let (num_parts, p) = match get_named_u64(d, p, "num_parts") { Some(x) => x, None => return None };
    let (st, p) = match get_named_byte(d, p, "status") { Some(x) => x, None => return None };
    let language = match language_from_tag(lt) { Some(x) => x, None => return None };
    let status = match status_from_tag(st) { Some(x) => x, None => return None };
    if part > usize::MAX as u64 || num_parts > usize::MAX as u64 {
        return None;
    }
    let e = Engagement {
        id,
        instructor,
        host,
        date,
        language,
        title,
        part: part as usize,
        num_parts: num_parts as usize,
        status,
    };
    Some((e, p))
}

fn get_records(d: &Vec<u8>, pos: usize, n: u64) -> (r: Option<(Vec<Engagement>, usize)>)
    requires
        pos <= d@.len(),
    ensures
        match take_records(d@.skip(pos as int), n as nat, Seq::empty()) {
            Some((rs, rest)) => r matches Some((v, p)) && p <= d@.len() && record_views(v@) == rs && rest == d@.skip(p as int),
            None => r is None,
        },
{
    let mut acc: Vec<Engagement> = Vec::new();
    let mut p: usize = pos;
    let mut i: u64 = 0;
    proof {
        assert(record_views(acc@) =~= Seq::<RecordView>::empty());
    }
    while i < n
        invariant
            i <= n,
            p <= d@.len(),
            take_records(d@.skip(pos as int), n as nat, Seq::empty())
                == take_records(d@.skip(p as int), (n - i) as nat, record_views(acc@)),
        decreases n - i,
    {
        match get_record(d, p) {
            Some((e, np)) => {
                let ghost ev = e@;
                let ghost before = acc@;
                acc.push(e);
                proof {
                    assert(record_views(acc@) =~= record_views(before).push(ev));
                }
                p = np;
            },
            None => return None,
        }
        i = i + 1;
    }
    Some((acc, p))
}

fn get_texts(d: &Vec<u8>, pos: usize, n: u64) -> (r: Option<(Vec<String>, usize)>)
    requires
        pos <= d@.len(),
    ensures
        match take_texts(d@.skip(pos as int), n as nat, Seq::empty()) {
            Some((ts, rest)) => r matches Some((v, p)) && p <= d@.len() && text_views(v@) == ts && rest == d@.skip(p as int),
            None => r is None,
        },
{
    let mut acc: Vec<String> = Vec::new();
    let mut p: usize = pos;
    let mut i: u64 = 0;
    proof {
        assert(text_views(acc@) =~= Seq::<Seq<char>>::empty());
    }
    while i < n
        invariant
            i <= n,
            p <= d@.len(),
            take_texts(d@.skip(pos as int), n as nat, Seq::empty())
                == take_texts(d@.skip(p as int), (n - i) as nat, text_views(acc@)),
        decreases n - i,
    {
        match get_text(d, p) {
            Some((t, np)) => {
                let ghost tv = t@;
                let ghost before = acc@;
                acc.push(t);
                proof {
                    assert(text_views(acc@) =~= text_views(before).push(tv));
                }
                p = np;
            },
            None => return None,
        }
        i = i + 1;
    }
    Some((acc, p))
}

fn get_names(d: &Vec<u8>, pos: usize, name: &str) -> (r: Option<(Vec<String>, usize)>)
    requires
        pos <= d@.len(),
    ensures
        match take_text_section(d@.skip(pos as int), name@) {
            Some((ts, rest)) => r matches Some((v, p)) && p <= d@.len() && text_views(v@) == ts && rest == d@.skip(p as int),
            None => r is None,
        },
{
    proof {
        reveal(take_text_section);
    }
    match get_named_u64(d, pos, name) {
        Some((n, p)) => get_texts(d, p, n),
        None => None,
    }
}

/// The snapshot that `data` encodes; `CorruptSnapshot` where it encodes
/// none.
pub fn deserialize(data: &Vec<u8>) -> (r: Result<Snapshot, BackupError>)
    ensures
        match r {
            Ok(s) => parse_snapshot(data@) == Some(s@) && enc_snapshot(s@) == data@,
            Err(e) => parse_snapshot(data@) is None && e == BackupError::CorruptSnapshot
                && !exists|v: SnapshotView| fits(v) && #[trigger] enc_snapshot(v) == data@,
        },
{
    proof {
        if parse_snapshot(data@) is Some {
            lemma_decode_canonical(data@);
        } else {
            assert forall|v: SnapshotView| fits(v) implies #[trigger] enc_snapshot(v) != data@ by {
                lemma_round_trip(v);
            }
        }
        reveal(parse_snapshot);
        reveal(take_record_section);
        assert(data@.skip(0) =~= data@);
    }
    let (n, p) = match get_named_u64(data, 0, "engagements") {
        Some(x) => x,
        None => return Err(BackupError::CorruptSnapshot),
    };
    let (engagements, p) = match get_records(data, p, n) {
        Some(x) => x,
        None => return Err(BackupError::CorruptSnapshot),
    };
    let (instructors, p) = match get_names(data, p, "instructors") {
        Some(x) => x,
        None => return Err(BackupError::CorruptSnapshot),
    };
    let (hosts, p) = match get_names(data, p, "hosts") {
        Some(x) => x,
        None => return Err(BackupError::CorruptSnapshot),
    };
    if p != data.len() {
        return Err(BackupError::CorruptSnapshot);
    }
    Ok(Snapshot { engagements, instructors, hosts })
}

} // verus!
