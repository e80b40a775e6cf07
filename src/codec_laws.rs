//! What the snapshot encoding guarantees: decoding an encoding gives the
//! snapshot back, and only encodings decode.
use crate::codec::{
    after_name, empty_snapshot, enc_record, enc_record_head, enc_record_tail, enc_records,
    enc_snapshot, enc_text, enc_texts, enc_u64, field_byte, field_text, field_u128,
    field_u64, fits, language_of_tag, language_tag, parse_snapshot, record_fits,
    section_records, section_texts, status_of_tag, status_tag, take_byte, take_named_byte,
    take_named_text, take_named_u128, take_named_u64, take_record, take_record_head,
    take_record_section, take_record_tail, take_records, take_text, take_text_section,
    take_texts, take_u128, take_u64, text_fits, SnapshotView,
};
use crate::model::{Language, RecordView, Status};
use vstd::bytes::*;
use vstd::prelude::*;
use vstd::utf8::*;

verus! {

broadcast use vstd::seq_lib::group_seq_properties;

// ---- the round trip ----

pub(crate) proof fn lemma_utf8_len(s: Seq<char>)
    ensures
        encode_utf8(s).len() <= 4 * s.len(),
    decreases s.len(),
{
    if s.len() > 0 {
        lemma_utf8_len(s.drop_first());
    }
}

pub(crate) proof fn lemma_names_fit()
    ensures
        text_fits("id"@),
        text_fits("instructor"@),
        text_fits("host"@),
        text_fits("date"@),
        text_fits("language"@),
        text_fits("title"@),
        text_fits("part"@),
        text_fits("num_parts"@),
        text_fits("status"@),
        text_fits("engagements"@),
        text_fits("instructors"@),
        text_fits("hosts"@),
{
    reveal_strlit("id");
    reveal_strlit("instructor");
    reveal_strlit("host");
    reveal_strlit("date");
    reveal_strlit("language");
    reveal_strlit("title");
    reveal_strlit("part");
    reveal_strlit("num_parts");
    reveal_strlit("status");
    reveal_strlit("engagements");
    reveal_strlit("instructors");
    reveal_strlit("hosts");
    lemma_utf8_len("id"@);
    lemma_utf8_len("instructor"@);
    lemma_utf8_len("host"@);
    lemma_utf8_len("date"@);
    lemma_utf8_len("language"@);
    lemma_utf8_len("title"@);
    lemma_utf8_len("part"@);
    lemma_utf8_len("num_parts"@);
    lemma_utf8_len("status"@);
    lemma_utf8_len("engagements"@);
    lemma_utf8_len("instructors"@);
    lemma_utf8_len("hosts"@);
}

pub(crate) proof fn lemma_u64_round(n: u64, rest: Seq<u8>)
    ensures
        take_u64(enc_u64(n) + rest) == Some((n, rest)),
{
    lemma_auto_spec_u64_to_from_le_bytes();
    let d = enc_u64(n) + rest;
    assert(d.take(8) =~= enc_u64(n));
    assert(d.skip(8) =~= rest);
}

pub(crate) proof fn lemma_u128_round(n: u128, rest: Seq<u8>)
    ensures
        take_u128(spec_u128_to_le_bytes(n) + rest) == Some((n, rest)),
{
    lemma_auto_spec_u128_to_from_le_bytes();
    let d = spec_u128_to_le_bytes(n) + rest;
    assert(d.take(16) =~= spec_u128_to_le_bytes(n));
    assert(d.skip(16) =~= rest);
}

pub(crate) proof fn lemma_text_round(s: Seq<char>, rest: Seq<u8>)
    requires
        text_fits(s),
    ensures
        take_text(enc_text(s) + rest) == Some((s, rest)),
{
    let b = encode_utf8(s);
    let n = b.len() as u64;
    assert(enc_text(s) + rest =~= enc_u64(n) + (b + rest));
    lemma_u64_round(n, b + rest);
    assert((b + rest).take(n as int) =~= b);
    assert((b + rest).skip(n as int) =~= rest);
    encode_utf8_valid_utf8(s);
    encode_utf8_decode_utf8(s);
}

pub(crate) proof fn lemma_name_round(name: Seq<char>, rest: Seq<u8>)
    requires
        text_fits(name),
    ensures
        after_name(enc_text(name) + rest, name) == Some(rest),
{
    lemma_text_round(name, rest);
}

pub(crate) proof fn lemma_field_text_round(name: Seq<char>, v: Seq<char>, rest: Seq<u8>)
    requires
        text_fits(name),
        text_fits(v),
    ensures
        take_named_text(field_text(name, v) + rest, name) == Some((v, rest)),
{
    reveal(take_named_text);
    assert(field_text(name, v) + rest =~= enc_text(name) + (enc_text(v) + rest));
    lemma_name_round(name, enc_text(v) + rest);
    lemma_text_round(v, rest);
}

pub(crate) proof fn lemma_field_u64_round(name: Seq<char>, v: u64, rest: Seq<u8>)
    requires
        text_fits(name),
    ensures
        take_named_u64(field_u64(name, v) + rest, name) == Some((v, rest)),
{
    reveal(take_named_u64);
    assert(field_u64(name, v) + rest =~= enc_text(name) + (enc_u64(v) + rest));
    lemma_name_round(name, enc_u64(v) + rest);
    lemma_u64_round(v, rest);
}

pub(crate) proof fn lemma_field_u128_round(name: Seq<char>, v: u128, rest: Seq<u8>)
    requires
        text_fits(name),
    ensures
        take_named_u128(field_u128(name, v) + rest, name) == Some((v, rest)),
{
    reveal(take_named_u128);
    assert(field_u128(name, v) + rest =~= enc_text(name) + (spec_u128_to_le_bytes(v) + rest));
    lemma_name_round(name, spec_u128_to_le_bytes(v) + rest);
    lemma_u128_round(v, rest);
}

pub(crate) proof fn lemma_field_byte_round(name: Seq<char>, v: u8, rest: Seq<u8>)
    requires
        text_fits(name),
    ensures
        take_named_byte(field_byte(name, v) + rest, name) == Some((v, rest)),
{
    reveal(take_named_byte);
    assert(field_byte(name, v) + rest =~= enc_text(name) + (seq![v] + rest));
    lemma_name_round(name, seq![v] + rest);
    assert((seq![v] + rest).skip(1) =~= rest);
}

pub(crate) proof fn lemma_assoc(a: Seq<u8>, b: Seq<u8>, c: Seq<u8>)
    ensures
        (a + b) + c == a + (b + c),
{
    assert((a + b) + c =~= a + (b + c));
}

pub(crate) proof fn lemma_head_round(r: RecordView, t: Seq<u8>)
    requires
        record_fits(r),
    ensures
        take_record_head(enc_record_head(r) + t) == Some((r.id, r.instructor, r.host, r.date, t)),
{
    reveal(take_record_head);
    reveal(enc_record_head);
    lemma_names_fit();
    let a = field_u128("id"@, r.id);
    let b = field_text("instructor"@, r.instructor);
    let c = field_text("host"@, r.host);
    let d = field_text("date"@, r.date);
    lemma_assoc(a, b + (c + d), t);
    lemma_assoc(b, c + d, t);
    lemma_assoc(c, d, t);
    lemma_field_u128_round("id"@, r.id, b + (c + (d + t)));
    lemma_field_text_round("instructor"@, r.instructor, c + (d + t));
    lemma_field_text_round("host"@, r.host, d + t);
    lemma_field_text_round("date"@, r.date, t);
}

pub(crate) proof fn lemma_tags(l: Language, st: Status)
    ensures
        language_of_tag(language_tag(l)) == Some(l),
        status_of_tag(status_tag(st)) == Some(st),
{
}

pub(crate) proof fn lemma_tail_fields(r: RecordView, t: Seq<u8>)
    requires
        record_fits(r),
    ensures ({
        let a = field_byte("language"@, language_tag(r.language));
        let b = field_text("title"@, r.title);
        let c = field_u64("part"@, r.part as u64);
        let d = field_u64("num_parts"@, r.num_parts as u64);
        let e = field_byte("status"@, status_tag(r.status));
        &&& enc_record_tail(r) + t == a + (b + (c + (d + (e + t))))
        &&& take_named_byte(a + (b + (c + (d + (e + t)))), "language"@) == Some((language_tag(r.language), b + (c + (d + (e + t)))))
        &&& take_named_text(b + (c + (d + (e + t))), "title"@) == Some((r.title, c + (d + (e + t))))
        &&& take_named_u64(c + (d + (e + t)), "part"@) == Some((r.part as u64, d + (e + t)))
        &&& take_named_u64(d + (e + t), "num_parts"@) == Some((r.num_parts as u64, e + t))
        &&& take_named_byte(e + t, "status"@) == Some((status_tag(r.status), t))
    }),
{
    reveal(enc_record_tail);
    lemma_names_fit();
    let a = field_byte("language"@, language_tag(r.language));
    let b = field_text("title"@, r.title);
    let c = field_u64("part"@, r.part as u64);
    let d = field_u64("num_parts"@, r.num_parts as u64);
    let e = field_byte("status"@, status_tag(r.status));
    lemma_assoc(a, b + (c + (d + e)), t);
    lemma_assoc(b, c + (d + e), t);
    lemma_assoc(c, d + e, t);
    lemma_assoc(d, e, t);
    lemma_field_byte_round("language"@, language_tag(r.language), b + (c + (d + (e + t))));
    lemma_field_text_round("title"@, r.title, c + (d + (e + t)));
    lemma_field_u64_round("part"@, r.part as u64, d + (e + t));
    lemma_field_u64_round("num_parts"@, r.num_parts as u64, e + t);
    lemma_field_byte_round("status"@, status_tag(r.status), t);
}

pub(crate) proof fn lemma_tail_round(r: RecordView, t: Seq<u8>)
    requires
        record_fits(r),
    ensures
        take_record_tail(enc_record_tail(r) + t) == Some((r.language, r.title, r.part, r.num_parts, r.status, t)),
{
    reveal(take_record_tail);
    lemma_tail_fields(r, t);
    lemma_tags(r.language, r.status);
    assert((r.part as u64) as usize == r.part);
    assert((r.num_parts as u64) as usize == r.num_parts);
}

pub(crate) proof fn lemma_record_round(r: RecordView, rest: Seq<u8>)
    requires
        record_fits(r),
    ensures
        take_record(enc_record(r) + rest) == Some((r, rest)),
{
    reveal(take_record);
    reveal(enc_record);
    let t = enc_record_tail(r) + rest;
    assert(enc_record(r) + rest =~= enc_record_head(r) + t);
    lemma_head_round(r, t);
    lemma_tail_round(r, rest);
}

pub(crate) proof fn lemma_records_round(s: Seq<RecordView>, rest: Seq<u8>, acc: Seq<RecordView>)
    requires
        forall|i: int| 0 <= i < s.len() ==> record_fits(#[trigger] s[i]),
    ensures
        take_records(enc_records(s) + rest, s.len(), acc) == Some((acc + s, rest)),
    decreases s.len(),
{
    if s.len() == 0 {
        assert(enc_records(s) + rest =~= rest);
        assert(acc + s =~= acc);
    } else {
        let tail = s.skip(1);
        assert(enc_records(s) + rest =~= enc_record(s[0]) + (enc_records(tail) + rest));
        lemma_record_round(s[0], enc_records(tail) + rest);
        assert forall|i: int| 0 <= i < tail.len() implies record_fits(#[trigger] tail[i]) by {
            assert(tail[i] == s[i + 1]);
        }
        lemma_records_round(tail, rest, acc.push(s[0]));
        assert(acc.push(s[0]) + tail =~= acc + s);
    }
}

pub(crate) proof fn lemma_texts_round(s: Seq<Seq<char>>, rest: Seq<u8>, acc: Seq<Seq<char>>)
    requires
        forall|i: int| 0 <= i < s.len() ==> text_fits(#[trigger] s[i]),
    ensures
        take_texts(enc_texts(s) + rest, s.len(), acc) == Some((acc + s, rest)),
    decreases s.len(),
{
    if s.len() == 0 {
        assert(enc_texts(s) + rest =~= rest);
        assert(acc + s =~= acc);
    } else {
        let tail = s.skip(1);
        assert(enc_texts(s) + rest =~= enc_text(s[0]) + (enc_texts(tail) + rest));
        lemma_text_round(s[0], enc_texts(tail) + rest);
        assert forall|i: int| 0 <= i < tail.len() implies text_fits(#[trigger] tail[i]) by {
            assert(tail[i] == s[i + 1]);
        }
        lemma_texts_round(tail, rest, acc.push(s[0]));
        assert(acc.push(s[0]) + tail =~= acc + s);
    }
}

/// Decoding the encoding of a snapshot gives the snapshot back, every
/// collection in its order, provided each length fits the eight bytes that
/// encode it.
pub proof fn lemma_round_trip(v: SnapshotView)
    requires
        fits(v),
    ensures
        parse_snapshot(enc_snapshot(v)) == Some(v),
{
    reveal(parse_snapshot);
    reveal(enc_snapshot);
    reveal(section_records);
    reveal(section_texts);
    reveal(take_record_section);
    reveal(take_text_section);
    lemma_names_fit();
    let e = Seq::<u8>::empty();
    let hosts = section_texts("hosts"@, v.hosts);
    let instr = section_texts("instructors"@, v.instructors);
    assert(enc_snapshot(v) =~= field_u64("engagements"@, v.records.len() as u64) + (enc_records(v.records) + (instr + hosts)));
    lemma_field_u64_round("engagements"@, v.records.len() as u64, enc_records(v.records) + (instr + hosts));
    lemma_records_round(v.records, instr + hosts, Seq::empty());
    assert(Seq::<RecordView>::empty() + v.records =~= v.records);
    assert(instr + hosts =~= field_u64("instructors"@, v.instructors.len() as u64) + (enc_texts(v.instructors) + hosts));
    lemma_field_u64_round("instructors"@, v.instructors.len() as u64, enc_texts(v.instructors) + hosts);
    lemma_texts_round(v.instructors, hosts, Seq::empty());
    assert(Seq::<Seq<char>>::empty() + v.instructors =~= v.instructors);
    assert(hosts =~= field_u64("hosts"@, v.hosts.len() as u64) + (enc_texts(v.hosts) + e));
    lemma_field_u64_round("hosts"@, v.hosts.len() as u64, enc_texts(v.hosts) + e);
    lemma_texts_round(v.hosts, e, Seq::empty());
    assert(Seq::<Seq<char>>::empty() + v.hosts =~= v.hosts);
}

pub(crate) proof fn lemma_records_push(a: Seq<RecordView>, x: RecordView)
    ensures
        enc_records(a.push(x)) == enc_records(a) + enc_record(x),
    decreases a.len(),
{
    if a.len() == 0 {
        assert(a.push(x).skip(1) =~= Seq::<RecordView>::empty());
        assert(enc_records(a.push(x)) =~= enc_records(a) + enc_record(x));
    } else {
        assert(a.push(x).skip(1) =~= a.skip(1).push(x));
        lemma_records_push(a.skip(1), x);
        lemma_assoc(enc_record(a[0]), enc_records(a.skip(1)), enc_record(x));
    }
}

pub(crate) proof fn lemma_texts_push(a: Seq<Seq<char>>, x: Seq<char>)
    ensures
        enc_texts(a.push(x)) == enc_texts(a) + enc_text(x),
    decreases a.len(),
{
    if a.len() == 0 {
        assert(a.push(x).skip(1) =~= Seq::<Seq<char>>::empty());
        assert(enc_texts(a.push(x)) =~= enc_texts(a) + enc_text(x));
    } else {
        assert(a.push(x).skip(1) =~= a.skip(1).push(x));
        lemma_texts_push(a.skip(1), x);
        lemma_assoc(enc_text(a[0]), enc_texts(a.skip(1)), enc_text(x));
    }
}

// ---- only encodings decode ----

pub(crate) proof fn lemma_u64_back(d: Seq<u8>)
    requires
        take_u64(d) is Some,
    ensures
        d == enc_u64(take_u64(d).unwrap().0) + take_u64(d).unwrap().1,
{
    lemma_auto_spec_u64_to_from_le_bytes();
    assert(spec_u64_to_le_bytes(spec_u64_from_le_bytes(d.take(8))) == d.take(8));
    assert(d =~= d.take(8) + d.skip(8));
}

pub(crate) proof fn lemma_u128_back(d: Seq<u8>)
    requires
        take_u128(d) is Some,
    ensures
        d == spec_u128_to_le_bytes(take_u128(d).unwrap().0) + take_u128(d).unwrap().1,
{
    lemma_auto_spec_u128_to_from_le_bytes();
    assert(spec_u128_to_le_bytes(spec_u128_from_le_bytes(d.take(16))) == d.take(16));
    assert(d =~= d.take(16) + d.skip(16));
}

pub(crate) proof fn lemma_text_back(d: Seq<u8>)
    requires
        take_text(d) is Some,
    ensures
        d == enc_text(take_text(d).unwrap().0) + take_text(d).unwrap().1,
        text_fits(take_text(d).unwrap().0),
{
    let (n, r) = take_u64(d)->0;
    lemma_u64_back(d);
    let b = r.take(n as int);
    decode_utf8_encode_utf8(b);
    assert(encode_utf8(decode_utf8(b)) == b);
    assert(r =~= b + r.skip(n as int));
    lemma_assoc(enc_u64(n), b, r.skip(n as int));
}

pub(crate) proof fn lemma_name_back(d: Seq<u8>, name: Seq<char>)
    requires
        after_name(d, name) is Some,
    ensures
        d == enc_text(name) + after_name(d, name)->0,
{
    lemma_text_back(d);
}

pub(crate) proof fn lemma_named_text_back(d: Seq<u8>, name: Seq<char>)
    requires
        take_named_text(d, name) is Some,
    ensures
        d == field_text(name, take_named_text(d, name).unwrap().0) + take_named_text(d, name).unwrap().1,
        text_fits(take_named_text(d, name).unwrap().0),
{
    reveal(take_named_text);
    let d1 = after_name(d, name)->0;
    lemma_name_back(d, name);
    lemma_text_back(d1);
    lemma_assoc(enc_text(name), enc_text(take_text(d1).unwrap().0), take_text(d1).unwrap().1);
}

pub(crate) proof fn lemma_named_u64_back(d: Seq<u8>, name: Seq<char>)
    requires
        take_named_u64(d, name) is Some,
    ensures
        d == field_u64(name, take_named_u64(d, name).unwrap().0) + take_named_u64(d, name).unwrap().1,
{
    reveal(take_named_u64);
    let d1 = after_name(d, name)->0;
    lemma_name_back(d, name);
    lemma_u64_back(d1);
    lemma_assoc(enc_text(name), enc_u64(take_u64(d1).unwrap().0), take_u64(d1).unwrap().1);
}

pub(crate) proof fn lemma_named_u128_back(d: Seq<u8>, name: Seq<char>)
    requires
        take_named_u128(d, name) is Some,
    ensures
        d == field_u128(name, take_named_u128(d, name).unwrap().0) + take_named_u128(d, name).unwrap().1,
{
    reveal(take_named_u128);
    let d1 = after_name(d, name)->0;
    lemma_name_back(d, name);
    lemma_u128_back(d1);
    lemma_assoc(enc_text(name), spec_u128_to_le_bytes(take_u128(d1).unwrap().0), take_u128(d1).unwrap().1);
}

pub(crate) proof fn lemma_named_byte_back(d: Seq<u8>, name: Seq<char>)
    requires
        take_named_byte(d, name) is Some,
    ensures
        d == field_byte(name, take_named_byte(d, name).unwrap().0) + take_named_byte(d, name).unwrap().1,
{
    reveal(take_named_byte);
    let d1 = after_name(d, name)->0;
    lemma_name_back(d, name);
    assert(d1 =~= seq![d1[0]] + d1.skip(1));
    lemma_assoc(enc_text(name), seq![d1[0]], d1.skip(1));
}

pub(crate) proof fn lemma_head_back(d: Seq<u8>)
    requires
        take_record_head(d) is Some,
    ensures ({
        let (id, instructor, host, date, rest) = take_record_head(d)->0;
        &&& text_fits(instructor) && text_fits(host) && text_fits(date)
        &&& d == field_u128("id"@, id) + (field_text("instructor"@, instructor) + (
            field_text("host"@, host) + (field_text("date"@, date) + rest)))
    }),
{
    reveal(take_record_head);
    let d1 = take_named_u128(d, "id"@).unwrap().1;
    let d2 = take_named_text(d1, "instructor"@).unwrap().1;
    let d3 = take_named_text(d2, "host"@).unwrap().1;
    lemma_named_u128_back(d, "id"@);
    lemma_named_text_back(d1, "instructor"@);
    lemma_named_text_back(d2, "host"@);
    lemma_named_text_back(d3, "date"@);
}

pub(crate) proof fn lemma_tail_chain(
    d: Seq<u8>,
    lt: u8,
    d1: Seq<u8>,
    title: Seq<char>,
    d2: Seq<u8>,
    part: u64,
    d3: Seq<u8>,
    num_parts: u64,
    d4: Seq<u8>,
    st: u8,
    d5: Seq<u8>,
)
    requires
        take_named_byte(d, "language"@) == Some((lt, d1)),
        take_named_text(d1, "title"@) == Some((title, d2)),
        take_named_u64(d2, "part"@) == Some((part, d3)),
        take_named_u64(d3, "num_parts"@) == Some((num_parts, d4)),
        take_named_byte(d4, "status"@) == Some((st, d5)),
    ensures
        text_fits(title),
        d == field_byte("language"@, lt) + (field_text("title"@, title) + (field_u64("part"@, part) + (
            field_u64("num_parts"@, num_parts) + (field_byte("status"@, st) + d5)))),
{
    lemma_named_byte_back(d, "language"@);
    lemma_named_text_back(d1, "title"@);
    lemma_named_u64_back(d2, "part"@);
    lemma_named_u64_back(d3, "num_parts"@);
    lemma_named_byte_back(d4, "status"@);
}

pub(crate) proof fn lemma_tail_back(d: Seq<u8>)
    requires
        take_record_tail(d) is Some,
    ensures ({
        let (language, title, part, num_parts, status, rest) = take_record_tail(d).unwrap();
        &&& text_fits(title)
        &&& d == field_byte("language"@, language_tag(language)) + (field_text("title"@, title) + (
            field_u64("part"@, part as u64) + (field_u64("num_parts"@, num_parts as u64) + (
            field_byte("status"@, status_tag(status)) + rest))))
    }),
{
    reveal(take_record_tail);
    let (lt, d1) = take_named_byte(d, "language"@).unwrap();
    let (title, d2) = take_named_text(d1, "title"@).unwrap();
    let (part, d3) = take_named_u64(d2, "part"@).unwrap();
    let (num_parts, d4) = take_named_u64(d3, "num_parts"@).unwrap();
    let (st, d5) = take_named_byte(d4, "status"@).unwrap();
    let language = language_of_tag(lt).unwrap();
    let status = status_of_tag(st).unwrap();
    assert(take_record_tail(d) == Some((language, title, part as usize, num_parts as usize, status, d5)));
    lemma_tail_chain(d, lt, d1, title, d2, part, d3, num_parts, d4, st, d5);
    assert(language_tag(language_of_tag(lt).unwrap()) == lt);
    assert(status_tag(status_of_tag(st).unwrap()) == st);
    assert(((part as usize) as u64) == part);
    assert(((num_parts as usize) as u64) == num_parts);
}

pub(crate) proof fn lemma_record_back(d: Seq<u8>)
    requires
        take_record(d) is Some,
    ensures
        record_fits(take_record(d).unwrap().0),
        d == enc_record(take_record(d).unwrap().0) + take_record(d).unwrap().1,
{
    reveal(take_record);
    reveal(enc_record);
    reveal(enc_record_head);
    reveal(enc_record_tail);
    let t = take_record_head(d).unwrap().4;
    lemma_head_back(d);
    lemma_tail_back(t);
    let r = take_record(d).unwrap().0;
    let rest = take_record(d).unwrap().1;
    let a = field_u128("id"@, r.id);
    let b = field_text("instructor"@, r.instructor);
    let c = field_text("host"@, r.host);
    let e = field_text("date"@, r.date);
    lemma_assoc(a, b + (c + e), t);
    lemma_assoc(b, c + e, t);
    lemma_assoc(c, e, t);
    lemma_assoc(enc_record_head(r), enc_record_tail(r), rest);
    let ta = field_byte("language"@, language_tag(r.language));
    let tb = field_text("title"@, r.title);
    let tc = field_u64("part"@, r.part as u64);
    let td = field_u64("num_parts"@, r.num_parts as u64);
    let te = field_byte("status"@, status_tag(r.status));
    lemma_assoc(ta, tb + (tc + (td + te)), rest);
    lemma_assoc(tb, tc + (td + te), rest);
    lemma_assoc(tc, td + te, rest);
    lemma_assoc(td, te, rest);
}

pub(crate) proof fn lemma_records_back(d: Seq<u8>, n: nat, acc: Seq<RecordView>)
    requires
        take_records(d, n, acc) is Some,
    ensures ({
        let (res, rest) = take_records(d, n, acc)->0;
        &&& res.len() == acc.len() + n
        &&& res.take(acc.len() as int) == acc
        &&& d == enc_records(res.skip(acc.len() as int)) + rest
        &&& forall|i: int| acc.len() <= i < res.len() ==> record_fits(#[trigger] res[i])
    }),
    decreases n,
{
    let (res, rest) = take_records(d, n, acc)->0;
    if n == 0 {
        assert(res.skip(acc.len() as int) =~= Seq::<RecordView>::empty());
        assert(res.take(acc.len() as int) =~= acc);
        assert(d =~= Seq::<u8>::empty() + d);
    } else {
        let (r, d1) = take_record(d)->0;
        lemma_record_back(d);
        lemma_records_back(d1, (n - 1) as nat, acc.push(r));
        let s = res.skip(acc.len() as int);
        assert(s[0] == r) by {
            assert(res.take(acc.len() as int + 1)[acc.len() as int] == r);
        }
        assert(s.skip(1) =~= res.skip(acc.len() as int + 1));
        assert(res.take(acc.len() as int) =~= acc.push(r).take(acc.len() as int));
        lemma_assoc(enc_record(r), enc_records(s.skip(1)), rest);
    }
}

pub(crate) proof fn lemma_texts_back(d: Seq<u8>, n: nat, acc: Seq<Seq<char>>)
    requires
        take_texts(d, n, acc) is Some,
    ensures ({
        let (res, rest) = take_texts(d, n, acc)->0;
        &&& res.len() == acc.len() + n
        &&& res.take(acc.len() as int) == acc
        &&& d == enc_texts(res.skip(acc.len() as int)) + rest
        &&& forall|i: int| acc.len() <= i < res.len() ==> text_fits(#[trigger] res[i])
    }),
    decreases n,
{
    let (res, rest) = take_texts(d, n, acc)->0;
    if n == 0 {
        assert(res.skip(acc.len() as int) =~= Seq::<Seq<char>>::empty());
        assert(res.take(acc.len() as int) =~= acc);
        assert(d =~= Seq::<u8>::empty() + d);
    } else {
        let (t, d1) = take_text(d)->0;
        lemma_text_back(d);
        lemma_texts_back(d1, (n - 1) as nat, acc.push(t));
        let s = res.skip(acc.len() as int);
        assert(s[0] == t) by {
            assert(res.take(acc.len() as int + 1)[acc.len() as int] == t);
        }
        assert(s.skip(1) =~= res.skip(acc.len() as int + 1));
        assert(res.take(acc.len() as int) =~= acc.push(t).take(acc.len() as int));
        lemma_assoc(enc_text(t), enc_texts(s.skip(1)), rest);
    }
}

pub(crate) proof fn lemma_text_section_back(d: Seq<u8>, name: Seq<char>)
    requires
        take_text_section(d, name) is Some,
    ensures ({
        let (ts, rest) = take_text_section(d, name)->0;
        &&& ts.len() <= u64::MAX
        &&& forall|i: int| 0 <= i < ts.len() ==> text_fits(#[trigger] ts[i])
        &&& d == section_texts(name, ts) + rest
    }),
{
    reveal(take_text_section);
    reveal(section_texts);
    let (n, d1) = take_named_u64(d, name)->0;
    lemma_named_u64_back(d, name);
    lemma_texts_back(d1, n as nat, Seq::empty());
    let (ts, rest) = take_text_section(d, name)->0;
    assert(ts.skip(0) =~= ts);
    lemma_assoc(field_u64(name, n), enc_texts(ts), rest);
    lemma_assoc(enc_text(name), enc_u64(n), enc_texts(ts));
}

/// Only encodings decode: bytes that decode to a snapshot are exactly that
/// snapshot's encoding, and its lengths fit their eight bytes. With the
/// round trip, the bytes that decode are exactly the encodings.
pub proof fn lemma_decode_canonical(d: Seq<u8>)
    requires
        parse_snapshot(d) is Some,
    ensures
        fits(parse_snapshot(d)->0),
        enc_snapshot(parse_snapshot(d)->0) == d,
{
    reveal(parse_snapshot);
    reveal(take_record_section);
    reveal(enc_snapshot);
    reveal(section_records);
    let (n, d1) = take_named_u64(d, "engagements"@)->0;
    lemma_named_u64_back(d, "engagements"@);
    lemma_records_back(d1, n as nat, Seq::empty());
    let (records, d2) = take_record_section(d)->0;
    assert(records.skip(0) =~= records);
    let (instructors, d3) = take_text_section(d2, "instructors"@)->0;
    lemma_text_section_back(d2, "instructors"@);
    let (hosts, d4) = take_text_section(d3, "hosts"@)->0;
    lemma_text_section_back(d3, "hosts"@);
    assert(d4 =~= Seq::<u8>::empty());
    assert(section_texts("hosts"@, hosts) + d4 =~= section_texts("hosts"@, hosts));
    let a = field_u64("engagements"@, n);
    lemma_assoc(a, enc_records(records), d2);
    lemma_assoc(enc_text("engagements"@), enc_u64(n), enc_records(records));
    assert(section_records(records) == a + enc_records(records)) by {
        lemma_assoc(enc_text("engagements"@), enc_u64(n), enc_records(records));
    }
}

/// The snapshot of three empty collections encodes to bytes that decode
/// back to it.
pub proof fn lemma_empty_snapshot_decodes()
    ensures
        parse_snapshot(enc_snapshot(empty_snapshot())) == Some(empty_snapshot()),
{
    lemma_round_trip(empty_snapshot());
}

} // verus!
