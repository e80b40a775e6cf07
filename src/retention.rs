//! Retention of remote snapshot objects by age, and the choice of the newest.
use crate::store::text_views;
use vstd::prelude::*;

verus! {

broadcast use vstd::seq_lib::group_seq_properties;

/// Milliseconds in a day.
pub const DAY_MS: i128 = 86_400_000;

/// One entry of a remote listing: the object's key and the time the store
/// reports it was last modified, in milliseconds since the Unix epoch. The
/// store may omit either.
pub struct ObjectEntry {
    pub key: Option<String>,
    pub last_modified_ms: Option<i64>,
}

pub struct ObjectView {
    pub key: Option<Seq<char>>,
    pub last_modified_ms: Option<i64>,
}

impl View for ObjectEntry {
    type V = ObjectView;

    open spec fn view(&self) -> ObjectView {
        ObjectView {
            key: match self.key {
                Some(k) => Some(k@),
                None => None,
            },
            last_modified_ms: self.last_modified_ms,
        }
    }
}

pub open spec fn object_views(s: Seq<ObjectEntry>) -> Seq<ObjectView> {
    s.map_values(|o: ObjectEntry| o@)
}

/// The instant before which objects are expired: `retention_days` days
/// before `now_ms`.
pub open spec fn cutoff(now_ms: i64, retention_days: i64) -> int {
    now_ms - retention_days * 86_400_000
}

/// Whether `o` is to be deleted: it has a key and a time, and the time is
/// strictly before `cutoff`.
pub open spec fn is_expired(o: ObjectView, cutoff: int) -> bool {
    o.key is Some && o.last_modified_ms is Some && (o.last_modified_ms->0 as int) < cutoff
}

/// The keys of the expired objects of `s`, in listing order.
pub open spec fn expired_keys_of(s: Seq<ObjectView>, cutoff: int) -> Seq<Seq<char>>
    decreases s.len(),
{
    if s.len() == 0 {
        Seq::empty()
    } else {
        let rest = expired_keys_of(s.drop_last(), cutoff);
        if is_expired(s.last(), cutoff) {
            rest.push(s.last().key->0)
        } else {
            rest
        }
    }
}

/// The objects of `s` that a sweep at `cutoff` keeps.
pub open spec fn kept_by_sweep(s: Seq<ObjectView>, cutoff: int) -> Seq<ObjectView>
    decreases s.len(),
{
    if s.len() == 0 {
        Seq::empty()
    } else {
        let rest = kept_by_sweep(s.drop_last(), cutoff);
        if is_expired(s.last(), cutoff) {
            rest
        } else {
            rest.push(s.last())
        }
    }
}

/// The cutoff of a sweep at `now_ms` with a retention of `retention_days`.
pub fn cutoff_ms(now_ms: i64, retention_days: i64) -> (r: i128)
    ensures
        r == cutoff(now_ms, retention_days),
{
    assert(-0x8000_0000_0000_0000 * 86_400_000 <= retention_days * 86_400_000 <= 0x7fff_ffff_ffff_ffff * 86_400_000) by (nonlinear_arith);
    now_ms as i128 - retention_days as i128 * DAY_MS
}

/// The keys of the objects that a sweep at `now_ms` with a retention of
/// `retention_days` deletes: those last modified strictly before the cutoff.
pub fn expired_keys(objects: &Vec<ObjectEntry>, now_ms: i64, retention_days: i64) -> (r: Vec<String>)
    ensures
        text_views(r@) == expired_keys_of(object_views(objects@), cutoff(now_ms, retention_days)),
{
    let c = cutoff_ms(now_ms, retention_days);
    let mut r: Vec<String> = Vec::new();
    let mut i: usize = 0;
    while i < objects.len()
        invariant
            i <= objects@.len(),
            c == cutoff(now_ms, retention_days),
            text_views(r@) == expired_keys_of(object_views(objects@).take(i as int), c as int),
        decreases objects@.len() - i,
    {
        let o = &objects[i];
        proof {
            let s = object_views(objects@).take(i + 1);
            assert(s.drop_last() =~= object_views(objects@).take(i as int));
            assert(s.last() == o@);
        }
        match (&o.key, o.last_modified_ms) {
            (Some(k), Some(t)) => {
                if (t as i128) < c {
                    let ghost before = r@;
                    r.push(k.clone());
                    proof {
                        assert(text_views(r@) =~= text_views(before).push(k@));
                    }
                }
            },
            _ => {},
        }
        i = i + 1;
    }
    proof {
        assert(object_views(objects@).take(i as int) =~= object_views(objects@));
    }
    r
}

proof fn lemma_kept_not_expired(s: Seq<ObjectView>, c: int)
    ensures
        forall|i: int| 0 <= i < kept_by_sweep(s, c).len() ==> !is_expired(#[trigger] kept_by_sweep(s, c)[i], c),
    decreases s.len(),
{
    if s.len() > 0 {
        let p = s.drop_last();
        lemma_kept_not_expired(p, c);
        let k = kept_by_sweep(s, c);
        let kp = kept_by_sweep(p, c);
        assert forall|i: int| 0 <= i < k.len() implies !is_expired(#[trigger] k[i], c) by {
            if i < kp.len() {
                assert(k[i] == kp[i]);
            }
        }
    }
}

proof fn lemma_none_expired(s: Seq<ObjectView>, c: int, c2: int)
    requires
        c2 <= c,
        forall|i: int| 0 <= i < s.len() ==> !is_expired(#[trigger] s[i], c),
    ensures
        expired_keys_of(s, c2) == Seq::<Seq<char>>::empty(),
    decreases s.len(),
{
    if s.len() > 0 {
        assert(!is_expired(s[s.len() - 1], c));
        lemma_none_expired(s.drop_last(), c, c2);
    }
}

/// A second sweep over what a first sweep kept deletes nothing, when it
/// runs at the same time as the first or earlier (no later cutoff).
pub proof fn lemma_sweep_idempotent(s: Seq<ObjectView>, c: int, c2: int)
    requires
        c2 <= c,
    ensures
        expired_keys_of(kept_by_sweep(s, c), c2) == Seq::<Seq<char>>::empty(),
{
    lemma_kept_not_expired(s, c);
    lemma_none_expired(kept_by_sweep(s, c), c, c2);
}

/// Whether last-modified time `a` is at most `b`; an absent time is the
/// least.
pub open spec fn time_le(a: Option<i64>, b: Option<i64>) -> bool {
    match (a, b) {
        (None, _) => true,
        (Some(_), None) => false,
        (Some(x), Some(y)) => x <= y,
    }
}

/// Whether `s[i]` is the newest object of `s`: none is newer, and it is the
/// last of those as new as it.
pub open spec fn is_latest(s: Seq<ObjectView>, i: int) -> bool {
    &&& 0 <= i < s.len()
    &&& forall|j: int| 0 <= j < s.len() ==> time_le(#[trigger] s[j].last_modified_ms, s[i].last_modified_ms)
    &&& forall|j: int| i < j < s.len() ==> !time_le(s[i].last_modified_ms, #[trigger] s[j].last_modified_ms)
}

/// The key of the newest object of the listing; none where the listing is
/// empty or the newest object has no key.
pub fn latest_key(objects: &Vec<ObjectEntry>) -> (r: Option<String>)
    ensures
        objects@.len() == 0 ==> r is None,
        objects@.len() > 0 ==> exists|i: int| is_latest(object_views(objects@), i) && match r {
            Some(k) => object_views(objects@)[i].key == Some(k@),
            None => object_views(objects@)[i].key is None,
        },
{
    if objects.len() == 0 {
        return None;
    }
    let ghost s = object_views(objects@);
    let mut best: usize = 0;
    let mut i: usize = 1;
    while i < objects.len()
        invariant
            1 <= i <= objects@.len(),
            s == object_views(objects@),
            best < i,
            forall|j: int| 0 <= j < i ==> time_le(#[trigger] s[j].last_modified_ms, s[best as int].last_modified_ms),
            forall|j: int| best < j < i ==> !time_le(s[best as int].last_modified_ms, #[trigger] s[j].last_modified_ms),
        decreases objects@.len() - i,
    {
        let newer = match (objects[best].last_modified_ms, objects[i].last_modified_ms) {
            (None, _) => true,
            (Some(_), None) => false,
            (Some(x), Some(y)) => x <= y,
        };
        proof {
            assert(s[best as int].last_modified_ms == objects@[best as int].last_modified_ms);
            assert(s[i as int].last_modified_ms == objects@[i as int].last_modified_ms);
        }
        if newer {
            best = i;
        }
        i = i + 1;
    }
    proof {
        assert(is_latest(s, best as int));
    }
    match &objects[best].key {
        Some(k) => Some(k.clone()),
        None => None,
    }
}

} // verus!
