//! The collections of the store: names without duplicates, records unique
//! by identifier, and the repositories that hand out exclusive access.
use crate::model::{Engagement, RecordView};
use vstd::prelude::*;

verus! {

broadcast use vstd::seq_lib::group_seq_properties;

/// The character views of a sequence of strings.
pub open spec fn text_views(v: Seq<String>) -> Seq<Seq<char>> {
    v.map_values(|s: String| s@)
}

/// The record views of a sequence of records.
pub open spec fn record_views(v: Seq<Engagement>) -> Seq<RecordView> {
    v.map_values(|e: Engagement| e@)
}

/// The records of `s` keyed by identifier; where two share an identifier the
/// earlier one is kept.
pub open spec fn records_by_id(s: Seq<RecordView>) -> Map<u128, RecordView>
    decreases s.len(),
{
    if s.len() == 0 {
        Map::empty()
    } else {
        let m = records_by_id(s.drop_last());
        if m.contains_key(s.last().id) {
            m
        } else {
            m.insert(s.last().id, s.last())
        }
    }
}

/// A set of names (instructors or hosts) without duplicates.
pub struct NameSet {
    items: Vec<String>,
}

impl View for NameSet {
    type V = Set<Seq<char>>;

    closed spec fn view(&self) -> Set<Seq<char>> {
        text_views(self.items@).to_set()
    }
}

proof fn lemma_views_contains(v: Seq<String>, x: Seq<char>)
    ensures
        text_views(v).to_set().contains(x) <==> exists|i: int| 0 <= i < v.len() && v[i]@ == x,
{
    if text_views(v).to_set().contains(x) {
        let i = choose|i: int| 0 <= i < text_views(v).len() && text_views(v)[i] == x;
        assert(v[i]@ == x);
    }
    if exists|i: int| 0 <= i < v.len() && v[i]@ == x {
        let i = choose|i: int| 0 <= i < v.len() && v[i]@ == x;
        assert(text_views(v)[i] == x);
    }
}

impl NameSet {
    #[verifier::type_invariant]
    spec fn distinct(self) -> bool {
        text_views(self.items@).no_duplicates()
    }

    /// An empty set.
    pub fn new() -> (r: NameSet)
        ensures
            r@ == Set::<Seq<char>>::empty(),
    {
        let r = NameSet { items: Vec::new() };
        assert(text_views(r.items@).to_set() =~= Set::<Seq<char>>::empty());
        r
    }

    /// The number of names held.
    pub fn len(&self) -> (r: usize)
        ensures
            r == self@.len(),
    {
        proof {
            use_type_invariant(self);
            text_views(self.items@).unique_seq_to_set();
        }
        self.items.len()
    }

    /// Whether no name is held.
    pub fn is_empty(&self) -> (r: bool)
        ensures
            r == (self@ == Set::<Seq<char>>::empty()),
    {
        proof {
            use_type_invariant(self);
            text_views(self.items@).unique_seq_to_set();
            if self.items.len() > 0 {
                lemma_views_contains(self.items@, self.items@[0]@);
                assert(self@.contains(self.items@[0]@));
            } else {
                assert(self@ =~= Set::<Seq<char>>::empty());
            }
        }
        self.items.len() == 0
    }

    fn position(&self, name: &String) -> (r: Option<usize>)
        ensures
            match r {
                Some(i) => i < self.items@.len() && self.items@[i as int]@ == name@,
                None => forall|i: int| 0 <= i < self.items@.len() ==> self.items@[i]@ != name@,
            },
    {
        let mut i: usize = 0;
        while i < self.items.len()
            invariant
                i <= self.items@.len(),
                forall|j: int| 0 <= j < i ==> self.items@[j]@ != name@,
            decreases self.items@.len() - i,
        {
            if self.items[i].eq(name) {
                return Some(i);
            }
            i = i + 1;
        }
        None
    }

    /// Whether `name` is held.
    pub fn contains(&self, name: &String) -> (r: bool)
        ensures
            r == self@.contains(name@),
    {
        proof {
            lemma_views_contains(self.items@, name@);
        }
        self.position(name).is_some()
    }

    /// Adds `name`; returns whether it was absent.
    pub fn insert(&mut self, name: String) -> (r: bool)
        ensures
            final(self)@ == old(self)@.insert(name@),
            r == !old(self)@.contains(name@),
    {
        proof {
            use_type_invariant(&*self);
            lemma_views_contains(self.items@, name@);
        }
        if self.position(&name).is_some() {
            proof {
                assert(self@.insert(name@) =~= self@);
            }
            return false;
        }
        let mut items: Vec<String> = Vec::new();
        std::mem::swap(&mut items, &mut self.items);
        let ghost before = items@;
        items.push(name);
        proof {
            assert(text_views(items@) =~= text_views(before).push(name@));
            text_views(before).lemma_push_to_set_commute(name@);
        }
        self.items = items;
        true
    }

    /// Removes `name`; returns whether it was present.
    pub fn remove(&mut self, name: &String) -> (r: bool)
        ensures
            final(self)@ == old(self)@.remove(name@),
            r == old(self)@.contains(name@),
    {
        proof {
            use_type_invariant(&*self);
            lemma_views_contains(self.items@, name@);
        }
        match self.position(name) {
            None => {
                proof {
                    assert(self@.remove(name@) =~= self@);
                }
                false
            },
            Some(i) => {
                let mut items: Vec<String> = Vec::new();
                std::mem::swap(&mut items, &mut self.items);
                let ghost before = items@;
                items.remove(i);
                proof {
                    let tb = text_views(before);
                    let ta = text_views(items@);
                    assert(ta =~= tb.remove(i as int));
                    assert forall|x: Seq<char>| ta.to_set().contains(x) <==> tb.to_set().remove(name@).contains(x) by {
                        lemma_views_contains(items@, x);
                        lemma_views_contains(before, x);
                        if tb.to_set().remove(name@).contains(x) {
                            let j = choose|j: int| 0 <= j < before.len() && before[j]@ == x;
                            assert(j != i);
                            if j < i {
                                assert(items@[j]@ == x);
                            } else {
                                assert(items@[j - 1]@ == x);
                            }
                        }
                        if ta.to_set().contains(x) {
                            let j = choose|j: int| 0 <= j < items@.len() && items@[j]@ == x;
                            if j < i {
                                assert(tb[j] == x && tb[i as int] == name@);
                            } else {
                                assert(tb[j + 1] == x && tb[i as int] == name@);
                            }
                        }
                    }
                    assert(ta.to_set() =~= tb.to_set().remove(name@));
                }
                self.items = items;
                true
            },
        }
    }

    /// The names, each once, in some order.
    pub fn to_vec(&self) -> (r: Vec<String>)
        ensures
            text_views(r@).no_duplicates(),
            text_views(r@).to_set() == self@,
    {
        proof {
            use_type_invariant(self);
        }
        let mut r: Vec<String> = Vec::new();
        let mut i: usize = 0;
        while i < self.items.len()
            invariant
                i <= self.items@.len(),
                text_views(self.items@).no_duplicates(),
                text_views(r@) == text_views(self.items@).take(i as int),
            decreases self.items@.len() - i,
        {
            let ghost prev = r@;
            r.push(self.items[i].clone());
            proof {
                assert(r@ =~= prev.push(self.items@[i as int]));
                assert(text_views(r@) =~= text_views(prev).push(self.items@[i as int]@));
                assert(text_views(r@) =~= text_views(self.items@).take(i + 1));
            }
            i = i + 1;
        }
        proof {
            assert(text_views(self.items@).take(i as int) =~= text_views(self.items@));
        }
        r
    }

    /// The set of the names in `names`, duplicates dropped.
    pub fn from_names(names: &Vec<String>) -> (r: NameSet)
        ensures
            r@ == text_views(names@).to_set(),
    {
        let mut r = NameSet::new();
        let mut i: usize = 0;
        while i < names.len()
            invariant
                i <= names@.len(),
                r@ == text_views(names@.take(i as int)).to_set(),
            decreases names@.len() - i,
        {
            r.insert(names[i].clone());
            proof {
                assert(text_views(names@.take(i + 1)) =~= text_views(names@.take(i as int)).push(names@[i as int]@));
                text_views(names@.take(i as int)).lemma_push_to_set_commute(names@[i as int]@);
            }
            i = i + 1;
        }
        proof {
            assert(names@.take(i as int) =~= names@);
        }
        r
    }
}

/// Whether no two records of `s` share an identifier.
pub open spec fn distinct_ids(s: Seq<RecordView>) -> bool {
    forall|i: int, j: int| 0 <= i < j < s.len() ==> s[i].id != s[j].id
}

pub proof fn lemma_records_by_id(s: Seq<RecordView>)
    ensures
        records_by_id(s).dom().finite(),
        forall|k: u128| #[trigger] records_by_id(s).contains_key(k) <==> exists|i: int| 0 <= i < s.len() && s[i].id == k,
        distinct_ids(s) ==> records_by_id(s).len() == s.len(),
        distinct_ids(s) ==> forall|i: int| 0 <= i < s.len() ==> #[trigger] records_by_id(s)[s[i].id] == s[i],
    decreases s.len(),
{
    if s.len() > 0 {
        let p = s.drop_last();
        lemma_records_by_id(p);
        assert forall|k: u128| #[trigger] records_by_id(s).contains_key(k) <==> exists|i: int| 0 <= i < s.len() && s[i].id == k by {
            if exists|i: int| 0 <= i < s.len() && s[i].id == k {
                let i = choose|i: int| 0 <= i < s.len() && s[i].id == k;
                if i < s.len() - 1 {
                    assert(p[i].id == k);
                }
            }
            if records_by_id(p).contains_key(k) {
                let i = choose|i: int| 0 <= i < p.len() && p[i].id == k;
                assert(s[i].id == k);
            }
        }
        if distinct_ids(s) {
            assert(distinct_ids(p));
            assert(!records_by_id(p).contains_key(s.last().id));
            assert forall|i: int| 0 <= i < s.len() implies #[trigger] records_by_id(s)[s[i].id] == s[i] by {
                if i < s.len() - 1 {
                    assert(p[i] == s[i]);
                }
            }
        }
    }
}

proof fn lemma_remove_record(before: Seq<RecordView>, i: int)
    requires
        distinct_ids(before),
        0 <= i < before.len(),
    ensures
        distinct_ids(before.remove(i)),
        records_by_id(before).contains_key(before[i].id),
        records_by_id(before.remove(i)) == records_by_id(before).remove(before[i].id),
{
    let id = before[i].id;
    let after = before.remove(i);
    lemma_records_by_id(before);
    assert forall|a: int, b: int| 0 <= a < b < after.len() implies after[a].id != after[b].id by {
        let a0 = if a < i { a } else { a + 1 };
        let b0 = if b < i { b } else { b + 1 };
        assert(after[a] == before[a0] && after[b] == before[b0]);
    }
    lemma_records_by_id(after);
    let m = records_by_id(after);
    let m0 = records_by_id(before);
    assert forall|k: u128| #[trigger] m.contains_key(k) <==> m0.remove(id).contains_key(k) by {
        if m.contains_key(k) {
            let j = choose|j: int| 0 <= j < after.len() && after[j].id == k;
            let j0 = if j < i { j } else { j + 1 };
            assert(before[j0].id == k);
        }
        if m0.remove(id).contains_key(k) {
            let j = choose|j: int| 0 <= j < before.len() && before[j].id == k;
            assert(j != i);
            if j < i {
                assert(after[j].id == k);
            } else {
                assert(after[j - 1].id == k);
            }
        }
    }
    assert forall|k: u128| #[trigger] m.contains_key(k) implies m[k] == m0.remove(id)[k] by {
        let j = choose|j: int| 0 <= j < after.len() && after[j].id == k;
        let j0 = if j < i { j } else { j + 1 };
        assert(after[j] == before[j0]);
    }
    assert(m =~= m0.remove(id));
}

/// The records of the store, unique by identifier.
pub struct RecordSet {
    items: Vec<Engagement>,
}

impl View for RecordSet {
    type V = Map<u128, RecordView>;

    closed spec fn view(&self) -> Map<u128, RecordView> {
        records_by_id(record_views(self.items@))
    }
}

impl RecordSet {
    #[verifier::type_invariant]
    spec fn unique(self) -> bool {
        distinct_ids(record_views(self.items@))
    }

    /// An empty set.
    pub fn new() -> (r: RecordSet)
        ensures
            r@ == Map::<u128, RecordView>::empty(),
    {
        let r = RecordSet { items: Vec::new() };
        assert(record_views(r.items@) =~= Seq::<RecordView>::empty());
        r
    }

    /// The number of records held.
    pub fn len(&self) -> (r: usize)
        ensures
            r == self@.len(),
    {
        proof {
            use_type_invariant(self);
            lemma_records_by_id(record_views(self.items@));
        }
        self.items.len()
    }

    /// Whether no record is held.
    pub fn is_empty(&self) -> (r: bool)
        ensures
            r == (self@ == Map::<u128, RecordView>::empty()),
    {
        proof {
            use_type_invariant(self);
            lemma_records_by_id(record_views(self.items@));
            if self.items.len() > 0 {
                assert(self@.contains_key(record_views(self.items@)[0].id));
            } else {
                assert(self@ =~= Map::<u128, RecordView>::empty());
            }
        }
        self.items.len() == 0
    }

    /// Whether a record with identifier `id` is held.
    pub fn contains_id(&self, id: u128) -> (r: bool)
        ensures
            r == self@.contains_key(id),
    {
        let found = self.index_of(id);
        proof {
            let v = record_views(self.items@);
            lemma_records_by_id(v);
            match found {
                Some(i) => assert(v[i as int].id == id),
                None => assert forall|j: int| 0 <= j < v.len() implies v[j].id != id by {
                    assert(self.items@[j].id != id);
                },
            }
        }
        found.is_some()
    }

    /// Adds `e` unless a record with its identifier is already held (that
    /// one is kept); returns whether it was added.
    pub fn insert(&mut self, e: Engagement) -> (r: bool)
        ensures
            r == !old(self)@.contains_key(e.id),
            final(self)@ == (if r { old(self)@.insert(e.id, e@) } else { old(self)@ }),
    {
        proof {
            use_type_invariant(&*self);
            lemma_records_by_id(record_views(self.items@));
        }
        if self.contains_id(e.id) {
            return false;
        }
        let mut items: Vec<Engagement> = Vec::new();
        std::mem::swap(&mut items, &mut self.items);
        let ghost before = items@;
        let ghost ev = e@;
        items.push(e);
        proof {
            let vb = record_views(before);
            let va = record_views(items@);
            assert(va =~= vb.push(ev));
            assert(va.drop_last() =~= vb);
            assert forall|i: int, j: int| 0 <= i < j < va.len() implies va[i].id != va[j].id by {
                if j == va.len() - 1 {
                    assert(vb[i].id == va[i].id);
                }
            }
        }
        self.items = items;
        true
    }

    fn index_of(&self, id: u128) -> (r: Option<usize>)
        ensures
            match r {
                Some(i) => i < self.items@.len() && self.items@[i as int].id == id,
                None => forall|j: int| 0 <= j < self.items@.len() ==> self.items@[j].id != id,
            },
    {
        let mut i: usize = 0;
        while i < self.items.len()
            invariant
                i <= self.items@.len(),
                forall|j: int| 0 <= j < i ==> self.items@[j].id != id,
            decreases self.items@.len() - i,
        {
            if self.items[i].id == id {
                return Some(i);
            }
            i = i + 1;
        }
        None
    }

    /// Removes the record with identifier `id`; returns whether there was one.
    pub fn remove(&mut self, id: u128) -> (r: bool)
        ensures
            r == old(self)@.contains_key(id),
            final(self)@ == old(self)@.remove(id),
    {
        proof {
            use_type_invariant(&*self);
            lemma_records_by_id(record_views(self.items@));
        }
        match self.index_of(id) {
            None => {
                proof {
                    assert forall|j: int| 0 <= j < record_views(self.items@).len() implies record_views(self.items@)[j].id != id by {
                        assert(self.items@[j].id != id);
                    }
                    assert(self@.remove(id) =~= self@);
                }
                false
            },
            Some(i) => {
                let mut items: Vec<Engagement> = Vec::new();
                std::mem::swap(&mut items, &mut self.items);
                let ghost before = record_views(items@);
                items.remove(i);
                proof {
                    assert(record_views(items@) =~= before.remove(i as int));
                    assert(before[i as int].id == id);
                    lemma_remove_record(before, i as int);
                }
                self.items = items;
                true
            },
        }
    }

    /// Copies of the records, each identifier once, in some order.
    pub fn to_vec(&self) -> (r: Vec<Engagement>)
        ensures
            distinct_ids(record_views(r@)),
            records_by_id(record_views(r@)) == self@,
    {
        proof {
            use_type_invariant(self);
        }
        let mut r: Vec<Engagement> = Vec::new();
        let mut i: usize = 0;
        while i < self.items.len()
            invariant
                i <= self.items@.len(),
                distinct_ids(record_views(self.items@)),
                record_views(r@) == record_views(self.items@).take(i as int),
            decreases self.items@.len() - i,
        {
            let ghost prev = r@;
            r.push(self.items[i].copied());
            proof {
                assert(record_views(r@) =~= record_views(prev).push(self.items@[i as int]@));
                assert(record_views(r@) =~= record_views(self.items@).take(i + 1));
            }
            i = i + 1;
        }
        proof {
            assert(record_views(self.items@).take(i as int) =~= record_views(self.items@));
        }
        r
    }

    /// The records of `records` keyed by identifier; of two that share one,
    /// the earlier is kept.
    pub fn from_records(records: &Vec<Engagement>) -> (r: RecordSet)
        ensures
            r@ == records_by_id(record_views(records@)),
    {
        let mut r = RecordSet::new();
        let mut i: usize = 0;
        while i < records.len()
            invariant
                i <= records@.len(),
                r@ == records_by_id(record_views(records@.take(i as int))),
            decreases records@.len() - i,
        {
            let ghost prev = record_views(records@.take(i as int));
            r.insert(records[i].copied());
            proof {
                let next = record_views(records@.take(i + 1));
                assert(next =~= prev.push(records@[i as int]@));
                assert(next.drop_last() =~= prev);
            }
            i = i + 1;
        }
        proof {
            assert(records@.take(i as int) =~= records@);
        }
        r
    }
}

/// The instructor names of the store. Exclusive access to them is a mutable
/// borrow, taken by [`InstructorRepo::lock`] for as long as it is needed.
pub struct InstructorRepo(pub NameSet);

/// The host names of the store, accessed as [`InstructorRepo`] is.
pub struct HostRepo(pub NameSet);

impl InstructorRepo {
    /// A repository with no names.
    pub fn new() -> (r: Self)
        ensures
            r.0@ == Set::<Seq<char>>::empty(),
    {
        InstructorRepo(NameSet::new())
    }

    /// Exclusive access to the names; what is done through it is what the
    /// repository holds afterwards.
    pub fn lock(&mut self) -> (r: &mut NameSet)
        ensures
            *r == old(self).0,
            final(self).0 == *final(r),
    {
        &mut self.0
    }
}

impl HostRepo {
    /// A repository with no names.
    pub fn new() -> (r: Self)
        ensures
            r.0@ == Set::<Seq<char>>::empty(),
    {
        HostRepo(NameSet::new())
    }

    /// Exclusive access to the names; what is done through it is what the
    /// repository holds afterwards.
    pub fn lock(&mut self) -> (r: &mut NameSet)
        ensures
            *r == old(self).0,
            final(self).0 == *final(r),
    {
        &mut self.0
    }
}

} // verus!
