use vstd::prelude::*;

use crate::rank::{
    insert_ranked, lemma_ranking_is, lemma_ranks_extend, lemma_ranks_skip, ranking,
    ranks_exactly, take_at_most, Ranked,
};
use crate::similarity::{cosine_score, similarity_score, DimensionMismatch, MAX_DIM};
use crate::ids::{generate_id, generated_id, lemma_generated_id_injective};
use crate::text::{has_prefix, starts_with};
use vstd::set_lib::{lemma_int_range, lemma_len_subset, set_int_range};

verus! {

/// One entry of a record's attribute bag.
pub struct Attribute {
    pub key: String,
    pub value: String,
}

impl View for Attribute {
    type V = (Seq<char>, Seq<char>);

    open spec fn view(&self) -> (Seq<char>, Seq<char>) {
        (self.key@, self.value@)
    }
}

impl Attribute {
    pub fn new(key: &str, value: &str) -> (r: Attribute)
        ensures
            r@ == (key@, value@),
    {
        Attribute { key: key.to_owned(), value: value.to_owned() }
    }
}

pub open spec fn attrs_view(attrs: Seq<Attribute>) -> Seq<(Seq<char>, Seq<char>)> {
    attrs.map_values(|a: Attribute| a@)
}

/// The value of the first entry under `key`, if any.
pub open spec fn attr_value(attrs: Seq<(Seq<char>, Seq<char>)>, key: Seq<char>) -> Option<Seq<char>>
    decreases attrs.len(),
{
    if attrs.len() == 0 {
        None
    } else if attrs[0].0 == key {
        Some(attrs[0].1)
    } else {
        attr_value(attrs.drop_first(), key)
    }
}

/// Every entry of `filter` is present in `attrs` with exactly its value.
pub open spec fn matches_filter(
    attrs: Seq<(Seq<char>, Seq<char>)>,
    filter: Seq<(Seq<char>, Seq<char>)>,
) -> bool {
    forall|k: int| 0 <= k < filter.len() ==> attr_value(attrs, #[trigger] filter[k].0) == Some(filter[k].1)
}

/// The value under `key`, by a scan from the front.
pub fn find_attr<'a>(attrs: &'a Vec<Attribute>, key: &String) -> (r: Option<&'a String>)
    ensures
        match r {
            Some(v) => attr_value(attrs_view(attrs@), key@) == Some(v@),
            None => attr_value(attrs_view(attrs@), key@) is None,
        },
{
    let ghost all = attrs_view(attrs@);
    assert(all.subrange(0, all.len() as int) =~= all);
    let mut i: usize = 0;
    while i < attrs.len()
        invariant
            i <= attrs@.len(),
            all == attrs_view(attrs@),
            attr_value(all, key@) == attr_value(all.subrange(i as int, all.len() as int), key@),
        decreases attrs@.len() - i,
    {
        let ghost rest = all.subrange(i as int, all.len() as int);
        assert(rest[0] == all[i as int]);
        assert(all[i as int] == attrs@[i as int]@);
        if attrs[i].key == *key {
            return Some(&attrs[i].value);
        }
        proof {
            assert(rest.drop_first() =~= all.subrange(i + 1, all.len() as int));
        }
        i = i + 1;
    }
    proof {
        assert(all.subrange(i as int, all.len() as int).len() == 0);
    }
    None
}

/// Whether every entry of `filter` is present in `attrs` with exactly its value.
pub fn satisfies_filter(attrs: &Vec<Attribute>, filter: &Vec<Attribute>) -> (r: bool)
    ensures
        r == matches_filter(attrs_view(attrs@), attrs_view(filter@)),
{
    let mut k: usize = 0;
    while k < filter.len()
        invariant
            k <= filter@.len(),
            forall|j: int|
                0 <= j < k ==> attr_value(attrs_view(attrs@), #[trigger] attrs_view(filter@)[j].0)
                    == Some(attrs_view(filter@)[j].1),
        decreases filter@.len() - k,
    {
        let want = &filter[k];
        assert(attrs_view(filter@)[k as int] == want@);
        match find_attr(attrs, &want.key) {
            Some(v) => {
                if *v != want.value {
                    assert(attr_value(attrs_view(attrs@), attrs_view(filter@)[k as int].0) != Some(
                        attrs_view(filter@)[k as int].1,
                    ));
                    return false;
                }
            },
            None => {
                assert(attr_value(attrs_view(attrs@), attrs_view(filter@)[k as int].0) != Some(
                    attrs_view(filter@)[k as int].1,
                ));
                return false;
            },
        }
        k = k + 1;
    }
    true
}

/// A stored record: an id, a vector and a bag of attributes.
pub struct Record {
    pub id: String,
    pub vector: Vec<i16>,
    pub attributes: Vec<Attribute>,
}

pub struct RecordView {
    pub id: Seq<char>,
    pub vector: Seq<i16>,
    pub attributes: Seq<(Seq<char>, Seq<char>)>,
}

impl View for Record {
    type V = RecordView;

    open spec fn view(&self) -> RecordView {
        RecordView { id: self.id@, vector: self.vector@, attributes: attrs_view(self.attributes@) }
    }
}

/// The position of the record with this id, if any.
pub open spec fn has_id(recs: Seq<RecordView>, id: Seq<char>) -> bool {
    exists|i: int| 0 <= i < recs.len() && #[trigger] recs[i].id == id
}

/// `recs` with `rec` in place of the record that has its id, or with `rec` appended.
pub open spec fn upsert(recs: Seq<RecordView>, rec: RecordView) -> Seq<RecordView> {
    if has_id(recs, rec.id) {
        recs.update(choose|i: int| 0 <= i < recs.len() && #[trigger] recs[i].id == rec.id, rec)
    } else {
        recs.push(rec)
    }
}

pub open spec fn unique_ids(recs: Seq<RecordView>) -> bool {
    forall|i: int, j: int| 0 <= i < j < recs.len() ==> #[trigger] recs[i].id != #[trigger] recs[j].id
}

/// A record is a search candidate: it carries every filtered attribute, and its
/// score reaches the minimum, where one is given.
pub open spec fn search_keep(
    recs: Seq<RecordView>,
    query: Seq<i16>,
    id_prefix: Seq<char>,
    min_score: Option<i64>,
    filter: Seq<(Seq<char>, Seq<char>)>,
) -> spec_fn(int) -> bool {
    |i: int|
        has_prefix(recs[i].id, id_prefix) && matches_filter(recs[i].attributes, filter) && match min_score {
            Some(m) => cosine_score(query, recs[i].vector) >= m,
            None => true,
        }
}

/// The score of each record against the query.
pub open spec fn record_score(recs: Seq<RecordView>, query: Seq<i16>) -> spec_fn(int) -> int {
    |i: int| cosine_score(query, recs[i].vector)
}

/// What `search` returns on a query of the table's dimension.
pub open spec fn search_result(
    recs: Seq<RecordView>,
    query: Seq<i16>,
    id_prefix: Seq<char>,
    limit: int,
    min_score: Option<i64>,
    filter: Seq<(Seq<char>, Seq<char>)>,
) -> Seq<Ranked> {
    take_at_most(
        ranking(
            recs.len() as int,
            search_keep(recs, query, id_prefix, min_score, filter),
            record_score(recs, query),
        ),
        limit,
    )
}

/// A copy of an attribute bag.
pub fn copy_attributes(attrs: &Vec<Attribute>) -> (r: Vec<Attribute>)
    ensures
        attrs_view(r@) == attrs_view(attrs@),
{
    let mut out: Vec<Attribute> = Vec::new();
    let mut i: usize = 0;
    while i < attrs.len()
        invariant
            i <= attrs@.len(),
            attrs_view(out@) == attrs_view(attrs@).subrange(0, i as int),
        decreases attrs@.len() - i,
    {
        let a = &attrs[i];
        let ghost before = out@;
        let copy = Attribute { key: a.key.clone(), value: a.value.clone() };
        assert(copy@ == attrs@[i as int]@);
        out.push(copy);
        proof {
            assert(attrs_view(out@) =~= attrs_view(before).push(copy@));
            assert(attrs_view(out@) =~= attrs_view(attrs@).subrange(0, i + 1));
        }
        i = i + 1;
    }
    proof {
        assert(attrs_view(attrs@).subrange(0, attrs@.len() as int) =~= attrs_view(attrs@));
    }
    out
}

/// The number of records whose attribute `key` has exactly `value`.
pub open spec fn count_attr(recs: Seq<RecordView>, key: Seq<char>, value: Seq<char>) -> nat
    decreases recs.len(),
{
    if recs.len() == 0 {
        0
    } else {
        count_attr(recs.drop_last(), key, value) + if attr_value(recs.last().attributes, key) == Some(value) {
            1nat
        } else {
            0nat
        }
    }
}

/// A table of records of one fixed dimension, with ids unique, in order of first
/// insertion, and a counter for the ids it generates.
pub struct FlatVectorTable {
    dim: usize,
    records: Vec<Record>,
    next_id: u64,
}

impl View for FlatVectorTable {
    type V = Seq<RecordView>;

    closed spec fn view(&self) -> Seq<RecordView> {
        self.records@.map_values(|r: Record| r@)
    }
}

impl FlatVectorTable {
    /// The dimension of every stored vector.
    pub closed spec fn dimension(&self) -> nat {
        self.dim as nat
    }

    pub closed spec fn wf(&self) -> bool {
        &&& self.dim <= MAX_DIM
        &&& forall|i: int| 0 <= i < self.records@.len() ==> #[trigger] self.records@[i].vector@.len() == self.dim
        &&& unique_ids(self@)
    }

    /// Every stored vector has the table's dimension, and no two records share an id.
    pub proof fn lemma_wf(&self)
        requires
            self.wf(),
        ensures
            self.dimension() <= MAX_DIM,
            forall|i: int| 0 <= i < self@.len() ==> #[trigger] self@[i].vector.len() == self.dimension(),
            unique_ids(self@),
    {
        assert forall|i: int| 0 <= i < self@.len() implies #[trigger] self@[i].vector.len()
            == self.dimension() by {
            assert(self@[i] == self.records@[i]@);
        }
    }

    /// An empty table for vectors of dimension `dim`.
    pub fn new(dim: usize) -> (t: FlatVectorTable)
        requires
            dim <= MAX_DIM,
        ensures
            t.wf(),
            t.dimension() == dim,
            t@ == Seq::<RecordView>::empty(),
    {
        let t = FlatVectorTable { dim, records: Vec::new(), next_id: 0 };
        assert(t@ =~= Seq::<RecordView>::empty());
        t
    }

    pub fn dim(&self) -> (r: usize)
        ensures
            r == self.dimension(),
    {
        self.dim
    }

    /// The number of stored records.
    pub fn count(&self) -> (r: usize)
        ensures
            r == self@.len(),
    {
        self.records.len()
    }

    /// How many records carry attribute `key` with exactly `value`.
    pub fn count_with_attribute(&self, key: &String, value: &String) -> (r: usize)
        ensures
            r == count_attr(self@, key@, value@),
    {
        let ghost all = self@;
        let mut count: usize = 0;
        let mut i: usize = 0;
        assert(all.subrange(0, 0) =~= Seq::<RecordView>::empty());
        while i < self.records.len()
            invariant
                all == self@,
                i <= all.len(),
                count == count_attr(all.subrange(0, i as int), key@, value@),
                count <= i,
            decreases all.len() - i,
        {
            let rec = &self.records[i];
            assert(rec@ == all[i as int]);
            assert(all.subrange(0, i + 1).drop_last() =~= all.subrange(0, i as int));
            match find_attr(&rec.attributes, key) {
                Some(v) => {
                    if *v == *value {
                        count = count + 1;
                    }
                },
                None => {},
            }
            i = i + 1;
        }
        assert(all.subrange(0, all.len() as int) =~= all);
        count
    }

    /// The record at a position.
    pub fn get(&self, index: usize) -> (r: &Record)
        requires
            index < self@.len(),
        ensures
            r@ == self@[index as int],
    {
        &self.records[index]
    }

    /// The position of the record with this id.
    pub fn position(&self, id: &String) -> (r: Option<usize>)
        requires
            self.wf(),
        ensures
            match r {
                Some(i) => i < self@.len() && self@[i as int].id == id@,
                None => !has_id(self@, id@),
            },
    {
        let mut i: usize = 0;
        while i < self.records.len()
            invariant
                i <= self.records@.len(),
                forall|k: int| 0 <= k < i ==> self@[k].id != id@,
            decreases self.records@.len() - i,
        {
            if self.records[i].id == *id {
                return Some(i);
            }
            i = i + 1;
        }
        None
    }

    /// Stores a record under its id, in place of the one that had it, if any.
    pub fn upsert(&mut self, rec: Record) -> (r: Result<(), DimensionMismatch>)
        requires
            old(self).wf(),
        ensures
            final(self).wf(),
            final(self).dimension() == old(self).dimension(),
            rec@.vector.len() == old(self).dimension() ==> r is Ok && final(self)@ == upsert(
                old(self)@,
                rec@,
            ),
            rec@.vector.len() != old(self).dimension() ==> r == Err::<(), DimensionMismatch>(
                DimensionMismatch { expected: old(self).dimension() as usize, found: rec.vector.len() },
            ) && final(self)@ == old(self)@,
    {
        if rec.vector.len() != self.dim {
            return Err(DimensionMismatch { expected: self.dim, found: rec.vector.len() });
        }
        let ghost before = self@;
        let ghost rv = rec@;
        match self.position(&rec.id) {
            Some(i) => {
                self.records.set(i, rec);
                proof {
                    let c = choose|k: int| 0 <= k < before.len() && #[trigger] before[k].id == rv.id;
                    assert(c == i);
                    assert(self@ =~= before.update(i as int, rv));
                }
            },
            None => {
                self.records.push(rec);
                proof {
                    assert(self@ =~= before.push(rv));
                }
            },
        }
        proof {
            assert forall|k: int| 0 <= k < self.records@.len() implies #[trigger] self.records@[k].vector@.len()
                == self.dim by {
                assert(self.records@[k]@ == self@[k]);
                if self@[k] != rv {
                    assert(self@[k] == before[k]);
                }
            }
        }
        Ok(())
    }

    /// An id that no record has: the first free one generated from the counter,
    /// which moves past it.
    fn fresh_id(&mut self) -> (r: String)
        requires
            old(self).wf(),
        ensures
            final(self).wf(),
            final(self)@ == old(self)@,
            final(self).dimension() == old(self).dimension(),
            !has_id(final(self)@, r@),
    {
        let start: u128 = self.next_id as u128;
        let n: usize = self.records.len();
        let mut j: u128 = 0;
        let ghost mut hit: Set<int> = Set::empty();
        loop
            invariant
                self.wf(),
                self@ == old(self)@,
                self.dim == old(self).dim,
                n == self@.len(),
                start <= u64::MAX,
                j <= n,
                hit.finite(),
                hit.len() == j,
                forall|i: int| #[trigger] hit.contains(i) ==> 0 <= i < n,
                forall|i: int|
                    #[trigger] hit.contains(i) ==> exists|m: int|
                        0 <= m < j && self@[i].id == #[trigger] generated_id((start + m) as nat),
            decreases n - j,
        {
            let k: u128 = start + j;
            let candidate = generate_id(k);
            match self.position(&candidate) {
                None => {
                    self.next_id = if k >= u64::MAX as u128 {
                        0
                    } else {
                        (k + 1) as u64
                    };
                    return candidate;
                },
                Some(i) => {
                    proof {
                        if hit.contains(i as int) {
                            let m = choose|m: int| 0 <= m < j && self@[i as int].id == #[trigger] generated_id((start + m) as nat);
                            lemma_generated_id_injective((start + m) as nat, k as nat);
                        }
                        let next = hit.insert(i as int);
                        assert forall|x: int| #[trigger] next.contains(x) implies exists|m: int|
                            0 <= m < j + 1 && self@[x].id == #[trigger] generated_id((start + m) as nat) by {
                            if x == i as int {
                                assert(0 <= j < j + 1 && self@[x].id == generated_id((start + j) as nat));
                            } else {
                                let m = choose|m: int| 0 <= m < j && self@[x].id == #[trigger] generated_id((start + m) as nat);
                                assert(0 <= m < j + 1 && self@[x].id == generated_id((start + m) as nat));
                            }
                        }
                        lemma_int_range(0, n as int);
                        assert(next.subset_of(set_int_range(0, n as int)));
                        lemma_len_subset(next, set_int_range(0, n as int));
                        hit = next;
                    }
                    j = j + 1;
                },
            }
        }
    }

    /// Inserts a record built from its parts, under the given id or, where none is
    /// given, under one generated from the table's counter that no record has; see
    /// `upsert`. Returns the id.
    pub fn insert(&mut self, id: Option<String>, vector: Vec<i16>, attributes: Vec<Attribute>) -> (r: Result<
        String,
        DimensionMismatch,
    >)
        requires
            old(self).wf(),
        ensures
            final(self).wf(),
            final(self).dimension() == old(self).dimension(),
            vector@.len() == old(self).dimension() ==> r is Ok && final(self)@ == upsert(
                old(self)@,
                RecordView { id: r->Ok_0@, vector: vector@, attributes: attrs_view(attributes@) },
            ) && match id {
                Some(given) => r->Ok_0 == given,
                None => !has_id(old(self)@, r->Ok_0@),
            },
            vector@.len() != old(self).dimension() ==> r == Err::<String, DimensionMismatch>(
                DimensionMismatch { expected: old(self).dimension() as usize, found: vector.len() },
            ) && final(self)@ == old(self)@,
    {
        if vector.len() != self.dim {
            return Err(DimensionMismatch { expected: self.dim, found: vector.len() });
        }
        let id = match id {
            Some(given) => given,
            None => self.fresh_id(),
        };
        let key = id.clone();
        match self.upsert(Record { id, vector, attributes }) {
            Ok(()) => Ok(key),
            Err(e) => Err(e),
        }
    }

    /// The records that carry every attribute of `filter` (an empty filter admits
    /// all) and score at least `min_score` against the query, where one is given;
    /// best first, equal scores in table order, at most `limit` of them.
    pub fn search(
        &self,
        query: &Vec<i16>,
        limit: usize,
        min_score: Option<i64>,
        filter: &Vec<Attribute>,
    ) -> (r: Result<Vec<Ranked>, DimensionMismatch>)
        requires
            self.wf(),
        ensures
            query@.len() == self.dimension() ==> r is Ok && r->Ok_0@ == search_result(
                self@,
                query@,
                Seq::<char>::empty(),
                limit as int,
                min_score,
                attrs_view(filter@),
            ),
            query@.len() != self.dimension() ==> r == Err::<Vec<Ranked>, DimensionMismatch>(
                DimensionMismatch { expected: self.dimension() as usize, found: query.len() },
            ),
    {
        proof {
            reveal_strlit("");
            assert(""@ =~= Seq::<char>::empty());
        }
        self.search_under(query, "", limit, min_score, filter)
    }

    /// As `search`, among the records whose id starts with `id_prefix`.
    pub fn search_under(
        &self,
        query: &Vec<i16>,
        id_prefix: &str,
        limit: usize,
        min_score: Option<i64>,
        filter: &Vec<Attribute>,
    ) -> (r: Result<Vec<Ranked>, DimensionMismatch>)
        requires
            self.wf(),
        ensures
            query@.len() == self.dimension() ==> r is Ok && r->Ok_0@ == search_result(
                self@,
                query@,
                id_prefix@,
                limit as int,
                min_score,
                attrs_view(filter@),
            ) && ranks_exactly(
                ranking(
                    self@.len() as int,
                    search_keep(self@, query@, id_prefix@, min_score, attrs_view(filter@)),
                    record_score(self@, query@),
                ),
                self@.len() as int,
                search_keep(self@, query@, id_prefix@, min_score, attrs_view(filter@)),
                record_score(self@, query@),
            ),
            query@.len() != self.dimension() ==> r == Err::<Vec<Ranked>, DimensionMismatch>(
                DimensionMismatch { expected: self.dimension() as usize, found: query.len() },
            ),
    {
        if query.len() != self.dim {
            return Err(DimensionMismatch { expected: self.dim, found: query.len() });
        }
        let ghost keep = search_keep(self@, query@, id_prefix@, min_score, attrs_view(filter@));
        let ghost score = record_score(self@, query@);
        let mut hits: Vec<Ranked> = Vec::new();
        let mut i: usize = 0;
        while i < self.records.len()
            invariant
                self.wf(),
                query@.len() == self.dim,
                i <= self.records@.len(),
                keep == search_keep(self@, query@, id_prefix@, min_score, attrs_view(filter@)),
                score == record_score(self@, query@),
                ranks_exactly(hits@, i as int, keep, score),
            decreases self.records@.len() - i,
        {
            let rec = &self.records[i];
            assert(rec@ == self@[i as int]);
            let s = similarity_score(query, &rec.vector);
            let admitted = starts_with(rec.id.as_str(), id_prefix) && satisfies_filter(&rec.attributes, filter) && match min_score {
                Some(m) => s >= m,
                None => true,
            };
            if admitted {
                let h = Ranked { index: i, score: s };
                let ghost before = hits@;
                let p = insert_ranked(&mut hits, h);
                proof {
                    lemma_ranks_extend(before, p as int, h, i as int, keep, score);
                }
            } else {
                proof {
                    lemma_ranks_skip(hits@, i as int, keep, score);
                }
            }
            i = i + 1;
        }
        proof {
            lemma_ranking_is(hits@, self@.len() as int, keep, score);
        }
        hits.truncate(limit);
        Ok(hits)
    }
}

} // verus!
