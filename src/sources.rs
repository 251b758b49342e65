use vstd::prelude::*;

use crate::order::reversed;
use crate::similarity::MAX_DIM;
use crate::table::{attrs_view, upsert, Attribute, FlatVectorTable, Record, RecordView};
use crate::taxonomy::{
    level_named, nodes_view, of_dimension, opt_text, Level, NodeView, TaxonomyIndex,
    TaxonomyNode,
};
use crate::text::{normalize_path, normalized};

verus! {

/// A malformed record in a bulk source: the whole load is refused.
#[derive(Clone, Copy, Debug, PartialEq, Eq, Structural)]
pub enum LoadError {
    MissingId { position: usize },
    MissingEmbedding { position: usize },
}

/// One element of a bulk pattern source.
pub struct PatternSource {
    pub id: Option<String>,
    pub description: Option<String>,
    pub domain: Option<String>,
    pub embedding: Option<Vec<i16>>,
}

pub struct PatternSourceView {
    pub id: Option<Seq<char>>,
    pub description: Option<Seq<char>>,
    pub domain: Option<Seq<char>>,
    pub embedding: Option<Seq<i16>>,
}

pub open spec fn opt_vector(o: Option<Vec<i16>>) -> Option<Seq<i16>> {
    match o {
        Some(v) => Some(v@),
        None => None,
    }
}

impl View for PatternSource {
    type V = PatternSourceView;

    open spec fn view(&self) -> PatternSourceView {
        PatternSourceView {
            id: opt_text(self.id),
            description: opt_text(self.description),
            domain: opt_text(self.domain),
            embedding: opt_vector(self.embedding),
        }
    }
}

/// One element of a bulk taxonomy source.
pub struct NodeSource {
    pub id: Option<String>,
    pub level: Option<String>,
    pub parent_id: Option<String>,
    pub embedding: Option<Vec<i16>>,
}

pub struct NodeSourceView {
    pub id: Option<Seq<char>>,
    pub level: Option<Seq<char>>,
    pub parent_id: Option<Seq<char>>,
    pub embedding: Option<Seq<i16>>,
}

impl View for NodeSource {
    type V = NodeSourceView;

    open spec fn view(&self) -> NodeSourceView {
        NodeSourceView {
            id: opt_text(self.id),
            level: opt_text(self.level),
            parent_id: opt_text(self.parent_id),
            embedding: opt_vector(self.embedding),
        }
    }
}

pub open spec fn pattern_sources_view(s: Seq<PatternSource>) -> Seq<PatternSourceView> {
    s.map_values(|p: PatternSource| p@)
}

pub open spec fn node_sources_view(s: Seq<NodeSource>) -> Seq<NodeSourceView> {
    s.map_values(|n: NodeSource| n@)
}

/// The first malformed element from position `i` on: one without an id, or
/// with an id and without an embedding.
pub open spec fn first_fault(ids: Seq<bool>, embeddings: Seq<bool>, i: int) -> Option<LoadError>
    decreases ids.len() - i,
{
    if i < 0 || i >= ids.len() {
        None
    } else if !ids[i] {
        Some(LoadError::MissingId { position: i as usize })
    } else if !embeddings[i] {
        Some(LoadError::MissingEmbedding { position: i as usize })
    } else {
        first_fault(ids, embeddings, i + 1)
    }
}

pub open spec fn pattern_has_id(s: Seq<PatternSourceView>) -> Seq<bool> {
    s.map_values(|p: PatternSourceView| p.id is Some)
}

pub open spec fn pattern_has_embedding(s: Seq<PatternSourceView>) -> Seq<bool> {
    s.map_values(|p: PatternSourceView| p.embedding is Some)
}

pub open spec fn node_has_id(s: Seq<NodeSourceView>) -> Seq<bool> {
    s.map_values(|n: NodeSourceView| n.id is Some)
}

pub open spec fn node_has_embedding(s: Seq<NodeSourceView>) -> Seq<bool> {
    s.map_values(|n: NodeSourceView| n.embedding is Some)
}

pub open spec fn pattern_fault(s: Seq<PatternSourceView>) -> Option<LoadError> {
    first_fault(pattern_has_id(s), pattern_has_embedding(s), 0)
}

pub open spec fn node_fault(s: Seq<NodeSourceView>) -> Option<LoadError> {
    first_fault(node_has_id(s), node_has_embedding(s), 0)
}

pub open spec fn optional_attr(key: Seq<char>, value: Option<Seq<char>>) -> Seq<(Seq<char>, Seq<char>)> {
    match value {
        Some(v) => seq![(key, v)],
        None => Seq::empty(),
    }
}

/// The attributes of a loaded pattern: its id as given, and its description and
/// domain where present.
pub open spec fn pattern_attributes(p: PatternSourceView) -> Seq<(Seq<char>, Seq<char>)> {
    seq![("pattern_id"@, p.id->0)] + optional_attr("description"@, p.description) + optional_attr(
        "domain"@,
        p.domain,
    )
}

/// The record of a well-formed pattern: stored under its normalized id.
pub open spec fn pattern_record(p: PatternSourceView) -> RecordView {
    RecordView { id: normalized(p.id->0), vector: p.embedding->0, attributes: pattern_attributes(p) }
}

/// The pattern table that a well-formed source loads: each pattern of dimension
/// `dim` in turn, a later one replacing an earlier one of the same stored id.
pub open spec fn loaded_patterns(s: Seq<PatternSourceView>, dim: nat) -> Seq<RecordView>
    decreases s.len(),
{
    if s.len() == 0 {
        Seq::empty()
    } else {
        let rest = loaded_patterns(s.drop_last(), dim);
        if s.last().embedding->0.len() == dim {
            upsert(rest, pattern_record(s.last()))
        } else {
            rest
        }
    }
}

/// The node of a well-formed taxonomy element; a missing level is unknown.
pub open spec fn node_of(n: NodeSourceView) -> NodeView {
    NodeView {
        id: n.id->0,
        level: match n.level {
            Some(l) => level_named(l),
            None => Level::Unknown,
        },
        parent_id: n.parent_id,
        vector: n.embedding->0,
    }
}

/// The taxonomy that a well-formed source loads: its nodes of dimension `dim`, in order.
pub open spec fn loaded_nodes(s: Seq<NodeSourceView>, dim: nat) -> Seq<NodeView> {
    of_dimension(s.map_values(|n: NodeSourceView| node_of(n)), dim)
}

/// The first malformed element, by a scan from the front.
fn scan_faults(ids: &Vec<bool>, embeddings: &Vec<bool>) -> (r: Option<LoadError>)
    requires
        ids@.len() == embeddings@.len(),
    ensures
        r == first_fault(ids@, embeddings@, 0),
{
    let mut i: usize = 0;
    while i < ids.len()
        invariant
            ids@.len() == embeddings@.len(),
            i <= ids@.len(),
            first_fault(ids@, embeddings@, 0) == first_fault(ids@, embeddings@, i as int),
        decreases ids@.len() - i,
    {
        if !ids[i] {
            return Some(LoadError::MissingId { position: i });
        }
        if !embeddings[i] {
            return Some(LoadError::MissingEmbedding { position: i });
        }
        i = i + 1;
    }
    None
}

/// The first malformed pattern, if any.
pub fn find_pattern_fault(sources: &Vec<PatternSource>) -> (r: Option<LoadError>)
    ensures
        r == pattern_fault(pattern_sources_view(sources@)),
{
    let ghost s = pattern_sources_view(sources@);
    let mut ids: Vec<bool> = Vec::new();
    let mut embeddings: Vec<bool> = Vec::new();
    let mut i: usize = 0;
    while i < sources.len()
        invariant
            i <= sources@.len(),
            s == pattern_sources_view(sources@),
            ids@ == pattern_has_id(s).subrange(0, i as int),
            embeddings@ == pattern_has_embedding(s).subrange(0, i as int),
        decreases sources@.len() - i,
    {
        assert(s[i as int] == sources@[i as int]@);
        ids.push(sources[i].id.is_some());
        embeddings.push(sources[i].embedding.is_some());
        proof {
            assert(ids@ =~= pattern_has_id(s).subrange(0, i + 1));
            assert(embeddings@ =~= pattern_has_embedding(s).subrange(0, i + 1));
        }
        i = i + 1;
    }
    proof {
        assert(ids@ =~= pattern_has_id(s));
        assert(embeddings@ =~= pattern_has_embedding(s));
    }
    scan_faults(&ids, &embeddings)
}

/// The first malformed taxonomy element, if any.
pub fn find_node_fault(sources: &Vec<NodeSource>) -> (r: Option<LoadError>)
    ensures
        r == node_fault(node_sources_view(sources@)),
{
    let ghost s = node_sources_view(sources@);
    let mut ids: Vec<bool> = Vec::new();
    let mut embeddings: Vec<bool> = Vec::new();
    let mut i: usize = 0;
    while i < sources.len()
        invariant
            i <= sources@.len(),
            s == node_sources_view(sources@),
            ids@ == node_has_id(s).subrange(0, i as int),
            embeddings@ == node_has_embedding(s).subrange(0, i as int),
        decreases sources@.len() - i,
    {
        assert(s[i as int] == sources@[i as int]@);
        ids.push(sources[i].id.is_some());
        embeddings.push(sources[i].embedding.is_some());
        proof {
            assert(ids@ =~= node_has_id(s).subrange(0, i + 1));
            assert(embeddings@ =~= node_has_embedding(s).subrange(0, i + 1));
        }
        i = i + 1;
    }
    proof {
        assert(ids@ =~= node_has_id(s));
        assert(embeddings@ =~= node_has_embedding(s));
    }
    scan_faults(&ids, &embeddings)
}

/// The stored record of a well-formed pattern.
pub(crate) fn pattern_to_record(p: PatternSource) -> (r: Record)
    requires
        p@.id is Some,
        p@.embedding is Some,
    ensures
        r@ == pattern_record(p@),
{
    let ghost pv = p@;
    let PatternSource { id, description, domain, embedding } = p;
    let id = id.unwrap();
    let key = normalize_path(id.as_str());
    let mut attributes: Vec<Attribute> = Vec::new();
    attributes.push(Attribute { key: "pattern_id".to_owned(), value: id });
    let ghost a1 = attrs_view(attributes@);
    assert(a1 =~= seq![("pattern_id"@, pv.id->0)]);
    match description {
        Some(d) => {
            attributes.push(Attribute { key: "description".to_owned(), value: d });
        },
        None => {},
    }
    let ghost a2 = attrs_view(attributes@);
    assert(a2 =~= a1 + optional_attr("description"@, pv.description));
    match domain {
        Some(d) => {
            attributes.push(Attribute { key: "domain".to_owned(), value: d });
        },
        None => {},
    }
    assert(attrs_view(attributes@) =~= a2 + optional_attr("domain"@, pv.domain));
    Record { id: key, vector: embedding.unwrap(), attributes }
}

/// The pattern table that a source loads, or its first malformed element.
pub fn build_pattern_table(dim: usize, sources: Vec<PatternSource>) -> (r: Result<FlatVectorTable, LoadError>)
    requires
        dim <= MAX_DIM,
    ensures
        match pattern_fault(pattern_sources_view(sources@)) {
            Some(e) => r == Err::<FlatVectorTable, LoadError>(e),
            None => r is Ok && r->Ok_0.wf() && r->Ok_0.dimension() == dim && r->Ok_0@ == loaded_patterns(
                pattern_sources_view(sources@),
                dim as nat,
            ),
        },
{
    match find_pattern_fault(&sources) {
        Some(e) => {
            return Err(e);
        },
        None => {},
    }
    let ghost all = pattern_sources_view(sources@);
    proof {
        let ids = pattern_has_id(all);
        let embeddings = pattern_has_embedding(all);
        lemma_no_fault(ids, embeddings, 0);
        assert forall|k: int| 0 <= k < all.len() implies (#[trigger] all[k]).id is Some
            && all[k].embedding is Some by {
            assert(ids[k] && embeddings[k]);
        }
    }
    let n = sources.len();
    let mut src = reversed(sources);
    let mut table = FlatVectorTable::new(dim);
    let mut i: usize = 0;
    assert(all.subrange(0, 0) =~= Seq::<PatternSourceView>::empty());
    while i < n
        invariant
            n == all.len(),
            i <= n,
            src@.len() == n - i,
            forall|k: int| 0 <= k < src@.len() ==> #[trigger] src@[k]@ == all[n - 1 - k],
            forall|k: int| 0 <= k < n ==> (#[trigger] all[k]).id is Some && all[k].embedding is Some,
            table.wf(),
            table.dimension() == dim,
            table@ == loaded_patterns(all.subrange(0, i as int), dim as nat),
        decreases n - i,
    {
        let p = src.pop().unwrap();
        assert(p@ == all[i as int]);
        proof {
            assert(all.subrange(0, i + 1).drop_last() =~= all.subrange(0, i as int));
        }
        let rec = pattern_to_record(p);
        if rec.vector.len() == dim {
            let _ = table.upsert(rec);
        }
        i = i + 1;
    }
    assert(all.subrange(0, n as int) =~= all);
    Ok(table)
}

proof fn lemma_no_fault(ids: Seq<bool>, embeddings: Seq<bool>, i: int)
    requires
        0 <= i <= ids.len(),
        first_fault(ids, embeddings, i) is None,
    ensures
        forall|k: int| i <= k < ids.len() ==> #[trigger] ids[k] && embeddings[k],
    decreases ids.len() - i,
{
    if i < ids.len() {
        lemma_no_fault(ids, embeddings, i + 1);
    }
}

/// The taxonomy node of a well-formed element.
fn source_to_node(n: NodeSource) -> (r: TaxonomyNode)
    requires
        n@.id is Some,
        n@.embedding is Some,
    ensures
        r@ == node_of(n@),
{
    let NodeSource { id, level, parent_id, embedding } = n;
    let level = match level {
        Some(l) => Level::from_name(l.as_str()),
        None => Level::Unknown,
    };
    TaxonomyNode { id: id.unwrap(), level, parent_id, vector: embedding.unwrap() }
}

/// The taxonomy that a source loads, or its first malformed element.
pub fn build_taxonomy(dim: usize, sources: Vec<NodeSource>) -> (r: Result<TaxonomyIndex, LoadError>)
    requires
        dim <= MAX_DIM,
    ensures
        match node_fault(node_sources_view(sources@)) {
            Some(e) => r == Err::<TaxonomyIndex, LoadError>(e),
            None => r is Ok && r->Ok_0.wf() && r->Ok_0.dimension() == dim && r->Ok_0@ == loaded_nodes(
                node_sources_view(sources@),
                dim as nat,
            ),
        },
{
    match find_node_fault(&sources) {
        Some(e) => {
            return Err(e);
        },
        None => {},
    }
    let ghost all = node_sources_view(sources@);
    proof {
        let ids = node_has_id(all);
        let embeddings = node_has_embedding(all);
        lemma_no_fault(ids, embeddings, 0);
        assert forall|k: int| 0 <= k < all.len() implies (#[trigger] all[k]).id is Some
            && all[k].embedding is Some by {
            assert(ids[k] && embeddings[k]);
        }
    }
    let ghost converted = all.map_values(|n: NodeSourceView| node_of(n));
    let n = sources.len();
    let mut src = reversed(sources);
    let mut nodes: Vec<TaxonomyNode> = Vec::new();
    let mut i: usize = 0;
    while i < n
        invariant
            n == all.len(),
            i <= n,
            src@.len() == n - i,
            converted == all.map_values(|n: NodeSourceView| node_of(n)),
            forall|k: int| 0 <= k < src@.len() ==> #[trigger] src@[k]@ == all[n - 1 - k],
            forall|k: int| 0 <= k < n ==> (#[trigger] all[k]).id is Some && all[k].embedding is Some,
            nodes_view(nodes@) == converted.subrange(0, i as int),
        decreases n - i,
    {
        let s = src.pop().unwrap();
        assert(s@ == all[i as int]);
        let ghost before = nodes@;
        let node = source_to_node(s);
        assert(node@ == converted[i as int]);
        nodes.push(node);
        proof {
            assert(nodes_view(nodes@) =~= nodes_view(before).push(node@));
            assert(nodes_view(nodes@) =~= converted.subrange(0, i + 1));
        }
        i = i + 1;
    }
    assert(converted.subrange(0, n as int) =~= converted);
    Ok(TaxonomyIndex::from_nodes(dim, nodes))
}

} // verus!
