use vstd::prelude::*;

use crate::order::reversed;
use crate::rank::{
    insert_ranked, lemma_ranking_is, lemma_ranks_extend, lemma_ranks_skip, ranking,
    ranks_exactly, Ranked,
};
use crate::similarity::{cosine_score, similarity_score, DimensionMismatch, MAX_DIM};
use crate::text::same_text;

verus! {

/// The level of a taxonomy node.
#[derive(Clone, Copy, Debug, PartialEq, Eq, Structural)]
pub enum Level {
    Domain,
    Area,
    Topic,
    /// A level name that is none of the three; such a node never matches.
    Unknown,
}

pub open spec fn level_named(name: Seq<char>) -> Level {
    if name == "domain"@ {
        Level::Domain
    } else if name == "area"@ {
        Level::Area
    } else if name == "topic"@ {
        Level::Topic
    } else {
        Level::Unknown
    }
}

impl Level {
    /// The level that a name in a taxonomy source stands for.
    pub fn from_name(name: &str) -> (r: Level)
        ensures
            r == level_named(name@),
    {
        if same_text(name, "domain") {
            Level::Domain
        } else if same_text(name, "area") {
            Level::Area
        } else if same_text(name, "topic") {
            Level::Topic
        } else {
            Level::Unknown
        }
    }
}

/// A node of the taxonomy: a domain, an area under a domain, or a topic under an area.
pub struct TaxonomyNode {
    pub id: String,
    pub level: Level,
    pub parent_id: Option<String>,
    pub vector: Vec<i16>,
}

pub struct NodeView {
    pub id: Seq<char>,
    pub level: Level,
    pub parent_id: Option<Seq<char>>,
    pub vector: Seq<i16>,
}

pub open spec fn opt_text(o: Option<String>) -> Option<Seq<char>> {
    match o {
        Some(s) => Some(s@),
        None => None,
    }
}

impl View for TaxonomyNode {
    type V = NodeView;

    open spec fn view(&self) -> NodeView {
        NodeView { id: self.id@, level: self.level, parent_id: opt_text(self.parent_id), vector: self.vector@ }
    }
}

pub open spec fn nodes_view(s: Seq<TaxonomyNode>) -> Seq<NodeView> {
    s.map_values(|n: TaxonomyNode| n@)
}

/// The nodes of `s` whose vector has dimension `dim`, in order.
pub open spec fn of_dimension(s: Seq<NodeView>, dim: nat) -> Seq<NodeView>
    decreases s.len(),
{
    if s.len() == 0 {
        s
    } else {
        let rest = of_dimension(s.drop_last(), dim);
        if s.last().vector.len() == dim {
            rest.push(s.last())
        } else {
            rest
        }
    }
}

/// A node is a candidate at `level`: it has that level, and, where a parent is
/// asked for, exactly that parent.
pub open spec fn level_keep(nodes: Seq<NodeView>, level: Level, parent: Option<Seq<char>>) -> spec_fn(
    int,
) -> bool {
    |i: int|
        nodes[i].level == level && match parent {
            Some(p) => nodes[i].parent_id == Some(p),
            None => true,
        }
}

pub open spec fn node_score(nodes: Seq<NodeView>, query: Seq<i16>) -> spec_fn(int) -> int {
    |i: int| cosine_score(query, nodes[i].vector)
}

/// The ranking that `classify_at_level` returns.
pub open spec fn level_ranking(
    nodes: Seq<NodeView>,
    query: Seq<i16>,
    level: Level,
    parent: Option<Seq<char>>,
) -> Seq<Ranked> {
    ranking(nodes.len() as int, level_keep(nodes, level, parent), node_score(nodes, query))
}

/// The taxonomy nodes, all of one dimension.
pub struct TaxonomyIndex {
    dim: usize,
    nodes: Vec<TaxonomyNode>,
}

impl View for TaxonomyIndex {
    type V = Seq<NodeView>;

    closed spec fn view(&self) -> Seq<NodeView> {
        nodes_view(self.nodes@)
    }
}

impl TaxonomyIndex {
    pub closed spec fn dimension(&self) -> nat {
        self.dim as nat
    }

    pub closed spec fn wf(&self) -> bool {
        &&& self.dim <= MAX_DIM
        &&& forall|i: int| 0 <= i < self.nodes@.len() ==> #[trigger] self.nodes@[i].vector@.len() == self.dim
    }

    /// Every node's vector has the index's dimension.
    pub proof fn lemma_wf(&self)
        requires
            self.wf(),
        ensures
            self.dimension() <= MAX_DIM,
            forall|i: int| 0 <= i < self@.len() ==> #[trigger] self@[i].vector.len() == self.dimension(),
    {
        assert forall|i: int| 0 <= i < self@.len() implies #[trigger] self@[i].vector.len()
            == self.dimension() by {
            assert(self@[i] == self.nodes@[i]@);
        }
    }

    pub fn new(dim: usize) -> (t: TaxonomyIndex)
        requires
            dim <= MAX_DIM,
        ensures
            t.wf(),
            t.dimension() == dim,
            t@ == Seq::<NodeView>::empty(),
    {
        let t = TaxonomyIndex { dim, nodes: Vec::new() };
        assert(t@ =~= Seq::<NodeView>::empty());
        t
    }

    /// An index of the nodes of dimension `dim`, in order; the others are left out.
    pub fn from_nodes(dim: usize, nodes: Vec<TaxonomyNode>) -> (t: TaxonomyIndex)
        requires
            dim <= MAX_DIM,
        ensures
            t.wf(),
            t.dimension() == dim,
            t@ == of_dimension(nodes_view(nodes@), dim as nat),
    {
        let ghost all = nodes_view(nodes@);
        let n = nodes.len();
        let mut src = reversed(nodes);
        let mut kept: Vec<TaxonomyNode> = Vec::new();
        let mut i: usize = 0;
        assert(all.subrange(0, 0) =~= Seq::<NodeView>::empty());
        while i < n
            invariant
                n == all.len(),
                i <= n,
                src@.len() == n - i,
                forall|k: int| 0 <= k < src@.len() ==> #[trigger] src@[k]@ == all[n - 1 - k],
                nodes_view(kept@) == of_dimension(all.subrange(0, i as int), dim as nat),
                forall|k: int| 0 <= k < kept@.len() ==> #[trigger] kept@[k].vector@.len() == dim,
            decreases n - i,
        {
            let node = src.pop().unwrap();
            assert(node@ == all[i as int]);
            let ghost before = kept@;
            proof {
                assert(all.subrange(0, i + 1).drop_last() =~= all.subrange(0, i as int));
            }
            if node.vector.len() == dim {
                kept.push(node);
                proof {
                    assert(nodes_view(kept@) =~= nodes_view(before).push(all[i as int]));
                }
            }
            i = i + 1;
        }
        assert(all.subrange(0, n as int) =~= all);
        TaxonomyIndex { dim, nodes: kept }
    }

    /// Replaces every node at once; nodes of another dimension are left out.
    /// Returns the number of nodes kept.
    pub fn replace_all(&mut self, nodes: Vec<TaxonomyNode>) -> (r: usize)
        requires
            old(self).wf(),
        ensures
            final(self).wf(),
            final(self).dimension() == old(self).dimension(),
            final(self)@ == of_dimension(nodes_view(nodes@), old(self).dimension()),
            r == final(self)@.len(),
    {
        let fresh = TaxonomyIndex::from_nodes(self.dim, nodes);
        *self = fresh;
        self.nodes.len()
    }

    pub fn dim(&self) -> (r: usize)
        ensures
            r == self.dimension(),
    {
        self.dim
    }

    pub fn count(&self) -> (r: usize)
        ensures
            r == self@.len(),
    {
        self.nodes.len()
    }

    /// The node at a position.
    pub fn get(&self, index: usize) -> (r: &TaxonomyNode)
        requires
            index < self@.len(),
        ensures
            r@ == self@[index as int],
    {
        &self.nodes[index]
    }

    /// The nodes of `level` (under `parent`, where one is given), best score
    /// against the query first, equal scores in index order; no threshold.
    pub fn classify_at_level(&self, query: &Vec<i16>, level: Level, parent: Option<&String>) -> (r: Result<
        Vec<Ranked>,
        DimensionMismatch,
    >)
        requires
            self.wf(),
        ensures
            query@.len() == self.dimension() ==> r is Ok && r->Ok_0@ == level_ranking(
                self@,
                query@,
                level,
                match parent {
                    Some(p) => Some(p@),
                    None => None,
                },
            ) && ranks_exactly(
                r->Ok_0@,
                self@.len() as int,
                level_keep(
                    self@,
                    level,
                    match parent {
                        Some(p) => Some(p@),
                        None => None,
                    },
                ),
                node_score(self@, query@),
            ),
            query@.len() != self.dimension() ==> r == Err::<Vec<Ranked>, DimensionMismatch>(
                DimensionMismatch { expected: self.dimension() as usize, found: query.len() },
            ),
    {
        if query.len() != self.dim {
            return Err(DimensionMismatch { expected: self.dim, found: query.len() });
        }
        let ghost parent_view = match parent {
            Some(p) => Some(p@),
            None => None,
        };
        let ghost keep = level_keep(self@, level, parent_view);
        let ghost score = node_score(self@, query@);
        let mut hits: Vec<Ranked> = Vec::new();
        let mut i: usize = 0;
        while i < self.nodes.len()
            invariant
                self.wf(),
                query@.len() == self.dim,
                i <= self.nodes@.len(),
                keep == level_keep(self@, level, parent_view),
                score == node_score(self@, query@),
                parent_view == match parent {
                    Some(p) => Some(p@),
                    None => None::<Seq<char>>,
                },
                ranks_exactly(hits@, i as int, keep, score),
            decreases self.nodes@.len() - i,
        {
            let node = &self.nodes[i];
            assert(node@ == self@[i as int]);
            let admitted = node.level == level && match parent {
                Some(p) => match &node.parent_id {
                    Some(q) => *q == *p,
                    None => false,
                },
                None => true,
            };
            if admitted {
                let s = similarity_score(query, &node.vector);
                let h = Ranked { index: i, score: s };
                let ghost before = hits@;
                let p = insert_ranked(&mut hits, h);
                proof {
                    lemma_ranks_extend(before, p as int, h, i as int, keep, score);
                }
            } else {
                proof {
                    lemma_ranks_skip(hits@, i as int, keep, score);
                }
            }
            i = i + 1;
        }
        proof {
            lemma_ranking_is(hits@, self@.len() as int, keep, score);
        }
        Ok(hits)
    }
}

} // verus!
