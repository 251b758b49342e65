use vstd::prelude::*;

use crate::cascade::{
    blend_keep, blend_score, blended_confidence, blended_matches, cascade, match_of,
    matches_view, steps_view, stopped, CascadeResult, CascadeStatus, PatternMatch, StepView,
    TraceStep,
};
use crate::rank::{
    insert_ranked, lemma_ranking_is, lemma_ranks_extend, lemma_ranks_start, ranking,
    ranks_exactly, Ranked,
};
use crate::similarity::{lemma_score_bounds, DimensionMismatch, MAX_DIM, SCORE_SCALE};
use crate::table::{
    attrs_view, copy_attributes, find_attr, record_score, search_keep, upsert, FlatVectorTable,
    RecordView,
};
use crate::taxonomy::{level_keep, Level, NodeView, TaxonomyIndex};
use crate::sources::{
    build_pattern_table, build_taxonomy, loaded_nodes, loaded_patterns, node_fault,
    node_sources_view, pattern_fault, pattern_record, pattern_sources_view, pattern_to_record,
    LoadError, NodeSource, PatternSource, PatternSourceView,
};
use crate::text::subtree_prefix;

verus! {

/// The taxonomy index and the pattern table, of one dimension, classified against
/// together.
pub struct HierarchicalClassifier {
    patterns: FlatVectorTable,
    taxonomy: TaxonomyIndex,
}

impl HierarchicalClassifier {
    pub closed spec fn wf(&self) -> bool {
        &&& self.patterns.wf()
        &&& self.taxonomy.wf()
        &&& self.patterns.dimension() == self.taxonomy.dimension()
    }

    /// The stored patterns.
    pub closed spec fn patterns_view(&self) -> Seq<RecordView> {
        self.patterns@
    }

    /// The taxonomy nodes.
    pub closed spec fn nodes_view(&self) -> Seq<NodeView> {
        self.taxonomy@
    }

    /// The dimension of every vector, stored or queried.
    pub closed spec fn dimension(&self) -> nat {
        self.taxonomy.dimension()
    }

    /// Every stored vector, pattern or node, has the classifier's dimension.
    pub proof fn lemma_dimensions(&self)
        requires
            self.wf(),
        ensures
            self.dimension() <= MAX_DIM,
            forall|i: int| 0 <= i < self.patterns_view().len() ==> #[trigger] self.patterns_view()[i].vector.len()
                == self.dimension(),
            forall|i: int| 0 <= i < self.nodes_view().len() ==> #[trigger] self.nodes_view()[i].vector.len()
                == self.dimension(),
    {
        self.patterns.lemma_wf();
        self.taxonomy.lemma_wf();
    }

    /// A classifier with no taxonomy and no patterns, for vectors of dimension `dim`.
    pub fn new(dim: usize) -> (c: HierarchicalClassifier)
        requires
            dim <= MAX_DIM,
        ensures
            c.wf(),
            c.dimension() == dim,
            c.patterns_view() == Seq::<RecordView>::empty(),
            c.nodes_view() == Seq::<NodeView>::empty(),
    {
        HierarchicalClassifier { patterns: FlatVectorTable::new(dim), taxonomy: TaxonomyIndex::new(dim) }
    }

    pub fn dim(&self) -> (r: usize)
        requires
            self.wf(),
        ensures
            r == self.dimension(),
    {
        self.taxonomy.dim()
    }

    /// The pattern table.
    pub fn patterns(&self) -> (r: &FlatVectorTable)
        requires
            self.wf(),
        ensures
            r.wf(),
            r@ == self.patterns_view(),
            r.dimension() == self.dimension(),
    {
        &self.patterns
    }

    /// The taxonomy index.
    pub fn taxonomy(&self) -> (r: &TaxonomyIndex)
        requires
            self.wf(),
        ensures
            r.wf(),
            r@ == self.nodes_view(),
            r.dimension() == self.dimension(),
    {
        &self.taxonomy
    }

    /// Replaces the pattern table with what `sources` loads: patterns of another
    /// dimension are left out. A malformed source leaves the table as it was.
    /// Returns the number of patterns stored.
    pub fn load_patterns(&mut self, sources: Vec<PatternSource>) -> (r: Result<usize, LoadError>)
        requires
            old(self).wf(),
        ensures
            final(self).wf(),
            final(self).dimension() == old(self).dimension(),
            final(self).nodes_view() == old(self).nodes_view(),
            match pattern_fault(pattern_sources_view(sources@)) {
                Some(e) => r == Err::<usize, LoadError>(e) && final(self).patterns_view() == old(
                    self,
                ).patterns_view(),
                None => final(self).patterns_view() == loaded_patterns(
                    pattern_sources_view(sources@),
                    old(self).dimension(),
                ) && r == Ok::<usize, LoadError>(final(self).patterns_view().len() as usize),
            },
    {
        proof {
            self.taxonomy.lemma_wf();
        }
        match build_pattern_table(self.taxonomy.dim(), sources) {
            Ok(table) => {
                self.patterns = table;
                Ok(self.patterns.count())
            },
            Err(e) => Err(e),
        }
    }

    /// Replaces the taxonomy with what `sources` loads: nodes of another dimension
    /// are left out. A malformed source leaves the taxonomy as it was. Returns the
    /// number of nodes stored.
    pub fn load_level_schemas(&mut self, sources: Vec<NodeSource>) -> (r: Result<usize, LoadError>)
        requires
            old(self).wf(),
        ensures
            final(self).wf(),
            final(self).dimension() == old(self).dimension(),
            final(self).patterns_view() == old(self).patterns_view(),
            match node_fault(node_sources_view(sources@)) {
                Some(e) => r == Err::<usize, LoadError>(e) && final(self).nodes_view() == old(
                    self,
                ).nodes_view(),
                None => final(self).nodes_view() == loaded_nodes(
                    node_sources_view(sources@),
                    old(self).dimension(),
                ) && r == Ok::<usize, LoadError>(final(self).nodes_view().len() as usize),
            },
    {
        proof {
            self.taxonomy.lemma_wf();
        }
        match build_taxonomy(self.taxonomy.dim(), sources) {
            Ok(index) => {
                self.taxonomy = index;
                Ok(self.taxonomy.count())
            },
            Err(e) => Err(e),
        }
    }

    /// Adds one pattern, stored as a bulk load stores it (under its normalized id,
    /// with its id, description and domain as attributes), in place of the pattern
    /// of the same stored id, if any. A vector of another dimension is refused and
    /// leaves the table as it was. Returns the stored id.
    pub fn add_pattern(
        &mut self,
        id: String,
        description: Option<String>,
        domain: Option<String>,
        vector: Vec<i16>,
    ) -> (r: Result<String, DimensionMismatch>)
        requires
            old(self).wf(),
        ensures
            final(self).wf(),
            final(self).dimension() == old(self).dimension(),
            final(self).nodes_view() == old(self).nodes_view(),
            ({
                let source = PatternSourceView {
                    id: Some(id@),
                    description: crate::taxonomy::opt_text(description),
                    domain: crate::taxonomy::opt_text(domain),
                    embedding: Some(vector@),
                };
                vector@.len() == old(self).dimension() ==> r is Ok && r->Ok_0@ == pattern_record(
                    source,
                ).id && final(self).patterns_view() == upsert(
                    old(self).patterns_view(),
                    pattern_record(source),
                )
            }),
            vector@.len() != old(self).dimension() ==> r == Err::<String, DimensionMismatch>(
                DimensionMismatch { expected: old(self).dimension() as usize, found: vector.len() },
            ) && final(self).patterns_view() == old(self).patterns_view(),
    {
        let source = PatternSource { id: Some(id), description, domain, embedding: Some(vector) };
        let rec = pattern_to_record(source);
        let key = rec.id.clone();
        match self.patterns.upsert(rec) {
            Ok(()) => Ok(key),
            Err(e) => Err(e),
        }
    }

    /// Replaces both tables at once, or neither: both sources are loaded off to
    /// the side first, and a malformed one (the pattern source's fault first)
    /// leaves both tables exactly as they were. Returns the numbers of patterns
    /// and of nodes stored.
    pub fn reload(&mut self, patterns: Vec<PatternSource>, nodes: Vec<NodeSource>) -> (r: Result<
        (usize, usize),
        LoadError,
    >)
        requires
            old(self).wf(),
        ensures
            final(self).wf(),
            final(self).dimension() == old(self).dimension(),
            r is Err ==> final(self).patterns_view() == old(self).patterns_view()
                && final(self).nodes_view() == old(self).nodes_view(),
            match (pattern_fault(pattern_sources_view(patterns@)), node_fault(node_sources_view(nodes@))) {
                (Some(e), _) => r == Err::<(usize, usize), LoadError>(e),
                (None, Some(e)) => r == Err::<(usize, usize), LoadError>(e),
                (None, None) => final(self).patterns_view() == loaded_patterns(
                    pattern_sources_view(patterns@),
                    old(self).dimension(),
                ) && final(self).nodes_view() == loaded_nodes(
                    node_sources_view(nodes@),
                    old(self).dimension(),
                ) && r == Ok::<(usize, usize), LoadError>(
                    (
                        final(self).patterns_view().len() as usize,
                        final(self).nodes_view().len() as usize,
                    ),
                ),
            },
    {
        let dim = self.taxonomy.dim();
        proof {
            self.taxonomy.lemma_wf();
        }
        let table = match build_pattern_table(dim, patterns) {
            Ok(t) => t,
            Err(e) => {
                return Err(e);
            },
        };
        let index = match build_taxonomy(dim, nodes) {
            Ok(t) => t,
            Err(e) => {
                return Err(e);
            },
        };
        self.patterns = table;
        self.taxonomy = index;
        Ok((self.patterns.count(), self.taxonomy.count()))
    }

    /// Both tables hold something.
    pub fn health_check(&self) -> (r: bool)
        ensures
            r == (self.patterns_view().len() > 0 && self.nodes_view().len() > 0),
    {
        self.patterns.count() > 0 && self.taxonomy.count() > 0
    }

    /// The leaf candidates re-ranked by blended confidence.
    fn blend_order(leaves: &Vec<Ranked>, domain: i64, area: i64, topic: i64) -> (r: Vec<Ranked>)
        requires
            forall|j: int| 0 <= j < leaves@.len() ==> -SCORE_SCALE <= #[trigger] leaves@[j].score <= SCORE_SCALE,
            -SCORE_SCALE <= domain <= SCORE_SCALE,
            -SCORE_SCALE <= area <= SCORE_SCALE,
            -SCORE_SCALE <= topic <= SCORE_SCALE,
        ensures
            r@ == ranking(leaves@.len() as int, blend_keep(), blend_score(leaves@, domain as int, area as int, topic as int)),
            ranks_exactly(r@, leaves@.len() as int, blend_keep(), blend_score(leaves@, domain as int, area as int, topic as int)),
    {
        let ghost keep = blend_keep();
        let ghost score = blend_score(leaves@, domain as int, area as int, topic as int);
        let mut order: Vec<Ranked> = Vec::new();
        proof {
            lemma_ranks_start(keep, score);
        }
        let mut j: usize = 0;
        while j < leaves.len()
            invariant
                j <= leaves@.len(),
                forall|k: int| 0 <= k < leaves@.len() ==> -SCORE_SCALE <= #[trigger] leaves@[k].score <= SCORE_SCALE,
                -SCORE_SCALE <= domain <= SCORE_SCALE,
                -SCORE_SCALE <= area <= SCORE_SCALE,
                -SCORE_SCALE <= topic <= SCORE_SCALE,
                keep == blend_keep(),
                score == blend_score(leaves@, domain as int, area as int, topic as int),
                ranks_exactly(order@, j as int, keep, score),
            decreases leaves@.len() - j,
        {
            let s = blended_confidence(leaves[j].score, domain, area, topic);
            let h = Ranked { index: j, score: s };
            let ghost before = order@;
            let p = insert_ranked(&mut order, h);
            proof {
                lemma_ranks_extend(before, p as int, h, j as int, keep, score);
            }
            j = j + 1;
        }
        proof {
            lemma_ranking_is(order@, leaves@.len() as int, keep, score);
        }
        order
    }

    /// The matches, in the blended order.
    fn build_matches(&self, leaves: &Vec<Ranked>, order: &Vec<Ranked>) -> (r: Vec<PatternMatch>)
        requires
            self.wf(),
            forall|j: int| 0 <= j < leaves@.len() ==> #[trigger] leaves@[j].index < self.patterns_view().len(),
            forall|k: int| 0 <= k < order@.len() ==> #[trigger] order@[k].index < leaves@.len(),
        ensures
            matches_view(r@) == Seq::new(
                order@.len(),
                |k: int| match_of(self.patterns_view()[leaves@[order@[k].index as int].index as int], order@[k].score as int),
            ),
    {
        let ghost want = Seq::new(
            order@.len(),
            |k: int| match_of(self.patterns_view()[leaves@[order@[k].index as int].index as int], order@[k].score as int),
        );
        let key = "pattern_id".to_owned();
        let mut out: Vec<PatternMatch> = Vec::new();
        let mut k: usize = 0;
        while k < order.len()
            invariant
                k <= order@.len(),
                self.wf(),
                want == Seq::new(
                    order@.len(),
                    |k: int| match_of(self.patterns_view()[leaves@[order@[k].index as int].index as int], order@[k].score as int),
                ),
                key@ == "pattern_id"@,
                forall|j: int| 0 <= j < leaves@.len() ==> #[trigger] leaves@[j].index < self.patterns_view().len(),
                forall|q: int| 0 <= q < order@.len() ==> #[trigger] order@[q].index < leaves@.len(),
                matches_view(out@) == want.subrange(0, k as int),
            decreases order@.len() - k,
        {
            let o = order[k];
            let leaf = leaves[o.index];
            let rec = self.patterns.get(leaf.index);
            let label = match find_attr(&rec.attributes, &key) {
                Some(v) => v.clone(),
                None => "unknown".to_owned(),
            };
            let m = PatternMatch {
                pattern_id: label,
                confidence: o.score,
                alternatives: Vec::new(),
                embedding_vector: None,
                metadata: copy_attributes(&rec.attributes),
            };
            let ghost before = out@;
            proof {
                assert(m@.alternatives =~= Seq::<Seq<(Seq<char>, Seq<char>)>>::empty());
                assert(m@ == want[k as int]);
            }
            out.push(m);
            proof {
                assert(matches_view(out@) =~= matches_view(before).push(m@));
                assert(want.subrange(0, k + 1) =~= want.subrange(0, k as int).push(want[k as int]));
            }
            k = k + 1;
        }
        proof {
            assert(want.subrange(0, order@.len() as int) =~= want);
        }
        out
    }

    fn finish(status: CascadeStatus, trace: Vec<TraceStep>) -> (r: CascadeResult)
        ensures
            r@ == stopped(status, steps_view(trace@)),
    {
        let r = CascadeResult { status, primary: None, alternatives: Vec::new(), trace };
        assert(matches_view(r.alternatives@) =~= Seq::<crate::cascade::MatchView>::empty());
        r
    }

    /// Classifies a query vector: the best domain, the best area under it, the best
    /// topic under that, then the patterns stored under that topic that score at
    /// least `threshold`, at most `max_alternatives` of them, re-ranked by blended
    /// confidence. The first is the primary match, the rest are the alternatives.
    pub fn classify(&self, query: &Vec<i16>, threshold: i64, max_alternatives: usize) -> (r: Result<
        CascadeResult,
        DimensionMismatch,
    >)
        requires
            self.wf(),
        ensures
            query@.len() == self.dimension() ==> r is Ok && r->Ok_0@ == cascade(
                self.patterns_view(),
                self.nodes_view(),
                query@,
                threshold,
                max_alternatives as nat,
            ),
            query@.len() != self.dimension() ==> r == Err::<CascadeResult, DimensionMismatch>(
                DimensionMismatch { expected: self.dimension() as usize, found: query.len() },
            ),
    {
        let ghost nodes = self.nodes_view();
        let ghost pats = self.patterns_view();
        let mut trace: Vec<TraceStep> = Vec::new();
        let domains = match self.taxonomy.classify_at_level(query, Level::Domain, None) {
            Ok(v) => v,
            Err(e) => {
                return Err(e);
            },
        };
        if domains.len() == 0 {
            trace.push(TraceStep::NoDomainMatch);
            assert(steps_view(trace@) =~= seq![StepView::NoDomainMatch]);
            return Ok(Self::finish(CascadeStatus::NoDomainMatch, trace));
        }
        let d = domains[0];
        assert(level_keep(nodes, Level::Domain, None)(d.index as int));
        let d_node = self.taxonomy.get(d.index);
        proof {
            lemma_score_bounds(query@, nodes[d.index as int].vector);
        }
        trace.push(TraceStep::Domain { id: d_node.id.clone(), score: d.score });
        let ghost t1 = steps_view(trace@);
        assert(t1 =~= seq![StepView::Domain(nodes[d.index as int].id, d.score as int)]);

        let areas = match self.taxonomy.classify_at_level(query, Level::Area, Some(&d_node.id)) {
            Ok(v) => v,
            Err(e) => {
                return Err(e);
            },
        };
        if areas.len() == 0 {
            trace.push(TraceStep::NoAreaMatch);
            assert(steps_view(trace@) =~= t1.push(StepView::NoAreaMatch));
            return Ok(Self::finish(CascadeStatus::NoAreaMatch, trace));
        }
        let a = areas[0];
        assert(level_keep(nodes, Level::Area, Some(d_node.id@))(a.index as int));
        let a_node = self.taxonomy.get(a.index);
        proof {
            lemma_score_bounds(query@, nodes[a.index as int].vector);
        }
        trace.push(TraceStep::Area { id: a_node.id.clone(), score: a.score });
        let ghost t2 = steps_view(trace@);
        assert(t2 =~= t1.push(StepView::Area(nodes[a.index as int].id, a.score as int)));

        let topics = match self.taxonomy.classify_at_level(query, Level::Topic, Some(&a_node.id)) {
            Ok(v) => v,
            Err(e) => {
                return Err(e);
            },
        };
        if topics.len() == 0 {
            trace.push(TraceStep::NoTopicMatch);
            assert(steps_view(trace@) =~= t2.push(StepView::NoTopicMatch));
            return Ok(Self::finish(CascadeStatus::NoTopicMatch, trace));
        }
        let t = topics[0];
        assert(level_keep(nodes, Level::Topic, Some(a_node.id@))(t.index as int));
        let t_node = self.taxonomy.get(t.index);
        proof {
            lemma_score_bounds(query@, nodes[t.index as int].vector);
        }
        trace.push(TraceStep::Topic { id: t_node.id.clone(), score: t.score });
        let ghost t3 = steps_view(trace@);
        assert(t3 =~= t2.push(StepView::Topic(nodes[t.index as int].id, t.score as int)));

        let prefix = subtree_prefix(&d_node.id, &a_node.id, &t_node.id);
        let no_filter = Vec::new();
        assert(attrs_view(no_filter@) =~= Seq::<(Seq<char>, Seq<char>)>::empty());
        let leaves = match self.patterns.search_under(query, prefix.as_str(), max_alternatives, Some(threshold), &no_filter) {
            Ok(v) => v,
            Err(e) => {
                return Err(e);
            },
        };
        if leaves.len() == 0 {
            let ghost prefix_view = prefix@;
            trace.push(TraceStep::NoPatternMatch { prefix, threshold });
            assert(steps_view(trace@) =~= t3.push(StepView::NoPatternMatch(prefix_view, threshold as int)));
            return Ok(Self::finish(CascadeStatus::NoPatternMatch, trace));
        }
        let ghost full = ranking(
            pats.len() as int,
            search_keep(pats, query@, prefix@, Some(threshold), Seq::empty()),
            record_score(pats, query@),
        );
        proof {
            assert forall|j: int| 0 <= j < leaves@.len() implies -SCORE_SCALE <= #[trigger] leaves@[j].score
                <= SCORE_SCALE && leaves@[j].index < pats.len() by {
                assert(leaves@[j] == full[j]);
                lemma_score_bounds(query@, pats[full[j].index as int].vector);
            }
        }
        let order = Self::blend_order(&leaves, d.score, a.score, t.score);
        let mut all = self.build_matches(&leaves, &order);
        proof {
            let want = blended_matches(pats, leaves@, d.score as int, a.score as int, t.score as int);
            assert(matches_view(all@) =~= want);
            assert(blend_keep()(0int));
            assert(all@.len() > 0);
        }
        let primary = all.remove(0);
        let ghost primary_view = primary@;
        trace.push(TraceStep::Final { pattern_id: primary.pattern_id.clone(), confidence: primary.confidence });
        proof {
            assert(steps_view(trace@) =~= t3.push(StepView::Final(primary_view.pattern_id, primary_view.confidence)));
        }
        let r = CascadeResult { status: CascadeStatus::Matched, primary: Some(primary), alternatives: all, trace };
        proof {
            let want = blended_matches(pats, leaves@, d.score as int, a.score as int, t.score as int);
            assert(matches_view(r.alternatives@) =~= want.drop_first());
        }
        Ok(r)
    }
}

} // verus!
