use vstd::prelude::*;

use crate::rank::{ranking, Ranked};
use crate::similarity::SCORE_SCALE;
use crate::table::{attr_value, attrs_view, search_result, Attribute, RecordView};
use crate::taxonomy::{level_ranking, Level, NodeView};
use crate::text::normalized;

verus! {

/// Weight of the domain confidence in a blended confidence, in tenths.
pub const DOMAIN_WEIGHT: i64 = 4;

/// Weight of the area confidence in a blended confidence, in tenths.
pub const AREA_WEIGHT: i64 = 3;

/// Weight of the topic confidence in a blended confidence, in tenths.
pub const TOPIC_WEIGHT: i64 = 3;

/// A leaf similarity scaled by the weighted confidences of the taxonomy path that
/// led to it: `leaf * (0.4 * domain + 0.3 * area + 0.3 * topic)`, in fixed point,
/// rounded toward zero. The weights are a fixed design constant.
pub open spec fn blend(leaf: int, domain: int, area: int, topic: int) -> int {
    let n = leaf * (DOMAIN_WEIGHT * domain + AREA_WEIGHT * area + TOPIC_WEIGHT * topic);
    let d = 10 * SCORE_SCALE;
    if n >= 0 {
        n / d
    } else {
        -((-n) / d)
    }
}

/// The blended confidence of a leaf score, for path confidences within the score range.
pub fn blended_confidence(leaf: i64, domain: i64, area: i64, topic: i64) -> (r: i64)
    requires
        -SCORE_SCALE <= leaf <= SCORE_SCALE,
        -SCORE_SCALE <= domain <= SCORE_SCALE,
        -SCORE_SCALE <= area <= SCORE_SCALE,
        -SCORE_SCALE <= topic <= SCORE_SCALE,
    ensures
        r == blend(leaf as int, domain as int, area as int, topic as int),
        -SCORE_SCALE <= r <= SCORE_SCALE,
{
    let w = DOMAIN_WEIGHT * domain + AREA_WEIGHT * area + TOPIC_WEIGHT * topic;
    proof {
        assert(-10_000_000_000_000 <= leaf * w <= 10_000_000_000_000) by (nonlinear_arith)
            requires
                -1_000_000 <= leaf <= 1_000_000,
                -10_000_000 <= w <= 10_000_000,
        ;
    }
    let n = leaf * w;
    let d: i64 = 10 * SCORE_SCALE;
    if n >= 0 {
        ((n as u64) / (d as u64)) as i64
    } else {
        -((((-n) as u64) / (d as u64)) as i64)
    }
}

/// Where the cascade stopped.
#[derive(Clone, Copy, Debug, PartialEq, Eq, Structural)]
pub enum CascadeStatus {
    NoDomainMatch,
    NoAreaMatch,
    NoTopicMatch,
    NoPatternMatch,
    Matched,
}

/// One decision of the cascade, for diagnostics.
pub enum TraceStep {
    Domain { id: String, score: i64 },
    Area { id: String, score: i64 },
    Topic { id: String, score: i64 },
    NoDomainMatch,
    NoAreaMatch,
    NoTopicMatch,
    NoPatternMatch { prefix: String, threshold: i64 },
    Final { pattern_id: String, confidence: i64 },
}

pub enum StepView {
    Domain(Seq<char>, int),
    Area(Seq<char>, int),
    Topic(Seq<char>, int),
    NoDomainMatch,
    NoAreaMatch,
    NoTopicMatch,
    NoPatternMatch(Seq<char>, int),
    Final(Seq<char>, int),
}

impl View for TraceStep {
    type V = StepView;

    open spec fn view(&self) -> StepView {
        match self {
            TraceStep::Domain { id, score } => StepView::Domain(id@, *score as int),
            TraceStep::Area { id, score } => StepView::Area(id@, *score as int),
            TraceStep::Topic { id, score } => StepView::Topic(id@, *score as int),
            TraceStep::NoDomainMatch => StepView::NoDomainMatch,
            TraceStep::NoAreaMatch => StepView::NoAreaMatch,
            TraceStep::NoTopicMatch => StepView::NoTopicMatch,
            TraceStep::NoPatternMatch { prefix, threshold } => StepView::NoPatternMatch(
                prefix@,
                *threshold as int,
            ),
            TraceStep::Final { pattern_id, confidence } => StepView::Final(pattern_id@, *confidence as int),
        }
    }
}

/// A classified pattern with its blended confidence and the record's attributes.
pub struct PatternMatch {
    pub pattern_id: String,
    pub confidence: i64,
    pub alternatives: Vec<Vec<Attribute>>,
    pub embedding_vector: Option<Vec<i16>>,
    pub metadata: Vec<Attribute>,
}

pub struct MatchView {
    pub pattern_id: Seq<char>,
    pub confidence: int,
    pub alternatives: Seq<Seq<(Seq<char>, Seq<char>)>>,
    pub embedding_vector: Option<Seq<i16>>,
    pub metadata: Seq<(Seq<char>, Seq<char>)>,
}

impl View for PatternMatch {
    type V = MatchView;

    open spec fn view(&self) -> MatchView {
        MatchView {
            pattern_id: self.pattern_id@,
            confidence: self.confidence as int,
            alternatives: self.alternatives@.map_values(|a: Vec<Attribute>| attrs_view(a@)),
            embedding_vector: match self.embedding_vector {
                Some(v) => Some(v@),
                None => None,
            },
            metadata: attrs_view(self.metadata@),
        }
    }
}

/// The part of a pattern id before its first separator, or the whole id.
pub open spec fn domain_part(id: Seq<char>) -> Seq<char> {
    if exists|i: int| 0 <= i < id.len() && id[i] == '/' {
        id.subrange(0, choose|i: int| 0 <= i < id.len() && id[i] == '/' && forall|j: int| 0 <= j < i ==> id[j] != '/')
    } else {
        id
    }
}

impl PatternMatch {
    /// A match with no attributes.
    pub fn new(pattern_id: String, confidence: i64) -> (r: PatternMatch)
        ensures
            r@ == (MatchView {
                pattern_id: pattern_id@,
                confidence: confidence as int,
                alternatives: Seq::empty(),
                embedding_vector: None,
                metadata: Seq::empty(),
            }),
    {
        let r = PatternMatch {
            pattern_id,
            confidence,
            alternatives: Vec::new(),
            embedding_vector: None,
            metadata: Vec::new(),
        };
        assert(r@.alternatives =~= Seq::<Seq<(Seq<char>, Seq<char>)>>::empty());
        assert(r@.metadata =~= Seq::<(Seq<char>, Seq<char>)>::empty());
        r
    }

    /// Whether the confidence reaches the threshold.
    pub fn is_confident(&self, threshold: i64) -> (r: bool)
        ensures
            r == (self.confidence >= threshold),
    {
        self.confidence >= threshold
    }

    /// The domain that the pattern id names: its part before the first `/`.
    pub fn get_domain(&self) -> (r: Option<String>)
        ensures
            r is Some && r->0@ == domain_part(self.pattern_id@),
    {
        let id = self.pattern_id.as_str();
        let n = id.unicode_len();
        let mut i: usize = 0;
        while i < n
            invariant
                n == id@.len(),
                id@ == self.pattern_id@,
                i <= n,
                forall|j: int| 0 <= j < i ==> id@[j] != '/',
            decreases n - i,
        {
            if id.get_char(i) == '/' {
                proof {
                    assert(0 <= i < id@.len() && id@[i as int] == '/' && forall|j: int| 0 <= j < i ==> id@[j] != '/');
                    let k = choose|k: int| 0 <= k < id@.len() && id@[k] == '/' && forall|j: int| 0 <= j < k ==> id@[j] != '/';
                    if k < i {
                        assert(id@[k] != '/');
                    } else if k > i {
                        assert(id@[i as int] != '/');
                    }
                    assert(k == i);
                }
                return Some(id.substring_char(0, i).to_owned());
            }
            i = i + 1;
        }
        proof {
            assert(id@.subrange(0, n as int) =~= id@);
        }
        Some(id.substring_char(0, n).to_owned())
    }
}

/// What a classification returns: where it stopped, the primary match and the
/// ranked alternatives, and the trace of its decisions.
pub struct CascadeResult {
    pub status: CascadeStatus,
    pub primary: Option<PatternMatch>,
    pub alternatives: Vec<PatternMatch>,
    pub trace: Vec<TraceStep>,
}

pub struct CascadeView {
    pub status: CascadeStatus,
    pub primary: Option<MatchView>,
    pub alternatives: Seq<MatchView>,
    pub trace: Seq<StepView>,
}

pub open spec fn matches_view(s: Seq<PatternMatch>) -> Seq<MatchView> {
    s.map_values(|m: PatternMatch| m@)
}

pub open spec fn steps_view(s: Seq<TraceStep>) -> Seq<StepView> {
    s.map_values(|t: TraceStep| t@)
}

impl View for CascadeResult {
    type V = CascadeView;

    open spec fn view(&self) -> CascadeView {
        CascadeView {
            status: self.status,
            primary: match self.primary {
                Some(m) => Some(m@),
                None => None,
            },
            alternatives: matches_view(self.alternatives@),
            trace: steps_view(self.trace@),
        }
    }
}

/// The id that a pattern match reports: the record's `pattern_id` attribute, or
/// `unknown` where it has none.
pub open spec fn pattern_label(rec: RecordView) -> Seq<char> {
    match attr_value(rec.attributes, "pattern_id"@) {
        Some(v) => v,
        None => "unknown"@,
    }
}

pub open spec fn match_of(rec: RecordView, confidence: int) -> MatchView {
    MatchView {
        pattern_id: pattern_label(rec),
        confidence,
        alternatives: Seq::empty(),
        embedding_vector: None,
        metadata: rec.attributes,
    }
}

/// The stored prefix of the patterns under a topic.
pub open spec fn leaf_prefix(domain: Seq<char>, area: Seq<char>, topic: Seq<char>) -> Seq<char> {
    normalized(domain + seq!['/'] + area + seq!['/'] + topic)
}

/// The leaf candidates: the patterns under the prefix that score at least the
/// threshold, best first, at most `limit` of them.
pub open spec fn leaf_candidates(
    patterns: Seq<RecordView>,
    query: Seq<i16>,
    prefix: Seq<char>,
    threshold: i64,
    limit: nat,
) -> Seq<Ranked> {
    search_result(patterns, query, prefix, limit as int, Some(threshold), Seq::empty())
}

pub open spec fn blend_keep() -> spec_fn(int) -> bool {
    |j: int| true
}

pub open spec fn blend_score(leaves: Seq<Ranked>, domain: int, area: int, topic: int) -> spec_fn(
    int,
) -> int {
    |j: int| blend(leaves[j].score as int, domain, area, topic)
}

/// The leaf candidates re-ranked by blended confidence, as matches.
pub open spec fn blended_matches(
    patterns: Seq<RecordView>,
    leaves: Seq<Ranked>,
    domain: int,
    area: int,
    topic: int,
) -> Seq<MatchView> {
    let order = ranking(leaves.len() as int, blend_keep(), blend_score(leaves, domain, area, topic));
    Seq::new(order.len(), |k: int| match_of(patterns[leaves[order[k].index as int].index as int], order[k].score as int))
}

pub open spec fn stopped(status: CascadeStatus, trace: Seq<StepView>) -> CascadeView {
    CascadeView { status, primary: None, alternatives: Seq::empty(), trace }
}

/// The greedy cascade: the best domain, the best area under it, the best topic
/// under that, then the patterns under the topic, blended and re-ranked.
pub open spec fn cascade(
    patterns: Seq<RecordView>,
    nodes: Seq<NodeView>,
    query: Seq<i16>,
    threshold: i64,
    max_alternatives: nat,
) -> CascadeView {
    let domains = level_ranking(nodes, query, Level::Domain, None);
    if domains.len() == 0 {
        stopped(CascadeStatus::NoDomainMatch, seq![StepView::NoDomainMatch])
    } else {
        let d = domains[0];
        let d_id = nodes[d.index as int].id;
        let t1 = seq![StepView::Domain(d_id, d.score as int)];
        let areas = level_ranking(nodes, query, Level::Area, Some(d_id));
        if areas.len() == 0 {
            stopped(CascadeStatus::NoAreaMatch, t1.push(StepView::NoAreaMatch))
        } else {
            let a = areas[0];
            let a_id = nodes[a.index as int].id;
            let t2 = t1.push(StepView::Area(a_id, a.score as int));
            let topics = level_ranking(nodes, query, Level::Topic, Some(a_id));
            if topics.len() == 0 {
                stopped(CascadeStatus::NoTopicMatch, t2.push(StepView::NoTopicMatch))
            } else {
                let t = topics[0];
                let t_id = nodes[t.index as int].id;
                let t3 = t2.push(StepView::Topic(t_id, t.score as int));
                let prefix = leaf_prefix(d_id, a_id, t_id);
                let leaves = leaf_candidates(patterns, query, prefix, threshold, max_alternatives);
                if leaves.len() == 0 {
                    stopped(
                        CascadeStatus::NoPatternMatch,
                        t3.push(StepView::NoPatternMatch(prefix, threshold as int)),
                    )
                } else {
                    let all = blended_matches(
                        patterns,
                        leaves,
                        d.score as int,
                        a.score as int,
                        t.score as int,
                    );
                    CascadeView {
                        status: CascadeStatus::Matched,
                        primary: Some(all[0]),
                        alternatives: all.drop_first(),
                        trace: t3.push(StepView::Final(all[0].pattern_id, all[0].confidence)),
                    }
                }
            }
        }
    }
}

} // verus!
