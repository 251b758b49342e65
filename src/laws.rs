use vstd::prelude::*;

use crate::cascade::{
    blend, blend_keep, blend_score, blended_matches, cascade, leaf_candidates, leaf_prefix,
    match_of, CascadeStatus, CascadeView, MatchView, StepView,
};
use crate::classifier::HierarchicalClassifier;
use crate::rank::{
    lead, lemma_lead, lemma_ranking_exists, lemma_ranking_is, ranking, ranks_exactly,
    take_at_most, Ranked,
};
use crate::similarity::{cosine_score, lemma_score_bounds, SCORE_SCALE};
use crate::table::{matches_filter, record_score, search_keep, search_result, RecordView};
use crate::taxonomy::{level_keep, level_ranking, node_score, of_dimension, Level, NodeView};
use crate::sources::{
    loaded_nodes, loaded_patterns, pattern_record, PatternSourceView, NodeSourceView,
};

verus! {

/// Classification is deterministic: on one table state, one query, one threshold
/// and one candidate limit, any two results are equal, primary and order alike.
pub proof fn lemma_classify_deterministic(
    c: HierarchicalClassifier,
    query: Seq<i16>,
    threshold: i64,
    max_alternatives: nat,
    first: CascadeView,
    second: CascadeView,
)
    requires
        first == cascade(c.patterns_view(), c.nodes_view(), query, threshold, max_alternatives),
        second == cascade(c.patterns_view(), c.nodes_view(), query, threshold, max_alternatives),
    ensures
        first == second,
{
}

/// Every stored record, pattern or taxonomy node, has the table's dimension.
pub proof fn lemma_stored_dimension(c: HierarchicalClassifier)
    requires
        c.wf(),
    ensures
        forall|i: int| 0 <= i < c.patterns_view().len() ==> #[trigger] c.patterns_view()[i].vector.len()
            == c.dimension(),
        forall|i: int| 0 <= i < c.nodes_view().len() ==> #[trigger] c.nodes_view()[i].vector.len()
            == c.dimension(),
{
    c.lemma_dimensions();
}

/// A bulk load keeps only patterns of the table's dimension: a pattern of another
/// length never becomes a record, so no later search can return it.
pub proof fn lemma_loaded_patterns_dimension(s: Seq<PatternSourceView>, dim: nat)
    ensures
        forall|i: int| 0 <= i < loaded_patterns(s, dim).len() ==> #[trigger] loaded_patterns(s, dim)[i].vector.len()
            == dim,
    decreases s.len(),
{
    if s.len() > 0 {
        lemma_loaded_patterns_dimension(s.drop_last(), dim);
        let rest = loaded_patterns(s.drop_last(), dim);
        if s.last().embedding->0.len() == dim {
            let rec = pattern_record(s.last());
            if exists|i: int| 0 <= i < rest.len() && #[trigger] rest[i].id == rec.id {
                let k = choose|i: int| 0 <= i < rest.len() && #[trigger] rest[i].id == rec.id;
                assert forall|i: int| 0 <= i < rest.len() implies #[trigger] rest.update(k, rec)[i].vector.len()
                    == dim by {
                    if i != k {
                        assert(rest.update(k, rec)[i] == rest[i]);
                    }
                }
            } else {
                assert forall|i: int| 0 <= i < rest.len() + 1 implies #[trigger] rest.push(rec)[i].vector.len()
                    == dim by {
                    if i < rest.len() {
                        assert(rest.push(rec)[i] == rest[i]);
                    }
                }
            }
        }
    }
}

proof fn lemma_of_dimension(s: Seq<NodeView>, dim: nat)
    ensures
        forall|i: int| 0 <= i < of_dimension(s, dim).len() ==> #[trigger] of_dimension(s, dim)[i].vector.len()
            == dim,
    decreases s.len(),
{
    if s.len() > 0 {
        lemma_of_dimension(s.drop_last(), dim);
        let rest = of_dimension(s.drop_last(), dim);
        if s.last().vector.len() == dim {
            assert forall|i: int| 0 <= i < rest.len() + 1 implies #[trigger] rest.push(s.last())[i].vector.len()
                == dim by {
                if i < rest.len() {
                    assert(rest.push(s.last())[i] == rest[i]);
                }
            }
        }
    }
}

/// A bulk load keeps only taxonomy nodes of the index's dimension.
pub proof fn lemma_loaded_nodes_dimension(s: Seq<NodeSourceView>, dim: nat)
    ensures
        forall|i: int| 0 <= i < loaded_nodes(s, dim).len() ==> #[trigger] loaded_nodes(s, dim)[i].vector.len()
            == dim,
{
    lemma_of_dimension(s.map_values(|n: NodeSourceView| crate::sources::node_of(n)), dim);
}

/// Raising the threshold can only remove leaf candidates, never add them: the
/// candidates at the higher threshold are a prefix of those at the lower one.
pub proof fn lemma_threshold_monotone(
    patterns: Seq<RecordView>,
    query: Seq<i16>,
    prefix: Seq<char>,
    low: i64,
    high: i64,
    limit: nat,
)
    requires
        low <= high,
        patterns.len() <= usize::MAX,
    ensures
        leaf_candidates(patterns, query, prefix, high, limit).len() <= leaf_candidates(
            patterns,
            query,
            prefix,
            low,
            limit,
        ).len(),
        leaf_candidates(patterns, query, prefix, high, limit) == leaf_candidates(
            patterns,
            query,
            prefix,
            low,
            limit,
        ).subrange(0, leaf_candidates(patterns, query, prefix, high, limit).len() as int),
        forall|x: Ranked|
            leaf_candidates(patterns, query, prefix, high, limit).contains(x) ==> leaf_candidates(
                patterns,
                query,
                prefix,
                low,
                limit,
            ).contains(x),
{
    let n = patterns.len() as int;
    let empty = Seq::<(Seq<char>, Seq<char>)>::empty();
    let keep_low = search_keep(patterns, query, prefix, Some(low), empty);
    let keep_high = search_keep(patterns, query, prefix, Some(high), empty);
    let score = record_score(patterns, query);
    assert forall|i: int| 0 <= i < n && #[trigger] keep_low(i) implies i64::MIN <= score(i) <= i64::MAX by {
        lemma_score_bounds(query, patterns[i].vector);
    }
    lemma_ranking_exists(n, keep_low, score);
    let r_low = ranking(n, keep_low, score);
    lemma_lead(r_low, high as int);
    let m = lead(r_low, high as int);
    let p = r_low.subrange(0, m);
    assert forall|j: int, k: int| 0 <= j < k < p.len() implies #[trigger] crate::rank::ranks_before(
        p[j],
        p[k],
    ) by {
        assert(crate::rank::ranks_before(r_low[j], r_low[k]));
    }
    assert forall|j: int| #![trigger p[j]] 0 <= j < p.len() implies 0 <= p[j].index < n && keep_high(
        p[j].index as int,
    ) && p[j].score == score(p[j].index as int) by {
        assert(p[j] == r_low[j]);
        assert(r_low[j].score >= high);
    }
    assert forall|i: int| 0 <= i < n && #[trigger] keep_high(i) implies exists|j: int|
        0 <= j < p.len() && p[j].index == i by {
        assert(keep_low(i));
        let j = choose|j: int| 0 <= j < r_low.len() && r_low[j].index == i;
        assert(r_low[j].score >= high);
        assert(j < m);
        assert(p[j].index == i);
    }
    lemma_ranking_is(p, n, keep_high, score);
    let c_low = take_at_most(r_low, limit as int);
    let c_high = take_at_most(p, limit as int);
    assert(c_high =~= c_low.subrange(0, c_high.len() as int));
    assert forall|x: Ranked| c_high.contains(x) implies c_low.contains(x) by {
        let j = choose|j: int| 0 <= j < c_high.len() && c_high[j] == x;
        assert(c_low[j] == x);
    }
}

/// A search returns only records that carry every attribute of the filter with
/// exactly its value; a record without one of the keys is never returned.
pub proof fn lemma_search_filter(
    records: Seq<RecordView>,
    query: Seq<i16>,
    limit: nat,
    min_score: Option<i64>,
    filter: Seq<(Seq<char>, Seq<char>)>,
)
    requires
        records.len() <= usize::MAX,
    ensures
        forall|j: int|
            0 <= j < search_result(records, query, Seq::empty(), limit as int, min_score, filter).len() ==> {
                let hit = #[trigger] search_result(records, query, Seq::empty(), limit as int, min_score, filter)[j];
                &&& 0 <= hit.index < records.len()
                &&& matches_filter(records[hit.index as int].attributes, filter)
                &&& hit.score == cosine_score(query, records[hit.index as int].vector)
            },
{
    let n = records.len() as int;
    let keep = search_keep(records, query, Seq::empty(), min_score, filter);
    let score = record_score(records, query);
    assert forall|i: int| 0 <= i < n && #[trigger] keep(i) implies i64::MIN <= score(i) <= i64::MAX by {
        lemma_score_bounds(query, records[i].vector);
    }
    lemma_ranking_exists(n, keep, score);
    let r = ranking(n, keep, score);
    let hits = search_result(records, query, Seq::empty(), limit as int, min_score, filter);
    assert forall|j: int| 0 <= j < hits.len() implies {
        let hit = #[trigger] hits[j];
        &&& 0 <= hit.index < records.len()
        &&& matches_filter(records[hit.index as int].attributes, filter)
        &&& hit.score == cosine_score(query, records[hit.index as int].vector)
    } by {
        assert(hits[j] == r[j]);
    }
}

/// With no domain node the cascade stops at once: no primary match, no
/// alternatives, a trace that says so, and a result that the pattern table does
/// not enter into.
pub proof fn lemma_no_domain_stops(
    patterns: Seq<RecordView>,
    other_patterns: Seq<RecordView>,
    nodes: Seq<NodeView>,
    query: Seq<i16>,
    threshold: i64,
    max_alternatives: nat,
)
    requires
        forall|i: int| 0 <= i < nodes.len() ==> #[trigger] nodes[i].level != Level::Domain,
    ensures
        cascade(patterns, nodes, query, threshold, max_alternatives).status == CascadeStatus::NoDomainMatch,
        cascade(patterns, nodes, query, threshold, max_alternatives).primary is None,
        cascade(patterns, nodes, query, threshold, max_alternatives).alternatives.len() == 0,
        cascade(patterns, nodes, query, threshold, max_alternatives).trace.len() > 0,
        cascade(patterns, nodes, query, threshold, max_alternatives) == cascade(
            other_patterns,
            nodes,
            query,
            threshold,
            max_alternatives,
        ),
{
    let keep = level_keep(nodes, Level::Domain, None);
    let score = node_score(nodes, query);
    assert(ranks_exactly(Seq::<Ranked>::empty(), nodes.len() as int, keep, score)) by {
        assert forall|i: int| 0 <= i < nodes.len() implies !#[trigger] keep(i) by {
            assert(nodes[i].level != Level::Domain);
        }
    }
    lemma_ranking_is(Seq::<Ranked>::empty(), nodes.len() as int, keep, score);
    assert(level_ranking(nodes, query, Level::Domain, None).len() == 0);
}

/// The matches a classification returns, primary first.
pub open spec fn classified(v: CascadeView) -> Seq<MatchView> {
    match v.primary {
        Some(p) => seq![p] + v.alternatives,
        None => v.alternatives,
    }
}

proof fn lemma_blend_bounds(leaf: int, domain: int, area: int, topic: int)
    requires
        -SCORE_SCALE <= leaf <= SCORE_SCALE,
        -SCORE_SCALE <= domain <= SCORE_SCALE,
        -SCORE_SCALE <= area <= SCORE_SCALE,
        -SCORE_SCALE <= topic <= SCORE_SCALE,
    ensures
        -SCORE_SCALE <= blend(leaf, domain, area, topic) <= SCORE_SCALE,
{
    let w = 4 * domain + 3 * area + 3 * topic;
    let n = leaf * w;
    assert(-10_000_000_000_000 <= n <= 10_000_000_000_000) by (nonlinear_arith)
        requires
            -1_000_000 <= leaf <= 1_000_000,
            -10_000_000 <= w <= 10_000_000,
            n == leaf * w,
    ;
    if n >= 0 {
        assert(0 <= n / 10_000_000 <= 1_000_000) by (nonlinear_arith)
            requires
                0 <= n <= 10_000_000_000_000,
        ;
    } else {
        assert(0 <= (-n) / 10_000_000 <= 1_000_000) by (nonlinear_arith)
            requires
                0 < -n <= 10_000_000_000_000,
        ;
    }
}

proof fn lemma_leaves_bounded(
    patterns: Seq<RecordView>,
    query: Seq<i16>,
    prefix: Seq<char>,
    threshold: i64,
    limit: nat,
)
    requires
        patterns.len() <= usize::MAX,
    ensures
        forall|j: int|
            0 <= j < leaf_candidates(patterns, query, prefix, threshold, limit).len() ==> {
                let c = #[trigger] leaf_candidates(patterns, query, prefix, threshold, limit)[j];
                &&& 0 <= c.index < patterns.len()
                &&& c.score == cosine_score(query, patterns[c.index as int].vector)
                &&& -SCORE_SCALE <= c.score <= SCORE_SCALE
            },
{
    let n = patterns.len() as int;
    let keep = search_keep(patterns, query, prefix, Some(threshold), Seq::empty());
    let score = record_score(patterns, query);
    assert forall|i: int| 0 <= i < n && #[trigger] keep(i) implies i64::MIN <= score(i) <= i64::MAX by {
        lemma_score_bounds(query, patterns[i].vector);
    }
    lemma_ranking_exists(n, keep, score);
    let r = ranking(n, keep, score);
    let c = leaf_candidates(patterns, query, prefix, threshold, limit);
    assert forall|j: int| 0 <= j < c.len() implies {
        let x = #[trigger] c[j];
        &&& 0 <= x.index < patterns.len()
        &&& x.score == cosine_score(query, patterns[x.index as int].vector)
        &&& -SCORE_SCALE <= x.score <= SCORE_SCALE
    } by {
        assert(c[j] == r[j]);
        lemma_score_bounds(query, patterns[r[j].index as int].vector);
    }
}

proof fn lemma_top_bounded(nodes: Seq<NodeView>, query: Seq<i16>, level: Level, parent: Option<Seq<char>>)
    requires
        nodes.len() <= usize::MAX,
    ensures
        level_ranking(nodes, query, level, parent).len() > 0 ==> -SCORE_SCALE <= level_ranking(
            nodes,
            query,
            level,
            parent,
        )[0].score <= SCORE_SCALE,
{
    let n = nodes.len() as int;
    let keep = level_keep(nodes, level, parent);
    let score = node_score(nodes, query);
    assert forall|i: int| 0 <= i < n && #[trigger] keep(i) implies i64::MIN <= score(i) <= i64::MAX by {
        lemma_score_bounds(query, nodes[i].vector);
    }
    lemma_ranking_exists(n, keep, score);
    let r = ranking(n, keep, score);
    if r.len() > 0 {
        lemma_score_bounds(query, nodes[r[0].index as int].vector);
    }
}

/// The blended re-ranking lists each leaf candidate exactly as a match of its
/// record with the blend of its leaf score, and nothing else.
proof fn lemma_blended_matches(
    patterns: Seq<RecordView>,
    leaves: Seq<Ranked>,
    domain: int,
    area: int,
    topic: int,
)
    requires
        leaves.len() <= usize::MAX,
        forall|j: int| 0 <= j < leaves.len() ==> -SCORE_SCALE <= #[trigger] leaves[j].score <= SCORE_SCALE,
        -SCORE_SCALE <= domain <= SCORE_SCALE,
        -SCORE_SCALE <= area <= SCORE_SCALE,
        -SCORE_SCALE <= topic <= SCORE_SCALE,
    ensures
        forall|k: int|
            0 <= k < blended_matches(patterns, leaves, domain, area, topic).len() ==> exists|j: int|
                0 <= j < leaves.len() && #[trigger] blended_matches(patterns, leaves, domain, area, topic)[k]
                    == match_of(
                    patterns[leaves[j].index as int],
                    blend(leaves[j].score as int, domain, area, topic),
                ),
        forall|j: int|
            0 <= j < leaves.len() ==> blended_matches(patterns, leaves, domain, area, topic).contains(
                match_of(patterns[#[trigger] leaves[j].index as int], blend(leaves[j].score as int, domain, area, topic)),
            ),
{
    let n = leaves.len() as int;
    let keep = blend_keep();
    let score = blend_score(leaves, domain, area, topic);
    assert forall|i: int| 0 <= i < n && #[trigger] keep(i) implies i64::MIN <= score(i) <= i64::MAX by {
        lemma_blend_bounds(leaves[i].score as int, domain, area, topic);
    }
    lemma_ranking_exists(n, keep, score);
    let order = ranking(n, keep, score);
    let all = blended_matches(patterns, leaves, domain, area, topic);
    assert forall|k: int| 0 <= k < all.len() implies exists|j: int|
        0 <= j < leaves.len() && #[trigger] all[k] == match_of(
            patterns[leaves[j].index as int],
            blend(leaves[j].score as int, domain, area, topic),
        ) by {
        let j = order[k].index as int;
        assert(keep(j) && order[k].score == score(j));
        assert(all[k] == match_of(patterns[leaves[j].index as int], blend(leaves[j].score as int, domain, area, topic)));
    }
    assert forall|j: int| 0 <= j < leaves.len() implies all.contains(
        match_of(patterns[#[trigger] leaves[j].index as int], blend(leaves[j].score as int, domain, area, topic)),
    ) by {
        assert(keep(j));
        let k = choose|k: int| 0 <= k < order.len() && order[k].index == j;
        assert(order[k].score == score(j));
        assert(all[k] == match_of(patterns[leaves[j].index as int], blend(leaves[j].score as int, domain, area, topic)));
    }
}

/// Every pattern a classification returns carries the blend of its own leaf score
/// with the domain, area and topic scores that the trace reports for the chosen
/// path: `leaf * (0.4 * domain + 0.3 * area + 0.3 * topic)`.
pub proof fn lemma_classify_blend(
    patterns: Seq<RecordView>,
    nodes: Seq<NodeView>,
    query: Seq<i16>,
    threshold: i64,
    max_alternatives: nat,
)
    requires
        patterns.len() <= usize::MAX,
        nodes.len() <= usize::MAX,
        max_alternatives <= usize::MAX,
    ensures
        ({
            let v = cascade(patterns, nodes, query, threshold, max_alternatives);
            v.status == CascadeStatus::Matched ==> v.trace.len() == 4 && match (v.trace[0], v.trace[1], v.trace[2]) {
                (StepView::Domain(_, dc), StepView::Area(_, ac), StepView::Topic(_, tc)) => forall|k: int|
                    #![trigger classified(v)[k]]
                    0 <= k < classified(v).len() ==> exists|i: int|
                        #![trigger patterns[i]]
                        0 <= i < patterns.len() && classified(v)[k] == match_of(
                            patterns[i],
                            blend(cosine_score(query, patterns[i].vector), dc, ac, tc),
                        ),
                _ => false,
            }
        }),
{
    let v = cascade(patterns, nodes, query, threshold, max_alternatives);
    let domains = level_ranking(nodes, query, Level::Domain, None);
    if domains.len() > 0 {
        let d = domains[0];
        let d_id = nodes[d.index as int].id;
        let areas = level_ranking(nodes, query, Level::Area, Some(d_id));
        if areas.len() > 0 {
            let a = areas[0];
            let a_id = nodes[a.index as int].id;
            let topics = level_ranking(nodes, query, Level::Topic, Some(a_id));
            if topics.len() > 0 {
                let t = topics[0];
                let t_id = nodes[t.index as int].id;
                let prefix = leaf_prefix(d_id, a_id, t_id);
                let leaves = leaf_candidates(patterns, query, prefix, threshold, max_alternatives);
                if leaves.len() > 0 {
                    lemma_top_bounded(nodes, query, Level::Domain, None);
                    lemma_top_bounded(nodes, query, Level::Area, Some(d_id));
                    lemma_top_bounded(nodes, query, Level::Topic, Some(a_id));
                    lemma_leaves_bounded(patterns, query, prefix, threshold, max_alternatives);
                    lemma_blended_matches(patterns, leaves, d.score as int, a.score as int, t.score as int);
                    let all = blended_matches(patterns, leaves, d.score as int, a.score as int, t.score as int);
                    assert(all.contains(match_of(patterns[leaves[0].index as int], blend(leaves[0].score as int, d.score as int, a.score as int, t.score as int))));
                    assert(classified(v) =~= all);
                    assert forall|k: int| #![trigger classified(v)[k]] 0 <= k < classified(v).len() implies exists|i: int|
                        #![trigger patterns[i]]
                        0 <= i < patterns.len() && classified(v)[k] == match_of(
                            patterns[i],
                            blend(cosine_score(query, patterns[i].vector), d.score as int, a.score as int, t.score as int),
                        ) by {
                        let j = choose|j: int| 0 <= j < leaves.len() && #[trigger] all[k] == match_of(
                            patterns[leaves[j].index as int],
                            blend(leaves[j].score as int, d.score as int, a.score as int, t.score as int),
                        );
                        let i = leaves[j].index as int;
                        assert(0 <= i < patterns.len());
                        assert(classified(v)[k] == match_of(
                            patterns[i],
                            blend(cosine_score(query, patterns[i].vector), d.score as int, a.score as int, t.score as int),
                        ));
                    }
                }
            }
        }
    }
}

/// Raising the threshold can only remove patterns from what a classification
/// returns, never add one.
pub proof fn lemma_classify_threshold_monotone(
    patterns: Seq<RecordView>,
    nodes: Seq<NodeView>,
    query: Seq<i16>,
    low: i64,
    high: i64,
    max_alternatives: nat,
)
    requires
        low <= high,
        patterns.len() <= usize::MAX,
        nodes.len() <= usize::MAX,
        max_alternatives <= usize::MAX,
    ensures
        forall|m: MatchView|
            classified(cascade(patterns, nodes, query, high, max_alternatives)).contains(m) ==> classified(
                cascade(patterns, nodes, query, low, max_alternatives),
            ).contains(m),
{
    let vh = cascade(patterns, nodes, query, high, max_alternatives);
    let vl = cascade(patterns, nodes, query, low, max_alternatives);
    let domains = level_ranking(nodes, query, Level::Domain, None);
    if domains.len() > 0 {
        let d = domains[0];
        let d_id = nodes[d.index as int].id;
        let areas = level_ranking(nodes, query, Level::Area, Some(d_id));
        if areas.len() > 0 {
            let a = areas[0];
            let a_id = nodes[a.index as int].id;
            let topics = level_ranking(nodes, query, Level::Topic, Some(a_id));
            if topics.len() > 0 {
                let t = topics[0];
                let t_id = nodes[t.index as int].id;
                let prefix = leaf_prefix(d_id, a_id, t_id);
                let lh = leaf_candidates(patterns, query, prefix, high, max_alternatives);
                let ll = leaf_candidates(patterns, query, prefix, low, max_alternatives);
                lemma_threshold_monotone(patterns, query, prefix, low, high, max_alternatives);
                if lh.len() > 0 {
                    let (ds, as_, ts) = (d.score as int, a.score as int, t.score as int);
                    lemma_top_bounded(nodes, query, Level::Domain, None);
                    lemma_top_bounded(nodes, query, Level::Area, Some(d_id));
                    lemma_top_bounded(nodes, query, Level::Topic, Some(a_id));
                    lemma_leaves_bounded(patterns, query, prefix, high, max_alternatives);
                    lemma_leaves_bounded(patterns, query, prefix, low, max_alternatives);
                    lemma_blended_matches(patterns, lh, ds, as_, ts);
                    lemma_blended_matches(patterns, ll, ds, as_, ts);
                    let ah = blended_matches(patterns, lh, ds, as_, ts);
                    let al = blended_matches(patterns, ll, ds, as_, ts);
                    assert(ah.contains(match_of(patterns[lh[0].index as int], blend(lh[0].score as int, ds, as_, ts))));
                    assert(ll[0] == lh[0]);
                    assert(al.contains(match_of(patterns[ll[0].index as int], blend(ll[0].score as int, ds, as_, ts))));
                    assert(classified(vh) =~= ah);
                    assert(classified(vl) =~= al);
                    assert forall|m: MatchView| classified(vh).contains(m) implies classified(vl).contains(m) by {
                        let k = choose|k: int| 0 <= k < ah.len() && ah[k] == m;
                        let j = choose|j: int| 0 <= j < lh.len() && #[trigger] ah[k] == match_of(
                            patterns[lh[j].index as int],
                            blend(lh[j].score as int, ds, as_, ts),
                        );
                        assert(lh[j] == ll[j]);
                        assert(al.contains(match_of(patterns[ll[j].index as int], blend(ll[j].score as int, ds, as_, ts))));
                    }
                }
            }
        }
    }
}

/// A level query under a parent returns only nodes of that level whose parent is
/// exactly that one: a node without a parent, or with another (an orphan whose
/// parent does not exist), never appears.
pub proof fn lemma_level_parent_filter(
    nodes: Seq<NodeView>,
    query: Seq<i16>,
    level: Level,
    parent: Seq<char>,
)
    requires
        nodes.len() <= usize::MAX,
    ensures
        forall|j: int|
            0 <= j < level_ranking(nodes, query, level, Some(parent)).len() ==> {
                let hit = #[trigger] level_ranking(nodes, query, level, Some(parent))[j];
                &&& 0 <= hit.index < nodes.len()
                &&& nodes[hit.index as int].level == level
                &&& nodes[hit.index as int].parent_id == Some(parent)
            },
{
    let n = nodes.len() as int;
    let keep = level_keep(nodes, level, Some(parent));
    let score = node_score(nodes, query);
    assert forall|i: int| 0 <= i < n && #[trigger] keep(i) implies i64::MIN <= score(i) <= i64::MAX by {
        lemma_score_bounds(query, nodes[i].vector);
    }
    lemma_ranking_exists(n, keep, score);
    let r = level_ranking(nodes, query, level, Some(parent));
    assert forall|j: int| 0 <= j < r.len() implies {
        let hit = #[trigger] r[j];
        &&& 0 <= hit.index < nodes.len()
        &&& nodes[hit.index as int].level == level
        &&& nodes[hit.index as int].parent_id == Some(parent)
    } by {
        assert(keep(r[j].index as int));
    }
}

} // verus!
