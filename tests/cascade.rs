use familiar_pattern_classifier::cascade::blended_confidence;
use familiar_pattern_classifier::similarity::SCORE_SCALE;
use familiar_pattern_classifier::sources::{LoadError, NodeSource, PatternSource};
use familiar_pattern_classifier::{CascadeStatus, HierarchicalClassifier, TraceStep};

fn pattern(id: &str, domain: Option<&str>, v: Vec<i16>) -> PatternSource {
    PatternSource {
        id: Some(id.to_string()),
        description: Some(format!("about {}", id)),
        domain: domain.map(|d| d.to_string()),
        embedding: Some(v),
    }
}

fn level(id: &str, level: &str, parent: Option<&str>, v: Vec<i16>) -> NodeSource {
    NodeSource {
        id: Some(id.to_string()),
        level: Some(level.to_string()),
        parent_id: parent.map(|p| p.to_string()),
        embedding: Some(v),
    }
}

fn scenario() -> HierarchicalClassifier {
    let mut c = HierarchicalClassifier::new(3);
    let counts = c
        .reload(
            vec![pattern("D1_A1_T1_leaf", Some("D1"), vec![1, 2, 3])],
            vec![
                level("D1", "domain", None, vec![1, 2, 3]),
                level("A1", "area", Some("D1"), vec![1, 2, 3]),
                level("T1", "topic", Some("A1"), vec![1, 2, 3]),
            ],
        )
        .unwrap();
    assert_eq!(counts, (1, 3));
    c
}

#[test]
fn end_to_end_single_path() {
    let c = scenario();
    let r = c.classify(&vec![1, 2, 3], 300_000, 3).unwrap();
    assert_eq!(r.status, CascadeStatus::Matched);
    let primary = r.primary.unwrap();
    assert_eq!(primary.pattern_id, "D1_A1_T1_leaf");
    assert_eq!(primary.confidence, SCORE_SCALE);
    assert!(r.alternatives.is_empty());
    assert_eq!(r.trace.len(), 4);
    assert!(matches!(&r.trace[0], TraceStep::Domain { id, score } if id == "D1" && *score == SCORE_SCALE));
    assert!(matches!(&r.trace[3], TraceStep::Final { pattern_id, confidence } if pattern_id == "D1_A1_T1_leaf" && *confidence == SCORE_SCALE));
    let keys: Vec<&str> = primary.metadata.iter().map(|a| a.key.as_str()).collect();
    assert_eq!(keys, vec!["pattern_id", "description", "domain"]);
}

#[test]
fn blend_example() {
    assert_eq!(blended_confidence(500_000, 900_000, 800_000, 700_000), 405_000);
    assert_eq!(blended_confidence(-500_000, 900_000, 800_000, 700_000), -405_000);
    assert_eq!(blended_confidence(SCORE_SCALE, SCORE_SCALE, SCORE_SCALE, SCORE_SCALE), SCORE_SCALE);
    // 333_333 * 0.81 = 269_999.73, rounded toward zero
    assert_eq!(blended_confidence(333_333, 900_000, 800_000, 700_000), 269_999);
}

#[test]
fn empty_taxonomy_stops_at_domain() {
    let mut c = HierarchicalClassifier::new(3);
    c.load_patterns(vec![pattern("x", None, vec![1, 2, 3])]).unwrap();
    let r = c.classify(&vec![1, 2, 3], 0, 3).unwrap();
    assert_eq!(r.status, CascadeStatus::NoDomainMatch);
    assert!(r.primary.is_none());
    assert!(r.alternatives.is_empty());
    assert!(!r.trace.is_empty());
    assert!(matches!(r.trace[0], TraceStep::NoDomainMatch));
}

#[test]
fn missing_area_and_topic_stop_the_cascade() {
    let mut c = HierarchicalClassifier::new(2);
    c.load_level_schemas(vec![level("D1", "domain", None, vec![1, 0]), level("A9", "area", Some("D2"), vec![1, 0])]).unwrap();
    let r = c.classify(&vec![1, 0], 0, 3).unwrap();
    assert_eq!(r.status, CascadeStatus::NoAreaMatch);
    assert_eq!(r.trace.len(), 2);
    c.load_level_schemas(vec![level("D1", "domain", None, vec![1, 0]), level("A1", "area", Some("D1"), vec![1, 0])]).unwrap();
    let r = c.classify(&vec![1, 0], 0, 3).unwrap();
    assert_eq!(r.status, CascadeStatus::NoTopicMatch);
    assert_eq!(r.trace.len(), 3);
}

fn wide() -> HierarchicalClassifier {
    let mut c = HierarchicalClassifier::new(2);
    c.reload(
        vec![
            pattern("D/A/T/near", None, vec![10, 1]),
            pattern("D/A/T/mid", None, vec![1, 1]),
            pattern("D/A/T/far", None, vec![1, 10]),
            pattern("D/A/U/other", None, vec![10, 0]),
        ],
        vec![
            level("D", "domain", None, vec![1, 0]),
            level("A", "area", Some("D"), vec![1, 0]),
            level("T", "topic", Some("A"), vec![1, 0]),
        ],
    )
    .unwrap();
    c
}

#[test]
fn leaf_search_stays_in_the_winning_subtree() {
    let c = wide();
    let r = c.classify(&vec![1, 0], 0, 10).unwrap();
    assert_eq!(r.status, CascadeStatus::Matched);
    let primary = r.primary.unwrap();
    assert_eq!(primary.pattern_id, "D/A/T/near");
    let alts: Vec<&str> = r.alternatives.iter().map(|m| m.pattern_id.as_str()).collect();
    assert_eq!(alts, vec!["D/A/T/mid", "D/A/T/far"]);
    assert!(primary.confidence >= r.alternatives[0].confidence);
}

#[test]
fn requesting_n_candidates_gives_n_minus_one_alternatives() {
    let c = wide();
    let r = c.classify(&vec![1, 0], 0, 2).unwrap();
    assert_eq!(r.alternatives.len(), 1);
    let none = c.classify(&vec![1, 0], 0, 0).unwrap();
    assert_eq!(none.status, CascadeStatus::NoPatternMatch);
}

#[test]
fn raising_the_threshold_only_removes_candidates() {
    let c = wide();
    let ids = |t: i64| -> Vec<String> {
        let r = c.classify(&vec![1, 0], t, 10).unwrap();
        let mut v: Vec<String> = r.primary.iter().map(|m| m.pattern_id.clone()).collect();
        v.extend(r.alternatives.iter().map(|m| m.pattern_id.clone()));
        v
    };
    let low = ids(0);
    let mid = ids(500_000);
    let high = ids(990_000);
    assert_eq!(low.len(), 3);
    assert_eq!(mid, vec!["D/A/T/near".to_string(), "D/A/T/mid".to_string()]);
    assert_eq!(high, vec!["D/A/T/near".to_string()]);
    assert!(mid.iter().all(|x| low.contains(x)));
    assert!(high.iter().all(|x| mid.contains(x)));
    let r = c.classify(&vec![1, 0], SCORE_SCALE, 10).unwrap();
    assert_eq!(r.status, CascadeStatus::NoPatternMatch);
    assert!(matches!(&r.trace[3], TraceStep::NoPatternMatch { prefix, threshold } if prefix == "D_A_T" && *threshold == SCORE_SCALE));
}

#[test]
fn repeated_classification_is_identical() {
    let c = wide();
    let first = c.classify(&vec![3, 1], 100_000, 3).unwrap();
    let second = c.classify(&vec![3, 1], 100_000, 3).unwrap();
    let view = |r: &familiar_pattern_classifier::CascadeResult| -> Vec<(String, i64)> {
        r.primary.iter().chain(r.alternatives.iter()).map(|m| (m.pattern_id.clone(), m.confidence)).collect()
    };
    assert_eq!(first.status, second.status);
    assert_eq!(view(&first), view(&second));
}

#[test]
fn failed_reload_changes_nothing() {
    let mut c = scenario();
    let bad_nodes = vec![
        level("D9", "domain", None, vec![1, 0, 0]),
        NodeSource { id: Some("A9".to_string()), level: Some("area".to_string()), parent_id: None, embedding: None },
    ];
    let r = c.reload(vec![pattern("other", None, vec![0, 0, 1])], bad_nodes);
    assert_eq!(r, Err(LoadError::MissingEmbedding { position: 1 }));
    assert_eq!(c.patterns().count(), 1);
    assert_eq!(c.patterns().get(0).id, "D1_A1_T1_leaf");
    assert_eq!(c.taxonomy().count(), 3);
    let bad_patterns = vec![PatternSource { id: None, description: None, domain: None, embedding: Some(vec![1, 2, 3]) }];
    assert_eq!(c.reload(bad_patterns, vec![]), Err(LoadError::MissingId { position: 0 }));
    assert_eq!(c.taxonomy().count(), 3);
    assert!(c.health_check());
}

#[test]
fn wrong_dimension_records_are_skipped_on_load() {
    let mut c = HierarchicalClassifier::new(3);
    let n = c
        .load_patterns(vec![
            pattern("keep/me", None, vec![1, 0, 0]),
            pattern("too/short", None, vec![1, 0]),
            pattern("keep/me", None, vec![0, 1, 0]),
        ])
        .unwrap();
    assert_eq!(n, 1);
    let stored = c.patterns().get(0);
    assert_eq!(stored.id, "keep_me");
    assert_eq!(stored.vector, vec![0, 1, 0]);
    let hits = c.patterns().search(&vec![1, 0, 0], 10, None, &vec![]).unwrap();
    assert_eq!(hits.len(), 1);
    assert!(hits.iter().all(|h| c.patterns().get(h.index).vector.len() == 3));
}

#[test]
fn query_of_wrong_dimension_is_a_fault() {
    let c = scenario();
    assert!(c.classify(&vec![1, 2], 0, 3).is_err());
}

#[test]
fn health_needs_both_tables() {
    let mut c = HierarchicalClassifier::new(3);
    assert!(!c.health_check());
    c.load_patterns(vec![pattern("p", None, vec![1, 1, 1])]).unwrap();
    assert!(!c.health_check());
    c.load_level_schemas(vec![level("D", "domain", None, vec![1, 1, 1])]).unwrap();
    assert!(c.health_check());
}

#[test]
fn missing_level_reads_as_unknown() {
    let mut c = HierarchicalClassifier::new(2);
    c.load_level_schemas(vec![NodeSource { id: Some("D".to_string()), level: None, parent_id: None, embedding: Some(vec![1, 0]) }])
        .unwrap();
    let r = c.classify(&vec![1, 0], 0, 3).unwrap();
    assert_eq!(r.status, CascadeStatus::NoDomainMatch);
}

#[test]
fn malformed_pattern_source_is_refused_whole() {
    let mut c = scenario();
    let r = c.load_patterns(vec![
        pattern("fine", None, vec![1, 0, 0]),
        PatternSource { id: Some("no-vector".to_string()), description: None, domain: None, embedding: None },
        PatternSource { id: None, description: None, domain: None, embedding: None },
    ]);
    assert_eq!(r, Err(LoadError::MissingEmbedding { position: 1 }));
    assert_eq!(c.patterns().count(), 1);
    assert_eq!(c.patterns().get(0).id, "D1_A1_T1_leaf");
    let r = c.load_level_schemas(vec![NodeSource { id: None, level: None, parent_id: None, embedding: Some(vec![1, 2, 3]) }]);
    assert_eq!(r, Err(LoadError::MissingId { position: 0 }));
    assert_eq!(c.taxonomy().count(), 3);
}

#[test]
fn add_pattern_stores_like_a_load() {
    let mut c = scenario();
    let id = c.add_pattern("D1/A1/T1/extra".to_string(), None, Some("D1".to_string()), vec![3, 2, 1]).unwrap();
    assert_eq!(id, "D1_A1_T1_extra");
    assert_eq!(c.patterns().count(), 2);
    let again = c.add_pattern("D1/A1/T1/extra".to_string(), None, None, vec![1, 2, 3]).unwrap();
    assert_eq!(again, "D1_A1_T1_extra");
    assert_eq!(c.patterns().count(), 2);
    assert_eq!(c.patterns().get(1).vector, vec![1, 2, 3]);
    assert!(c.add_pattern("short".to_string(), None, None, vec![1]).is_err());
    assert_eq!(c.patterns().count(), 2);
    let r = c.classify(&vec![1, 2, 3], 0, 5).unwrap();
    assert_eq!(r.primary.unwrap().pattern_id, "D1_A1_T1_leaf");
    assert_eq!(r.alternatives.len(), 1);
    assert_eq!(r.alternatives[0].pattern_id, "D1/A1/T1/extra");
}
