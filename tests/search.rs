use familiar_pattern_classifier::similarity::{cosine_similarity, similarity_score, DimensionMismatch, SCORE_SCALE};
use familiar_pattern_classifier::table::{Attribute, FlatVectorTable};
use familiar_pattern_classifier::taxonomy::{Level, TaxonomyIndex, TaxonomyNode};
use familiar_pattern_classifier::text::{is_blank, same_text, starts_with, subtree_prefix};

#[test]
fn identical_vectors_score_one() {
    let a = vec![3i16, 4, 0];
    assert_eq!(similarity_score(&a, &a.clone()), SCORE_SCALE);
}

#[test]
fn orthogonal_vectors_score_zero() {
    assert_eq!(similarity_score(&vec![1i16, 0], &vec![0i16, 7]), 0);
}

#[test]
fn opposite_vectors_score_minus_one() {
    assert_eq!(similarity_score(&vec![2i16, -5], &vec![-2i16, 5]), -SCORE_SCALE);
}

#[test]
fn zero_vector_scores_zero() {
    assert_eq!(similarity_score(&vec![0i16, 0, 0], &vec![1i16, 2, 3]), 0);
}

#[test]
fn cosine_is_rounded_down_in_fixed_point() {
    // cos = 3 / (sqrt(2) * sqrt(9)) = 0.70710678...
    assert_eq!(similarity_score(&vec![1i16, 1], &vec![3i16, 0]), 707_106);
    assert_eq!(similarity_score(&vec![-1i16, -1], &vec![3i16, 0]), -707_106);
}

#[test]
fn extreme_coordinates_do_not_overflow() {
    let a = vec![i16::MIN; 4096];
    let b = vec![i16::MAX; 4096];
    assert_eq!(similarity_score(&a, &a.clone()), SCORE_SCALE);
    assert_eq!(similarity_score(&a, &b), -SCORE_SCALE);
}

#[test]
fn mismatched_lengths_are_a_fault() {
    assert_eq!(
        cosine_similarity(&vec![1i16, 2, 3], &vec![1i16, 2]),
        Err(DimensionMismatch { expected: 3, found: 2 })
    );
    assert_eq!(cosine_similarity(&vec![1i16, 2], &vec![2i16, 4]), Ok(SCORE_SCALE));
}

fn domain_table() -> FlatVectorTable {
    let mut t = FlatVectorTable::new(2);
    t.insert(Some("a".to_string()), vec![1, 0], vec![Attribute::new("domain", "X")]).unwrap();
    t.insert(Some("b".to_string()), vec![1, 1], vec![Attribute::new("domain", "Y")]).unwrap();
    t.insert(Some("c".to_string()), vec![0, 1], vec![]).unwrap();
    t.insert(Some("d".to_string()), vec![2, 0], vec![Attribute::new("domain", "X"), Attribute::new("kind", "k")]).unwrap();
    t
}

#[test]
fn search_ranks_by_score_then_position() {
    let t = domain_table();
    let hits = t.search(&vec![1, 0], 10, None, &vec![]).unwrap();
    let ids: Vec<&str> = hits.iter().map(|h| t.get(h.index).id.as_str()).collect();
    // a and d tie at one; a was stored first.
    assert_eq!(ids, vec!["a", "d", "b", "c"]);
    assert_eq!(hits[0].score, SCORE_SCALE);
    assert_eq!(hits[2].score, 707_106);
    assert_eq!(hits[3].score, 0);
}

#[test]
fn search_filter_keeps_exact_matches_only() {
    let t = domain_table();
    let hits = t.search(&vec![0, 1], 10, None, &vec![Attribute::new("domain", "X")]).unwrap();
    let ids: Vec<&str> = hits.iter().map(|h| t.get(h.index).id.as_str()).collect();
    assert_eq!(ids, vec!["a", "d"]);
    let none = t.search(&vec![0, 1], 10, None, &vec![Attribute::new("domain", "x")]).unwrap();
    assert!(none.is_empty());
    let both = t.search(&vec![0, 1], 10, None, &vec![Attribute::new("domain", "X"), Attribute::new("kind", "k")]).unwrap();
    assert_eq!(both.len(), 1);
    assert_eq!(t.get(both[0].index).id, "d");
}

#[test]
fn search_min_score_and_limit() {
    let t = domain_table();
    let hits = t.search(&vec![1, 0], 10, Some(700_000), &vec![]).unwrap();
    assert_eq!(hits.len(), 3);
    let top = t.search(&vec![1, 0], 1, None, &vec![]).unwrap();
    assert_eq!(top.len(), 1);
    assert_eq!(t.get(top[0].index).id, "a");
    let nothing = t.search(&vec![1, 0], 0, None, &vec![]).unwrap();
    assert!(nothing.is_empty());
}

#[test]
fn search_on_wrong_dimension_is_a_fault() {
    let t = domain_table();
    assert_eq!(t.search(&vec![1, 0, 0], 10, None, &vec![]), Err(DimensionMismatch { expected: 2, found: 3 }));
}

#[test]
fn insert_overwrites_by_id_and_rejects_wrong_dimension() {
    let mut t = domain_table();
    assert_eq!(t.count(), 4);
    assert_eq!(t.insert(Some("b".to_string()), vec![0, 5], vec![]), Ok("b".to_string()));
    assert_eq!(t.count(), 4);
    assert_eq!(t.get(1).vector, vec![0, 5]);
    assert_eq!(t.insert(Some("e".to_string()), vec![1], vec![]), Err(DimensionMismatch { expected: 2, found: 1 }));
    assert_eq!(t.count(), 4);
}

#[test]
fn generated_ids_are_fresh() {
    let mut t = FlatVectorTable::new(1);
    t.insert(Some("auto-0".to_string()), vec![1], vec![]).unwrap();
    let first = t.insert(None, vec![2], vec![]).unwrap();
    let second = t.insert(None, vec![3], vec![]).unwrap();
    assert_eq!(first, "auto-1");
    assert_eq!(second, "auto-2");
    assert_eq!(t.count(), 3);
    assert_eq!(t.insert(None, vec![1, 1], vec![]), Err(DimensionMismatch { expected: 1, found: 2 }));
}

#[test]
fn attribute_counts() {
    let t = domain_table();
    assert_eq!(t.count_with_attribute(&"domain".to_string(), &"X".to_string()), 2);
    assert_eq!(t.count_with_attribute(&"domain".to_string(), &"Y".to_string()), 1);
    assert_eq!(t.count_with_attribute(&"kind".to_string(), &"z".to_string()), 0);
}

#[test]
fn empty_table_searches_to_nothing() {
    let t = FlatVectorTable::new(3);
    assert!(t.search(&vec![1, 2, 3], 5, None, &vec![]).unwrap().is_empty());
}

fn node(id: &str, level: Level, parent: Option<&str>, v: Vec<i16>) -> TaxonomyNode {
    TaxonomyNode { id: id.to_string(), level, parent_id: parent.map(|p| p.to_string()), vector: v }
}

#[test]
fn level_query_filters_by_level_and_parent() {
    let mut index = TaxonomyIndex::new(2);
    let kept = index.replace_all(vec![
        node("D1", Level::Domain, None, vec![1, 0]),
        node("D2", Level::Domain, None, vec![0, 1]),
        node("A1", Level::Area, Some("D1"), vec![1, 1]),
        node("A2", Level::Area, Some("D2"), vec![1, 0]),
        node("orphan", Level::Area, Some("nowhere"), vec![1, 0]),
        node("short", Level::Area, Some("D1"), vec![1]),
    ]);
    assert_eq!(kept, 5);
    let domains = index.classify_at_level(&vec![1, 0], Level::Domain, None).unwrap();
    assert_eq!(domains.len(), 2);
    assert_eq!(index.get(domains[0].index).id, "D1");
    assert_eq!(domains[0].score, SCORE_SCALE);
    let d1 = "D1".to_string();
    let areas = index.classify_at_level(&vec![1, 0], Level::Area, Some(&d1)).unwrap();
    assert_eq!(areas.len(), 1);
    assert_eq!(index.get(areas[0].index).id, "A1");
    let all_areas = index.classify_at_level(&vec![1, 0], Level::Area, None).unwrap();
    assert_eq!(all_areas.len(), 3);
    assert!(index.classify_at_level(&vec![1, 0], Level::Topic, None).unwrap().is_empty());
}

#[test]
fn level_names() {
    assert_eq!(Level::from_name("domain"), Level::Domain);
    assert_eq!(Level::from_name("area"), Level::Area);
    assert_eq!(Level::from_name("topic"), Level::Topic);
    assert_eq!(Level::from_name("Domain"), Level::Unknown);
    assert_eq!(Level::from_name("unknown"), Level::Unknown);
}

#[test]
fn text_helpers() {
    assert!(is_blank(""));
    assert!(is_blank(" \t\n\u{3000}"));
    assert!(!is_blank("  a "));
    assert!(is_blank("\u{85}\u{a0}\u{2028}"));
    assert!(!is_blank("\u{200b}"));
    assert!(starts_with("D1_A1_T1_leaf", "D1_A1_T1"));
    assert!(!starts_with("D1_A1", "D1_A1_T1"));
    assert!(same_text("abc", "abc"));
    assert!(!same_text("abc", "abd"));
    let p = subtree_prefix(&"d/x".to_string(), &"a".to_string(), &"t".to_string());
    assert_eq!(p, "d_x_a_t");
}
