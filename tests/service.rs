use familiar_pattern_classifier::clock::Instant;
use familiar_pattern_classifier::model::{
    default_batch_size, default_collection_name, default_confidence_threshold, default_max_alternatives,
    default_model_name, default_patterns_dir, default_qdrant_host, default_qdrant_port, default_status,
    default_vector_size, ClassificationRequest, ClassificationResponse, IndexBuildConfig, PatternMixin, WeaveUnit,
};
use familiar_pattern_classifier::service::{validate_text, RequestError};
use familiar_pattern_classifier::{Config, PatternMatch, StatsTracker};

#[test]
fn defaults() {
    assert_eq!(default_max_alternatives(), 3);
    assert_eq!(default_confidence_threshold(), 500_000);
    assert_eq!(default_status(), "success");
    assert_eq!(default_model_name(), "all-MiniLM-L6-v2");
    assert_eq!(default_qdrant_host(), "localhost");
    assert_eq!(default_qdrant_port(), 6333);
    assert_eq!(default_collection_name(), "pattern_index");
    assert_eq!(default_vector_size(), 384);
    assert_eq!(default_patterns_dir(), "cold_path/patterns");
    assert_eq!(default_batch_size(), 100);
    assert_eq!(PatternMixin::default(), PatternMixin::Time);
    let c = IndexBuildConfig::default();
    assert_eq!(c.qdrant_port, 6333);
    assert!(!c.overwrite_collection);
    let cfg = Config::default();
    assert_eq!(cfg.port, 3000);
    assert_eq!(cfg.confidence_threshold, 500_000);
    assert_eq!(cfg.collection_name, "pattern_index");
}

#[test]
fn blank_text_is_refused() {
    assert_eq!(validate_text(""), Err(RequestError::EmptyText));
    assert_eq!(validate_text("  \n\t "), Err(RequestError::EmptyText));
    assert_eq!(validate_text(" hello "), Ok(()));
}

#[test]
fn pattern_match_helpers() {
    let m = PatternMatch::new("health/sleep/rem".to_string(), 700_000);
    assert!(m.is_confident(700_000));
    assert!(!m.is_confident(700_001));
    assert_eq!(m.get_domain(), Some("health".to_string()));
    assert_eq!(PatternMatch::new("flat".to_string(), 0).get_domain(), Some("flat".to_string()));
    assert_eq!(PatternMatch::new("".to_string(), 0).get_domain(), Some("".to_string()));
}

#[test]
fn responses() {
    let ok = ClassificationResponse::success(None, vec![], 12);
    assert!(ok.is_success());
    assert_eq!(ok.processing_time_ms, 12);
    let id = ok.request_id.unwrap();
    assert_eq!((id >> 76) & 0xf, 4);
    assert_eq!((id >> 62) & 0x3, 2);
    let err = ClassificationResponse::error("boom".to_string(), 3);
    assert!(!err.is_success());
    assert_eq!(err.status, "error");
    assert_eq!(err.error_message, Some("boom".to_string()));
    assert_ne!(err.request_id, ok.request_id);
}

#[test]
fn requests() {
    let r = ClassificationRequest::new("some text".to_string());
    assert_eq!(r.max_alternatives, 3);
    assert_eq!(r.candidate_limit(), 3);
    assert!(r.filter_by_domain.is_none());
    let mut d = ClassificationRequest::with_domain("t".to_string(), "health".to_string());
    assert_eq!(d.filter_by_domain, Some("health".to_string()));
    d.max_alternatives = -1;
    assert_eq!(d.candidate_limit(), 0);
}

#[test]
fn weave_unit_recency() {
    let fresh = WeaveUnit::new("héllo".to_string());
    assert_eq!(fresh.text_length(), 6);
    assert!(fresh.id.is_some());
    assert!(fresh.is_recent());
    let mut old = WeaveUnit::new("x".to_string());
    old.timestamp = Some("2024-01-01T00:00:00Z".to_string());
    // 2024-01-01T00:00:00Z is 1_704_067_200 seconds after the epoch.
    let at = |s: i64, n: u32| Instant { seconds: s, nanos: n };
    assert!(old.is_recent_at(&at(1_704_067_200 + 1_799, 999_999_999)));
    assert!(!old.is_recent_at(&at(1_704_067_200 + 1_800, 0)));
    assert!(old.is_recent_at(&at(1_704_067_200 - 100, 0)));
    assert!(!old.is_recent());
    old.timestamp = Some("yesterday".to_string());
    assert!(!old.is_recent());
    old.timestamp = None;
    assert!(!old.is_recent());
}

#[test]
fn stats_counters() {
    let mut s = StatsTracker::new();
    assert_eq!(s.requests_processed(), 0);
    s.log_request(40);
    s.log_request(2);
    s.log_error();
    assert_eq!(s.requests_processed(), 2);
    assert_eq!(s.total_processing_time_ms(), 42);
    assert_eq!(s.errors(), 1);
    s.log_request(u64::MAX);
    assert_eq!(s.total_processing_time_ms(), u64::MAX);
}
