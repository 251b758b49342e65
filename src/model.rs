use vstd::prelude::*;

use crate::cascade::PatternMatch;
use crate::clock::{now, now_rfc3339, parse_rfc3339, random_uuid, rfc3339_instant, Instant};
use crate::table::Attribute;

verus! {

/// A facet that a pattern may carry.
#[derive(Clone, Copy, Debug, PartialEq, Eq, Structural)]
pub enum PatternMixin {
    Time,
    Emotion,
    ThreadLink,
    Location,
    Person,
    Activity,
    Health,
    Development,
}

impl Default for PatternMixin {
    fn default() -> (r: PatternMixin)
        ensures
            r == PatternMixin::Time,
    {
        PatternMixin::Time
    }
}

/// How long a unit of text counts as recent, in nanoseconds: thirty minutes.
pub const RECENT_WINDOW_NANOS: i128 = 1_800_000_000_000;

/// Whether an instant lies less than the recent window before `now` (or after it).
pub open spec fn recent(then: (int, int), now_seconds: int, now_nanos: int) -> bool {
    (now_seconds - then.0) * 1_000_000_000 + (now_nanos - then.1) < RECENT_WINDOW_NANOS
}

/// A random (version 4, RFC 4122 variant) UUID, as an integer.
pub open spec fn is_v4_uuid(id: u128) -> bool {
    (id >> 76u128) & 0xf == 4 && (id >> 62u128) & 0x3 == 2
}

/// A timestamp parses and lies less than thirty minutes before the given instant.
pub open spec fn timestamp_recent(timestamp: Option<String>, now_seconds: int, now_nanos: int) -> bool {
    match timestamp {
        Some(t) => match rfc3339_instant(t@) {
            Some(then) => recent(then, now_seconds, now_nanos),
            None => false,
        },
        None => false,
    }
}

/// A unit of text to classify.
pub struct WeaveUnit {
    pub id: Option<u128>,
    pub text: String,
    pub metadata: Vec<Attribute>,
    pub timestamp: Option<String>,
}

impl WeaveUnit {
    /// A unit with a fresh random id and the time now as its timestamp.
    pub fn new(text: String) -> (r: WeaveUnit)
        ensures
            r.text@ == text@,
            r.id is Some && is_v4_uuid(r.id->0),
            r.metadata@.len() == 0,
            r.timestamp is Some,
    {
        WeaveUnit { id: Some(random_uuid()), text, metadata: Vec::new(), timestamp: Some(now_rfc3339()) }
    }

    /// Whether the timestamp parses and lies less than thirty minutes before `now`.
    pub fn is_recent_at(&self, now: &Instant) -> (r: bool)
        requires
            now.nanos < 2_000_000_000,
        ensures
            r == timestamp_recent(self.timestamp, now.seconds as int, now.nanos as int),
    {
        match &self.timestamp {
            Some(t) => match parse_rfc3339(t.as_str()) {
                Some(then) => {
                    let seconds = (now.seconds as i128) - (then.seconds as i128);
                    let nanos = (now.nanos as i128) - (then.nanos as i128);
                    proof {
                        assert(-0x1_0000_0000_0000_0000 <= seconds <= 0x1_0000_0000_0000_0000);
                        assert(seconds * 1_000_000_000 <= 0x1_0000_0000_0000_0000 * 1_000_000_000) by (
                        nonlinear_arith)
                            requires
                                seconds <= 0x1_0000_0000_0000_0000,
                        ;
                        assert(seconds * 1_000_000_000 >= -0x1_0000_0000_0000_0000 * 1_000_000_000) by (
                        nonlinear_arith)
                            requires
                                seconds >= -0x1_0000_0000_0000_0000,
                        ;
                    }
                    seconds * 1_000_000_000 + nanos < RECENT_WINDOW_NANOS
                },
                None => false,
            },
            None => false,
        }
    }

    /// Whether the timestamp lies less than thirty minutes before the time now.
    pub fn is_recent(&self) -> (r: bool)
        ensures
            exists|seconds: int, nanos: int|
                0 <= nanos < 2_000_000_000 && r == #[trigger] timestamp_recent(self.timestamp, seconds, nanos),
    {
        let t = now();
        let r = self.is_recent_at(&t);
        assert(0 <= t.nanos < 2_000_000_000 && r == timestamp_recent(self.timestamp, t.seconds as int, t.nanos as int));
        r
    }

    /// The length of the text in bytes.
    pub fn text_length(&self) -> (r: usize)
        ensures
            r == vstd::utf8::encode_utf8(self.text@).len() as usize,
    {
        self.text.as_str().len()
    }
}

/// A pattern definition.
pub struct PatternSchema {
    pub id: String,
    pub description: String,
    pub mixins: Vec<PatternMixin>,
    pub sample_texts: Vec<String>,
    pub domain: Option<String>,
    pub category: Option<String>,
    pub metadata: Vec<Attribute>,
}

/// The default number of candidates a request asks for.
pub fn default_max_alternatives() -> (r: i32)
    ensures
        r == 3,
{
    3
}

/// The default leaf threshold, in score units: one half.
pub fn default_confidence_threshold() -> (r: i64)
    ensures
        r == 500_000,
{
    500_000
}

pub fn default_status() -> (r: String)
    ensures
        r@ == "success"@,
{
    "success".to_owned()
}

pub fn default_model_name() -> (r: String)
    ensures
        r@ == "all-MiniLM-L6-v2"@,
{
    "all-MiniLM-L6-v2".to_owned()
}

pub fn default_qdrant_host() -> (r: String)
    ensures
        r@ == "localhost"@,
{
    "localhost".to_owned()
}

pub fn default_qdrant_port() -> (r: i32)
    ensures
        r == 6333,
{
    6333
}

pub fn default_collection_name() -> (r: String)
    ensures
        r@ == "pattern_index"@,
{
    "pattern_index".to_owned()
}

pub fn default_vector_size() -> (r: i32)
    ensures
        r == 384,
{
    384
}

pub fn default_patterns_dir() -> (r: String)
    ensures
        r@ == "cold_path/patterns"@,
{
    "cold_path/patterns".to_owned()
}

pub fn default_batch_size() -> (r: i32)
    ensures
        r == 100,
{
    100
}

/// A classification request.
pub struct ClassificationRequest {
    pub weave_unit: WeaveUnit,
    pub max_alternatives: i32,
    /// In score units.
    pub confidence_threshold: i64,
    pub filter_by_domain: Option<String>,
}

impl ClassificationRequest {
    /// A request with the default candidate count and threshold.
    pub fn new(text: String) -> (r: ClassificationRequest)
        ensures
            r.weave_unit.text@ == text@,
            r.max_alternatives == 3,
            r.confidence_threshold == 500_000,
            r.filter_by_domain is None,
    {
        ClassificationRequest {
            weave_unit: WeaveUnit::new(text),
            max_alternatives: default_max_alternatives(),
            confidence_threshold: default_confidence_threshold(),
            filter_by_domain: None,
        }
    }

    /// A request with the defaults and a domain filter.
    pub fn with_domain(text: String, domain: String) -> (r: ClassificationRequest)
        ensures
            r.weave_unit.text@ == text@,
            r.max_alternatives == 3,
            r.confidence_threshold == 500_000,
            r.filter_by_domain is Some && r.filter_by_domain->0@ == domain@,
    {
        ClassificationRequest {
            weave_unit: WeaveUnit::new(text),
            max_alternatives: default_max_alternatives(),
            confidence_threshold: default_confidence_threshold(),
            filter_by_domain: Some(domain),
        }
    }

    /// The number of leaf candidates the request asks for; a negative count asks for none.
    pub fn candidate_limit(&self) -> (r: usize)
        ensures
            r == (if self.max_alternatives < 0 {
                0
            } else {
                self.max_alternatives as int
            }),
    {
        if self.max_alternatives < 0 {
            0
        } else {
            self.max_alternatives as usize
        }
    }
}

/// The outcome of a classification request.
pub struct ClassificationResponse {
    pub request_id: Option<u128>,
    pub match_result: Option<PatternMatch>,
    pub alternatives: Vec<PatternMatch>,
    pub processing_time_ms: u64,
    pub status: String,
    pub error_message: Option<String>,
}

impl ClassificationResponse {
    /// A successful response under a fresh request id.
    pub fn success(
        pattern_match: Option<PatternMatch>,
        alternatives: Vec<PatternMatch>,
        processing_time_ms: u64,
    ) -> (r: ClassificationResponse)
        ensures
            r.request_id is Some && is_v4_uuid(r.request_id->0),
            r.match_result == pattern_match,
            r.alternatives == alternatives,
            r.processing_time_ms == processing_time_ms,
            r.status@ == "success"@,
            r.error_message is None,
    {
        ClassificationResponse {
            request_id: Some(random_uuid()),
            match_result: pattern_match,
            alternatives,
            processing_time_ms,
            status: default_status(),
            error_message: None,
        }
    }

    /// An error response under a fresh request id.
    pub fn error(error_message: String, processing_time_ms: u64) -> (r: ClassificationResponse)
        ensures
            r.request_id is Some && is_v4_uuid(r.request_id->0),
            r.match_result is None,
            r.alternatives@.len() == 0,
            r.processing_time_ms == processing_time_ms,
            r.status@ == "error"@,
            r.error_message is Some && r.error_message->0@ == error_message@,
    {
        ClassificationResponse {
            request_id: Some(random_uuid()),
            match_result: None,
            alternatives: Vec::new(),
            processing_time_ms,
            status: "error".to_owned(),
            error_message: Some(error_message),
        }
    }

    /// Whether the status is `success`.
    pub fn is_success(&self) -> (r: bool)
        ensures
            r == (self.status@ == "success"@),
    {
        crate::text::same_text(self.status.as_str(), "success")
    }
}

/// Settings of an index build.
pub struct IndexBuildConfig {
    pub model_name: String,
    pub qdrant_host: String,
    pub qdrant_port: i32,
    pub collection_name: String,
    pub vector_size: i32,
    pub patterns_dir: String,
    pub batch_size: i32,
    pub overwrite_collection: bool,
}

impl Default for IndexBuildConfig {
    fn default() -> (r: IndexBuildConfig)
        ensures
            r.model_name@ == "all-MiniLM-L6-v2"@,
            r.qdrant_host@ == "localhost"@,
            r.qdrant_port == 6333,
            r.collection_name@ == "pattern_index"@,
            r.vector_size == 384,
            r.patterns_dir@ == "cold_path/patterns"@,
            r.batch_size == 100,
            !r.overwrite_collection,
    {
        IndexBuildConfig {
            model_name: default_model_name(),
            qdrant_host: default_qdrant_host(),
            qdrant_port: default_qdrant_port(),
            collection_name: default_collection_name(),
            vector_size: default_vector_size(),
            patterns_dir: default_patterns_dir(),
            batch_size: default_batch_size(),
            overwrite_collection: false,
        }
    }
}

} // verus!
