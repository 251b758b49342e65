use vstd::prelude::*;

verus! {

/// Service settings.
pub struct Config {
    pub collection_name: String,
    /// The leaf threshold, in score units.
    pub confidence_threshold: i64,
    pub max_alternatives: i32,
    pub port: u16,
}

impl Default for Config {
    fn default() -> (r: Config)
        ensures
            r.collection_name@ == "pattern_index"@,
            r.confidence_threshold == 500_000,
            r.max_alternatives == 3,
            r.port == 3000,
    {
        Config {
            collection_name: "pattern_index".to_owned(),
            confidence_threshold: 500_000,
            max_alternatives: 3,
            port: 3000,
        }
    }
}

} // verus!
