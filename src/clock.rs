use vstd::prelude::*;

verus! {

/// A point in time: whole seconds since the Unix epoch, and nanoseconds past them
/// (a leap second runs the nanoseconds past one billion).
pub struct Instant {
    pub seconds: i64,
    pub nanos: u32,
}

/// The instant that an RFC 3339 text denotes, if it parses.
pub uninterp spec fn rfc3339_instant(s: Seq<char>) -> Option<(int, int)>;

/// Relies on `chrono::DateTime::parse_from_rfc3339`, read through `timestamp` and
/// `timestamp_subsec_nanos`: the result depends on the text alone, and the
/// nanoseconds stay below two billion.
#[verifier::external_body]
pub(crate) fn parse_rfc3339(s: &str) -> (r: Option<Instant>)
    ensures
        match r {
            Some(t) => rfc3339_instant(s@) == Some((t.seconds as int, t.nanos as int)) && t.nanos
                < 2_000_000_000,
            None => rfc3339_instant(s@) is None,
        },
{
    match chrono::DateTime::parse_from_rfc3339(s) {
        Ok(t) => Some(Instant { seconds: t.timestamp(), nanos: t.timestamp_subsec_nanos() }),
        Err(_) => None,
    }
}

/// Relies on chrono's `From<SystemTime> for DateTime<Utc>`, read through
/// `timestamp` and `timestamp_subsec_nanos`: the nanoseconds stay below two
/// billion. A system clock before 1970 gives negative seconds.
#[verifier::external_body]
pub(crate) fn now() -> (r: Instant)
    ensures
        r.nanos < 2_000_000_000,
{
    let t = chrono::DateTime::<chrono::Utc>::from(std::time::SystemTime::now());
    Instant { seconds: t.timestamp(), nanos: t.timestamp_subsec_nanos() }
}

/// Relies on chrono's `From<SystemTime> for DateTime<Utc>` and
/// `DateTime::to_rfc3339`: the time now as RFC 3339 text. A system clock before
/// 1970 gives a date before 1970.
#[verifier::external_body]
pub(crate) fn now_rfc3339() -> (r: String) {
    chrono::DateTime::<chrono::Utc>::from(std::time::SystemTime::now()).to_rfc3339()
}

/// Relies on `uuid::Uuid::new_v4`, read as an integer by `as_u128`: random bits,
/// with the version nibble set to four and the variant bits to `10`.
#[verifier::external_body]
pub(crate) fn random_uuid() -> (r: u128)
    ensures
        (r >> 76u128) & 0xf == 4,
        (r >> 62u128) & 0x3 == 2,
{
    uuid::Uuid::new_v4().as_u128()
}

} // verus!
