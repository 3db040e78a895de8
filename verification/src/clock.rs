use vstd::prelude::*;

verus! {

/// The time that a text in the format of RFC 3339 names, in microseconds
/// since the epoch; `None` where the text is not in that format. This
/// names what `chrono::DateTime::parse_from_rfc3339` returns, read with
/// `chrono::DateTime::timestamp_micros`.
pub uninterp spec fn rfc3339_micros(text: Seq<char>) -> Option<i64>;

/// Reads the clock with `std::time::SystemTime::now` and gives the time
/// since the epoch in microseconds, 0 for a clock set before it. Nothing
/// is claimed of the value.
#[verifier::external_body]
pub(crate) fn now_micros() -> u64 {
    let now = std::time::SystemTime::now();
    now.duration_since(std::time::UNIX_EPOCH).unwrap_or_default().as_micros() as u64
}

/// Reads the clock with `std::time::SystemTime::now`, turns the time
/// into a `chrono::DateTime<Utc>` and writes it with
/// `chrono::DateTime::to_rfc3339`. Nothing is claimed of the text.
#[verifier::external_body]
pub(crate) fn now_rfc3339() -> String {
    chrono::DateTime::<chrono::Utc>::from(std::time::SystemTime::now()).to_rfc3339()
}

/// Draws a random identifier with `uuid::Uuid::new_v4` and writes it as
/// text. Nothing is claimed of the text.
#[verifier::external_body]
pub(crate) fn fresh_id() -> String {
    uuid::Uuid::new_v4().to_string()
}

/// Calls `chrono::DateTime::parse_from_rfc3339` and reads the time with
/// `chrono::DateTime::timestamp_micros`. The contract gives the result
/// its name.
#[verifier::external_body]
pub(crate) fn parse_rfc3339(text: &str) -> (r: Option<i64>)
    ensures
        r == rfc3339_micros(text@),
{
    match chrono::DateTime::parse_from_rfc3339(text) {
        Ok(time) => Some(time.timestamp_micros()),
        Err(_) => None,
    }
}

} // verus!
