use vstd::prelude::*;

verus! {

/// Relies on `std::time::SystemTime::now`, `SystemTime::duration_since`
/// and chrono's `DateTime::<Utc>::from_timestamp` and `timestamp_millis`: the
/// current time as milliseconds since the Unix epoch; `None` when the clock
/// reads before the epoch or beyond the dates chrono represents. Nothing is
/// promised of the value.
#[verifier::external_body]
pub fn now() -> (r: Option<i64>) {
    let since = std::time::SystemTime::now().duration_since(std::time::UNIX_EPOCH).ok()?;
    let secs = i64::try_from(since.as_secs()).ok()?;
    chrono::DateTime::<chrono::Utc>::from_timestamp(secs, since.subsec_nanos()).map(|t| t.timestamp_millis())
}

/// What `String::from_utf8_lossy` makes of a byte string.
pub uninterp spec fn lossy_text(b: Seq<u8>) -> Seq<char>;

/// Relies on `String::from_utf8_lossy`: the bytes decoded as UTF-8, each
/// invalid sequence replaced by U+FFFD; the result depends on the bytes
/// alone.
#[verifier::external_body]
fn decode_lossy(bytes: &[u8]) -> (r: String)
    ensures
        r@ == lossy_text(bytes@),
{
    String::from_utf8_lossy(bytes).to_string()
}

/// Process output as text, invalid UTF-8 replaced.
pub fn bytes_to_string(bytes: &[u8]) -> (r: String)
    ensures
        r@ == lossy_text(bytes@),
{
    decode_lossy(bytes)
}

} // verus!
