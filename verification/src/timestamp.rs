//! Commit timestamps as text.

use vstd::prelude::*;

verus! {

/// The RFC 3339 text of the instant that lies `nanos` nanoseconds after the Unix
/// epoch, taken in UTC, or `None` where that instant has no such text.
pub uninterp spec fn rfc3339_of_unix_nanos(nanos: int) -> Option<Seq<char>>;

/// What is shown for a commit whose timestamp has the text `formatted`, or none.
pub open spec fn timestamp_label(formatted: Option<Seq<char>>) -> Seq<char> {
    match formatted {
        Some(text) => text,
        None => "unknown time"@,
    }
}

/// What is shown for a commit made `timestamp` milliseconds after the Unix epoch.
pub open spec fn timestamp_text(timestamp: i64) -> Seq<char> {
    timestamp_label(rfc3339_of_unix_nanos(timestamp as int * 1_000_000))
}

/// Calls `time::OffsetDateTime::from_unix_timestamp_nanos` and formats what it
/// gives with `time::format_description::well_known::Rfc3339`. Both are pure, so
/// the outcome is named by `rfc3339_of_unix_nanos`; an error of either call is
/// `None`. Nothing is claimed about which instants have a text.
#[verifier::external_body]
fn rfc3339_from_unix_nanos(nanos: i128) -> (text: Option<String>)
    ensures
        match text {
            Some(t) => rfc3339_of_unix_nanos(nanos as int) == Some(t@),
            None => rfc3339_of_unix_nanos(nanos as int) is None,
        },
{
    let instant = time::OffsetDateTime::from_unix_timestamp_nanos(nanos).ok()?;
    instant.format(&time::format_description::well_known::Rfc3339).ok()
}

/// Picks the text to show once the formatting has been tried.
pub fn label_for_timestamp(formatted: Option<String>) -> (label: String)
    ensures
        label@ == timestamp_label(
            match formatted {
                Some(t) => Some(t@),
                None => None,
            },
        ),
{
    match formatted {
        Some(text) => text,
        None => "unknown time".to_string(),
    }
}

/// Formats a commit timestamp, given in milliseconds since the Unix epoch, as
/// RFC 3339 text; a timestamp that cannot be formatted reads `unknown time`.
pub fn format_timestamp(timestamp: i64) -> (text: String)
    ensures
        text@ == timestamp_text(timestamp),
{
    let millis: i128 = timestamp as i128;
    let nanos: i128 = millis * 1_000_000;
    label_for_timestamp(rfc3339_from_unix_nanos(nanos))
}

} // verus!
