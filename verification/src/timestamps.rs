//! Message timestamps: Discord sends ISO 8601 / RFC 3339 text such as
//! `2026-08-30T12:34:56.789000+00:00`, parsed with the `time` crate.
//!
//! A parsed instant is kept as plain numbers: nanoseconds since the Unix
//! epoch and the UTC offset it was written with, in seconds.
use vstd::prelude::*;
use time::OffsetDateTime;
use crate::model::Message;
use crate::text::{chars_of, string_of, trim, trim_chars};

verus! {

/// An instant read from a timestamp text.
#[derive(Debug, Clone, Copy, PartialEq, Eq)]
pub struct Timestamp {
    /// Nanoseconds since 1970-01-01T00:00:00Z.
    pub unix_nanos: i128,
    /// The UTC offset of the text, in seconds east of UTC.
    pub offset_secs: i32,
}

/// What `OffsetDateTime::parse(s, &Rfc3339)` reads from a text: the
/// instant in nanoseconds since the Unix epoch and the offset in seconds,
/// or `None` when the text is not RFC 3339.
pub uninterp spec fn rfc3339_fields(s: Seq<char>) -> Option<(int, int)>;

/// `OffsetDateTime::parse(s, &Rfc3339)`, read out as
/// `unix_timestamp_nanos()` and `offset().whole_seconds()`. Claimed: the
/// result is `rfc3339_fields` of the text.
#[verifier::external_body]
fn parse_rfc3339(s: &str) -> (r: Option<(i128, i32)>)
    ensures
        r is None <==> rfc3339_fields(s@) is None,
        r matches Some((n, o)) ==> rfc3339_fields(s@) == Some((n as int, o as int)),
{
    match OffsetDateTime::parse(s, &time::format_description::well_known::Rfc3339) {
        Ok(d) => Some((d.unix_timestamp_nanos(), d.offset().whole_seconds())),
        Err(_) => None,
    }
}

/// The instant of an ISO timestamp: the trimmed text, when non-empty and
/// RFC 3339.
pub open spec fn iso_spec(s: Seq<char>) -> Option<(int, int)> {
    if trim(s).len() > 0 { rfc3339_fields(trim(s)) } else { None }
}

pub open spec fn ts_fields(t: Timestamp) -> (int, int) {
    (t.unix_nanos as int, t.offset_secs as int)
}

pub fn parse_iso(s: &str) -> (r: Option<Timestamp>)
    ensures
        r is None <==> iso_spec(s@) is None,
        r matches Some(t) ==> iso_spec(s@) == Some(ts_fields(t)),
{
    let cs = chars_of(s);
    let t = trim_chars(cs.as_slice());
    if t.len() == 0 {
        return None;
    }
    let ts = string_of(t.as_slice());
    match parse_rfc3339(ts.as_str()) {
        Some((n, o)) => Some(Timestamp { unix_nanos: n, offset_secs: o }),
        None => None,
    }
}

impl Message {
    /// When the message was sent.
    pub fn timestamp_dt(&self) -> (r: Option<Timestamp>)
        ensures
            r is None <==> !(self.timestamp matches Some(s) && iso_spec(s@) is Some),
            r matches Some(t) ==> (self.timestamp matches Some(s) && iso_spec(s@) == Some(ts_fields(t))),
    {
        match &self.timestamp {
            Some(s) => parse_iso(s.as_str()),
            None => None,
        }
    }

    /// The edit time; an empty edit timestamp means "never edited".
    pub fn edited_dt(&self) -> (r: Option<Timestamp>)
        ensures
            r is None <==> !(self.edited_timestamp matches Some(s) && s@.len() > 0 && iso_spec(s@) is Some),
            r matches Some(t) ==> (self.edited_timestamp matches Some(s) && iso_spec(s@) == Some(ts_fields(t))),
    {
        match &self.edited_timestamp {
            Some(s) => {
                if s.as_str().is_empty() {
                    return None;
                }
                parse_iso(s.as_str())
            }
            None => None,
        }
    }
}

} // verus!
