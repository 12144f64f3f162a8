//! Conditional-retrieval helpers: reading `If-None-Match` and
//! `If-Modified-Since` request values, producing `Last-Modified` response
//! values, and the decision rule the local backend applies to them.
//!
//! Timestamps are carried as Unix seconds; the RFC 2822 date syntax itself
//! is handled by an outside implementation behind trusted wrappers.

use vstd::prelude::*;

verus! {

/// The instant (Unix seconds) an RFC 2822 date string denotes, or `None`
/// when the string is not such a date. The result depends on the string
/// alone.
pub uninterp spec fn rfc2822_parse_of(s: Seq<char>) -> Option<int>;

/// Relies on `time::OffsetDateTime::parse` with the `Rfc2822` well-known
/// format, and on `unix_timestamp` to read the parsed instant: the result
/// depends on the input string alone.
#[verifier::external_body]
fn parse_rfc2822(value: &str) -> (r: Option<i64>)
    ensures
        r is Some <==> rfc2822_parse_of(value@) is Some,
        r matches Option::Some(t) ==> rfc2822_parse_of(value@) == Option::Some(t as int),
{
    match time::OffsetDateTime::parse(value, &time::format_description::well_known::Rfc2822) {
        Ok(t) => Option::Some(t.unix_timestamp()),
        Err(_) => Option::None,
    }
}

/// The RFC 2822 spelling of an instant (Unix seconds), or `None` when the
/// instant cannot be represented. The result depends on the instant alone.
pub uninterp spec fn rfc2822_format_of(t: int) -> Option<Seq<char>>;

/// Relies on `time::OffsetDateTime::from_unix_timestamp` and `format` with
/// the `Rfc2822` well-known format: the result depends on the instant alone.
#[verifier::external_body]
fn format_rfc2822(t: i64) -> (r: Option<String>)
    ensures
        r is Some <==> rfc2822_format_of(t as int) is Some,
        r matches Option::Some(s) ==> rfc2822_format_of(t as int) == Option::Some(s@),
{
    match time::OffsetDateTime::from_unix_timestamp(t) {
        Ok(dt) => dt.format(&time::format_description::well_known::Rfc2822).ok(),
        Err(_) => Option::None,
    }
}

/// The value of the `If-None-Match` header, passed through unchanged; this
/// layer never compares entity tags itself, it only forwards them.
pub fn get_if_none_match(value: Option<&str>) -> (r: Option<String>)
    ensures
        r is Some <==> value is Some,
        r matches Option::Some(s) ==> value matches Option::Some(v) && s@ == v@,
{
    match value {
        Option::Some(v) => Option::Some(v.to_owned()),
        Option::None => Option::None,
    }
}

/// The instant named by an `If-Modified-Since` header value; an absent or
/// unparsable value is no condition at all.
pub fn get_modified_since(value: Option<&str>) -> (r: Option<i64>)
    ensures
        value is None ==> r is None,
        value matches Option::Some(v) ==> {
            &&& r is Some <==> rfc2822_parse_of(v@) is Some
            &&& (r matches Option::Some(t) ==> rfc2822_parse_of(v@) == Option::Some(t as int))
        },
{
    match value {
        Option::Some(v) => parse_rfc2822(v),
        Option::None => Option::None,
    }
}

/// The `Last-Modified` value for a resource instant; a formatting failure
/// yields no header, never an error.
pub fn to_modified(last_modified: i64) -> (r: Option<String>)
    ensures
        r is Some <==> rfc2822_format_of(last_modified as int) is Some,
        r matches Option::Some(s) ==> rfc2822_format_of(last_modified as int) == Option::Some(
            s@,
        ),
{
    format_rfc2822(last_modified)
}

/// The conditional-retrieval decision: full content is owed exactly when
/// there is no condition, or the resource is strictly newer than the
/// conditional instant.
pub fn should_send_full(mtime: i64, modified_since: Option<i64>) -> (r: bool)
    ensures
        r == (match modified_since {
            Option::Some(t) => mtime > t,
            Option::None => true,
        }),
{
    match modified_since {
        Option::Some(t) => mtime > t,
        Option::None => true,
    }
}

} // verus!
