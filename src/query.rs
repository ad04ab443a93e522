//! The text of the queries sent to the time-series store: templates whose
//! placeholders are replaced by plain textual substitution.
use crate::clock::{in_clock_range, rfc3339_text, to_rfc3339};
use chrono_tz::Tz;
use vstd::prelude::*;

verus! {

pub const BUCKET_PLACEHOLDER: &'static str = "__bucketplaceholder__";

pub const MEASUREMENT_PLACEHOLDER: &'static str = "__measurementplaceholder__";

pub const ID_PLACEHOLDER: &'static str = "__idplaceholder__";

pub const TARGET_CYCLE_TIME_PLACEHOLDER: &'static str = "__targetcycletimeplaceholder__";

pub const START_PLACEHOLDER: &'static str = "__startplaceholder__";

/// `s` with every occurrence of `from` replaced by `to`.
pub uninterp spec fn replaced(s: Seq<char>, from: Seq<char>, to: Seq<char>) -> Seq<char>;

/// Relies on `str::replace`: every occurrence of `from` in `s` replaced by
/// `to`.
#[verifier::external_body]
fn replace(s: &str, from: &str, to: &str) -> (r: String)
    ensures
        r@ == replaced(s@, from@, to@),
{
    s.replace(from, to)
}

/// The body of a query: `query` with the bucket and measurement filled in.
pub fn query_body(query: &str, bucket: &str, measurement: &str) -> (r: String)
    ensures
        r@ == replaced(
            replaced(query@, BUCKET_PLACEHOLDER@, bucket@),
            MEASUREMENT_PLACEHOLDER@,
            measurement@,
        ),
{
    let with_bucket = replace(query, BUCKET_PLACEHOLDER, bucket);
    replace(with_bucket.as_str(), MEASUREMENT_PLACEHOLDER, measurement)
}

/// The timeline query for one partner: `template` with the partner's id and
/// target cycle time (as decimal text) filled in.
pub fn timeline_query(template: &str, id: &str, target_cycle_time: &str) -> (r: String)
    ensures
        r@ == replaced(
            replaced(template@, ID_PLACEHOLDER@, id@),
            TARGET_CYCLE_TIME_PLACEHOLDER@,
            target_cycle_time@,
        ),
{
    let with_id = replace(template, ID_PLACEHOLDER, id);
    replace(with_id.as_str(), TARGET_CYCLE_TIME_PLACEHOLDER, target_cycle_time)
}

/// The performance query for one partner: `template` with the partner's id
/// and the start of the current shift, an instant shown as RFC 3339 text in
/// `zone`, filled in.
pub fn performance_query(template: &str, id: &str, zone: &Tz, shift_start: i64) -> (r: String)
    requires
        in_clock_range(shift_start as int),
    ensures
        r@ == replaced(
            replaced(template@, ID_PLACEHOLDER@, id@),
            START_PLACEHOLDER@,
            rfc3339_text(*zone, shift_start as int),
        ),
{
    let with_id = replace(template, ID_PLACEHOLDER, id);
    let start = to_rfc3339(zone, shift_start);
    replace(with_id.as_str(), START_PLACEHOLDER, start.as_str())
}

} // verus!
