//! What one round of the exporter makes of what it fetched.

use vstd::prelude::*;
use crate::parser::{parse_quota_output, parsed, ParseError, Quota};
use crate::ssh::FetchError;

verus! {

/// What one round found.
#[derive(Debug, Clone, PartialEq, Eq)]
pub enum Observation {
    /// The report was fetched and decoded; this is its first record, the one
    /// whose figures are published.
    Healthy(Quota),
    /// The report was fetched and decoded and holds no record.
    NoRecords,
    /// The report was fetched and could not be decoded.
    ParseFailed(ParseError),
    /// The report could not be fetched.
    FetchFailed(FetchError),
}

impl Observation {
    /// Whether the round counts as up: only where it has figures to publish.
    pub fn is_up(&self) -> (r: bool)
        ensures
            r == (*self is Healthy),
    {
        match self {
            Observation::Healthy(_) => true,
            _ => false,
        }
    }
}

/// What a round makes of a decoded report: its first record, if it has one.
pub fn first_record(records: Vec<Quota>) -> (r: Observation)
    ensures
        records.len() == 0 ==> r == Observation::NoRecords,
        records.len() > 0 ==> r == Observation::Healthy(records[0]),
{
    let mut records = records;
    if records.len() == 0 {
        Observation::NoRecords
    } else {
        Observation::Healthy(records.remove(0))
    }
}

/// What a round makes of the outcome of its fetch.
pub fn observe(fetched: Result<String, FetchError>) -> (r: Observation)
    ensures
        match fetched {
            Err(e) => r == Observation::FetchFailed(e),
            Ok(text) => match parsed(text@) {
                Err(e) => r == Observation::ParseFailed(e),
                Ok(records) => if records.len() == 0 {
                    r == Observation::NoRecords
                } else {
                    r is Healthy && r->Healthy_0@ == records[0]
                },
            },
        },
{
    match fetched {
        Err(e) => Observation::FetchFailed(e),
        Ok(text) => match parse_quota_output(text.as_str()) {
            Err(e) => Observation::ParseFailed(e),
            Ok(records) => first_record(records),
        },
    }
}

} // verus!
