//! Classifying raw lines: a line either matches the fixed log-line grammar
//! and becomes a parsed record, or it becomes a malformed marker. The
//! matching itself and the timestamp arithmetic are done by outside crates
//! behind the two trusted wrappers below; everything around them is
//! verified.

use vstd::prelude::*;
use crate::types::{Level, LineMessage, StatErrRecord, StatErrType, StatOKRecord, StatRecord};

verus! {

/// What matching the log-line grammar returns: the datetime, level and
/// message captures when the line matches, nothing otherwise. The result is
/// a function of the line alone.
pub uninterp spec fn line_captures(line: Seq<char>) -> Option<(Seq<char>, Seq<char>, Seq<char>)>;

/// What parsing an RFC 3339 UTC timestamp returns: its epoch milliseconds,
/// or nothing for an impossible date. The result is a function of the text
/// alone.
pub uninterp spec fn utc_millis_of(s: Seq<char>) -> Option<i64>;

/// Relies on regex's `Regex::new` and `Regex::captures` for the fixed
/// log-line pattern: a match yields the `dt`, `level` and `msg` groups, and
/// the `level` alternation admits only the three level words. The pattern
/// is compiled on each call so that this one function is the whole trusted
/// surface.
#[verifier::external_body]
fn match_line(line: &str) -> (r: Option<(String, String, String)>)
    ensures
        r is Some <==> line_captures(line@) is Some,
        r is Some ==> {
            let (dt, lv, msg) = r.unwrap();
            let (sdt, slv, smsg) = line_captures(line@).unwrap();
            dt@ == sdt && lv@ == slv && msg@ == smsg && (lv@ == "INFO"@ || lv@ == "ERROR"@
                || lv@ == "DEBUG"@)
        },
{
    let re = regex::Regex::new(
        r"^\[(?<dt>\d{4}-\d{2}-\d{2}T\d{2}:\d{2}:\d{2}Z)\]\s+(?<level>INFO|ERROR|DEBUG)\s+-\s+IP:(?<ip>\S+)\s+(?:Error \d+ -\s+)?(?<msg>.*)$",
    ).unwrap();
    re.captures(line).map(
        |c| (c["dt"].to_string(), c["level"].to_string(), c["msg"].to_string()),
    )
}

/// Relies on chrono's `FromStr` for `DateTime<Utc>` and on
/// `timestamp_millis`: a text parses to its epoch milliseconds or fails,
/// depending on the text alone.
#[verifier::external_body]
fn parse_utc_millis(s: &str) -> (r: Option<i64>)
    ensures
        r == utc_millis_of(s@),
{
    s.parse::<chrono::DateTime<chrono::Utc>>().ok().map(|dt| dt.timestamp_millis())
}

/// The level a captured level word names. The grammar admits only the three
/// level words, so the last branch is only ever reached by `INFO`.
pub open spec fn level_of(s: Seq<char>) -> Level {
    if s == "ERROR"@ {
        Level::ERROR
    } else if s == "DEBUG"@ {
        Level::DEBUG
    } else {
        Level::INFO
    }
}

/// A line that matched the grammar but whose timestamp names no real
/// instant. The classifier hands it back instead of a record.
#[derive(Clone, Copy, Debug, PartialEq, Eq, Structural)]
pub enum ClassifyError {
    BadTimestamp,
}

/// Turn one raw line into the record the statistics core ingests: a parsed
/// record when the line matches the grammar and its timestamp parses, a
/// malformed marker when the line does not match, and an error for a
/// matching line with an impossible timestamp.
pub fn classify_line(line: &LineMessage) -> (r: Result<StatRecord, ClassifyError>)
    ensures
        match r {
            Ok(sr) => match sr {
                StatRecord::OK(ok) => {
                    &&& line_captures(line.line@) is Some
                    &&& {
                        let (dt, lv, msg) = line_captures(line.line@).unwrap();
                        &&& utc_millis_of(dt) is Some
                        &&& ok.received_millis == line.recv_time_millis
                        &&& ok.logged_millis == utc_millis_of(dt).unwrap()
                        &&& ok.level == level_of(lv)
                        &&& ok.message@ == msg
                    }
                },
                StatRecord::Malformed(err) => {
                    &&& line_captures(line.line@) is None
                    &&& err.received_millis == line.recv_time_millis
                    &&& err.error_type == StatErrType::Malformed
                    &&& err.line is Some
                    &&& err.line.unwrap()@ == line.line@
                },
                StatRecord::Stop => false,
            },
            Err(e) => {
                &&& line_captures(line.line@) is Some
                &&& utc_millis_of(line_captures(line.line@).unwrap().0) is None
                &&& e == ClassifyError::BadTimestamp
            },
        },
{
    match match_line(line.line.as_str()) {
        Some((dt, lv, msg)) => {
            match parse_utc_millis(dt.as_str()) {
                Some(ms) => {
                    let err_word = "ERROR".to_owned();
                    let dbg_word = "DEBUG".to_owned();
                    let level = if lv.eq(&err_word) {
                        Level::ERROR
                    } else if lv.eq(&dbg_word) {
                        Level::DEBUG
                    } else {
                        Level::INFO
                    };
                    Ok(
                        StatRecord::OK(
                            StatOKRecord {
                                received_millis: line.recv_time_millis,
                                logged_millis: ms,
                                level,
                                message: msg,
                            },
                        ),
                    )
                },
                None => Err(ClassifyError::BadTimestamp),
            }
        },
        None => Ok(
            StatRecord::Malformed(
                StatErrRecord {
                    received_millis: line.recv_time_millis,
                    error_type: StatErrType::Malformed,
                    line: Some(line.line.clone()),
                },
            ),
        ),
    }
}

} // verus!
