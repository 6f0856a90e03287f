//! Record types flowing from the line source, through the classifier, into
//! the statistics core.

use vstd::prelude::*;

verus! {

/// Severity of a well-formed log line.
#[derive(Clone, Copy, Debug, PartialEq, Eq, Structural)]
pub enum Level {
    INFO,
    ERROR,
    DEBUG,
}

/// The one failure kind the statistics core distinguishes for a line that the
/// classifier could not match.
#[derive(Clone, Copy, Debug, PartialEq, Eq, Structural)]
pub enum StatErrType {
    Malformed,
}

/// A well-formed parsed log line.
#[derive(Clone, Debug)]
pub struct StatOKRecord {
    /// When the line was received by the reader, in epoch milliseconds.
    pub received_millis: i64,
    /// When the message was generated, in epoch milliseconds.
    pub logged_millis: i64,
    pub level: Level,
    pub message: String,
}

/// A line the classifier could not match.
#[derive(Clone, Debug)]
pub struct StatErrRecord {
    /// When the line was received by the reader, in epoch milliseconds.
    pub received_millis: i64,
    pub error_type: StatErrType,
    /// The offending line, if it was kept.
    pub line: Option<String>,
}

/// One unit of work for the statistics consumer: a parsed record, a malformed
/// marker, or the poison pill that stops the consumer.
#[derive(Clone, Debug)]
pub enum StatRecord {
    OK(StatOKRecord),
    Malformed(StatErrRecord),
    Stop,
}

/// A raw line with its receive timestamp, as handed from the reader to the
/// classifier.
pub struct LineMessage {
    pub line: String,
    pub recv_time_millis: i64,
}

/// Milliseconds to whole seconds, truncating toward zero, as the `/` operator
/// of the executable code does on `i64`.
pub open spec fn secs_of_millis(ms: int) -> int {
    if ms >= 0 {
        ms / 1000
    } else {
        -((-ms) / 1000)
    }
}

impl StatRecord {
    /// Receive timestamp in milliseconds; `Stop` carries none and reads as
    /// minus one.
    pub open spec fn spec_received_millis(&self) -> i64 {
        match self {
            StatRecord::OK(ok) => ok.received_millis,
            StatRecord::Malformed(err) => err.received_millis,
            StatRecord::Stop => -1i64,
        }
    }

    /// Receive timestamp in milliseconds; `Stop` carries none and reports -1.
    pub fn received_millis(&self) -> (r: i64)
        ensures
            r == self.spec_received_millis(),
    {
        match self {
            StatRecord::OK(ok) => ok.received_millis,
            StatRecord::Malformed(err) => err.received_millis,
            StatRecord::Stop => -1,
        }
    }

    /// Receive timestamp in whole seconds.
    pub fn received(&self) -> (r: i64)
        ensures
            r == secs_of_millis(self.spec_received_millis() as int),
    {
        self.received_millis() / 1000
    }
}

impl LineMessage {
    pub fn new(line: String, recv_time_millis: i64) -> (r: LineMessage)
        ensures
            r.line@ == line@,
            r.recv_time_millis == recv_time_millis,
    {
        LineMessage { line, recv_time_millis }
    }

    /// Receive timestamp in whole seconds.
    pub fn recv_time(&self) -> (r: i64)
        ensures
            r == secs_of_millis(self.recv_time_millis as int),
    {
        self.recv_time_millis / 1000
    }
}

/// The interned form of a record kept inside the sliding window: message text
/// replaced by its interner id, so a record is a handful of plain values.
#[derive(Clone, Copy, Debug, PartialEq, Eq, Structural)]
pub enum InnerRecord {
    OK(InnerOKRecord),
    Malformed(InnerErrRecord),
}

#[derive(Clone, Copy, Debug, PartialEq, Eq, Structural)]
pub struct InnerOKRecord {
    pub received_millis: i64,
    pub logged_millis: i64,
    pub level: Level,
    pub msg_id: u64,
}

#[derive(Clone, Copy, Debug, PartialEq, Eq, Structural)]
pub struct InnerErrRecord {
    pub received_millis: i64,
    pub err_type: StatErrType,
}

impl InnerRecord {
    /// Receive timestamp in milliseconds, for either variant.
    pub open spec fn spec_recv_millis(&self) -> i64 {
        match self {
            InnerRecord::OK(ok) => ok.received_millis,
            InnerRecord::Malformed(err) => err.received_millis,
        }
    }

    /// Timestamp the per-second histogram buckets by: the logged time for a
    /// parsed record, the receive time for a malformed one.
    pub open spec fn spec_log_millis(&self) -> i64 {
        match self {
            InnerRecord::OK(ok) => ok.logged_millis,
            InnerRecord::Malformed(err) => err.received_millis,
        }
    }

    /// The second bucket this record's logged time falls in.
    pub open spec fn spec_log_sec(&self) -> int {
        secs_of_millis(self.spec_log_millis() as int)
    }

    pub fn recv_timestamp_millis(&self) -> (r: i64)
        ensures
            r == self.spec_recv_millis(),
    {
        match self {
            InnerRecord::OK(ok) => ok.received_millis,
            InnerRecord::Malformed(err) => err.received_millis,
        }
    }

    pub fn recv_timestamp(&self) -> (r: i64)
        ensures
            r == secs_of_millis(self.spec_recv_millis() as int),
    {
        self.recv_timestamp_millis() / 1000
    }

    pub fn log_timestamp_millis(&self) -> (r: i64)
        ensures
            r == self.spec_log_millis(),
    {
        match self {
            InnerRecord::OK(ok) => ok.logged_millis,
            InnerRecord::Malformed(err) => err.received_millis,
        }
    }

    pub fn log_timestamp(&self) -> (r: i64)
        ensures
            r == self.spec_log_sec(),
    {
        self.log_timestamp_millis() / 1000
    }
}

} // verus!
