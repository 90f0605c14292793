//! Arguments from which logs and loggers are built.
use vstd::prelude::*;
use crate::types::Log;

verus! {

/// A structure for constructing a new `Log` from a set of input arguments
#[derive(Debug, Clone, Copy)]
pub struct LogArg {
    pub sender: &'static str,
    pub receiver: &'static str,
    pub message: &'static str,
    pub is_error: bool,
    pub account_key: &'static str,
    pub graph_name: &'static str,
}

/// A structure for constructing a new `Logger` from a set of input arguments
#[derive(Debug, Clone, Copy)]
pub struct LoggerArg {
    pub graph_name: &'static str,
    pub account_key: &'static str,
    pub is_dev_env: bool,
    pub is_disabled: bool,
}

/// The current time in milliseconds since the Unix epoch: the system clock
/// (`std::time::SystemTime::now`) converted by chrono's
/// `From<SystemTime> for DateTime<Utc>`, which also takes times before the
/// epoch (it fails only for a clock beyond chrono's range of some 262,000
/// years either side of the epoch), then read with `DateTime::timestamp_millis`.
/// Nothing is claimed of the value: it is whatever the system clock says.
#[verifier::external_body]
pub(crate) fn current_millis() -> (ms: i64) {
    chrono::DateTime::<chrono::Utc>::from(std::time::SystemTime::now()).timestamp_millis()
}

/// A reading of the system clock, in milliseconds since the Unix epoch. Only
/// `read_clock` makes one, so a function that returns a reading has read the
/// clock, and its contract can speak of the value read.
#[derive(Debug, Clone, Copy)]
pub struct ClockReading {
    millis: i64,
}

impl View for ClockReading {
    type V = i64;

    /// The milliseconds since the Unix epoch that were read.
    closed spec fn view(&self) -> i64 {
        self.millis
    }
}

impl ClockReading {
    /// The milliseconds since the Unix epoch that were read.
    pub fn millis(&self) -> (r: i64)
        ensures
            r == self@,
    {
        self.millis
    }
}

/// Reads the system clock.
pub fn read_clock() -> ClockReading {
    ClockReading { millis: current_millis() }
}

impl LogArg {
    /// The log that these arguments make at time `ts`: an initial message,
    /// started and stamped at `ts`, not yet counted, with no error message.
    pub open spec fn log_at(&self, ts: i64) -> Log {
        Log {
            sender: self.sender,
            receiver: self.receiver,
            message: self.message,
            timestamp: ts,
            is_initial_message: true,
            account_key: self.account_key,
            graph: self.graph_name,
            is_error: self.is_error,
            elapsed: 0,
            start_time: ts,
            initial_message_count: 0,
            error_message: "",
            count: 0,
            errors: 0,
        }
    }

    /// Create a new `Log` stamped at the time `ts` (milliseconds since the
    /// Unix epoch).
    pub fn to_log_at(&self, ts: i64) -> (r: Log)
        ensures
            r == self.log_at(ts),
    {
        Log {
            sender: self.sender,
            receiver: self.receiver,
            message: self.message,
            timestamp: ts,
            is_initial_message: true,
            account_key: self.account_key,
            graph: self.graph_name,
            is_error: self.is_error,
            elapsed: 0,
            start_time: ts,
            initial_message_count: 0,
            error_message: "",
            count: 0,
            errors: 0,
        }
    }

    /// Create a new `Log`, stamped with the current time
    pub fn to_log(&self) -> (r: Log)
        ensures
            r == self.log_at(r.timestamp),
    {
        let ts = current_millis();
        self.to_log_at(ts)
    }
}

} // verus!
