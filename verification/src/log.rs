//! Core logging data structures
use vstd::prelude::*;

verus! {

/// A log as the service receives it, with owned text.
#[derive(Debug)]
pub struct Log {
    pub sender: String,
    pub receiver: String,
    pub timestamp: i64,
    pub message: String,
    pub is_initial_message: bool,
    pub account: String,
    pub graph: String,
    pub is_error: bool,
    pub elapsed: isize,
}

/// The aggregate of the logs between one sender and one receiver.
#[derive(Debug)]
pub struct AggregatedLog {
    pub sender: String,
    pub receiver: String,
    pub account: String,
    pub graph: String,
    pub count: isize,
    pub errors: isize,
    pub elapsed: isize,
    pub message: String,
    pub error_message: String,
    pub initial_message_count: isize,
}

/// Why an aggregated log could not be written as JSON.
#[derive(Debug, Clone, Copy, PartialEq, Eq, Structural)]
pub enum JSONFailure {
    ConversionError,
    UnknownError,
}

impl Default for Log {
    fn default() -> (r: Log)
        ensures
            r.sender@.len() == 0,
            r.receiver@.len() == 0,
            r.message@.len() == 0,
            r.account@.len() == 0,
            r.graph@.len() == 0,
            r.timestamp == 0,
            r.elapsed == 0,
            !r.is_initial_message,
            !r.is_error,
    {
        Log {
            sender: String::new(),
            receiver: String::new(),
            timestamp: 0,
            message: String::new(),
            is_initial_message: false,
            account: String::new(),
            graph: String::new(),
            is_error: false,
            elapsed: 0,
        }
    }
}

impl Default for AggregatedLog {
    fn default() -> (r: AggregatedLog)
        ensures
            r.sender@.len() == 0,
            r.receiver@.len() == 0,
            r.account@.len() == 0,
            r.graph@.len() == 0,
            r.count == 0,
            r.errors == 0,
            r.elapsed == 0,
            r.message@.len() == 0,
            r.error_message@.len() == 0,
            r.initial_message_count == 0,
    {
        AggregatedLog {
            sender: String::new(),
            receiver: String::new(),
            account: String::new(),
            graph: String::new(),
            count: 0,
            errors: 0,
            elapsed: 0,
            message: String::new(),
            error_message: String::new(),
            initial_message_count: 0,
        }
    }
}

impl Log {
    /// An empty aggregate for the sender, receiver, account and graph of
    /// this log: nothing counted yet, no message kept.
    pub fn to_aggregate(&self) -> (r: AggregatedLog)
        ensures
            r.sender@ == self.sender@,
            r.receiver@ == self.receiver@,
            r.account@ == self.account@,
            r.graph@ == self.graph@,
            r.count == 0,
            r.errors == 0,
            r.elapsed == 0,
            r.message@.len() == 0,
            r.error_message@.len() == 0,
            r.initial_message_count == 0,
    {
        let mut al = AggregatedLog::default();
        al.sender = self.sender.clone();
        al.receiver = self.receiver.clone();
        al.account = self.account.clone();
        al.graph = self.graph.clone();
        al
    }
}

} // verus!
