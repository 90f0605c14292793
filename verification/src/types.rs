//! Logs, statistics and the aggregating logger state.
//!
//! A `Logger` aggregates logs by the pair (sender, receiver) and statistics
//! by the pair (component, name): each pair has at most one aggregated entry,
//! kept in the order in which the pairs were first seen.
use vstd::prelude::*;
use crate::args::{read_clock, ClockReading, LogArg, LoggerArg};
use crate::text::{is_blank, same_text};

verus! {

/// A log structure
#[derive(Debug, Clone, Copy)]
pub struct Log {
    pub account_key: &'static str,
    pub graph: &'static str,
    pub start_time: i64,
    pub initial_message_count: i64,
    pub error_message: &'static str,
    pub count: i64,
    pub errors: i64,
    pub message: &'static str,
    pub sender: &'static str,
    pub receiver: &'static str,
    pub is_error: bool,
    pub timestamp: i64,
    pub is_initial_message: bool,
    pub elapsed: i64,
}

/// The pair by which logs are aggregated: (sender, receiver).
pub open spec fn log_key(l: Log) -> (Seq<char>, Seq<char>) {
    (l.sender@, l.receiver@)
}

/// Whether some entry of `logs` is aggregated under `key`.
pub open spec fn has_log_key(logs: Seq<Log>, key: (Seq<char>, Seq<char>)) -> bool {
    exists|i: int| 0 <= i < logs.len() && #[trigger] log_key(logs[i]) == key
}

/// No two entries of `logs` share a (sender, receiver) pair.
pub open spec fn log_keys_distinct(logs: Seq<Log>) -> bool {
    forall|i: int, j: int|
        0 <= i < logs.len() && 0 <= j < logs.len() && i != j ==> log_key(logs[i]) != log_key(
            logs[j],
        )
}

/// `log` with an empty account key or graph replaced by the logger's defaults.
pub open spec fn log_with_defaults(log: Log, account: &'static str, graph: &'static str) -> Log {
    Log {
        account_key: if log.account_key@.len() == 0 {
            account
        } else {
            log.account_key
        },
        graph: if log.graph@.len() == 0 {
            graph
        } else {
            log.graph
        },
        ..log
    }
}

/// A log can be aggregated only when it names a sender, a receiver, an
/// account and a graph.
pub open spec fn log_is_complete(log: Log) -> bool {
    &&& log.sender@.len() > 0
    &&& log.receiver@.len() > 0
    &&& log.account_key@.len() > 0
    &&& log.graph@.len() > 0
}

/// The entry that the first log of a (sender, receiver) pair opens: it is
/// counted once, an error is counted once more, and an error keeps its
/// message as the error message unless the log already carries one.
pub open spec fn first_entry(log: Log) -> Log {
    Log {
        errors: if log.is_error {
            (log.errors + 1) as i64
        } else {
            log.errors
        },
        count: (log.count + 1) as i64,
        error_message: if log.error_message@.len() == 0 && log.is_error {
            log.message
        } else {
            log.error_message
        },
        ..log
    }
}

/// What a further log of the same pair does to the aggregated entry: the
/// count grows by one, the error count grows by one for an error, and the
/// first non-error message and the first error message are kept.
pub open spec fn merged_entry(entry: Log, log: Log) -> Log {
    Log {
        errors: if log.is_error {
            (entry.errors + 1) as i64
        } else {
            entry.errors
        },
        count: (entry.count + 1) as i64,
        message: if entry.message@.len() == 0 && !log.is_error {
            log.message
        } else {
            entry.message
        },
        error_message: if entry.error_message@.len() == 0 && log.is_error {
            log.message
        } else {
            entry.error_message
        },
        ..entry
    }
}

/// An aggregate for the pair of `log` with nothing counted yet: no logs, no
/// errors, no messages, no elapsed time.
pub open spec fn empty_aggregate(log: Log) -> Log {
    Log {
        count: 0,
        errors: 0,
        message: "",
        error_message: "",
        elapsed: 0,
        initial_message_count: 0,
        ..log
    }
}

/// The entry that a first log opens when counted from an empty aggregate:
/// one log, one error for an error, its message as the message of a
/// non-error or as the error message of an error.
pub open spec fn counted_entry(log: Log) -> Log {
    merged_entry(empty_aggregate(log), log)
}

/// `logs` with `log` merged into every entry of its pair.
pub open spec fn merge_into(logs: Seq<Log>, log: Log) -> Seq<Log> {
    logs.map_values(
        |e: Log|
            if log_key(e) == log_key(log) {
                merged_entry(e, log)
            } else {
                e
            },
    )
}

/// The aggregated logs after `log` is added to `logs`: merged into the entry
/// of its pair, or, for a new pair, `opening` appended.
pub open spec fn aggregate_log_opening(logs: Seq<Log>, log: Log, opening: Log) -> Seq<Log> {
    if has_log_key(logs, log_key(log)) {
        merge_into(logs, log)
    } else {
        logs.push(opening)
    }
}

/// The aggregated logs after the complete log `log` is added to `logs`, a
/// new pair opening with the log itself counted once more.
pub open spec fn aggregate_log(logs: Seq<Log>, log: Log) -> Seq<Log> {
    aggregate_log_opening(logs, log, first_entry(log))
}

/// The aggregated logs after `log` is added to `logs`, a new pair opening
/// from an empty aggregate.
pub open spec fn count_log(logs: Seq<Log>, log: Log) -> Seq<Log> {
    aggregate_log_opening(logs, log, counted_entry(log))
}

/// The counters that merging `log` into the entry of its pair increments
/// stay below `i64::MAX`.
pub open spec fn entry_counts_fit(logs: Seq<Log>, log: Log) -> bool {
    forall|i: int|
        0 <= i < logs.len() && #[trigger] log_key(logs[i]) == log_key(log) ==> {
            &&& logs[i].count < i64::MAX
            &&& log.is_error ==> logs[i].errors < i64::MAX
        }
}

/// Appending `e` to `logs`, whose pairs are distinct and lack that of `e`,
/// keeps the pairs distinct.
pub proof fn lemma_log_push_distinct(logs: Seq<Log>, e: Log)
    requires
        log_keys_distinct(logs),
        !has_log_key(logs, log_key(e)),
    ensures
        log_keys_distinct(logs.push(e)),
{
    let after = logs.push(e);
    assert forall|i: int, j: int|
        0 <= i < after.len() && 0 <= j < after.len() && i != j implies log_key(after[i])
        != log_key(after[j]) by {
        if i == logs.len() {
            assert(log_key(logs[j]) != log_key(e));
        } else if j == logs.len() {
            assert(log_key(logs[i]) != log_key(e));
        }
    }
}

/// Replacing an entry by one of the same pair keeps the pairs distinct.
pub proof fn lemma_log_update_distinct(logs: Seq<Log>, k: int, e: Log)
    requires
        log_keys_distinct(logs),
        0 <= k < logs.len(),
        log_key(e) == log_key(logs[k]),
    ensures
        log_keys_distinct(logs.update(k, e)),
{
    let after = logs.update(k, e);
    assert forall|i: int, j: int|
        0 <= i < after.len() && 0 <= j < after.len() && i != j implies log_key(after[i])
        != log_key(after[j]) by {
        assert(log_key(after[i]) == log_key(logs[i]));
        assert(log_key(after[j]) == log_key(logs[j]));
    }
}

/// Where pairs are distinct, merging `log` changes only the entry `k` of its
/// pair.
pub proof fn lemma_merge_is_update(logs: Seq<Log>, k: int, log: Log)
    requires
        log_keys_distinct(logs),
        0 <= k < logs.len(),
        log_key(logs[k]) == log_key(log),
    ensures
        merge_into(logs, log) == logs.update(k, merged_entry(logs[k], log)),
        log_keys_distinct(merge_into(logs, log)),
{
    assert forall|i: int| 0 <= i < logs.len() && i != k implies log_key(logs[i]) != log_key(
        log,
    ) by {
        assert(log_key(logs[i]) != log_key(logs[k]));
    }
    assert(merge_into(logs, log) =~= logs.update(k, merged_entry(logs[k], log)));
    lemma_log_update_distinct(logs, k, merged_entry(logs[k], log));
}

/// The counters that aggregating `log` into `logs` increments stay below
/// `i64::MAX`.
pub open spec fn log_counts_fit(logs: Seq<Log>, log: Log) -> bool {
    if has_log_key(logs, log_key(log)) {
        forall|i: int|
            0 <= i < logs.len() && #[trigger] log_key(logs[i]) == log_key(log) ==> {
                &&& logs[i].count < i64::MAX
                &&& log.is_error ==> logs[i].errors < i64::MAX
            }
    } else {
        &&& log.count < i64::MAX
        &&& log.is_error ==> log.errors < i64::MAX
    }
}

/// The merged entry, computed.
fn merge_entry(entry: Log, log: &Log) -> (r: Log)
    requires
        entry.count < i64::MAX,
        log.is_error ==> entry.errors < i64::MAX,
    ensures
        r == merged_entry(entry, *log),
{
    let mut e = entry;
    if log.is_error {
        e.errors = e.errors + 1;
    }
    e.count = e.count + 1;
    if is_blank(e.message) && !log.is_error {
        e.message = log.message;
    }
    if is_blank(e.error_message) && log.is_error {
        e.error_message = log.message;
    }
    e
}

/// The entry counted from an empty aggregate, computed.
fn open_counted_entry(log: &Log) -> (r: Log)
    ensures
        r == counted_entry(*log),
{
    proof {
        reveal_strlit("");
    }
    let e = Log {
        count: 0,
        errors: 0,
        message: "",
        error_message: "",
        elapsed: 0,
        initial_message_count: 0,
        ..*log
    };
    merge_entry(e, log)
}

/// The first entry, computed.
fn open_entry(log: Log) -> (r: Log)
    requires
        log.count < i64::MAX,
        log.is_error ==> log.errors < i64::MAX,
    ensures
        r == first_entry(log),
{
    let mut l = log;
    if l.is_error {
        l.errors = l.errors + 1;
    }
    l.count = l.count + 1;
    if is_blank(l.error_message) && l.is_error {
        l.error_message = l.message;
    }
    l
}

/// The position of the entry aggregated under (`sender`, `receiver`), if any.
fn find_log(logs: &Vec<Log>, sender: &str, receiver: &str) -> (r: Option<usize>)
    ensures
        match r {
            Some(i) => i < logs@.len() && log_key(logs@[i as int]) == (sender@, receiver@),
            None => !has_log_key(logs@, (sender@, receiver@)),
        },
{
    let mut i: usize = 0;
    while i < logs.len()
        invariant
            i <= logs@.len(),
            forall|j: int| 0 <= j < i ==> log_key(#[trigger] logs@[j]) != (sender@, receiver@),
        decreases logs@.len() - i,
    {
        let e = &logs[i];
        if same_text(e.sender, sender) && same_text(e.receiver, receiver) {
            return Some(i);
        }
        i = i + 1;
    }
    None
}

/// A statistic as the aggregating state holds it: everything but its
/// measured value, which the caller keeps in the slot that `add_stat`
/// names.
#[derive(Debug, Clone, Copy)]
pub struct StatRecord {
    pub component: &'static str,
    pub name: &'static str,
    pub kind: &'static str,
    pub timestamp: i64,
    pub account: &'static str,
    pub graph: &'static str,
    pub count: i64,
}

impl StatRecord {
    /// The record of a statistic of no kind yet, stamped at `ts`, not yet
    /// counted.
    pub open spec fn record_at(
        component: &'static str,
        name: &'static str,
        account: &'static str,
        graph: &'static str,
        ts: i64,
    ) -> StatRecord {
        StatRecord { component, name, kind: "", timestamp: ts, account, graph, count: 0 }
    }

    /// The record of a statistic of no kind yet, stamped at `ts`.
    pub fn at(
        component: &'static str,
        name: &'static str,
        account: &'static str,
        graph: &'static str,
        ts: i64,
    ) -> (r: StatRecord)
        ensures
            r == StatRecord::record_at(component, name, account, graph, ts),
    {
        StatRecord { component, name, kind: "", timestamp: ts, account, graph, count: 0 }
    }

    /// The record of a statistic of no kind yet, stamped with the current
    /// time.
    pub fn now(
        component: &'static str,
        name: &'static str,
        account: &'static str,
        graph: &'static str,
    ) -> (r: StatRecord)
        ensures
            r == StatRecord::record_at(component, name, account, graph, r.timestamp),
    {
        let ts = crate::args::current_millis();
        StatRecord::at(component, name, account, graph, ts)
    }
}

/// What the caller does to the measured value of a statistic after
/// `add_stat`: nothing (a kind that is not aggregated); add the new value to
/// the value in `slot` (an average, which starts at zero when `fresh`); keep
/// in `slot` the larger of the value there and the new value (a maximum,
/// which is the new value when `fresh`); or store the new value in `slot` (a
/// point). A `fresh` slot is the one just appended.
#[derive(Debug, Clone, Copy, PartialEq, Eq, Structural)]
pub enum StatAction {
    Unchanged,
    Accumulate { slot: usize, fresh: bool },
    Raise { slot: usize, fresh: bool },
    Store { slot: usize, fresh: bool },
}

/// The pair by which statistics are aggregated: (component, name).
pub open spec fn stat_key(s: StatRecord) -> (Seq<char>, Seq<char>) {
    (s.component@, s.name@)
}

/// Whether some statistic of `stats` is aggregated under `key`.
pub open spec fn has_stat_key(stats: Seq<StatRecord>, key: (Seq<char>, Seq<char>)) -> bool {
    exists|i: int| 0 <= i < stats.len() && #[trigger] stat_key(stats[i]) == key
}

/// No two statistics of `stats` share a (component, name) pair.
pub open spec fn stat_keys_distinct(stats: Seq<StatRecord>) -> bool {
    forall|i: int, j: int|
        0 <= i < stats.len() && 0 <= j < stats.len() && i != j ==> stat_key(stats[i]) != stat_key(
            stats[j],
        )
}

/// Appending `s` to `stats`, whose pairs are distinct and lack that of `s`,
/// keeps the pairs distinct.
pub proof fn lemma_stat_push_distinct(stats: Seq<StatRecord>, s: StatRecord)
    requires
        stat_keys_distinct(stats),
        !has_stat_key(stats, stat_key(s)),
    ensures
        stat_keys_distinct(stats.push(s)),
{
    let after = stats.push(s);
    assert forall|a: int, b: int|
        0 <= a < after.len() && 0 <= b < after.len() && a != b implies stat_key(after[a])
        != stat_key(after[b]) by {
        if a == stats.len() {
            assert(stat_key(stats[b]) != stat_key(s));
        } else if b == stats.len() {
            assert(stat_key(stats[a]) != stat_key(s));
        }
    }
}

/// Replacing a record by one of the same pair keeps the pairs distinct.
pub proof fn lemma_stat_update_distinct(stats: Seq<StatRecord>, k: int, s: StatRecord)
    requires
        stat_keys_distinct(stats),
        0 <= k < stats.len(),
        stat_key(s) == stat_key(stats[k]),
    ensures
        stat_keys_distinct(stats.update(k, s)),
{
    let after = stats.update(k, s);
    assert forall|a: int, b: int|
        0 <= a < after.len() && 0 <= b < after.len() && a != b implies stat_key(after[a])
        != stat_key(after[b]) by {
        assert(stat_key(after[a]) == stat_key(stats[a]));
        assert(stat_key(after[b]) == stat_key(stats[b]));
    }
}

/// The position of the statistic aggregated under `key`.
pub open spec fn stat_slot(stats: Seq<StatRecord>, key: (Seq<char>, Seq<char>)) -> int {
    choose|i: int| 0 <= i < stats.len() && #[trigger] stat_key(stats[i]) == key
}

/// `stat` with an empty account or graph replaced by the logger's defaults.
pub open spec fn stat_with_defaults(
    stat: StatRecord,
    account: &'static str,
    graph: &'static str,
) -> StatRecord {
    StatRecord {
        account: if stat.account@.len() == 0 {
            account
        } else {
            stat.account
        },
        graph: if stat.graph@.len() == 0 {
            graph
        } else {
            stat.graph
        },
        ..stat
    }
}

/// The statistics after an average statistic is added: a pair seen before
/// counts one more sample; a new pair is appended with one sample.
pub open spec fn aggregate_average(stats: Seq<StatRecord>, stat: StatRecord) -> Seq<StatRecord> {
    if has_stat_key(stats, stat_key(stat)) {
        let i = stat_slot(stats, stat_key(stat));
        stats.update(i, StatRecord { count: (stats[i].count + 1) as i64, ..stats[i] })
    } else {
        stats.push(StatRecord { count: 1, ..stat })
    }
}

/// The statistics after a maximum statistic is added: a new pair is appended.
pub open spec fn aggregate_max(stats: Seq<StatRecord>, stat: StatRecord) -> Seq<StatRecord> {
    if has_stat_key(stats, stat_key(stat)) {
        stats
    } else {
        stats.push(stat)
    }
}

/// The statistics after a point statistic is added: it replaces the record
/// of its pair, or is appended when the pair is new.
pub open spec fn aggregate_point(stats: Seq<StatRecord>, stat: StatRecord) -> Seq<StatRecord> {
    if has_stat_key(stats, stat_key(stat)) {
        stats.update(stat_slot(stats, stat_key(stat)), stat)
    } else {
        stats.push(stat)
    }
}

/// The statistics after `stat` is aggregated by its kind: an average, a
/// maximum or a point; any other kind leaves them as they were.
pub open spec fn aggregate_stat(stats: Seq<StatRecord>, stat: StatRecord) -> Seq<StatRecord> {
    if stat.kind@ == "average"@ {
        aggregate_average(stats, stat)
    } else if stat.kind@ == "max"@ {
        aggregate_max(stats, stat)
    } else if stat.kind@ == "point"@ {
        aggregate_point(stats, stat)
    } else {
        stats
    }
}

/// What the caller does with the measured value of `stat` once it is
/// aggregated into `stats`.
pub open spec fn action_for(stats: Seq<StatRecord>, stat: StatRecord) -> StatAction {
    let (slot, fresh) = slot_after(stats, stat);
    if stat.kind@ == "average"@ {
        StatAction::Accumulate { slot, fresh }
    } else if stat.kind@ == "max"@ {
        StatAction::Raise { slot, fresh }
    } else if stat.kind@ == "point"@ {
        StatAction::Store { slot, fresh }
    } else {
        StatAction::Unchanged
    }
}

/// Aggregating `stat` into `stats` increments no sample count past `i64::MAX`.
pub open spec fn stat_counts_fit(stats: Seq<StatRecord>, stat: StatRecord) -> bool {
    (stat.kind@ == "average"@ && has_stat_key(stats, stat_key(stat))) ==> stats[stat_slot(
        stats,
        stat_key(stat),
    )].count < i64::MAX
}

/// The aggregated logs after `log` is added to `logs` by a logger whose
/// default account and graph are `account` and `graph`: defaults filled in,
/// then aggregated if complete, else dropped.
pub open spec fn logs_after_with(
    logs: Seq<Log>,
    account: &'static str,
    graph: &'static str,
    log: Log,
) -> Seq<Log> {
    let l = log_with_defaults(log, account, graph);
    if log_is_complete(l) {
        aggregate_log(logs, l)
    } else {
        logs
    }
}

/// The slot of the pair of `stat` after it is added, and whether it is new.
pub open spec fn slot_after(stats: Seq<StatRecord>, stat: StatRecord) -> (usize, bool) {
    if has_stat_key(stats, stat_key(stat)) {
        (stat_slot(stats, stat_key(stat)) as usize, false)
    } else {
        (stats.len() as usize, true)
    }
}

/// The position of the statistic aggregated under (`component`, `name`), if any.
fn find_stat(stats: &Vec<StatRecord>, component: &str, name: &str) -> (r: Option<usize>)
    requires
        stat_keys_distinct(stats@),
    ensures
        match r {
            Some(i) => {
                &&& i < stats@.len()
                &&& stat_key(stats@[i as int]) == (component@, name@)
                &&& has_stat_key(stats@, (component@, name@))
                &&& i == stat_slot(stats@, (component@, name@))
            },
            None => !has_stat_key(stats@, (component@, name@)),
        },
{
    let mut i: usize = 0;
    while i < stats.len()
        invariant
            i <= stats@.len(),
            stat_keys_distinct(stats@),
            forall|j: int| 0 <= j < i ==> stat_key(#[trigger] stats@[j]) != (component@, name@),
        decreases stats@.len() - i,
    {
        let e = &stats[i];
        if same_text(e.component, component) && same_text(e.name, name) {
            proof {
                let key = (component@, name@);
                assert(stat_key(stats@[i as int]) == key);
                let k = stat_slot(stats@, key);
                assert(0 <= k < stats@.len() && stat_key(stats@[k]) == key);
                if k != i as int {
                    assert(stat_key(stats@[k]) != stat_key(stats@[i as int]));
                }
            }
            return Some(i);
        }
        i = i + 1;
    }
    None
}

/// The aggregating state of a logger.
#[derive(Debug)]
pub struct Logger {
    pub is_dev_env: bool,
    pub is_disabled: bool,
    pub account_key: &'static str,
    pub graph_name: &'static str,
    pub aggregated_logs: Vec<Log>,
    pub aggregated_stats: Vec<StatRecord>,
    pub timer_started: bool,
}

impl Logger {
    /// The aggregated logs, one per (sender, receiver) pair, in the order in
    /// which the pairs were first seen.
    pub open spec fn logs(&self) -> Seq<Log> {
        self.aggregated_logs@
    }

    /// The logger's internal invariant.
    pub open spec fn wf(&self) -> bool {
        &&& log_keys_distinct(self.aggregated_logs@)
        &&& stat_keys_distinct(self.aggregated_stats@)
    }

    /// The aggregated statistics, one per (component, name) pair, in the
    /// order in which the pairs were first seen.
    pub open spec fn stats(&self) -> Seq<StatRecord> {
        self.aggregated_stats@
    }

    /// The aggregated statistics after `stat` is added: defaults filled in,
    /// then aggregated by its kind.
    pub open spec fn stats_after(&self, stat: StatRecord) -> Seq<StatRecord> {
        aggregate_stat(self.stats(), stat_with_defaults(stat, self.account_key, self.graph_name))
    }

    /// What the caller does with the measured value of `stat` once it is added.
    pub open spec fn stat_action(&self, stat: StatRecord) -> StatAction {
        action_for(self.stats(), stat_with_defaults(stat, self.account_key, self.graph_name))
    }

    /// Adding `stat` increments no sample count past `i64::MAX`.
    pub open spec fn stat_fits(&self, stat: StatRecord) -> bool {
        stat_counts_fit(self.stats(), stat)
    }

    /// All fields but the aggregated entries are those of `other`.
    pub open spec fn same_settings(&self, other: &Logger) -> bool {
        &&& self.is_dev_env == other.is_dev_env
        &&& self.is_disabled == other.is_disabled
        &&& self.account_key == other.account_key
        &&& self.graph_name == other.graph_name
        &&& self.timer_started == other.timer_started
    }

    /// The aggregated logs after `log` is added: defaults filled in, then
    /// aggregated if complete, else dropped.
    pub open spec fn logs_after(&self, log: Log) -> Seq<Log> {
        logs_after_with(self.logs(), self.account_key, self.graph_name, log)
    }

    /// The aggregated logs after `log` is processed: defaults filled in, then,
    /// if complete, counted under its pair, a new pair starting from an empty
    /// aggregate; else dropped.
    pub open spec fn logs_processed(&self, log: Log) -> Seq<Log> {
        let l = log_with_defaults(log, self.account_key, self.graph_name);
        if log_is_complete(l) {
            count_log(self.logs(), l)
        } else {
            self.logs()
        }
    }

    /// Processing `log` increments no counter past `i64::MAX`.
    pub open spec fn process_fits(&self, log: Log) -> bool {
        let l = log_with_defaults(log, self.account_key, self.graph_name);
        log_is_complete(l) ==> entry_counts_fit(self.logs(), l)
    }

    /// Adding `log` increments no counter past `i64::MAX`.
    pub open spec fn log_fits(&self, log: Log) -> bool {
        let l = log_with_defaults(log, self.account_key, self.graph_name);
        log_is_complete(l) ==> log_counts_fit(self.logs(), l)
    }

    /// Add a new log for processing
    pub fn add_log(&mut self, log: Log)
        requires
            old(self).wf(),
            old(self).log_fits(log),
        ensures
            final(self).wf(),
            final(self).logs() == old(self).logs_after(log),
            final(self).stats() == old(self).stats(),
            final(self).same_settings(old(self)),
    {
        let ghost given = log;
        let mut log = log;
        if is_blank(log.account_key) {
            log.account_key = self.account_key;
        }
        if is_blank(log.graph) {
            log.graph = self.graph_name;
        }
        assert(log == log_with_defaults(given, self.account_key, self.graph_name));
        if is_blank(log.sender) || is_blank(log.receiver) || is_blank(log.account_key) || is_blank(
            log.graph,
        ) {
            return;
        }
        self.insert_log(log);
    }

    /// Aggregate `log` under its (sender, receiver) pair, as it is.
    pub fn insert_log(&mut self, log: Log)
        requires
            old(self).wf(),
            log_counts_fit(old(self).logs(), log),
        ensures
            final(self).wf(),
            final(self).logs() == aggregate_log(old(self).logs(), log),
            final(self).stats() == old(self).stats(),
            final(self).same_settings(old(self)),
    {
        match find_log(&self.aggregated_logs, log.sender, log.receiver) {
            None => {
                let entry = open_entry(log);
                self.append_log_entry(entry);
            },
            Some(i) => {
                self.merge_log_at(i, &log);
            },
        }
    }

    /// Aggregate `log` under its (sender, receiver) pair, as it is; a new
    /// pair starts from an empty aggregate.
    pub fn count_log_entry(&mut self, log: Log)
        requires
            old(self).wf(),
            entry_counts_fit(old(self).logs(), log),
        ensures
            final(self).wf(),
            final(self).logs() == count_log(old(self).logs(), log),
            final(self).stats() == old(self).stats(),
            final(self).same_settings(old(self)),
    {
        match find_log(&self.aggregated_logs, log.sender, log.receiver) {
            None => {
                let entry = open_counted_entry(&log);
                self.append_log_entry(entry);
            },
            Some(i) => {
                self.merge_log_at(i, &log);
            },
        }
    }

    /// Append the entry of a pair not seen before.
    fn append_log_entry(&mut self, entry: Log)
        requires
            old(self).wf(),
            !has_log_key(old(self).logs(), log_key(entry)),
        ensures
            final(self).wf(),
            final(self).logs() == old(self).logs().push(entry),
            final(self).stats() == old(self).stats(),
            final(self).same_settings(old(self)),
    {
        proof {
            lemma_log_push_distinct(self.aggregated_logs@, entry);
        }
        self.aggregated_logs.push(entry);
    }

    /// Merge `log` into the entry at `i`, which is that of its pair.
    fn merge_log_at(&mut self, i: usize, log: &Log)
        requires
            old(self).wf(),
            i < old(self).logs().len(),
            log_key(old(self).logs()[i as int]) == log_key(*log),
            entry_counts_fit(old(self).logs(), *log),
        ensures
            final(self).wf(),
            final(self).logs() == merge_into(old(self).logs(), *log),
            has_log_key(old(self).logs(), log_key(*log)),
            final(self).stats() == old(self).stats(),
            final(self).same_settings(old(self)),
    {
        proof {
            lemma_merge_is_update(self.aggregated_logs@, i as int, *log);
        }
        let entry = self.aggregated_logs[i];
        let merged = merge_entry(entry, log);
        self.aggregated_logs.set(i, merged);
    }

    /// Add a single statistic
    pub fn add_stat(&mut self, stat: StatRecord) -> (r: StatAction)
        requires
            old(self).wf(),
            old(self).stat_fits(stat),
        ensures
            final(self).wf(),
            final(self).stats() == old(self).stats_after(stat),
            r == old(self).stat_action(stat),
            final(self).logs() == old(self).logs(),
            final(self).same_settings(old(self)),
    {
        let ghost given = stat;
        let mut stat = stat;
        if is_blank(stat.account) {
            stat.account = self.account_key;
        }
        if is_blank(stat.graph) {
            stat.graph = self.graph_name;
        }
        assert(stat == stat_with_defaults(given, self.account_key, self.graph_name));
        self.insert_stat(stat)
    }

    /// Aggregate `stat` by its kind, as it is.
    pub fn insert_stat(&mut self, stat: StatRecord) -> (r: StatAction)
        requires
            old(self).wf(),
            stat_counts_fit(old(self).stats(), stat),
        ensures
            final(self).wf(),
            final(self).stats() == aggregate_stat(old(self).stats(), stat),
            r == action_for(old(self).stats(), stat),
            final(self).logs() == old(self).logs(),
            final(self).same_settings(old(self)),
    {
        proof {
            reveal_strlit("point");
            reveal_strlit("average");
            reveal_strlit("max");
            assert("point"@.len() != "average"@.len());
            assert("point"@.len() != "max"@.len());
            assert("max"@.len() != "average"@.len());
        }
        if same_text(stat.kind, "average") {
            self.add_stat_avg(stat)
        } else if same_text(stat.kind, "max") {
            self.add_stat_max(stat)
        } else if same_text(stat.kind, "point") {
            self.add_stat_point(stat)
        } else {
            StatAction::Unchanged
        }
    }

    /// Add a point statistic: it replaces the record of its pair.
    pub fn add_stat_point(&mut self, stat: StatRecord) -> (r: StatAction)
        requires
            old(self).wf(),
        ensures
            final(self).wf(),
            final(self).stats() == aggregate_point(old(self).stats(), stat),
            r == (StatAction::Store {
                slot: slot_after(old(self).stats(), stat).0,
                fresh: slot_after(old(self).stats(), stat).1,
            }),
            final(self).logs() == old(self).logs(),
            final(self).same_settings(old(self)),
    {
        match find_stat(&self.aggregated_stats, stat.component, stat.name) {
            Some(i) => {
                proof {
                    lemma_stat_update_distinct(self.aggregated_stats@, i as int, stat);
                }
                self.aggregated_stats.set(i, stat);
                StatAction::Store { slot: i, fresh: false }
            },
            None => {
                let slot = self.aggregated_stats.len();
                proof {
                    lemma_stat_push_distinct(self.aggregated_stats@, stat);
                }
                self.aggregated_stats.push(stat);
                StatAction::Store { slot, fresh: true }
            },
        }
    }

    /// Add an average statistic
    pub fn add_stat_avg(&mut self, stat: StatRecord) -> (r: StatAction)
        requires
            old(self).wf(),
            has_stat_key(old(self).stats(), stat_key(stat)) ==> old(self).stats()[stat_slot(
                old(self).stats(),
                stat_key(stat),
            )].count < i64::MAX,
        ensures
            final(self).wf(),
            final(self).stats() == aggregate_average(old(self).stats(), stat),
            r == (StatAction::Accumulate {
                slot: slot_after(old(self).stats(), stat).0,
                fresh: slot_after(old(self).stats(), stat).1,
            }),
            final(self).logs() == old(self).logs(),
            final(self).same_settings(old(self)),
    {
        match find_stat(&self.aggregated_stats, stat.component, stat.name) {
            Some(i) => {
                let mut existing = self.aggregated_stats[i];
                existing.count = existing.count + 1;
                proof {
                    lemma_stat_update_distinct(self.aggregated_stats@, i as int, existing);
                }
                self.aggregated_stats.set(i, existing);
                StatAction::Accumulate { slot: i, fresh: false }
            },
            None => {
                let slot = self.aggregated_stats.len();
                let mut fresh = stat;
                fresh.count = 1;
                proof {
                    lemma_stat_push_distinct(self.aggregated_stats@, fresh);
                }
                self.aggregated_stats.push(fresh);
                StatAction::Accumulate { slot, fresh: true }
            },
        }
    }

    /// Add a max statistic
    pub fn add_stat_max(&mut self, stat: StatRecord) -> (r: StatAction)
        requires
            old(self).wf(),
        ensures
            final(self).wf(),
            final(self).stats() == aggregate_max(old(self).stats(), stat),
            r == (StatAction::Raise {
                slot: slot_after(old(self).stats(), stat).0,
                fresh: slot_after(old(self).stats(), stat).1,
            }),
            final(self).logs() == old(self).logs(),
            final(self).same_settings(old(self)),
    {
        match find_stat(&self.aggregated_stats, stat.component, stat.name) {
            Some(i) => StatAction::Raise { slot: i, fresh: false },
            None => {
                let slot = self.aggregated_stats.len();
                proof {
                    lemma_stat_push_distinct(self.aggregated_stats@, stat);
                }
                self.aggregated_stats.push(stat);
                StatAction::Raise { slot, fresh: true }
            },
        }
    }

    /// Whether adding `log` keeps every counter below `i64::MAX`, so that
    /// `add_log` may be called with it.
    pub fn can_take_log(&self, log: &Log) -> (r: bool)
        requires
            self.wf(),
        ensures
            r == self.log_fits(*log),
    {
        let mut l = *log;
        if is_blank(l.account_key) {
            l.account_key = self.account_key;
        }
        if is_blank(l.graph) {
            l.graph = self.graph_name;
        }
        assert(l == log_with_defaults(*log, self.account_key, self.graph_name));
        if is_blank(l.sender) || is_blank(l.receiver) || is_blank(l.account_key) || is_blank(
            l.graph,
        ) {
            return true;
        }
        match find_log(&self.aggregated_logs, l.sender, l.receiver) {
            None => l.count < i64::MAX && (!l.is_error || l.errors < i64::MAX),
            Some(i) => {
                let e = &self.aggregated_logs[i];
                proof {
                    assert forall|j: int|
                        0 <= j < self.logs().len() && #[trigger] log_key(self.logs()[j])
                            == log_key(l) implies j == i as int by {
                        if j != i as int {
                            assert(log_key(self.logs()[j]) != log_key(self.logs()[i as int]));
                        }
                    }
                }
                e.count < i64::MAX && (!l.is_error || e.errors < i64::MAX)
            },
        }
    }

    /// Whether processing `log` keeps every counter below `i64::MAX`, so that
    /// `process_log` may be called with it.
    pub fn can_process_log(&self, log: &Log) -> (r: bool)
        requires
            self.wf(),
        ensures
            r == self.process_fits(*log),
    {
        let mut l = *log;
        if is_blank(l.account_key) {
            l.account_key = self.account_key;
        }
        if is_blank(l.graph) {
            l.graph = self.graph_name;
        }
        assert(l == log_with_defaults(*log, self.account_key, self.graph_name));
        if is_blank(l.sender) || is_blank(l.receiver) || is_blank(l.account_key) || is_blank(
            l.graph,
        ) {
            return true;
        }
        match find_log(&self.aggregated_logs, l.sender, l.receiver) {
            None => true,
            Some(i) => {
                let e = &self.aggregated_logs[i];
                proof {
                    assert forall|j: int|
                        0 <= j < self.logs().len() && #[trigger] log_key(self.logs()[j])
                            == log_key(l) implies j == i as int by {
                        if j != i as int {
                            assert(log_key(self.logs()[j]) != log_key(self.logs()[i as int]));
                        }
                    }
                }
                e.count < i64::MAX && (!l.is_error || e.errors < i64::MAX)
            },
        }
    }

    /// Whether this logger holds an entry equal to `log` in every field.
    pub fn holds_log(&self, log: &Log) -> (r: bool)
        requires
            self.wf(),
        ensures
            r == holds_same_log(self.logs(), *log),
    {
        match find_log(&self.aggregated_logs, log.sender, log.receiver) {
            Some(i) => {
                let found = same_log(&self.aggregated_logs[i], log);
                proof {
                    if !found {
                        assert forall|j: int| 0 <= j < self.logs().len() implies !same_log_spec(
                            #[trigger] self.logs()[j],
                            *log,
                        ) by {
                            if j != i as int && same_log_spec(self.logs()[j], *log) {
                                assert(log_key(self.logs()[j]) != log_key(self.logs()[i as int]));
                            }
                        }
                    }
                }
                found
            },
            None => {
                assert forall|j: int| 0 <= j < self.logs().len() implies !same_log_spec(
                    #[trigger] self.logs()[j],
                    *log,
                ) by {
                    if same_log_spec(self.logs()[j], *log) {
                        assert(log_key(self.logs()[j]) == log_key(*log));
                    }
                }
                false
            },
        }
    }

    /// The request that sends everything aggregated so far, which is cleared;
    /// none from a disabled logger, which is left as it was.
    pub fn pending_request(&mut self) -> (r: Option<Request>)
        ensures
            old(self).is_disabled ==> r is None && final(self).logs() == old(self).logs()
                && final(self).stats() == old(self).stats(),
            !old(self).is_disabled ==> r is Some,
            r matches Some(req) ==> {
                &&& req.time_logs@ == old(self).logs()
                &&& req.time_stats@ == old(self).stats()
                &&& req.account_key == request_account(old(self).logs(), old(self).stats())
                &&& final(self).logs().len() == 0
                &&& final(self).stats().len() == 0
                &&& final(self).wf()
            },
            final(self).same_settings(old(self)),
    {
        if self.is_disabled {
            return None;
        }
        Some(self.take_request())
    }

    /// Whether adding `stat` keeps every sample count below `i64::MAX`, so
    /// that `add_stat` may be called with it.
    pub fn can_take_stat(&self, stat: &StatRecord) -> (r: bool)
        requires
            self.wf(),
        ensures
            r == self.stat_fits(*stat),
    {
        if !same_text(stat.kind, "average") {
            return true;
        }
        match find_stat(&self.aggregated_stats, stat.component, stat.name) {
            None => true,
            Some(i) => self.aggregated_stats[i].count < i64::MAX,
        }
    }

    /// A logger configured by `args`, with nothing aggregated yet.
    pub fn from_args(args: LoggerArg) -> (r: Logger)
        ensures
            r.wf(),
            r.logs().len() == 0,
            r.stats().len() == 0,
            r.account_key == args.account_key,
            r.graph_name == args.graph_name,
            r.is_disabled == args.is_disabled,
            r.is_dev_env == args.is_dev_env,
            !r.timer_started,
    {
        Logger {
            is_dev_env: args.is_dev_env,
            is_disabled: args.is_disabled,
            account_key: args.account_key,
            graph_name: args.graph_name,
            aggregated_logs: Vec::new(),
            aggregated_stats: Vec::new(),
            timer_started: false,
        }
    }

    /// A copy of this logger.
    fn duplicate(&self) -> (r: Logger)
        ensures
            r.logs() == self.logs(),
            r.stats() == self.stats(),
            r.same_settings(self),
    {
        let logs = self.aggregated_logs.clone();
        let stats = self.aggregated_stats.clone();
        assert(logs@ =~= self.aggregated_logs@) by {
            assert forall|i: int| 0 <= i < logs@.len() implies logs@[i]
                == self.aggregated_logs@[i] by {
                assert(cloned::<Log>(self.aggregated_logs@[i], logs@[i]));
            }
        }
        assert(stats@ =~= self.aggregated_stats@) by {
            assert forall|i: int| 0 <= i < stats@.len() implies stats@[i]
                == self.aggregated_stats@[i] by {
                assert(cloned::<StatRecord>(self.aggregated_stats@[i], stats@[i]));
            }
        }
        Logger {
            is_dev_env: self.is_dev_env,
            is_disabled: self.is_disabled,
            account_key: self.account_key,
            graph_name: self.graph_name,
            aggregated_logs: logs,
            aggregated_stats: stats,
            timer_started: self.timer_started,
        }
    }

    /// Extract vectors of all aggregated logs and statistics, and clear their
    /// entries in the logger.
    pub fn collect_and_clear(&mut self) -> (r: (Vec<Log>, Vec<StatRecord>))
        ensures
            r.0@ == old(self).logs(),
            r.1@ == old(self).stats(),
            final(self).logs().len() == 0,
            final(self).stats().len() == 0,
            final(self).wf(),
            final(self).same_settings(old(self)),
    {
        let mut logs: Vec<Log> = Vec::new();
        let mut stats: Vec<StatRecord> = Vec::new();
        std::mem::swap(&mut logs, &mut self.aggregated_logs);
        std::mem::swap(&mut stats, &mut self.aggregated_stats);
        (logs, stats)
    }

    /// Extract vectors of all aggregated logs and statistics, and clear their
    /// entries in the logger.
    pub fn collect_messages(&mut self) -> (r: (Vec<Log>, Vec<StatRecord>))
        ensures
            r.0@ == old(self).logs(),
            r.1@ == old(self).stats(),
            final(self).logs().len() == 0,
            final(self).stats().len() == 0,
            final(self).wf(),
            final(self).same_settings(old(self)),
    {
        self.collect_and_clear()
    }

    /// The address to which aggregated data is sent: a local server in a
    /// development environment, the Llama Logs service otherwise.
    pub fn endpoint(&self) -> (r: &'static str)
        ensures
            r@ == endpoint_for(self.is_dev_env)@,
    {
        if self.is_dev_env {
            "http://localhost:4000/api/v0/timedata"
        } else {
            "https://llamalogs.com/api/v0/timedata"
        }
    }

    /// The request that sends everything aggregated so far, which is cleared.
    pub fn take_request(&mut self) -> (r: Request)
        ensures
            r.time_logs@ == old(self).logs(),
            r.time_stats@ == old(self).stats(),
            r.account_key == request_account(old(self).logs(), old(self).stats()),
            final(self).logs().len() == 0,
            final(self).stats().len() == 0,
            final(self).wf(),
            final(self).same_settings(old(self)),
    {
        let (logs, stats) = self.collect_and_clear();
        Request::from_lists(logs, stats)
    }

    /// Add a new log for processing
    pub fn process_log(&mut self, log: Log)
        requires
            old(self).wf(),
            old(self).process_fits(log),
        ensures
            final(self).wf(),
            final(self).logs() == old(self).logs_processed(log),
            final(self).stats() == old(self).stats(),
            final(self).same_settings(old(self)),
    {
        let ghost given = log;
        let mut log = log;
        if is_blank(log.account_key) {
            log.account_key = self.account_key;
        }
        if is_blank(log.graph) {
            log.graph = self.graph_name;
        }
        assert(log == log_with_defaults(given, self.account_key, self.graph_name));
        if is_blank(log.sender) || is_blank(log.receiver) || is_blank(log.account_key) || is_blank(
            log.graph,
        ) {
            return;
        }
        self.count_log_entry(log);
    }

    /// Add a new statistic for processing
    pub fn process_stat(&mut self, stat: StatRecord) -> (r: StatAction)
        requires
            old(self).wf(),
            old(self).stat_fits(stat),
        ensures
            final(self).wf(),
            final(self).stats() == old(self).stats_after(stat),
            r == old(self).stat_action(stat),
            final(self).logs() == old(self).logs(),
            final(self).same_settings(old(self)),
    {
        self.add_stat(stat)
    }

    /// Creates a new log for processing, stamped with the current time; a
    /// disabled logger takes none and reads no clock. The reading that
    /// stamps the log is returned.
    pub fn log(&mut self, args: LogArg) -> (reading: Option<ClockReading>)
        requires
            old(self).wf(),
            !old(self).is_disabled ==> old(self).process_fits(args.log_at(0)),
        ensures
            final(self).wf(),
            old(self).is_disabled ==> final(self).logs() == old(self).logs() && reading is None,
            !old(self).is_disabled ==> exists|ts: i64|
                final(self).logs() == old(self).logs_processed(#[trigger] args.log_at(ts)),
            !old(self).is_disabled ==> reading is Some,
            reading matches Some(c) ==> final(self).logs() == old(self).logs_processed(
                args.log_at(c@),
            ),
            final(self).stats() == old(self).stats(),
            final(self).same_settings(old(self)),
    {
        if self.is_disabled {
            return None;
        }
        let reading = read_clock();
        let log = args.to_log_at(reading.millis());
        assert(self.process_fits(log)) by {
            assert(log_key(args.log_at(0)) == log_key(log));
        }
        self.process_log(log);
        Some(reading)
    }

    /// `stat` made into a statistic of the given kind and processed; a
    /// disabled logger takes none.
    fn kind_stat(&mut self, stat: StatRecord, kind: &'static str) -> (r: StatAction)
        requires
            old(self).wf(),
            !old(self).is_disabled ==> old(self).stat_fits(StatRecord { kind, ..stat }),
        ensures
            final(self).wf(),
            old(self).is_disabled ==> final(self).stats() == old(self).stats() && r
                == StatAction::Unchanged,
            !old(self).is_disabled ==> final(self).stats() == old(self).stats_after(
                StatRecord { kind, ..stat },
            ) && r == old(self).stat_action(StatRecord { kind, ..stat }),
            final(self).logs() == old(self).logs(),
            final(self).same_settings(old(self)),
    {
        if self.is_disabled {
            return StatAction::Unchanged;
        }
        let mut s = stat;
        s.kind = kind;
        self.process_stat(s)
    }

    /// Creates a new point stat for processing
    pub fn point_stat(&mut self, stat: StatRecord) -> (r: StatAction)
        requires
            old(self).wf(),
        ensures
            final(self).wf(),
            old(self).is_disabled ==> final(self).stats() == old(self).stats() && r
                == StatAction::Unchanged,
            !old(self).is_disabled ==> final(self).stats() == old(self).stats_after(
                StatRecord { kind: "point", ..stat },
            ) && r == old(self).stat_action(StatRecord { kind: "point", ..stat }),
            final(self).logs() == old(self).logs(),
            final(self).same_settings(old(self)),
    {
        proof {
            reveal_strlit("point");
            reveal_strlit("average");
            assert("point"@.len() != "average"@.len());
        }
        self.kind_stat(stat, "point")
    }

    /// Creates a new average stat for processing
    pub fn average_stat(&mut self, stat: StatRecord) -> (r: StatAction)
        requires
            old(self).wf(),
            !old(self).is_disabled ==> old(self).stat_fits(StatRecord { kind: "average", ..stat }),
        ensures
            final(self).wf(),
            old(self).is_disabled ==> final(self).stats() == old(self).stats() && r
                == StatAction::Unchanged,
            !old(self).is_disabled ==> final(self).stats() == old(self).stats_after(
                StatRecord { kind: "average", ..stat },
            ) && r == old(self).stat_action(StatRecord { kind: "average", ..stat }),
            final(self).logs() == old(self).logs(),
            final(self).same_settings(old(self)),
    {
        self.kind_stat(stat, "average")
    }

    /// Creates a new max stat for processing
    pub fn max_stat(&mut self, stat: StatRecord) -> (r: StatAction)
        requires
            old(self).wf(),
        ensures
            final(self).wf(),
            old(self).is_disabled ==> final(self).stats() == old(self).stats() && r
                == StatAction::Unchanged,
            !old(self).is_disabled ==> final(self).stats() == old(self).stats_after(
                StatRecord { kind: "max", ..stat },
            ) && r == old(self).stat_action(StatRecord { kind: "max", ..stat }),
            final(self).logs() == old(self).logs(),
            final(self).same_settings(old(self)),
    {
        proof {
            reveal_strlit("average");
            reveal_strlit("max");
            assert("max"@.len() != "average"@.len());
        }
        self.kind_stat(stat, "max")
    }

    /// The state that taking `log` leads to, computed on a copy: none when
    /// the logger is disabled or already holds an entry equal to `log`.
    pub fn with_log(&self, log: Log) -> (r: Option<Logger>)
        requires
            self.wf(),
            (!self.is_disabled && !holds_same_log(self.logs(), log)) ==> self.log_fits(log),
        ensures
            (self.is_disabled || holds_same_log(self.logs(), log)) <==> r is None,
            r matches Some(s) ==> {
                &&& s.wf()
                &&& s.logs() == self.logs_after(log)
                &&& s.stats() == self.stats()
                &&& s.same_settings(self)
            },
    {
        if self.is_disabled {
            return None;
        }
        match find_log(&self.aggregated_logs, log.sender, log.receiver) {
            Some(i) => {
                if same_log(&self.aggregated_logs[i], &log) {
                    return None;
                }
                proof {
                    assert forall|j: int| 0 <= j < self.logs().len() implies !same_log_spec(
                        #[trigger] self.logs()[j],
                        log,
                    ) by {
                        if j != i as int && same_log_spec(self.logs()[j], log) {
                            assert(log_key(self.logs()[j]) != log_key(self.logs()[i as int]));
                        }
                    }
                }
            },
            None => {
                assert forall|j: int| 0 <= j < self.logs().len() implies !same_log_spec(
                    #[trigger] self.logs()[j],
                    log,
                ) by {
                    if same_log_spec(self.logs()[j], log) {
                        assert(log_key(self.logs()[j]) == log_key(log));
                    }
                }
            },
        }
        let mut next = self.duplicate();
        next.add_log(log);
        Some(next)
    }

    /// The state that taking `stat` leads to, computed on a copy, with what
    /// the caller does to its measured value: none when the logger is
    /// disabled.
    pub fn with_stat(&self, stat: StatRecord) -> (r: Option<(Logger, StatAction)>)
        requires
            self.wf(),
            !self.is_disabled ==> self.stat_fits(stat),
        ensures
            self.is_disabled <==> r is None,
            r matches Some(p) ==> {
                &&& p.0.wf()
                &&& p.0.stats() == self.stats_after(stat)
                &&& p.1 == self.stat_action(stat)
                &&& p.0.logs() == self.logs()
                &&& p.0.same_settings(self)
            },
    {
        if self.is_disabled {
            return None;
        }
        let mut next = self.duplicate();
        let action = next.add_stat(stat);
        Some((next, action))
    }
}

impl Default for Logger {
    fn default() -> (r: Logger)
        ensures
            r.wf(),
            r.logs().len() == 0,
            r.stats().len() == 0,
            r.account_key@.len() == 0,
            r.graph_name@.len() == 0,
            !r.is_disabled,
            !r.is_dev_env,
            !r.timer_started,
    {
        proof {
            reveal_strlit("");
        }
        Logger {
            is_dev_env: false,
            is_disabled: false,
            account_key: "",
            graph_name: "",
            aggregated_logs: Vec::new(),
            aggregated_stats: Vec::new(),
            timer_started: false,
        }
    }
}

/// The address to which aggregated data is sent.
pub open spec fn endpoint_for(is_dev_env: bool) -> &'static str {
    if is_dev_env {
        "http://localhost:4000/api/v0/timedata"
    } else {
        "https://llamalogs.com/api/v0/timedata"
    }
}

/// The account under which a request is sent: that of the first statistic
/// if there is one, else that of the first log, else none.
pub open spec fn request_account(logs: Seq<Log>, stats: Seq<StatRecord>) -> &'static str {
    if stats.len() > 0 {
        stats[0].account
    } else if logs.len() > 0 {
        logs[0].account_key
    } else {
        ""
    }
}

/// Two logs agree on every field, text compared by its characters.
pub open spec fn same_log_spec(a: Log, b: Log) -> bool {
    &&& a.account_key@ == b.account_key@
    &&& a.graph@ == b.graph@
    &&& a.start_time == b.start_time
    &&& a.initial_message_count == b.initial_message_count
    &&& a.error_message@ == b.error_message@
    &&& a.count == b.count
    &&& a.errors == b.errors
    &&& a.message@ == b.message@
    &&& a.sender@ == b.sender@
    &&& a.receiver@ == b.receiver@
    &&& a.is_error == b.is_error
    &&& a.timestamp == b.timestamp
    &&& a.is_initial_message == b.is_initial_message
    &&& a.elapsed == b.elapsed
}

/// Whether `logs` holds an entry equal to `log`.
pub open spec fn holds_same_log(logs: Seq<Log>, log: Log) -> bool {
    exists|i: int| 0 <= i < logs.len() && same_log_spec(#[trigger] logs[i], log)
}

/// Whether two logs agree on every field.
pub fn same_log(a: &Log, b: &Log) -> (r: bool)
    ensures
        r == same_log_spec(*a, *b),
{
    same_text(a.account_key, b.account_key) && same_text(a.graph, b.graph) && a.start_time
        == b.start_time && a.initial_message_count == b.initial_message_count && same_text(
        a.error_message,
        b.error_message,
    ) && a.count == b.count && a.errors == b.errors && same_text(a.message, b.message)
        && same_text(a.sender, b.sender) && same_text(a.receiver, b.receiver) && a.is_error
        == b.is_error && a.timestamp == b.timestamp && a.is_initial_message
        == b.is_initial_message && a.elapsed == b.elapsed
}

/// A structure for sending a network request to the Llama Logs service
#[derive(Debug)]
pub struct Request {
    pub account_key: &'static str,
    pub time_logs: Vec<Log>,
    pub time_stats: Vec<StatRecord>,
}

impl Request {
    /// The request that carries `logs` and `stats`.
    pub fn from_lists(logs: Vec<Log>, stats: Vec<StatRecord>) -> (r: Request)
        ensures
            r.time_logs@ == logs@,
            r.time_stats@ == stats@,
            r.account_key == request_account(logs@, stats@),
    {
        let mut account_key: &'static str = "";
        if logs.len() > 0 {
            account_key = logs[0].account_key;
        }
        if stats.len() > 0 {
            account_key = stats[0].account;
        }
        Request { account_key, time_logs: logs, time_stats: stats }
    }
}

} // verus!
