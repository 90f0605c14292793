//! Properties of aggregation that hold across calls.
use vstd::prelude::*;
use crate::types::{
    counted_entry,
    aggregate_average, aggregate_log, aggregate_max, has_log_key, has_stat_key, log_counts_fit, log_is_complete,
    first_entry,
    log_key, log_keys_distinct, log_with_defaults, logs_after_with, merged_entry, request_account, slot_after,
    stat_key, stat_keys_distinct, stat_slot, Log, Logger, StatRecord, lemma_log_push_distinct,
    lemma_merge_is_update, lemma_stat_push_distinct, lemma_stat_update_distinct, aggregate_stat,
    stat_with_defaults, count_log, entry_counts_fit,
};
use crate::args::LogArg;

verus! {

/// A complete log is counted exactly once under its (sender, receiver)
/// pair: the pair's entry counts one more log, and one more error when the
/// log is an error; a pair seen for the first time gets a new entry at the
/// end; every other entry is left as it was, and pairs stay distinct.
pub proof fn lemma_log_counted_once(logs: Seq<Log>, log: Log)
    requires
        log_keys_distinct(logs),
        log_counts_fit(logs, log),
    ensures
        log_keys_distinct(aggregate_log(logs, log)),
        has_log_key(aggregate_log(logs, log), log_key(log)),
        has_log_key(logs, log_key(log)) ==> aggregate_log(logs, log).len() == logs.len(),
        !has_log_key(logs, log_key(log)) ==> {
            &&& aggregate_log(logs, log).len() == logs.len() + 1
            &&& aggregate_log(logs, log).last().count == log.count + 1
            &&& aggregate_log(logs, log).last().errors == log.errors + (if log.is_error {
                1int
            } else {
                0int
            })
        },
        forall|i: int|
            0 <= i < logs.len() ==> {
                let after = #[trigger] aggregate_log(logs, log)[i];
                if log_key(logs[i]) == log_key(log) {
                    &&& after.count == logs[i].count + 1
                    &&& after.errors == logs[i].errors + (if log.is_error {
                        1int
                    } else {
                        0int
                    })
                    &&& log_key(after) == log_key(log)
                } else {
                    after == logs[i]
                }
            },
{
    let after = aggregate_log(logs, log);
    if has_log_key(logs, log_key(log)) {
        let k = choose|k: int| 0 <= k < logs.len() && #[trigger] log_key(logs[k]) == log_key(log);
        lemma_merge_is_update(logs, k, log);
        assert(log_key(after[k]) == log_key(log));
    } else {
        assert(log_key(first_entry(log)) == log_key(log));
        lemma_log_push_distinct(logs, first_entry(log));
        assert(log_key(after[logs.len() as int]) == log_key(log));
    }
}

/// A log without a sender or a receiver, or without an account or a graph
/// once the logger's defaults are filled in, is dropped.
pub proof fn lemma_incomplete_log_dropped(logger: Logger, log: Log)
    requires
        !log_is_complete(log_with_defaults(log, logger.account_key, logger.graph_name)),
    ensures
        logger.logs_after(log) == logger.logs(),
{
}

/// A log that opens a new entry takes the logger's account key and graph
/// where it names none of its own.
pub proof fn lemma_new_entry_takes_defaults(logger: Logger, log: Log)
    requires
        log_is_complete(log_with_defaults(log, logger.account_key, logger.graph_name)),
        !has_log_key(logger.logs(), log_key(log)),
    ensures
        logger.logs_after(log).last().account_key == (if log.account_key@.len() == 0 {
            logger.account_key
        } else {
            log.account_key
        }),
        logger.logs_after(log).last().graph == (if log.graph@.len() == 0 {
            logger.graph_name
        } else {
            log.graph
        }),
{
    let l = log_with_defaults(log, logger.account_key, logger.graph_name);
    assert(log_key(l) == log_key(log));
}

/// An aggregated entry keeps the first non-error message and the first error
/// message it received: once set, neither is replaced by a later log.
pub proof fn lemma_first_messages_kept(entry: Log, log: Log)
    ensures
        entry.message@.len() > 0 ==> merged_entry(entry, log).message == entry.message,
        entry.error_message@.len() > 0 ==> merged_entry(entry, log).error_message
            == entry.error_message,
        !log.is_error ==> merged_entry(entry, log).error_message == entry.error_message,
        log.is_error ==> merged_entry(entry, log).message == entry.message,
{
}

/// Each average statistic counts one sample under its (component, name)
/// pair: the pair's record, in the slot that the caller is told, counts one
/// more sample, or a first one when the pair is new; pairs stay distinct.
pub proof fn lemma_average_counts_samples(stats: Seq<StatRecord>, stat: StatRecord)
    requires
        stats.len() < usize::MAX,
        stat_keys_distinct(stats),
        has_stat_key(stats, stat_key(stat)) ==> stats[stat_slot(stats, stat_key(stat))].count
            < i64::MAX,
    ensures
        stat_keys_distinct(aggregate_average(stats, stat)),
        ({
            let (slot, fresh) = slot_after(stats, stat);
            let after = aggregate_average(stats, stat);
            &&& 0 <= slot < after.len()
            &&& stat_key(after[slot as int]) == stat_key(stat)
            &&& fresh ==> after[slot as int].count == 1 && after.len() == stats.len() + 1
            &&& !fresh ==> after[slot as int].count == stats[slot as int].count + 1 && after.len()
                == stats.len()
        }),
{
    let after = aggregate_average(stats, stat);
    if has_stat_key(stats, stat_key(stat)) {
        let k = stat_slot(stats, stat_key(stat));
        assert(0 <= k < stats.len() && stat_key(stats[k]) == stat_key(stat));
        lemma_stat_update_distinct(stats, k, StatRecord { count: (stats[k].count + 1) as i64, ..stats[k] });
        assert(stat_key(after[k]) == stat_key(stat));
    } else {
        lemma_stat_push_distinct(stats, StatRecord { count: 1, ..stat });
        assert(stat_key(after[stats.len() as int]) == stat_key(stat));
    }
}

/// A maximum statistic changes no record of a pair seen before: only the
/// value in its slot may rise.
pub proof fn lemma_max_keeps_records(stats: Seq<StatRecord>, stat: StatRecord)
    requires
        has_stat_key(stats, stat_key(stat)),
    ensures
        aggregate_max(stats, stat) == stats,
        slot_after(stats, stat).1 == false,
{
}

/// A request carries the account of its first statistic when it has one,
/// and otherwise that of its first log.
pub proof fn lemma_request_account(logs: Seq<Log>, stats: Seq<StatRecord>)
    ensures
        stats.len() > 0 ==> request_account(logs, stats) == stats[0].account,
        stats.len() == 0 && logs.len() > 0 ==> request_account(logs, stats) == logs[0].account_key,
{
}

/// The sum of the counts of `logs`.
pub open spec fn total_count(logs: Seq<Log>) -> int
    decreases logs.len(),
{
    if logs.len() == 0 {
        0
    } else {
        total_count(logs.drop_last()) + logs.last().count
    }
}

/// The sum of the error counts of `logs`.
pub open spec fn total_errors(logs: Seq<Log>) -> int
    decreases logs.len(),
{
    if logs.len() == 0 {
        0
    } else {
        total_errors(logs.drop_last()) + logs.last().errors
    }
}

/// Every entry counts no more errors than logs, and no fewer than none.
pub open spec fn errors_within_counts(logs: Seq<Log>) -> bool {
    forall|i: int| 0 <= i < logs.len() ==> 0 <= #[trigger] logs[i].errors <= logs[i].count
}

/// Every entry names a sender, a receiver, an account and a graph.
pub open spec fn entries_complete(logs: Seq<Log>) -> bool {
    forall|i: int| 0 <= i < logs.len() ==> log_is_complete(#[trigger] logs[i])
}

/// The aggregated logs after the logs of `ls` are added one after another,
/// in order, to `logs` by a logger whose defaults are `account` and `graph`.
pub open spec fn logs_after_all(
    logs: Seq<Log>,
    account: &'static str,
    graph: &'static str,
    ls: Seq<Log>,
) -> Seq<Log>
    decreases ls.len(),
{
    if ls.len() == 0 {
        logs
    } else {
        logs_after_with(logs_after_all(logs, account, graph, ls.drop_last()), account, graph, ls.last())
    }
}

/// How many logs of `ls` are complete once the defaults are filled in.
pub open spec fn complete_logs(ls: Seq<Log>, account: &'static str, graph: &'static str) -> int
    decreases ls.len(),
{
    if ls.len() == 0 {
        0
    } else {
        complete_logs(ls.drop_last(), account, graph) + if log_is_complete(
            log_with_defaults(ls.last(), account, graph),
        ) {
            1int
        } else {
            0int
        }
    }
}

/// How many logs of `ls` are complete errors once the defaults are filled in.
pub open spec fn complete_errors(ls: Seq<Log>, account: &'static str, graph: &'static str) -> int
    decreases ls.len(),
{
    if ls.len() == 0 {
        0
    } else {
        complete_errors(ls.drop_last(), account, graph) + if log_is_complete(
            log_with_defaults(ls.last(), account, graph),
        ) && ls.last().is_error {
            1int
        } else {
            0int
        }
    }
}

proof fn lemma_totals_update(s: Seq<Log>, k: int, e: Log)
    requires
        0 <= k < s.len(),
    ensures
        total_count(s.update(k, e)) == total_count(s) - s[k].count + e.count,
        total_errors(s.update(k, e)) == total_errors(s) - s[k].errors + e.errors,
    decreases s.len(),
{
    let u = s.update(k, e);
    if k == s.len() - 1 {
        assert(u.drop_last() =~= s.drop_last());
    } else {
        assert(u.drop_last() =~= s.drop_last().update(k, e));
        lemma_totals_update(s.drop_last(), k, e);
    }
}

proof fn lemma_totals_push(s: Seq<Log>, e: Log)
    ensures
        total_count(s.push(e)) == total_count(s) + e.count,
        total_errors(s.push(e)) == total_errors(s) + e.errors,
{
    assert(s.push(e).drop_last() =~= s);
}

proof fn lemma_entry_within_total(s: Seq<Log>, k: int)
    requires
        errors_within_counts(s),
        0 <= k < s.len(),
    ensures
        s[k].count <= total_count(s),
    decreases s.len(),
{
    lemma_total_nonnegative(s.drop_last());
    if k < s.len() - 1 {
        assert(s.drop_last()[k] == s[k]);
        lemma_entry_within_total(s.drop_last(), k);
    }
    assert(0 <= s[s.len() - 1].errors);
}

proof fn lemma_total_nonnegative(s: Seq<Log>)
    requires
        errors_within_counts(s),
    ensures
        total_count(s) >= 0,
    decreases s.len(),
{
    if s.len() > 0 {
        assert(0 <= s[s.len() - 1].errors);
        lemma_total_nonnegative(s.drop_last());
    }
}

/// One fresh log (counted zero times, with no errors) adds one to the total
/// count when it is complete, and one to the total errors when it is also an
/// error; pairs stay distinct and no entry counts more errors than logs.
pub proof fn lemma_fresh_log_adds_one(
    logs: Seq<Log>,
    account: &'static str,
    graph: &'static str,
    log: Log,
)
    requires
        log_keys_distinct(logs),
        errors_within_counts(logs),
        total_count(logs) < i64::MAX,
        log.count == 0,
        log.errors == 0,
    ensures
        ({
            let after = logs_after_with(logs, account, graph, log);
            let complete = log_is_complete(log_with_defaults(log, account, graph));
            &&& log_keys_distinct(after)
            &&& errors_within_counts(after)
            &&& total_count(after) == total_count(logs) + if complete {
                1int
            } else {
                0int
            }
            &&& total_errors(after) == total_errors(logs) + if complete && log.is_error {
                1int
            } else {
                0int
            }
        }),
{
    let l = log_with_defaults(log, account, graph);
    if log_is_complete(l) {
        let after = aggregate_log(logs, l);
        if has_log_key(logs, log_key(l)) {
            let k = choose|k: int| 0 <= k < logs.len() && #[trigger] log_key(logs[k]) == log_key(l);
            lemma_entry_within_total(logs, k);
            assert(0 <= logs[k].errors <= logs[k].count);
            assert(log_counts_fit(logs, l)) by {
                assert forall|i: int|
                    0 <= i < logs.len() && #[trigger] log_key(logs[i]) == log_key(l) implies {
                    &&& logs[i].count < i64::MAX
                    &&& l.is_error ==> logs[i].errors < i64::MAX
                } by {
                    if i != k {
                        assert(log_key(logs[i]) != log_key(logs[k]));
                    }
                }
            }
            lemma_log_counted_once(logs, l);
            lemma_merge_is_update(logs, k, l);
            lemma_totals_update(logs, k, merged_entry(logs[k], l));
            assert forall|i: int| 0 <= i < after.len() implies 0 <= #[trigger] after[i].errors
                <= after[i].count by {
                if i != k {
                    assert(after[i] == logs[i]);
                }
            }
        } else {
            lemma_log_counted_once(logs, l);
            lemma_totals_push(logs, first_entry(l));
            assert forall|i: int| 0 <= i < after.len() implies 0 <= #[trigger] after[i].errors
                <= after[i].count by {
                if i < logs.len() {
                    assert(after[i] == logs[i]);
                }
            }
        }
    }
}

/// The logs given to a logger with no entries, one after another, all fresh
/// (counted zero times, with no errors): the counts of its entries add up to
/// the number of complete logs among them, the error counts to the number of
/// complete errors, and no entry counts more errors than logs. Each `add_log`
/// call takes one step of `logs_after_all`.
pub proof fn lemma_counts_add_up(account: &'static str, graph: &'static str, ls: Seq<Log>)
    requires
        ls.len() < i64::MAX,
        forall|i: int| 0 <= i < ls.len() ==> #[trigger] ls[i].count == 0 && ls[i].errors == 0,
    ensures
        ({
            let r = logs_after_all(Seq::empty(), account, graph, ls);
            &&& log_keys_distinct(r)
            &&& errors_within_counts(r)
            &&& total_count(r) == complete_logs(ls, account, graph)
            &&& total_errors(r) == complete_errors(ls, account, graph)
            &&& complete_logs(ls, account, graph) <= ls.len()
        }),
    decreases ls.len(),
{
    if ls.len() > 0 {
        let prefix = ls.drop_last();
        assert forall|i: int| 0 <= i < prefix.len() implies #[trigger] prefix[i].count == 0
            && prefix[i].errors == 0 by {
            assert(prefix[i] == ls[i]);
            assert(ls[i].count == 0);
        }
        lemma_counts_add_up(account, graph, prefix);
        let before = logs_after_all(Seq::empty(), account, graph, prefix);
        assert(ls.last() == ls[ls.len() - 1]);
        assert(ls[ls.len() - 1].count == 0);
        lemma_fresh_log_adds_one(before, account, graph, ls.last());
    }
}

/// Once every entry names a sender, a receiver, an account and a graph, every
/// entry still does after another log is added, whether a new pair opens with
/// the log itself (`add_log`) or from an empty aggregate (`process_log`). No
/// bound on the counters is needed.
pub proof fn lemma_entries_stay_complete(
    logs: Seq<Log>,
    account: &'static str,
    graph: &'static str,
    log: Log,
)
    requires
        entries_complete(logs),
    ensures
        entries_complete(logs_after_with(logs, account, graph, log)),
        log_is_complete(log_with_defaults(log, account, graph)) ==> entries_complete(
            count_log(logs, log_with_defaults(log, account, graph)),
        ),
{
    let l = log_with_defaults(log, account, graph);
    let after = logs_after_with(logs, account, graph, log);
    if log_is_complete(l) {
        assert forall|i: int| 0 <= i < after.len() implies log_is_complete(#[trigger] after[i]) by {
            if i < logs.len() {
                assert(log_is_complete(logs[i]));
            }
        }
        let counted = count_log(logs, l);
        assert forall|i: int| 0 <= i < counted.len() implies log_is_complete(
            #[trigger] counted[i],
        ) by {
            if i < logs.len() {
                assert(log_is_complete(logs[i]));
            }
        }
    }
}

/// Processing a statistic is adding it with the logger's defaults filled
/// in: `process_stat(stat)` and `add_stat` of the statistic with the default
/// account and graph aggregate the same records, return the same action and
/// need the same bound on counts.
pub proof fn lemma_process_stat_is_add_with_defaults(logger: Logger, stat: StatRecord)
    ensures
        ({
            let d = stat_with_defaults(stat, logger.account_key, logger.graph_name);
            &&& logger.stats_after(stat) == aggregate_stat(logger.stats(), d)
            &&& logger.stats_after(d) == logger.stats_after(stat)
            &&& logger.stat_action(d) == logger.stat_action(stat)
            &&& logger.stat_fits(d) == logger.stat_fits(stat)
        }),
{
    let d = stat_with_defaults(stat, logger.account_key, logger.graph_name);
    assert(stat_with_defaults(d, logger.account_key, logger.graph_name) == d);
    assert(stat_key(d) == stat_key(stat));
}

/// Filling in defaults changes only what a log leaves empty: its own account
/// and graph are kept whatever the defaults are, an empty one takes the
/// default, and every other field is the log's.
pub proof fn lemma_log_defaults_fill_only_empty(
    log: Log,
    account: &'static str,
    graph: &'static str,
)
    ensures
        ({
            let d = log_with_defaults(log, account, graph);
            &&& log.account_key@.len() > 0 ==> d.account_key == log.account_key
            &&& log.account_key@.len() == 0 ==> d.account_key == account
            &&& log.graph@.len() > 0 ==> d.graph == log.graph
            &&& log.graph@.len() == 0 ==> d.graph == graph
            &&& d.sender == log.sender
            &&& d.receiver == log.receiver
            &&& d.message == log.message
            &&& d.error_message == log.error_message
            &&& d.count == log.count
            &&& d.errors == log.errors
            &&& d.is_error == log.is_error
            &&& d.timestamp == log.timestamp
            &&& d.start_time == log.start_time
            &&& d.elapsed == log.elapsed
            &&& d.initial_message_count == log.initial_message_count
            &&& d.is_initial_message == log.is_initial_message
        }),
{
}

/// A log that names its sender, receiver, account and graph is taken by
/// every logger, whatever its defaults, whether added or processed: its pair
/// then has an entry, and an entry opened by it carries the log's own
/// account and graph.
pub proof fn lemma_named_log_is_taken(logger: Logger, log: Log)
    requires
        log.sender@.len() > 0,
        log.receiver@.len() > 0,
        log.account_key@.len() > 0,
        log.graph@.len() > 0,
    ensures
        has_log_key(logger.logs_after(log), log_key(log)),
        has_log_key(logger.logs_processed(log), log_key(log)),
        !has_log_key(logger.logs(), log_key(log)) ==> {
            &&& logger.logs_after(log).len() == logger.logs().len() + 1
            &&& logger.logs_after(log).last().account_key == log.account_key
            &&& logger.logs_after(log).last().graph == log.graph
            &&& logger.logs_processed(log).len() == logger.logs().len() + 1
            &&& logger.logs_processed(log).last().account_key == log.account_key
            &&& logger.logs_processed(log).last().graph == log.graph
        },
{
    let l = log_with_defaults(log, logger.account_key, logger.graph_name);
    assert(l == log);
    let logs = logger.logs();
    if has_log_key(logs, log_key(log)) {
        let k = choose|k: int| 0 <= k < logs.len() && #[trigger] log_key(logs[k]) == log_key(log);
        assert(log_key(logger.logs_after(log)[k]) == log_key(log));
        assert(log_key(logger.logs_processed(log)[k]) == log_key(log));
    } else {
        assert(log_key(logger.logs_after(log)[logs.len() as int]) == log_key(log));
        assert(log_key(logger.logs_processed(log)[logs.len() as int]) == log_key(log));
    }
}

/// Counting a log from an empty aggregate, as `process_log` and the free
/// `add_log` do: a new pair's entry, appended after the untouched entries,
/// counts one log, one error exactly when the log is an error, the log's
/// message as its message only for a non-error and as its error message only
/// for an error, and no elapsed time; a pair seen before counts one more log
/// and one more error exactly for an error, and every other entry is left as
/// it was. Pairs stay distinct.
pub proof fn lemma_counted_from_empty(logs: Seq<Log>, log: Log)
    requires
        log_keys_distinct(logs),
        entry_counts_fit(logs, log),
    ensures
        log_keys_distinct(count_log(logs, log)),
        !has_log_key(logs, log_key(log)) ==> {
            let after = count_log(logs, log);
            let e = after.last();
            &&& after.len() == logs.len() + 1
            &&& after.drop_last() == logs
            &&& e.count == 1
            &&& e.errors == (if log.is_error {
                1int
            } else {
                0int
            })
            &&& e.message@ == (if log.is_error {
                Seq::<char>::empty()
            } else {
                log.message@
            })
            &&& e.error_message@ == (if log.is_error {
                log.message@
            } else {
                Seq::<char>::empty()
            })
            &&& e.elapsed == 0
            &&& e.sender == log.sender
            &&& e.receiver == log.receiver
            &&& e.account_key == log.account_key
            &&& e.graph == log.graph
        },
        has_log_key(logs, log_key(log)) ==> count_log(logs, log).len() == logs.len(),
        forall|i: int|
            0 <= i < logs.len() ==> {
                let after = #[trigger] count_log(logs, log)[i];
                if log_key(logs[i]) == log_key(log) {
                    &&& after.count == logs[i].count + 1
                    &&& after.errors == logs[i].errors + (if log.is_error {
                        1int
                    } else {
                        0int
                    })
                    &&& log_key(after) == log_key(log)
                } else {
                    after == logs[i]
                }
            },
{
    reveal_strlit("");
    let after = count_log(logs, log);
    if has_log_key(logs, log_key(log)) {
        let k = choose|k: int| 0 <= k < logs.len() && #[trigger] log_key(logs[k]) == log_key(log);
        lemma_merge_is_update(logs, k, log);
    } else {
        let e = counted_entry(log);
        assert(log_key(e) == log_key(log));
        lemma_log_push_distinct(logs, e);
        assert(after.drop_last() =~= logs);
    }
}

/// Filling in defaults changes only what a statistic leaves empty: its own
/// account and graph are kept whatever the defaults are, an empty one takes
/// the default, and every other field is the statistic's.
pub proof fn lemma_stat_defaults_fill_only_empty(
    stat: StatRecord,
    account: &'static str,
    graph: &'static str,
)
    ensures
        ({
            let d = stat_with_defaults(stat, account, graph);
            &&& stat.account@.len() > 0 ==> d.account == stat.account
            &&& stat.account@.len() == 0 ==> d.account == account
            &&& stat.graph@.len() > 0 ==> d.graph == stat.graph
            &&& stat.graph@.len() == 0 ==> d.graph == graph
            &&& d.component == stat.component
            &&& d.name == stat.name
            &&& d.kind == stat.kind
            &&& d.timestamp == stat.timestamp
            &&& d.count == stat.count
        }),
{
}

/// An average, maximum or point statistic of a pair not seen before is
/// appended after the untouched records as given: its component, name, kind
/// and timestamp, its own account and graph (an empty one filled from the
/// logger), counting one sample for an average and its own count otherwise;
/// and the caller is told to start that fresh slot.
pub proof fn lemma_new_stat_stored_as_given(logger: Logger, stat: StatRecord)
    requires
        logger.stats().len() < usize::MAX,
        !has_stat_key(logger.stats(), stat_key(stat)),
        stat.kind@ == "average"@ || stat.kind@ == "max"@ || stat.kind@ == "point"@,
    ensures
        ({
            let after = logger.stats_after(stat);
            let r = after.last();
            &&& after.len() == logger.stats().len() + 1
            &&& after.drop_last() == logger.stats()
            &&& r.component == stat.component
            &&& r.name == stat.name
            &&& r.kind == stat.kind
            &&& r.timestamp == stat.timestamp
            &&& r.account == (if stat.account@.len() == 0 {
                logger.account_key
            } else {
                stat.account
            })
            &&& r.graph == (if stat.graph@.len() == 0 {
                logger.graph_name
            } else {
                stat.graph
            })
            &&& r.count == (if stat.kind@ == "average"@ {
                1
            } else {
                stat.count
            })
            &&& slot_after(logger.stats(), stat_with_defaults(
                stat,
                logger.account_key,
                logger.graph_name,
            )) == (logger.stats().len() as usize, true)
        }),
{
    reveal_strlit("average");
    reveal_strlit("max");
    reveal_strlit("point");
    assert("point"@.len() != "average"@.len());
    assert("point"@.len() != "max"@.len());
    assert("max"@.len() != "average"@.len());
    let d = stat_with_defaults(stat, logger.account_key, logger.graph_name);
    assert(stat_key(d) == stat_key(stat));
    assert(logger.stats_after(stat).drop_last() =~= logger.stats());
}

/// A maximum statistic of a pair not seen before is appended exactly as
/// given, kind included; one of a pair seen before changes no record.
pub proof fn lemma_max_appended_as_given(stats: Seq<StatRecord>, stat: StatRecord)
    ensures
        !has_stat_key(stats, stat_key(stat)) ==> {
            &&& aggregate_max(stats, stat).len() == stats.len() + 1
            &&& aggregate_max(stats, stat).last() == stat
            &&& aggregate_max(stats, stat).drop_last() == stats
        },
        has_stat_key(stats, stat_key(stat)) ==> aggregate_max(stats, stat) == stats,
{
    if !has_stat_key(stats, stat_key(stat)) {
        assert(aggregate_max(stats, stat).drop_last() =~= stats);
    }
}

/// The log that arguments make at time `ts` is stamped and started at `ts`,
/// carries the arguments' sender, receiver, message, error flag, account and
/// graph, is an initial message, and counts nothing yet.
pub proof fn lemma_log_at_stamped(args: LogArg, ts: i64)
    ensures
        ({
            let l = args.log_at(ts);
            &&& l.timestamp == ts
            &&& l.start_time == ts
            &&& l.sender == args.sender
            &&& l.receiver == args.receiver
            &&& l.message == args.message
            &&& l.is_error == args.is_error
            &&& l.account_key == args.account_key
            &&& l.graph == args.graph_name
            &&& l.is_initial_message
            &&& l.count == 0
            &&& l.errors == 0
            &&& l.elapsed == 0
            &&& l.error_message@.len() == 0
        }),
{
    reveal_strlit("");
}

/// A log made from arguments at time `ts` and processed by a logger that has
/// no entry for its pair opens an entry stamped and started at `ts`: the
/// time that `Logger::log` returns as its clock reading.
pub proof fn lemma_processed_log_keeps_stamp(logger: Logger, args: LogArg, ts: i64)
    requires
        !has_log_key(logger.logs(), (args.sender@, args.receiver@)),
        log_is_complete(log_with_defaults(args.log_at(ts), logger.account_key, logger.graph_name)),
    ensures
        logger.logs_processed(args.log_at(ts)).len() == logger.logs().len() + 1,
        logger.logs_processed(args.log_at(ts)).last().timestamp == ts,
        logger.logs_processed(args.log_at(ts)).last().start_time == ts,
        logger.logs_processed(args.log_at(ts)).last().count == 1,
{
    let l = log_with_defaults(args.log_at(ts), logger.account_key, logger.graph_name);
    assert(log_key(l) == (args.sender@, args.receiver@));
}

} // verus!
