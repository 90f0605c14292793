//! Reading out what a logger has aggregated.
use vstd::prelude::*;
use crate::types::{Log, Logger, StatRecord};

verus! {

/// Copies of all aggregated logs and statistics, which stay in `global`.
pub fn collect_messages(global: &Logger) -> (r: (Vec<Log>, Vec<StatRecord>))
    ensures
        r.0@ == global.logs(),
        r.1@ == global.stats(),
{
    let mut log_list: Vec<Log> = Vec::new();
    let mut stat_list: Vec<StatRecord> = Vec::new();
    let mut i: usize = 0;
    while i < global.aggregated_logs.len()
        invariant
            i <= global.aggregated_logs@.len(),
            log_list@ == global.aggregated_logs@.take(i as int),
        decreases global.aggregated_logs@.len() - i,
    {
        log_list.push(global.aggregated_logs[i]);
        assert(global.aggregated_logs@.take(i + 1) =~= global.aggregated_logs@.take(i as int).push(
            global.aggregated_logs@[i as int],
        ));
        i = i + 1;
    }
    assert(global.aggregated_logs@.take(i as int) =~= global.aggregated_logs@);
    let mut j: usize = 0;
    while j < global.aggregated_stats.len()
        invariant
            j <= global.aggregated_stats@.len(),
            stat_list@ == global.aggregated_stats@.take(j as int),
        decreases global.aggregated_stats@.len() - j,
    {
        stat_list.push(global.aggregated_stats[j]);
        assert(global.aggregated_stats@.take(j + 1) =~= global.aggregated_stats@.take(
            j as int,
        ).push(global.aggregated_stats@[j as int]));
        j = j + 1;
    }
    assert(global.aggregated_stats@.take(j as int) =~= global.aggregated_stats@);
    (log_list, stat_list)
}

} // verus!
