//! Aggregation as free functions over the global logger state.
use vstd::prelude::*;
use crate::types::{
    action_for, aggregate_average, aggregate_max, aggregate_stat, count_log, entry_counts_fit,
    has_stat_key, slot_after, stat_counts_fit, stat_key, stat_slot, Log, Logger, StatAction,
    StatRecord,
};

verus! {

/// Starts the timer that sends aggregated data; sending on a timer is done
/// by the client, so the state is left as it was.
pub fn start_timer(global: &mut Logger)
    ensures
        *final(global) == *old(global),
{
}

/// Aggregates `stat` by its kind, without filling in defaults.
pub fn add_stat(global: &mut Logger, stat: StatRecord) -> (r: StatAction)
    requires
        old(global).wf(),
        stat_counts_fit(old(global).stats(), stat),
    ensures
        final(global).wf(),
        final(global).stats() == aggregate_stat(old(global).stats(), stat),
        r == action_for(old(global).stats(), stat),
        final(global).logs() == old(global).logs(),
        final(global).same_settings(old(global)),
{
    global.insert_stat(stat)
}

/// Aggregates `stat` as an average under its (component, name) pair.
pub fn add_stat_avg(global: &mut Logger, stat: StatRecord) -> (r: StatAction)
    requires
        old(global).wf(),
        has_stat_key(old(global).stats(), stat_key(stat)) ==> old(global).stats()[stat_slot(
            old(global).stats(),
            stat_key(stat),
        )].count < i64::MAX,
    ensures
        final(global).wf(),
        final(global).stats() == aggregate_average(old(global).stats(), stat),
        r == (StatAction::Accumulate {
            slot: slot_after(old(global).stats(), stat).0,
            fresh: slot_after(old(global).stats(), stat).1,
        }),
        final(global).logs() == old(global).logs(),
        final(global).same_settings(old(global)),
{
    global.add_stat_avg(stat)
}

/// Aggregates `stat` as a maximum under its (component, name) pair.
pub fn add_stat_max(global: &mut Logger, stat: StatRecord) -> (r: StatAction)
    requires
        old(global).wf(),
    ensures
        final(global).wf(),
        final(global).stats() == aggregate_max(old(global).stats(), stat),
        r == (StatAction::Raise {
            slot: slot_after(old(global).stats(), stat).0,
            fresh: slot_after(old(global).stats(), stat).1,
        }),
        final(global).logs() == old(global).logs(),
        final(global).same_settings(old(global)),
{
    global.add_stat_max(stat)
}

/// Aggregates `log` under its (sender, receiver) pair, as it is: the entry
/// of a pair seen before counts it, and a new pair starts from an empty
/// aggregate.
pub fn add_log(global: &mut Logger, log: Log)
    requires
        old(global).wf(),
        entry_counts_fit(old(global).logs(), log),
    ensures
        final(global).wf(),
        final(global).logs() == count_log(old(global).logs(), log),
        final(global).stats() == old(global).stats(),
        final(global).same_settings(old(global)),
{
    global.count_log_entry(log)
}

} // verus!
