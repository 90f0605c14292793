//! Entry points that configure a logger, take logs and hand over what is to
//! be sent.
use vstd::prelude::*;
use crate::args::{ClockReading, LogArg, LoggerArg};
use crate::types::{request_account, Logger, Request};

verus! {

/// Sets the accountKey and graphName to be used as defaults for all future
/// calls. Also marks the timer, which sends the data into the Llama Logs
/// server on a recurring basis, as started, unless the logger is disabled.
pub fn init(args: LoggerArg, state: &mut Logger)
    ensures
        final(state).graph_name == args.graph_name,
        final(state).account_key == args.account_key,
        final(state).is_dev_env == args.is_dev_env,
        final(state).is_disabled == args.is_disabled,
        final(state).timer_started == (old(state).timer_started || !args.is_disabled),
        final(state).aggregated_logs == old(state).aggregated_logs,
        final(state).aggregated_stats == old(state).aggregated_stats,
{
    state.graph_name = args.graph_name;
    state.account_key = args.account_key;
    state.is_dev_env = args.is_dev_env;
    state.is_disabled = args.is_disabled;
    if !state.is_disabled {
        state.timer_started = true;
    }
}

/// Logs an event that will be sent to the visual Llama Log graph on the
/// website. Logs are aggregated client side and then sent in as a batch to the
/// server on a repeating interval; a disabled logger takes none.
pub fn log(args: LogArg, state: &mut Logger) -> (reading: Option<ClockReading>)
    requires
        old(state).wf(),
        !old(state).is_disabled ==> old(state).process_fits(args.log_at(0)),
    ensures
        final(state).wf(),
        old(state).is_disabled ==> final(state).logs() == old(state).logs() && reading is None,
        !old(state).is_disabled ==> exists|ts: i64|
            final(state).logs() == old(state).logs_processed(#[trigger] args.log_at(ts)),
        !old(state).is_disabled ==> reading is Some,
        reading matches Some(c) ==> final(state).logs() == old(state).logs_processed(
            args.log_at(c@),
        ),
        final(state).stats() == old(state).stats(),
        final(state).same_settings(old(state)),
{
    state.log(args)
}

/// Hands over, as one request for the Llama Logs server, the aggregated logs
/// and stats, which the state no longer holds. The https request itself is
/// made by the caller. Each Llama Logs account has rate limits so forcing
/// sends in a loop will trigger the limits.
pub fn force_send(state: &mut Logger) -> (r: Request)
    ensures
        r.time_logs@ == old(state).logs(),
        r.time_stats@ == old(state).stats(),
        r.account_key == request_account(old(state).logs(), old(state).stats()),
        final(state).logs().len() == 0,
        final(state).stats().len() == 0,
        final(state).wf(),
        final(state).same_settings(old(state)),
{
    state.take_request()
}

} // verus!
