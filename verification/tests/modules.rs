use llamalogs::aggregator::{self, start_timer};
use llamalogs::args::{LogArg, LoggerArg};
use llamalogs::llama;
use llamalogs::log::{AggregatedLog, JSONFailure, Log};
use llamalogs::text::{is_blank, same_text};
use llamalogs::types::{Logger, StatAction, StatRecord};

#[test]
fn to_aggregate_copies_identity() {
    let l = Log {
        sender: String::from("User A"),
        receiver: String::from("Web Server"),
        timestamp: 9,
        message: String::from("hi"),
        is_initial_message: true,
        account: String::from("acc"),
        graph: String::from("g"),
        is_error: true,
        elapsed: 4,
    };
    let a = l.to_aggregate();
    assert_eq!(a.sender, "User A");
    assert_eq!(a.receiver, "Web Server");
    assert_eq!(a.account, "acc");
    assert_eq!(a.graph, "g");
    assert_eq!(a.count, 0);
    assert_eq!(a.errors, 0);
    assert_eq!(a.elapsed, 0);
    assert_eq!(a.message, "");
    assert_eq!(a.error_message, "");
    assert_eq!(a.initial_message_count, 0);
}

#[test]
fn defaults_are_empty() {
    let l = Log::default();
    assert_eq!(l.sender, "");
    assert_eq!(l.timestamp, 0);
    let a = AggregatedLog::default();
    assert_eq!(a.count, 0);
    assert_eq!(a.message, "");
    assert_ne!(JSONFailure::ConversionError, JSONFailure::UnknownError);
}

#[test]
fn init_sets_settings() {
    let mut state = Logger::default();
    llama::init(
        LoggerArg { graph_name: "g", account_key: "k", is_dev_env: true, is_disabled: true },
        &mut state,
    );
    assert_eq!(state.graph_name, "g");
    assert_eq!(state.account_key, "k");
    assert!(state.is_dev_env);
    assert!(state.is_disabled);
    assert!(!state.timer_started);
    llama::init(
        LoggerArg { graph_name: "g", account_key: "k", is_dev_env: false, is_disabled: false },
        &mut state,
    );
    assert!(state.timer_started);
}

#[test]
fn llama_log_aggregates_unless_disabled() {
    let mut state = Logger::default();
    state.account_key = "k";
    state.graph_name = "g";
    let a = LogArg { sender: "a", receiver: "b", message: "m", is_error: false, account_key: "", graph_name: "" };
    llama::log(a, &mut state);
    llama::log(a, &mut state);
    assert_eq!(state.aggregated_logs.len(), 1);
    assert_eq!(state.aggregated_logs[0].count, 2);
    state.is_disabled = true;
    llama::log(a, &mut state);
    assert_eq!(state.aggregated_logs[0].count, 2);
}

#[test]
fn llama_force_send_hands_over_everything() {
    let mut state = Logger::default();
    state.account_key = "k";
    state.graph_name = "g";
    let a = LogArg { sender: "a", receiver: "b", message: "m", is_error: false, account_key: "", graph_name: "" };
    llama::log(a, &mut state);
    let req = llama::force_send(&mut state);
    assert_eq!(req.account_key, "k");
    assert_eq!(req.time_logs.len(), 1);
    assert!(state.aggregated_logs.is_empty());
    start_timer(&mut state);
    assert!(state.aggregated_logs.is_empty());
}

#[test]
fn aggregator_functions_skip_defaults() {
    let mut state = Logger::default();
    let a = LogArg { sender: "a", receiver: "b", message: "m", is_error: true, account_key: "", graph_name: "" };
    let mut first = a.to_log_at(1);
    first.count = 5;
    aggregator::add_log(&mut state, first);
    assert_eq!(state.aggregated_logs[0].count, 1);
    assert_eq!(state.aggregated_logs[0].message, "");
    assert_eq!(state.aggregated_logs[0].error_message, "m");
    aggregator::add_log(&mut state, a.to_log_at(2));
    assert_eq!(state.aggregated_logs.len(), 1);
    assert_eq!(state.aggregated_logs[0].count, 2);
    assert_eq!(state.aggregated_logs[0].errors, 2);
    assert_eq!(state.aggregated_logs[0].account_key, "");
    let s = StatRecord { component: "c", name: "n", kind: "average", timestamp: 1, account: "", graph: "", count: 0 };
    assert_eq!(aggregator::add_stat(&mut state, s), StatAction::Accumulate { slot: 0, fresh: true });
    assert_eq!(aggregator::add_stat_avg(&mut state, s), StatAction::Accumulate { slot: 0, fresh: false });
    assert_eq!(state.aggregated_stats[0].count, 2);
    assert_eq!(state.aggregated_stats[0].account, "");
    assert_eq!(aggregator::add_stat_max(&mut state, s), StatAction::Raise { slot: 0, fresh: false });
    let m = StatRecord { component: "c", name: "m", kind: "max", timestamp: 1, account: "", graph: "", count: 0 };
    assert_eq!(aggregator::add_stat_max(&mut state, m), StatAction::Raise { slot: 1, fresh: true });
}

#[test]
fn text_comparisons() {
    assert!(same_text("abc", "abc"));
    assert!(!same_text("abc", "abd"));
    assert!(!same_text("abc", "ab"));
    assert!(is_blank(""));
    assert!(!is_blank(" "));
}
