use llamalogs::args::{LogArg, LoggerArg};
use llamalogs::proxy;
use llamalogs::types::{same_log, Log, Logger, Request, StatAction, StatRecord};

fn logger() -> Logger {
    Logger::from_args(LoggerArg {
        graph_name: "Ferris",
        account_key: "key-1",
        is_dev_env: false,
        is_disabled: false,
    })
}

fn arg(sender: &'static str, receiver: &'static str, message: &'static str, is_error: bool) -> LogArg {
    LogArg { sender, receiver, message, is_error, account_key: "", graph_name: "" }
}

fn stat(component: &'static str, name: &'static str) -> StatRecord {
    StatRecord { component, name, kind: "", timestamp: 10, account: "", graph: "", count: 0 }
}

#[test]
fn to_log_at_builds_initial_message() {
    let a = LogArg {
        sender: "User A",
        receiver: "Web Server",
        message: "Hello from Rust!",
        is_error: true,
        account_key: "acc",
        graph_name: "graph",
    };
    let l = a.to_log_at(1234);
    assert_eq!(l.sender, "User A");
    assert_eq!(l.receiver, "Web Server");
    assert_eq!(l.message, "Hello from Rust!");
    assert_eq!(l.account_key, "acc");
    assert_eq!(l.graph, "graph");
    assert!(l.is_error);
    assert!(l.is_initial_message);
    assert_eq!(l.timestamp, 1234);
    assert_eq!(l.start_time, 1234);
    assert_eq!(l.count, 0);
    assert_eq!(l.errors, 0);
    assert_eq!(l.elapsed, 0);
    assert_eq!(l.initial_message_count, 0);
    assert_eq!(l.error_message, "");
}

#[test]
fn to_log_reads_the_clock() {
    let l = arg("a", "b", "m", false).to_log();
    // 2020-01-01 in milliseconds since the Unix epoch
    assert!(l.timestamp > 1_577_836_800_000);
    assert_eq!(l.timestamp, l.start_time);
}

#[test]
fn from_args_copies_settings() {
    let lg = Logger::from_args(LoggerArg {
        graph_name: "g",
        account_key: "k",
        is_dev_env: true,
        is_disabled: true,
    });
    assert_eq!(lg.graph_name, "g");
    assert_eq!(lg.account_key, "k");
    assert!(lg.is_dev_env);
    assert!(lg.is_disabled);
    assert!(!lg.timer_started);
    assert!(lg.aggregated_logs.is_empty());
    assert!(lg.aggregated_stats.is_empty());
}

#[test]
fn default_logger_is_empty() {
    let lg = Logger::default();
    assert_eq!(lg.account_key, "");
    assert_eq!(lg.graph_name, "");
    assert!(!lg.is_disabled);
    assert!(lg.aggregated_logs.is_empty());
}

#[test]
fn first_log_opens_entry_with_defaults() {
    let mut lg = logger();
    lg.add_log(arg("User A", "Web Server", "Hello", false).to_log_at(5));
    assert_eq!(lg.aggregated_logs.len(), 1);
    let e = lg.aggregated_logs[0];
    assert_eq!(e.count, 1);
    assert_eq!(e.errors, 0);
    assert_eq!(e.account_key, "key-1");
    assert_eq!(e.graph, "Ferris");
    assert_eq!(e.message, "Hello");
    assert_eq!(e.error_message, "");
}

#[test]
fn first_error_log_counts_error_and_keeps_message() {
    let mut lg = logger();
    lg.add_log(arg("a", "b", "boom", true).to_log_at(5));
    let e = lg.aggregated_logs[0];
    assert_eq!(e.count, 1);
    assert_eq!(e.errors, 1);
    assert_eq!(e.error_message, "boom");
}

#[test]
fn own_account_and_graph_are_kept() {
    let mut lg = logger();
    let mut a = arg("a", "b", "m", false);
    a.account_key = "mine";
    a.graph_name = "other";
    lg.add_log(a.to_log_at(1));
    assert_eq!(lg.aggregated_logs[0].account_key, "mine");
    assert_eq!(lg.aggregated_logs[0].graph, "other");
}

#[test]
fn logs_of_one_pair_are_aggregated() {
    let mut lg = logger();
    lg.add_log(arg("a", "b", "first", false).to_log_at(1));
    lg.add_log(arg("a", "b", "second", false).to_log_at(2));
    lg.add_log(arg("a", "b", "bad", true).to_log_at(3));
    lg.add_log(arg("a", "b", "worse", true).to_log_at(4));
    assert_eq!(lg.aggregated_logs.len(), 1);
    let e = lg.aggregated_logs[0];
    assert_eq!(e.count, 4);
    assert_eq!(e.errors, 2);
    assert_eq!(e.message, "first");
    assert_eq!(e.error_message, "bad");
    assert_eq!(e.timestamp, 1);
}

#[test]
fn later_message_fills_an_empty_one() {
    let mut lg = logger();
    lg.add_log(arg("a", "b", "bad", true).to_log_at(1));
    lg.add_log(arg("a", "b", "fine", false).to_log_at(2));
    let e = lg.aggregated_logs[0];
    assert_eq!(e.message, "bad");
    assert_eq!(e.count, 2);
    let mut lg2 = logger();
    lg2.add_log(arg("a", "b", "", false).to_log_at(1));
    lg2.add_log(arg("a", "b", "later", false).to_log_at(2));
    assert_eq!(lg2.aggregated_logs[0].message, "later");
}

#[test]
fn distinct_pairs_get_distinct_entries() {
    let mut lg = logger();
    lg.add_log(arg("User A", "Web Server", "x", false).to_log_at(1));
    lg.add_log(arg("User B", "Web Server", "y", false).to_log_at(2));
    lg.add_log(arg("User A", "DB", "z", false).to_log_at(3));
    lg.add_log(arg("User A", "Web Server", "w", false).to_log_at(4));
    assert_eq!(lg.aggregated_logs.len(), 3);
    assert_eq!(lg.aggregated_logs[0].count, 2);
    assert_eq!(lg.aggregated_logs[1].sender, "User B");
    assert_eq!(lg.aggregated_logs[2].receiver, "DB");
}

#[test]
fn incomplete_logs_are_dropped() {
    let mut lg = logger();
    lg.add_log(arg("", "b", "m", false).to_log_at(1));
    lg.add_log(arg("a", "", "m", false).to_log_at(1));
    assert!(lg.aggregated_logs.is_empty());
    let mut bare = Logger::default();
    bare.add_log(arg("a", "b", "m", false).to_log_at(1));
    assert!(bare.aggregated_logs.is_empty());
}

#[test]
fn process_log_counts_from_an_empty_aggregate() {
    let mut lg = logger();
    let mut l = arg("a", "b", "boom", true).to_log_at(1);
    l.count = 5;
    l.errors = 3;
    l.elapsed = 7;
    lg.process_log(l);
    let e = lg.aggregated_logs[0];
    assert_eq!(e.count, 1);
    assert_eq!(e.errors, 1);
    assert_eq!(e.message, "");
    assert_eq!(e.error_message, "boom");
    assert_eq!(e.elapsed, 0);
    assert_eq!(e.account_key, "key-1");
    lg.process_log(arg("a", "b", "fine", false).to_log_at(2));
    assert_eq!(lg.aggregated_logs.len(), 1);
    assert_eq!(lg.aggregated_logs[0].count, 2);
    assert_eq!(lg.aggregated_logs[0].message, "fine");
    lg.process_log(arg("", "b", "m", false).to_log_at(3));
    assert_eq!(lg.aggregated_logs.len(), 1);
    lg.process_log(arg("c", "d", "hi", false).to_log_at(3));
    assert_eq!(lg.aggregated_logs[1].message, "hi");
    assert_eq!(lg.aggregated_logs[1].error_message, "");
}

#[test]
fn can_process_log_guards_existing_entries_only() {
    let mut lg = logger();
    let mut l = arg("a", "b", "m", false).to_log_at(1);
    l.count = i64::MAX;
    assert!(lg.can_process_log(&l));
    lg.process_log(l);
    lg.aggregated_logs[0].count = i64::MAX;
    assert!(!lg.can_process_log(&l));
    assert!(lg.can_process_log(&arg("x", "b", "m", false).to_log_at(1)));
}

#[test]
fn log_takes_args_unless_disabled() {
    let mut lg = logger();
    lg.log(arg("a", "b", "m", false));
    assert_eq!(lg.aggregated_logs.len(), 1);
    assert_eq!(lg.aggregated_logs[0].count, 1);
    let mut off = logger();
    off.is_disabled = true;
    off.log(arg("a", "b", "m", false));
    assert!(off.aggregated_logs.is_empty());
}

#[test]
fn can_take_log_guards_overflow() {
    let mut lg = logger();
    let mut l = arg("a", "b", "m", false).to_log_at(1);
    assert!(lg.can_take_log(&l));
    l.count = i64::MAX;
    assert!(!lg.can_take_log(&l));
    l.count = i64::MAX - 1;
    assert!(lg.can_take_log(&l));
    lg.add_log(l);
    assert_eq!(lg.aggregated_logs[0].count, i64::MAX);
    let again = arg("a", "b", "m", false).to_log_at(2);
    assert!(!lg.can_take_log(&again));
    let other = arg("c", "b", "m", false).to_log_at(2);
    assert!(lg.can_take_log(&other));
    let incomplete = arg("", "b", "m", false).to_log_at(2);
    assert!(lg.can_take_log(&incomplete));
}

#[test]
fn collect_and_clear_returns_everything() {
    let mut lg = logger();
    lg.add_log(arg("a", "b", "m", false).to_log_at(1));
    lg.add_log(arg("c", "d", "m", false).to_log_at(1));
    lg.average_stat(stat("cpu", "load"));
    let (logs, stats) = lg.collect_and_clear();
    assert_eq!(logs.len(), 2);
    assert_eq!(logs[0].sender, "a");
    assert_eq!(logs[1].sender, "c");
    assert_eq!(stats.len(), 1);
    assert!(lg.aggregated_logs.is_empty());
    assert!(lg.aggregated_stats.is_empty());
    assert_eq!(lg.account_key, "key-1");
    let (logs2, stats2) = lg.collect_messages();
    assert!(logs2.is_empty());
    assert!(stats2.is_empty());
}

#[test]
fn proxy_collect_messages_keeps_state() {
    let mut lg = logger();
    lg.add_log(arg("a", "b", "m", false).to_log_at(1));
    lg.max_stat(stat("cpu", "peak"));
    let (logs, stats) = proxy::collect_messages(&lg);
    assert_eq!(logs.len(), 1);
    assert_eq!(stats.len(), 1);
    assert_eq!(lg.aggregated_logs.len(), 1);
    assert_eq!(lg.aggregated_stats.len(), 1);
}

#[test]
fn average_stats_count_samples() {
    let mut lg = logger();
    assert_eq!(lg.average_stat(stat("cpu", "load")), StatAction::Accumulate { slot: 0, fresh: true });
    assert_eq!(lg.aggregated_stats[0].count, 1);
    assert_eq!(lg.aggregated_stats[0].kind, "average");
    assert_eq!(lg.aggregated_stats[0].account, "key-1");
    assert_eq!(lg.aggregated_stats[0].graph, "Ferris");
    assert_eq!(lg.average_stat(stat("cpu", "load")), StatAction::Accumulate { slot: 0, fresh: false });
    assert_eq!(lg.aggregated_stats[0].count, 2);
    assert_eq!(lg.average_stat(stat("mem", "load")), StatAction::Accumulate { slot: 1, fresh: true });
    assert_eq!(lg.aggregated_stats.len(), 2);
}

#[test]
fn max_stats_keep_their_record() {
    let mut lg = logger();
    assert_eq!(lg.max_stat(stat("cpu", "peak")), StatAction::Raise { slot: 0, fresh: true });
    assert_eq!(lg.aggregated_stats[0].count, 0);
    assert_eq!(lg.max_stat(stat("cpu", "peak")), StatAction::Raise { slot: 0, fresh: false });
    assert_eq!(lg.aggregated_stats.len(), 1);
    assert_eq!(lg.aggregated_stats[0].count, 0);
}

#[test]
fn point_stats_store_their_record() {
    let mut lg = logger();
    assert_eq!(lg.point_stat(stat("cpu", "now")), StatAction::Store { slot: 0, fresh: true });
    assert_eq!(lg.aggregated_stats.len(), 1);
    assert_eq!(lg.aggregated_stats[0].kind, "point");
    assert_eq!(lg.aggregated_stats[0].account, "key-1");
    assert_eq!(lg.aggregated_stats[0].graph, "Ferris");
    let mut later = stat("cpu", "now");
    later.timestamp = 99;
    assert_eq!(lg.point_stat(later), StatAction::Store { slot: 0, fresh: false });
    assert_eq!(lg.aggregated_stats.len(), 1);
    assert_eq!(lg.aggregated_stats[0].timestamp, 99);
    lg.average_stat(stat("cpu", "load"));
    assert_eq!(lg.point_stat(stat("cpu", "load")), StatAction::Store { slot: 1, fresh: false });
    assert_eq!(lg.aggregated_stats[1].kind, "point");
}

#[test]
fn unknown_stats_change_nothing() {
    let mut lg = logger();
    let mut odd = stat("cpu", "now");
    odd.kind = "median";
    assert_eq!(lg.add_stat(odd), StatAction::Unchanged);
    assert_eq!(lg.process_stat(odd), StatAction::Unchanged);
    assert!(lg.aggregated_stats.is_empty());
}

#[test]
fn disabled_logger_takes_no_stats() {
    let mut lg = logger();
    lg.is_disabled = true;
    assert_eq!(lg.average_stat(stat("cpu", "load")), StatAction::Unchanged);
    assert_eq!(lg.point_stat(stat("cpu", "now")), StatAction::Unchanged);
    assert_eq!(lg.max_stat(stat("cpu", "peak")), StatAction::Unchanged);
    assert!(lg.aggregated_stats.is_empty());
}

#[test]
fn can_take_stat_guards_overflow() {
    let mut lg = logger();
    let mut s = stat("cpu", "load");
    s.kind = "average";
    assert!(lg.can_take_stat(&s));
    lg.add_stat(s);
    lg.aggregated_stats[0].count = i64::MAX;
    assert!(!lg.can_take_stat(&s));
    s.kind = "max";
    assert!(lg.can_take_stat(&s));
}

#[test]
fn request_takes_account_of_first_stat_else_first_log() {
    let mut lg = logger();
    let mut a = arg("a", "b", "m", false);
    a.account_key = "log-acc";
    lg.add_log(a.to_log_at(1));
    let r = lg.take_request();
    assert_eq!(r.account_key, "log-acc");
    assert_eq!(r.time_logs.len(), 1);
    assert!(lg.aggregated_logs.is_empty());

    lg.add_log(a.to_log_at(1));
    let mut s = stat("cpu", "load");
    s.account = "stat-acc";
    lg.average_stat(s);
    let r2 = lg.take_request();
    assert_eq!(r2.account_key, "stat-acc");
    assert_eq!(r2.time_stats.len(), 1);

    let r3 = Request::from_lists(Vec::new(), Vec::new());
    assert_eq!(r3.account_key, "");
}

#[test]
fn endpoint_depends_on_environment() {
    let mut lg = logger();
    assert_eq!(lg.endpoint(), "https://llamalogs.com/api/v0/timedata");
    lg.is_dev_env = true;
    assert_eq!(lg.endpoint(), "http://localhost:4000/api/v0/timedata");
}

#[test]
fn with_log_computes_next_state() {
    let lg = logger();
    let l = arg("a", "b", "m", false).to_log_at(1);
    let next = lg.with_log(l).unwrap();
    assert_eq!(next.aggregated_logs.len(), 1);
    assert!(lg.aggregated_logs.is_empty());
    let mut off = logger();
    off.is_disabled = true;
    assert!(off.with_log(l).is_none());
}

#[test]
fn with_log_needs_no_room_when_nothing_is_counted() {
    let mut lg = logger();
    let mut l = arg("a", "b", "m", false).to_log_at(1);
    l.account_key = "key-1";
    l.graph = "Ferris";
    lg.add_log(l);
    lg.aggregated_logs[0].count = i64::MAX;
    let stored = lg.aggregated_logs[0];
    assert!(lg.holds_log(&stored));
    assert!(!lg.can_take_log(&stored));
    assert!(lg.with_log(stored).is_none());
    assert!(!lg.holds_log(&l));
    lg.is_disabled = true;
    assert!(lg.with_log(l).is_none());
}

#[test]
fn pending_request_respects_disabled() {
    let mut lg = logger();
    lg.add_log(arg("a", "b", "m", false).to_log_at(1));
    lg.is_disabled = true;
    assert!(lg.pending_request().is_none());
    assert_eq!(lg.aggregated_logs.len(), 1);
    lg.is_disabled = false;
    let req = lg.pending_request().unwrap();
    assert_eq!(req.time_logs.len(), 1);
    assert_eq!(req.account_key, "key-1");
    assert!(lg.aggregated_logs.is_empty());
}

#[test]
fn stat_records_are_stamped() {
    let r = StatRecord::at("cpu", "load", "acc", "g", 42);
    assert_eq!(r.component, "cpu");
    assert_eq!(r.name, "load");
    assert_eq!(r.account, "acc");
    assert_eq!(r.graph, "g");
    assert_eq!(r.kind, "");
    assert_eq!(r.count, 0);
    assert_eq!(r.timestamp, 42);
    let n = StatRecord::now("cpu", "load", "", "");
    assert!(n.timestamp > 1_577_836_800_000);
}

#[test]
fn process_stat_is_add_stat_with_defaults() {
    let mut a = logger();
    let mut b = logger();
    let mut s = stat("cpu", "load");
    s.kind = "average";
    let mut d = s;
    d.account = "key-1";
    d.graph = "Ferris";
    assert_eq!(a.process_stat(s), b.add_stat(d));
    assert_eq!(a.aggregated_stats[0].account, b.aggregated_stats[0].account);
    assert_eq!(a.aggregated_stats[0].count, b.aggregated_stats[0].count);
}

#[test]
fn with_log_skips_an_equal_entry() {
    let mut lg = logger();
    let mut l = arg("a", "b", "m", false).to_log_at(1);
    l.account_key = "key-1";
    l.graph = "Ferris";
    lg.add_log(l);
    let stored: Log = lg.aggregated_logs[0];
    assert!(lg.with_log(stored).is_none());
    let next = lg.with_log(l).unwrap();
    assert_eq!(next.aggregated_logs[0].count, 2);
}

#[test]
fn with_stat_computes_next_state() {
    let lg = logger();
    let mut s = stat("cpu", "load");
    s.kind = "average";
    let (next, action) = lg.with_stat(s).unwrap();
    assert_eq!(action, StatAction::Accumulate { slot: 0, fresh: true });
    assert_eq!(next.aggregated_stats.len(), 1);
    assert!(lg.aggregated_stats.is_empty());
    let mut off = logger();
    off.is_disabled = true;
    assert!(off.with_stat(s).is_none());
}

#[test]
fn same_log_compares_every_field() {
    let a = arg("a", "b", "m", false).to_log_at(1);
    let mut b = a;
    assert!(same_log(&a, &b));
    b.elapsed = 3;
    assert!(!same_log(&a, &b));
    let c = arg("a", "b", "n", false).to_log_at(1);
    assert!(!same_log(&a, &c));
}

#[test]
fn fresh_logs_add_up() {
    let mut lg = logger();
    let logs = [
        arg("a", "b", "m", false),
        arg("a", "b", "e", true),
        arg("", "b", "m", true),
        arg("c", "b", "m", false),
        arg("a", "b", "m", true),
    ];
    for a in logs.iter() {
        lg.add_log(a.to_log_at(1));
    }
    let total: i64 = lg.aggregated_logs.iter().map(|l| l.count).sum();
    let errors: i64 = lg.aggregated_logs.iter().map(|l| l.errors).sum();
    assert_eq!(total, 4);
    assert_eq!(errors, 2);
    for l in lg.aggregated_logs.iter() {
        assert!(0 <= l.errors && l.errors <= l.count);
        assert!(!l.sender.is_empty() && !l.receiver.is_empty());
        assert!(!l.account_key.is_empty() && !l.graph.is_empty());
    }
}
