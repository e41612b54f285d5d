use monb::cli::{BAction, BArg, BArgs, BScope, Getter};
use monb::logger::{LevelFilter, Logger};

#[test]
fn default_logger_is_quiet_and_plain() {
    let l = Logger::default();
    assert!(!l.verbose);
    assert!(!l.colored);
    assert_eq!(l.get_max_log_level(), LevelFilter::Info);
}

#[test]
fn builders_set_each_switch() {
    let l = Logger::default().verbose(true).colored(true);
    assert!(l.verbose);
    assert!(l.colored);
    assert_eq!(l.get_max_log_level(), LevelFilter::Debug);
    let l = l.verbose(false);
    assert_eq!(l.get_max_log_level(), LevelFilter::Info);
    assert!(l.colored);
}

#[test]
fn logging_never_fails() {
    let l = Logger::default();
    l.log_debug("debug line");
    l.log_info("info line");
    l.log_warn("warn line");
    l.log_error("error line");
    l.log_verbose_debug("suppressed");
    l.log_verbose_info("suppressed");
    l.log_verbose_warn("suppressed");
    l.log_verbose_error("suppressed");
    let v = Logger::default().verbose(true);
    v.log_verbose_debug("printed");
}

#[test]
fn default_argument_is_a_global_getter() {
    let a = BArg::default();
    assert_eq!(a.scope, BScope::Global);
    assert_eq!(a.value.action, BAction::Get);
    assert!(a.value.brightness.is_none());
}

#[test]
fn default_command_set_queries_everything() {
    let b = BArgs::default();
    assert!(matches!(b.getters, Some(Getter::Global)));
    assert!(b.setters.is_empty());
}
