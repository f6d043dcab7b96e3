use rfortune::log::{ConsoleLog, LogKind};

#[test]
fn log_lines_carry_colour_and_symbol() {
    assert_eq!(ConsoleLog::info("hi"), "\x1b[36m\u{2139}  hi\x1b[0m");
    assert_eq!(ConsoleLog::ok("done"), "\x1b[32m\u{2705} done\x1b[0m");
    assert_eq!(ConsoleLog::ko("bad"), "\x1b[31m\u{274C} bad\x1b[0m");
    assert_eq!(ConsoleLog::warn("careful"), "\x1b[33m\u{26A0}\u{FE0F} careful\x1b[0m");
    assert_eq!(ConsoleLog::log(LogKind::Info, ""), "\x1b[36m\u{2139}  \x1b[0m");
}

#[test]
fn only_failures_go_to_stderr() {
    assert!(ConsoleLog::to_stderr(LogKind::Ko));
    assert!(!ConsoleLog::to_stderr(LogKind::Info));
    assert!(!ConsoleLog::to_stderr(LogKind::Success));
    assert!(!ConsoleLog::to_stderr(LogKind::Warning));
}
