use maelstrom::net::log_line;
use maelstrom::net::LogLevel;

#[test]
fn log_lines_carry_their_level_prefix() {
    assert_eq!(log_line("boom", &LogLevel::ERROR), "ERROR: boom");
    assert_eq!(log_line("careful", &LogLevel::WARN), "WARNING: careful");
    assert_eq!(log_line("hello", &LogLevel::INFO), "INFO: hello");
    assert_eq!(log_line("state", &LogLevel::DEBUG), "DEBUG: state");
}

#[test]
fn log_line_keeps_the_message_text() {
    assert_eq!(log_line("", &LogLevel::INFO), "INFO: ");
    assert_eq!(
        log_line("Received {\"src\":\"c0\"}", &LogLevel::INFO),
        "INFO: Received {\"src\":\"c0\"}"
    );
}
