use gloss::diagnostics::{log_line, startup_message};

#[test]
fn log_lines_stay_on_one_line() {
    assert_eq!(log_line("2024-01-01T00:00:00Z", "a\r\nb\nc"), "2024-01-01T00:00:00Z a  b c");
    assert_eq!(startup_message("0.1.0"), "app started version=0.1.0");
}
