use std::collections::VecDeque;

use oracle_proxy::tui::{append_log_line, level_label, log_line, new_log_buffer, LogLevel, TuiLogLayer};

#[test]
fn log_buffer_starts_empty_and_layer_keeps_it() {
    let buf = new_log_buffer();
    assert!(buf.lock().unwrap().is_empty());
    let layer = TuiLogLayer::new(buf.clone(), 200);
    assert_eq!(layer.max_lines, 200);
    layer.buffer.lock().unwrap().push_back("x".to_string());
    assert_eq!(buf.lock().unwrap().len(), 1);
}

#[test]
fn log_lines_are_formatted_and_empty_messages_dropped() {
    assert_eq!(level_label(LogLevel::Warn), "WARN ");
    assert_eq!(
        log_line("12:00:01.123", LogLevel::Error, "feed down").unwrap(),
        "12:00:01.123 [ERROR] feed down"
    );
    assert_eq!(log_line("12:00:01.123", LogLevel::Info, ""), None);
}

#[test]
fn log_tail_keeps_the_newest_lines() {
    let mut lines: VecDeque<String> = VecDeque::new();
    for i in 0..5 {
        append_log_line(&mut lines, format!("l{i}"), 3);
    }
    assert_eq!(lines, VecDeque::from(vec!["l2".to_string(), "l3".to_string(), "l4".to_string()]));
    append_log_line(&mut lines, "x".to_string(), 0);
    assert!(lines.is_empty());
}
