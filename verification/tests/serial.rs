use baud::{
    open_failure_message, prepare_failure_message, reader_step, sort_port_names,
    write_failure_message, ReadOutcome, SerialEvent,
};

fn names(list: &[&str]) -> Vec<String> {
    list.iter().map(|s| s.to_string()).collect()
}

#[test]
fn port_names_are_sorted_like_strings() {
    let input = names(&["COM9", "/dev/ttyUSB0", "COM10", "/dev/ttyACM0", "COM1", "COM9"]);
    let mut expected = input.clone();
    expected.sort();
    assert_eq!(sort_port_names(input), expected);
}

#[test]
fn sorting_orders_by_code_point_and_prefix_first() {
    let input = names(&["b", "ab", "a", "é", "Z", ""]);
    assert_eq!(sort_port_names(input), names(&["", "Z", "a", "ab", "b", "é"]));
}

#[test]
fn sorting_no_names_gives_none() {
    assert_eq!(sort_port_names(Vec::new()), Vec::<String>::new());
}

#[test]
fn reader_forwards_received_bytes() {
    let (events, stop) = reader_step(ReadOutcome::Received(vec![1, 2, 3]));
    assert!(!stop);
    assert_eq!(events.len(), 1);
    assert!(matches!(&events[0], SerialEvent::Data(b) if b == &vec![1u8, 2, 3]));
}

#[test]
fn reader_ignores_empty_reads_and_timeouts() {
    let (events, stop) = reader_step(ReadOutcome::Received(Vec::new()));
    assert!(events.is_empty() && !stop);
    let (events, stop) = reader_step(ReadOutcome::TimedOut);
    assert!(events.is_empty() && !stop);
}

#[test]
fn reader_reports_failure_then_close_and_stops() {
    let (events, stop) = reader_step(ReadOutcome::Failed("gone".to_string()));
    assert!(stop);
    assert_eq!(events.len(), 2);
    assert!(matches!(&events[0], SerialEvent::Error(m) if m == "gone"));
    assert!(matches!(&events[1], SerialEvent::Closed));
}

#[test]
fn failure_messages_name_port_and_cause() {
    assert_eq!(open_failure_message("COM9", "busy"), "Failed to open COM9: busy");
    assert_eq!(
        prepare_failure_message("COM9", "no clone"),
        "Failed to prepare COM9 for writing: no clone"
    );
    assert_eq!(write_failure_message("broken pipe"), "Write failed: broken pipe");
}

#[test]
fn reader_run_stops_at_the_first_failure() {
    let outcomes = vec![
        ReadOutcome::Received(b"ab".to_vec()),
        ReadOutcome::TimedOut,
        ReadOutcome::Received(Vec::new()),
        ReadOutcome::Failed("unplugged".to_string()),
        ReadOutcome::Received(b"late".to_vec()),
    ];
    let mut events = Vec::new();
    for outcome in outcomes {
        let (step, stop) = reader_step(outcome);
        events.extend(step);
        if stop {
            break;
        }
    }
    assert_eq!(events.len(), 3);
    assert!(matches!(&events[0], SerialEvent::Data(b) if b == b"ab"));
    assert!(matches!(&events[1], SerialEvent::Error(m) if m == "unplugged"));
    assert!(matches!(&events[2], SerialEvent::Closed));
}
