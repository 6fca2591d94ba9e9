use baud::{BaudApp, ClockTime, LineEnding, SerialEvent, BAUD_RATES};

fn noon() -> ClockTime {
    ClockTime::new(12, 0, 1, 2_000_000).unwrap()
}

fn app() -> BaudApp {
    BaudApp::new(vec!["COM1".to_string(), "COM3".to_string()])
}

fn logged(app: &BaudApp) -> Vec<(String, String)> {
    app.lines.clone()
}

#[test]
fn launch_starts_at_defaults() {
    let a = app();
    assert_eq!(a.available_ports, vec!["COM1".to_string(), "COM3".to_string()]);
    assert_eq!(a.selected_port, None);
    assert_eq!(a.baud_rate, 115200);
    assert!(!a.custom_baud_selected);
    assert!(!a.is_connected());
    assert!(!a.show_timestamps);
    assert!(a.autoscroll);
    assert!(a.dark_mode);
    assert_eq!(a.line_ending, LineEnding::Lf);
    assert_eq!(a.error_message, None);
    assert!(a.lines.is_empty());
    assert_eq!(BAUD_RATES, [9600, 19200, 38400, 57600, 115200, 230400]);
}

#[test]
fn connect_without_port_reports_error() {
    let mut a = app();
    assert_eq!(a.begin_connect(), None);
    assert_eq!(a.error_message, Some("Select a port first".to_string()));
    assert!(!a.is_connected());
}

#[test]
fn connect_with_port_asks_to_open_it() {
    let mut a = app();
    a.selected_port = Some("COM3".to_string());
    a.select_baud(9600);
    assert_eq!(a.begin_connect(), Some(("COM3".to_string(), 9600)));
    a.finish_connect(Ok(()));
    assert!(a.is_connected());
    assert_eq!(a.error_message, None);
}

#[test]
fn failed_open_shows_error_and_stays_disconnected() {
    let mut a = app();
    a.selected_port = Some("COM3".to_string());
    a.begin_connect();
    a.finish_connect(Err("Failed to open COM3: busy".to_string()));
    assert!(!a.is_connected());
    assert_eq!(a.error_message, Some("Failed to open COM3: busy".to_string()));
}

#[test]
fn received_data_becomes_stamped_lines() {
    let mut a = app();
    a.finish_connect(Ok(()));
    let closed = a.apply_serial_events(
        vec![
            SerialEvent::Data(b"boot\r\nre".to_vec()),
            SerialEvent::Data(b"ady\nx".to_vec()),
        ],
        noon(),
    );
    assert!(!closed);
    assert!(a.is_connected());
    assert_eq!(
        logged(&a),
        vec![
            ("12:00:01.002".to_string(), "boot".to_string()),
            ("12:00:01.002".to_string(), "ready".to_string()),
        ]
    );
}

#[test]
fn read_failure_shows_error_disconnects_and_flushes() {
    let mut a = app();
    a.finish_connect(Ok(()));
    let closed = a.apply_serial_events(
        vec![
            SerialEvent::Data(b"half".to_vec()),
            SerialEvent::Error("device unplugged".to_string()),
            SerialEvent::Closed,
        ],
        noon(),
    );
    assert!(closed);
    assert!(!a.is_connected());
    assert_eq!(a.error_message, Some("device unplugged".to_string()));
    assert_eq!(logged(&a), vec![("12:00:01.002".to_string(), "half".to_string())]);
}

#[test]
fn events_in_two_frames_match_one_frame() {
    let events = || {
        vec![
            SerialEvent::Data(b"a\nb".to_vec()),
            SerialEvent::Error("e".to_string()),
            SerialEvent::Data(b"c\nd".to_vec()),
        ]
    };
    let mut once = app();
    once.apply_serial_events(events(), noon());
    let mut twice = app();
    let mut all = events();
    let rest = all.split_off(1);
    twice.apply_serial_events(all, noon());
    twice.apply_serial_events(rest, noon());
    assert_eq!(logged(&once), logged(&twice));
    assert_eq!(once.error_message, twice.error_message);
    assert_eq!(once.line_assembler.flush(), twice.line_assembler.flush());
}

#[test]
fn disconnect_writes_the_unfinished_line() {
    let mut a = app();
    a.finish_connect(Ok(()));
    a.apply_serial_events(vec![SerialEvent::Data(b"tail".to_vec())], noon());
    assert!(logged(&a).is_empty());
    a.disconnect(noon());
    assert!(!a.is_connected());
    assert_eq!(logged(&a), vec![("12:00:01.002".to_string(), "tail".to_string())]);
    a.disconnect(noon());
    assert_eq!(logged(&a).len(), 1);
}

#[test]
fn refresh_only_replaces_the_port_list() {
    let mut a = app();
    a.refresh_ports(vec!["COM1".to_string(), "COM3".to_string(), "COM9".to_string()]);
    assert_eq!(a.new_port_toast, None);
    assert_eq!(a.available_ports.len(), 3);
    a.refresh_ports(vec!["COM1".to_string()]);
    assert_eq!(a.available_ports, vec!["COM1".to_string()]);
    assert_eq!(a.new_port_toast, None);
}

#[test]
fn connect_button_connects_or_disconnects() {
    let mut a = app();
    assert_eq!(a.press_connect_button(noon()), (false, None));
    assert_eq!(a.error_message, Some("Select a port first".to_string()));
    a.selected_port = Some("COM3".to_string());
    assert_eq!(
        a.press_connect_button(noon()),
        (false, Some(("COM3".to_string(), 115200)))
    );
    a.finish_connect(Ok(()));
    a.apply_serial_events(vec![SerialEvent::Data(b"end".to_vec())], noon());
    assert_eq!(a.press_connect_button(noon()), (true, None));
    assert!(!a.is_connected());
    assert_eq!(logged(&a), vec![("12:00:01.002".to_string(), "end".to_string())]);
}

#[test]
fn toast_expires_after_timeout() {
    let mut a = app();
    a.new_port_toast = Some("COM7".to_string());
    a.expire_toast(8_000_000_000);
    assert_eq!(a.new_port_toast, Some("COM7".to_string()));
    a.expire_toast(8_000_000_001);
    assert_eq!(a.new_port_toast, None);
}

#[test]
fn switching_ports_closes_the_open_one_first() {
    let mut a = app();
    a.selected_port = Some("COM1".to_string());
    a.finish_connect(Ok(()));
    a.apply_serial_events(vec![SerialEvent::Data(b"left".to_vec())], noon());
    a.new_port_toast = Some("COM9".to_string());
    let (close, port, baud) = a.switch_to_new_port("COM9".to_string(), noon());
    assert!(close);
    assert_eq!(a.new_port_toast, None);
    assert_eq!((port.as_str(), baud), ("COM9", 115200));
    assert!(!a.is_connected());
    assert_eq!(a.selected_port, Some("COM9".to_string()));
    assert_eq!(logged(&a), vec![("12:00:01.002".to_string(), "left".to_string())]);
}

#[test]
fn switching_while_disconnected_just_connects() {
    let mut a = app();
    let (close, port, _) = a.switch_to_new_port("COM9".to_string(), noon());
    assert!(!close);
    assert_eq!(port, "COM9");
}

#[test]
fn repaint_interval_depends_on_state() {
    let mut a = app();
    assert_eq!(a.repaint_after_ns(), None);
    a.new_port_toast = Some("COM8".to_string());
    assert_eq!(a.repaint_after_ns(), Some(200_000_000));
    a.finish_connect(Ok(()));
    assert_eq!(a.repaint_after_ns(), Some(50_000_000));
    a.disconnect(noon());
    a.dismiss_toast();
    assert_eq!(a.repaint_after_ns(), None);
}

#[test]
fn frames_without_refresh_keep_the_port_list() {
    let mut a = app();
    let before = a.available_ports.clone();
    a.apply_serial_events(vec![SerialEvent::Data(b"x\n".to_vec())], noon());
    a.expire_toast(60_000_000_000);
    assert_eq!(a.repaint_after_ns(), None);
    assert_eq!(a.available_ports, before);
}

#[test]
fn dismissing_clears_error_and_notice() {
    let mut a = app();
    a.begin_connect();
    a.new_port_toast = Some("COM9".to_string());
    a.dismiss_error();
    a.dismiss_toast();
    assert_eq!(a.error_message, None);
    assert_eq!(a.new_port_toast, None);
}

#[test]
fn choosing_custom_baud_keeps_the_rate_until_applied() {
    let mut a = app();
    a.choose_custom_baud();
    assert!(a.custom_baud_selected);
    assert_eq!(a.baud_rate, 115200);
    assert_eq!(a.baud_label(), "Custom");
}

#[test]
fn custom_baud_is_taken_or_refused() {
    let mut a = app();
    a.custom_baud_selected = true;
    a.custom_baud_text = " 250000 ".to_string();
    a.apply_custom_baud();
    assert_eq!(a.baud_rate, 250000);
    assert_eq!(a.error_message, None);
    a.custom_baud_text = "fast".to_string();
    a.apply_custom_baud();
    assert_eq!(a.baud_rate, 250000);
    assert_eq!(a.error_message, Some("Custom baud must be a number".to_string()));
    assert_eq!(a.baud_label(), "Custom");
    a.select_baud(57600);
    assert_eq!(a.baud_label(), "57600");
}

#[test]
fn sending_needs_a_connection_and_appends_line_ending() {
    let mut a = app();
    a.input_text = "AT+RST".to_string();
    assert_eq!(a.send_request(true, false), None);
    a.finish_connect(Ok(()));
    assert_eq!(a.send_request(false, false), None);
    a.line_ending = LineEnding::CrLf;
    assert_eq!(a.send_request(false, true), Some(b"AT+RST\r\n".to_vec()));
    a.line_ending = LineEnding::NoEnding;
    assert_eq!(a.send_request(true, false), Some(b"AT+RST".to_vec()));
    a.finish_send(Ok(()));
    assert_eq!(a.input_text, "");
}

#[test]
fn failed_send_keeps_the_text_and_shows_error() {
    let mut a = app();
    a.finish_connect(Ok(()));
    a.input_text = "ping".to_string();
    a.finish_send(Err("Write failed: broken".to_string()));
    assert_eq!(a.input_text, "ping");
    assert_eq!(a.error_message, Some("Write failed: broken".to_string()));
}

#[test]
fn labels_follow_state() {
    let mut a = app();
    assert_eq!(a.port_label(), "Select port");
    assert_eq!(a.connect_label(), "Connect");
    assert_eq!(a.toast_action_label(), "Connect");
    assert_eq!(a.baud_label(), "115200");
    a.selected_port = Some("COM3".to_string());
    a.finish_connect(Ok(()));
    assert_eq!(a.port_label(), "COM3");
    assert_eq!(a.connect_label(), "Disconnect");
    assert_eq!(a.toast_action_label(), "Switch");
}

#[test]
fn lines_show_timestamps_only_when_asked_and_clear_empties() {
    let mut a = app();
    a.push_line("hi".to_string(), noon());
    assert_eq!(a.display_line(0), "hi");
    a.show_timestamps = true;
    assert_eq!(a.display_line(0), "[12:00:01.002] hi");
    a.clear_lines();
    assert!(a.lines.is_empty());
}
