use ctp500::types::AppEvent;
use ctp500::ui::{battery_color, is_blank, UiState};

#[test]
fn a_new_state_shows_nothing() {
    let state = UiState::new();
    assert!(!state.connected && !state.scanning && !state.printing);
    assert_eq!(state.battery, None);
    assert_eq!(state.progress, None);
    assert_eq!(state.last_error, None);
    assert!(state.log.is_empty());
    assert_eq!(state.status_text(), "\u{25cf} Disconnected");
    assert_eq!(state.status_color(), "#cc0000");
}

#[test]
fn events_change_what_is_shown() {
    let mut state = UiState::new();
    state.scan_requested();
    assert!(state.scanning);
    state.apply(&AppEvent::ScanStarted, "10:00:00");
    assert_eq!(state.status_text(), "\u{27f3} Scanning...");
    assert_eq!(state.status_color(), "#0066cc");

    state.apply(&AppEvent::Log("Found: S Blue Printer".to_string()), "10:00:01");
    state.apply(&AppEvent::Connected, "10:00:02");
    assert!(state.connected && !state.scanning);
    assert_eq!(state.status_text(), "\u{25cf} Connected");
    assert_eq!(state.status_color(), "#00aa00");

    state.apply(&AppEvent::BatteryLevel(77), "10:00:03");
    assert_eq!(state.battery, Some(77));

    state.print_requested();
    assert!(state.printing);
    state.apply(&AppEvent::PrintProgress { sent: 182, total: 1821 }, "10:00:04");
    assert_eq!(state.progress, Some((182, 1821)));
    state.apply(&AppEvent::PrintComplete, "10:00:05");
    assert!(!state.printing);
    assert_eq!(state.progress, None);

    state.apply(&AppEvent::Error("Print error: link lost".to_string()), "10:00:06");
    assert_eq!(state.last_error, Some("Print error: link lost".to_string()));
    state.scan_requested();
    assert_eq!(state.last_error, None);

    state.apply(&AppEvent::PrintProgress { sent: 1, total: 2 }, "10:00:07");
    state.apply(&AppEvent::Disconnected, "10:00:08");
    assert!(!state.connected && !state.scanning && !state.printing);
    assert_eq!(state.battery, None);
    assert_eq!(state.progress, None);

    assert_eq!(
        state.log,
        vec![
            "[10:00:01] Found: S Blue Printer",
            "[10:00:02] Connected",
            "[10:00:05] Print complete",
            "[10:00:06] Error: Print error: link lost",
        ]
    );
}

#[test]
fn the_log_drops_its_oldest_entries_beyond_the_limit() {
    let mut state = UiState::new();
    for i in 0..200 {
        state.apply(&AppEvent::Log(format!("line {}", i)), "t");
    }
    assert_eq!(state.log.len(), 200);
    state.apply(&AppEvent::Log("line 200".to_string()), "t");
    assert_eq!(state.log.len(), 151);
    assert_eq!(state.log[0], "[t] line 50");
    assert_eq!(state.log[150], "[t] line 200");
}

#[test]
fn battery_colors() {
    assert_eq!(battery_color(100), "#00aa00");
    assert_eq!(battery_color(51), "#00aa00");
    assert_eq!(battery_color(50), "#cc7700");
    assert_eq!(battery_color(21), "#cc7700");
    assert_eq!(battery_color(20), "#cc0000");
    assert_eq!(battery_color(0), "#cc0000");
}

#[test]
fn blank_texts() {
    assert!(is_blank(""));
    assert!(is_blank(" \t\r\n\u{a0}\u{3000}"));
    assert!(!is_blank(" x "));
    assert!(!is_blank("\u{200b}"));
}

#[test]
fn printing_needs_a_connection_and_something_to_print() {
    let mut state = UiState::new();
    assert!(!state.can_print_text("hello"));
    assert!(!state.can_print_image(true));
    state.apply(&AppEvent::Connected, "t");
    assert!(state.can_print_text("hello"));
    assert!(!state.can_print_text("  \n"));
    assert!(state.can_print_image(true));
    assert!(!state.can_print_image(false));
    state.print_requested();
    assert!(!state.can_print_text("hello"));
    assert!(!state.can_print_image(true));
}
