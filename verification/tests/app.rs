use ifmon::app::{
    CounterDelta,
    is_sample_due, parse_update_interval, App, Area, InputEvent, KeyCode, KeyPress, MouseInput,
    MouseKind,
};
use ifmon::network::filter::{InterfaceInfo, InterfaceType};

fn iface(index: u32, name: &str, if_type: InterfaceType, v4: usize, v6: usize) -> InterfaceInfo {
    InterfaceInfo { index, name: name.to_string(), if_type, ipv4_count: v4, ipv6_count: v6 }
}

fn sample_app() -> App {
    App::new(vec![
        iface(1, "lo", InterfaceType::Loopback, 1, 1),
        iface(2, "eth0", InterfaceType::Ethernet, 3, 1),
        iface(3, "wlan0", InterfaceType::Wireless80211, 0, 2),
        iface(4, "tun0", InterfaceType::Tunnel, 1, 0),
    ])
}

fn key(code: KeyCode) -> KeyPress {
    KeyPress { code, shift_only: false }
}

fn selected(app: &App) -> String {
    app.selected_name()
}

#[test]
fn starts_in_physical_mode_on_the_first_interface() {
    let app = sample_app();
    assert!(app.is_running());
    assert!(!app.shows_all_interfaces());
    assert_eq!(app.get_active_interfaces().len(), 2);
    assert_eq!(selected(&app), "eth0");
    assert_eq!(app.mode_label(), "physical");
    assert_eq!(app.update_interval_ms(), 500);
}

#[test]
fn next_and_prev_wrap_around() {
    let mut app = sample_app();
    app.on_key_event(key(KeyCode::Tab));
    assert_eq!(selected(&app), "wlan0");
    app.on_key_event(key(KeyCode::Char('j')));
    assert_eq!(selected(&app), "eth0");
    app.on_key_event(key(KeyCode::Char('k')));
    assert_eq!(selected(&app), "wlan0");
    app.on_key_event(KeyPress { code: KeyCode::Tab, shift_only: true });
    assert_eq!(selected(&app), "eth0");
    // Shift+Tab as terminals report it: a back-tab selects the previous one.
    app.on_key_event(key(KeyCode::BackTab));
    assert_eq!(selected(&app), "wlan0");
    app.on_key_event(KeyPress { code: KeyCode::BackTab, shift_only: true });
    assert_eq!(selected(&app), "eth0");
}

#[test]
fn prev_undoes_next() {
    let mut app = sample_app();
    app.on_key_event(key(KeyCode::Char('f')));
    app.change_interface(2);
    app.next_interface();
    app.prev_interface();
    assert_eq!(app.selected_position(), 2);
}

#[test]
fn digits_jump_and_ignore_missing_entries() {
    let mut app = sample_app();
    app.on_key_event(key(KeyCode::Char('2')));
    assert_eq!(selected(&app), "wlan0");
    app.on_key_event(key(KeyCode::Char('9')));
    assert_eq!(selected(&app), "wlan0");
    app.on_key_event(key(KeyCode::Char('0')));
    assert_eq!(selected(&app), "wlan0");
}

#[test]
fn filter_toggle_shows_everything_and_resets_selection() {
    let mut app = sample_app();
    app.on_key_event(key(KeyCode::Char('2')));
    assert!(app.take_stats_reset());
    assert!(!app.take_stats_reset());
    app.on_key_event(key(KeyCode::Char('f')));
    assert!(app.shows_all_interfaces());
    assert_eq!(app.get_active_interfaces().len(), 4);
    assert_eq!(selected(&app), "lo");
    assert_eq!(app.mode_label(), "all");
    assert!(app.take_stats_reset());
    app.on_key_event(key(KeyCode::Char('f')));
    assert!(!app.shows_all_interfaces());
    assert_eq!(selected(&app), "eth0");
}

#[test]
fn quit_and_help_keys() {
    let mut app = sample_app();
    app.on_key_event(key(KeyCode::Char('h')));
    assert!(app.is_help_shown());
    app.on_key_event(key(KeyCode::Esc));
    assert!(!app.is_help_shown());
    assert!(app.is_running());
    app.on_key_event(key(KeyCode::Char('h')));
    app.on_key_event(key(KeyCode::Char('q')));
    assert!(!app.is_running());
    let mut app = sample_app();
    app.on_key_event(key(KeyCode::Esc));
    assert!(!app.is_running());
}

#[test]
fn scrolling_picks_the_overflowing_family() {
    let mut app = sample_app();
    // eth0 has three IPv4 addresses: more than fit, so IPv4 scrolls.
    app.on_key_event(key(KeyCode::Down));
    app.on_key_event(key(KeyCode::Down));
    assert_eq!(app.scroll_offsets(), (2, 0));
    app.on_key_event(key(KeyCode::Up));
    assert_eq!(app.scroll_offsets(), (1, 0));
    // wlan0 has no IPv4 overflow: IPv6 scrolls; selection reset the offsets.
    app.on_key_event(key(KeyCode::Tab));
    assert_eq!(app.scroll_offsets(), (0, 0));
    app.on_key_event(key(KeyCode::Up));
    assert_eq!(app.scroll_offsets(), (0, 0));
    app.on_key_event(key(KeyCode::Down));
    assert_eq!(app.scroll_offsets(), (0, 1));
}

#[test]
fn help_screen_ignores_mouse_and_scrolling() {
    let mut app = sample_app();
    app.set_sidebar_area(Area { x: 1, y: 1, width: 30, height: 10 });
    app.on_key_event(key(KeyCode::Char('h')));
    app.on_mouse_event(MouseInput { kind: MouseKind::LeftDown, column: 5, row: 3 });
    app.on_mouse_event(MouseInput { kind: MouseKind::ScrollDown, column: 5, row: 3 });
    app.on_key_event(key(KeyCode::Down));
    assert_eq!(selected(&app), "eth0");
    assert_eq!(app.scroll_offsets(), (0, 0));
}

#[test]
fn clicks_select_sidebar_rows() {
    let mut app = sample_app();
    app.set_sidebar_area(Area { x: 1, y: 1, width: 30, height: 10 });
    // Rows start below the top border, at y = 2.
    app.on_mouse_event(MouseInput { kind: MouseKind::LeftDown, column: 5, row: 3 });
    assert_eq!(selected(&app), "wlan0");
    app.on_mouse_event(MouseInput { kind: MouseKind::LeftDown, column: 5, row: 2 });
    assert_eq!(selected(&app), "eth0");
    // Below the listed rows, on the border, or outside: nothing.
    app.on_mouse_event(MouseInput { kind: MouseKind::LeftDown, column: 5, row: 5 });
    app.on_mouse_event(MouseInput { kind: MouseKind::LeftDown, column: 5, row: 1 });
    app.on_mouse_event(MouseInput { kind: MouseKind::LeftDown, column: 31, row: 3 });
    assert_eq!(selected(&app), "eth0");
    app.on_mouse_event(MouseInput { kind: MouseKind::ScrollDown, column: 0, row: 0 });
    assert_eq!(app.scroll_offsets(), (1, 0));
}

#[test]
fn events_dispatch_presses_only() {
    let mut app = sample_app();
    app.handle_event(InputEvent::Key { key: key(KeyCode::Char('q')), is_press: false });
    assert!(app.is_running());
    app.handle_event(InputEvent::Resize);
    app.handle_event(InputEvent::Mouse(MouseInput { kind: MouseKind::Other, column: 0, row: 0 }));
    app.handle_event(InputEvent::Key { key: key(KeyCode::Char('q')), is_press: true });
    assert!(!app.is_running());
}

#[test]
fn totals_follow_the_selection() {
    let mut app = sample_app();
    app.record_sample(2, 0, Some((100, 200)));
    app.record_sample(3, 0, Some((5, 6)));
    app.update_selected_totals();
    assert_eq!(app.selected_totals(), (100, 200));
    app.on_key_event(key(KeyCode::Tab));
    assert_eq!(app.selected_totals(), (0, 0));
    app.update_selected_totals();
    assert_eq!(app.selected_totals(), (5, 6));
    app.record_sample(3, 0, Some((50, 60)));
    app.update_selected_totals();
    assert_eq!(app.selected_totals(), (50, 60));
}

#[test]
fn sidebar_width_fits_names_within_limits() {
    let app = sample_app();
    // Longest active name is "wlan0" (5 columns): 5 + 28 = 33.
    assert_eq!(app.sidebar_width(200), 33);
    // Only 60 - 50 = 10 columns left for the sidebar, but never below 20.
    assert_eq!(app.sidebar_width(60), 20);
    assert_eq!(app.sidebar_width(80), 30);
    let empty = App::new(vec![]);
    assert_eq!(empty.sidebar_width(200), 28);
    assert_eq!(empty.selected_name(), "none");
}

#[test]
fn update_interval_parsing() {
    assert_eq!(parse_update_interval("250"), Some(250));
    assert_eq!(parse_update_interval("+250"), Some(250));
    assert_eq!(parse_update_interval("10"), Some(50));
    assert_eq!(parse_update_interval("0"), Some(50));
    assert_eq!(parse_update_interval("18446744073709551615"), Some(u64::MAX));
    assert_eq!(parse_update_interval("18446744073709551616"), None);
    assert_eq!(parse_update_interval(""), None);
    assert_eq!(parse_update_interval("+"), None);
    assert_eq!(parse_update_interval("-5"), None);
    assert_eq!(parse_update_interval(" 5"), None);
    assert_eq!(parse_update_interval("12a"), None);
    for s in ["7", "050", "+1", "999999", "abc", "1e3", "++1"] {
        let expected = s.parse::<u64>().ok().map(|ms| ms.max(50));
        assert_eq!(parse_update_interval(s), expected, "{s}");
    }
}

#[test]
fn sampling_cadence() {
    assert!(is_sample_due(None));
    assert!(!is_sample_due(Some(99_999_999)));
    assert!(is_sample_due(Some(100_000_000)));
}

#[test]
fn default_interval() {
    assert_eq!(App::default_update_interval(), 500);
    let app = App::with_update_interval(vec![], 250);
    assert_eq!(app.update_interval_ms(), 250);
    assert_eq!(app.selected_name(), "none");
}

#[test]
fn status_bar_texts() {
    let mut app = sample_app();
    app.record_sample(2, 0, Some((1536, 7)));
    app.update_selected_totals();
    let texts = app.status_texts();
    assert_eq!(texts.name, " eth0 ");
    assert_eq!(texts.mode, " mode:physical ");
    assert_eq!(texts.interval, " 500ms ");
    assert_eq!(texts.rx_total, " \u{2193}1.50 KB ");
    assert_eq!(texts.tx_total, " \u{2191}7 B ");
    let empty = App::with_update_interval(vec![], 1234);
    let texts = empty.status_texts();
    assert_eq!(texts.name, " none ");
    assert_eq!(texts.interval, " 1234ms ");
}

#[test]
fn only_scrolling_down_can_overflow() {
    let app = sample_app();
    let down = InputEvent::Key { key: key(KeyCode::Down), is_press: true };
    let up = InputEvent::Key { key: key(KeyCode::Up), is_press: true };
    assert!(!app.event_overflows(down));
    assert!(!app.event_overflows(up));
    assert!(!app.event_overflows(InputEvent::Resize));
}

#[test]
fn parsing_reads_back_decimal_text() {
    for ms in [0u64, 1, 49, 50, 51, 500, 1000, 65535, u64::MAX / 3, u64::MAX] {
        assert_eq!(parse_update_interval(&ms.to_string()), Some(ms.max(50)));
    }
}

#[test]
fn help_key_twice_restores() {
    let mut app = sample_app();
    app.on_key_event(key(KeyCode::Char('h')));
    app.on_key_event(key(KeyCode::Char('h')));
    assert!(!app.is_help_shown());
    assert!(app.is_running());
    assert_eq!(selected(&app), "eth0");
}

#[test]
fn samples_give_deltas_after_the_first() {
    let mut app = sample_app();
    assert!(app.sample_due(2, 0));
    assert_eq!(app.record_sample(2, 1_000, Some((500, 100))), None);
    assert!(!app.sample_due(2, 50_000_000));
    assert!(app.sample_due(2, 100_001_000));
    let d = app.record_sample(2, 250_001_000, Some((1500, 90)));
    assert_eq!(d, Some(CounterDelta { rx_bytes: 1000, tx_bytes: 0, elapsed_nanos: 250_000_000 }));
    // Without counters nothing is computed, but the time is recorded.
    assert_eq!(app.record_sample(3, 10, None), None);
    assert!(!app.sample_due(3, 20));
    assert_eq!(app.record_sample(3, 200_000_000, Some((1, 1))), None);
    // A clock reading earlier than the last sample counts as no time passed.
    let d = app.record_sample(2, 5, Some((1600, 95)));
    assert_eq!(d, Some(CounterDelta { rx_bytes: 100, tx_bytes: 5, elapsed_nanos: 0 }));
}

#[test]
fn graph_points_follow_the_cadence_and_reset() {
    let mut app = sample_app();
    assert!(app.take_history_slot(0));
    assert!(!app.take_history_slot(99_999_999));
    assert!(app.take_history_slot(100_000_000));
    assert!(!app.take_history_slot(150_000_000));
    app.on_key_event(key(KeyCode::Tab));
    assert!(app.take_history_slot(150_000_001));
}
