use ifmon::ui::help::help_key_label;
use unicode_width::UnicodeWidthStr;
use ifmon::ui::interface::{address_rows, more_note, state_is_up};
use ifmon::ui::sidebar::{pad_width, sidebar_name_cell, sidebar_title, truncate_width};

#[test]
fn short_names_are_kept() {
    assert_eq!(truncate_width("eth0", 10), "eth0");
    assert_eq!(truncate_width("eth0", 4), "eth0");
}

#[test]
fn long_names_get_an_ellipsis() {
    assert_eq!(truncate_width("verylongname", 5), "very\u{2026}");
    assert_eq!(truncate_width("abc", 0), "\u{2026}");
    assert_eq!(truncate_width("abc", 1), "\u{2026}");
}

#[test]
fn wide_characters_are_counted_by_columns() {
    // Each of these characters takes two columns.
    assert_eq!(truncate_width("\u{65e5}\u{672c}\u{8a9e}", 4), "\u{65e5}\u{2026}");
    assert_eq!(pad_width("\u{65e5}", 4), "\u{65e5}  ");
}

#[test]
fn padding_fills_to_the_width() {
    assert_eq!(pad_width("ab", 5), "ab   ");
    assert_eq!(pad_width("abcdef", 3), "abcdef");
    assert_eq!(pad_width("", 2), "  ");
}

#[test]
fn sidebar_titles() {
    assert_eq!(sidebar_title(false, 3), "  Physical (3) ");
    assert_eq!(sidebar_title(true, 12), "  All Interfaces (12) ");
}

#[test]
fn sidebar_name_cells() {
    // 24 columns: 22 inside the borders, 10 for the speeds, 2 separators.
    assert_eq!(sidebar_name_cell("eth0", 24, "0123456789"), "eth0      ");
    assert_eq!(sidebar_name_cell("enp0s31f6-long", 24, "0123456789"), "enp0s31f6\u{2026}");
    assert_eq!(sidebar_name_cell("eth0", 3, "0123456789"), "\u{2026}");
}

#[test]
fn address_rows_without_addresses() {
    let rows = address_rows("IPv4", &[], 0, 2);
    assert_eq!(rows.len(), 1);
    assert_eq!(rows[0].header, "IPv4");
    assert_eq!(rows[0].value, "-");
    assert!(!rows[0].is_note);
}

#[test]
fn address_rows_scroll_and_count_the_rest() {
    let addrs: Vec<String> = ["10.0.0.1/24", "10.0.0.2/24", "10.0.0.3/24", "10.0.0.4/24", "10.0.0.5/24"]
        .iter()
        .map(|s| s.to_string())
        .collect();
    let rows = address_rows("IPv4", &addrs, 1, 2);
    assert_eq!(rows.len(), 3);
    assert_eq!(rows[0].header, "IPv4");
    assert_eq!(rows[0].value, "10.0.0.2/24");
    assert_eq!(rows[1].header, "");
    assert_eq!(rows[1].value, "10.0.0.3/24");
    assert_eq!(rows[2].value, "(+2 more, use \u{2191}\u{2193})");
    assert!(rows[2].is_note);
    // Offsets past the end stop at the last full window.
    let rows = address_rows("IPv4", &addrs, 99, 2);
    assert_eq!(rows.len(), 2);
    assert_eq!(rows[0].value, "10.0.0.4/24");
    assert_eq!(rows[1].value, "10.0.0.5/24");
}

#[test]
fn fitting_addresses_ignore_the_offset() {
    let addrs = vec!["fe80::1/64".to_string()];
    let rows = address_rows("IPv6", &addrs, 5, 1);
    assert_eq!(rows.len(), 1);
    assert_eq!(rows[0].value, "fe80::1/64");
}

#[test]
fn notes_and_states() {
    assert_eq!(more_note(7), "(+7 more, use \u{2191}\u{2193})");
    assert!(state_is_up("Up"));
    assert!(!state_is_up("Down"));
    assert!(!state_is_up("Unknown"));
    assert!(!state_is_up("U"));
    assert!(state_is_up("LowerUp"));
}

#[test]
fn help_key_cells() {
    assert_eq!(help_key_label("q / Esc"), "  q / Esc     ");
    assert_eq!(help_key_label("Shift+Tab / k"), "  Shift+Tab / k");
    assert_eq!(help_key_label("f"), format!("  {:<12}", "f"));
}

#[test]
fn name_cells_fill_their_column_exactly() {
    for name in ["eth0", "enp0s31f6-long", "\u{65e5}\u{672c}\u{8a9e}\u{65e5}", "a", ""] {
        for area in [14u16, 20, 24, 40] {
            let cell = sidebar_name_cell(name, area, "0123456789");
            let column = (area as usize).saturating_sub(2).saturating_sub(10).saturating_sub(2);
            if column >= 1 {
                assert_eq!(cell.width(), column, "{name} in {area}");
            }
        }
    }
}
