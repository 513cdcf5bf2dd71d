use std::collections::HashMap;
use vstd::prelude::*;
use vstd::std_specs::iter::IteratorSpec;

use crate::network::filter::{filter_interfaces, relevant_interfaces, InterfaceInfo};
use crate::ui::sidebar::{str_width, unicode_str_width};
use crate::utils::format::{decimal_digits, format_total_bytes, push_char, push_decimal, total_bytes_text};

verus! {

broadcast use vstd::std_specs::hash::group_hash_axioms;

/// Number of historical speed samples kept per interface.
pub const HISTORY_SIZE: usize = 100;

/// Default time between samples, in milliseconds, if none is configured.
pub const DEFAULT_UPDATE_INTERVAL_MS: u64 = 500;

/// Smallest update interval, in milliseconds, that a configuration may set.
pub const MIN_UPDATE_INTERVAL_MS: u64 = 50;

/// Minimum elapsed time, in nanoseconds, before a new speed sample is taken.
pub const MIN_SAMPLE_ELAPSED_NANOS: u128 = 100_000_000;

/// Minimum width for the left interface sidebar.
pub const SIDEBAR_MIN_WIDTH: u16 = 20;

/// Extra columns reserved for the speed block and highlight symbol/borders.
pub const SIDEBAR_SPEED_RESERVE: usize = 28;

/// Minimum width to keep for the main (info + graph) content.
pub const MAIN_MIN_WIDTH: u16 = 50;

/// IPv4 rows visible in the info panel (drives whether arrows scroll IPv4).
pub const IPV4_VISIBLE_ROWS: usize = 2;

/// A rectangle on the screen, in terminal cells.
#[derive(Clone, Copy, Debug, PartialEq, Eq, Structural)]
pub struct Area {
    pub x: u16,
    pub y: u16,
    pub width: u16,
    pub height: u16,
}

/// The key of a key press, as far as the monitor distinguishes keys.
#[derive(Clone, Copy, Debug, PartialEq, Eq, Structural)]
pub enum KeyCode {
    Esc,
    Char(char),
    Up,
    Down,
    Tab,
    BackTab,
    Other,
}

/// A key press; `shift_only` when Shift is the only modifier held.
#[derive(Clone, Copy, Debug, PartialEq, Eq, Structural)]
pub struct KeyPress {
    pub code: KeyCode,
    pub shift_only: bool,
}

/// The kind of a mouse event, as far as the monitor distinguishes them.
#[derive(Clone, Copy, Debug, PartialEq, Eq, Structural)]
pub enum MouseKind {
    LeftDown,
    ScrollDown,
    ScrollUp,
    Other,
}

/// A mouse event at a screen cell.
#[derive(Clone, Copy, Debug, PartialEq, Eq, Structural)]
pub struct MouseInput {
    pub kind: MouseKind,
    pub column: u16,
    pub row: u16,
}

/// A terminal input event; `is_press` tells key presses from repeats and
/// releases.
#[derive(Clone, Copy, Debug, PartialEq, Eq, Structural)]
pub enum InputEvent {
    Key { key: KeyPress, is_press: bool },
    Mouse(MouseInput),
    Resize,
    Other,
}

/// What changed between two samples of an interface's counters: the bytes
/// received and transmitted since, and the time between the samples.
#[derive(Clone, Copy, Debug, PartialEq, Eq, Structural)]
pub struct CounterDelta {
    pub rx_bytes: u64,
    pub tx_bytes: u64,
    pub elapsed_nanos: u128,
}

/// The texts of the status bar's segments.
#[derive(Debug)]
pub struct StatusTexts {
    pub name: String,
    pub mode: String,
    pub interval: String,
    pub rx_total: String,
    pub tx_total: String,
}

/// Main application state: the interface lists, the selection, the view
/// modes, the counters and times of the last samples, the selected
/// interface's totals, and where the sidebar was drawn. Speeds and speed
/// histories (floating point) and the clock itself live with the program
/// that drives this state; times are nanoseconds on that clock.
pub struct App {
    running: bool,
    interfaces: Vec<InterfaceInfo>,
    filtered_interfaces: Vec<InterfaceInfo>,
    selected_interface: usize,
    show_help: bool,
    show_all_interfaces: bool,
    update_interval_ms: u64,
    total_rx_bytes: u64,
    total_tx_bytes: u64,
    ipv4_scroll_offset: usize,
    ipv6_scroll_offset: usize,
    /// Set whenever per-selection statistics were reset, until taken.
    stats_reset_pending: bool,
    /// Per-interface cumulative (rx_bytes, tx_bytes), keyed by interface index.
    totals: HashMap<u32, (u64, u64)>,
    /// Per-interface byte counters of the last sample, keyed by interface index.
    last_counters: HashMap<u32, (u64, u64)>,
    /// Per-interface time of the last sample (nanoseconds on the monitor's clock).
    last_sample_at: HashMap<u32, u128>,
    /// When the selected interface's graph was last pushed to.
    last_history_update_at: Option<u128>,
    /// Screen area of the sidebar (used for mouse hit-testing).
    sidebar_area: Area,
    /// Y coordinate of the first sidebar row (inside the top border).
    sidebar_rows_top: u16,
}

/// The abstract state of an [`App`].
pub struct AppState {
    pub running: bool,
    pub interfaces: Seq<InterfaceInfo>,
    pub filtered: Seq<InterfaceInfo>,
    pub selected: usize,
    pub show_help: bool,
    pub show_all: bool,
    pub update_interval_ms: u64,
    pub total_rx: u64,
    pub total_tx: u64,
    pub ipv4_scroll: usize,
    pub ipv6_scroll: usize,
    pub stats_reset_pending: bool,
    pub totals: Map<u32, (u64, u64)>,
    pub last_counters: Map<u32, (u64, u64)>,
    pub last_sample_at: Map<u32, u128>,
    pub last_history_update_at: Option<u128>,
    pub sidebar_area: Area,
    pub sidebar_rows_top: u16,
}

impl View for App {
    type V = AppState;

    closed spec fn view(&self) -> AppState {
        AppState {
            running: self.running,
            interfaces: self.interfaces@,
            filtered: self.filtered_interfaces@,
            selected: self.selected_interface,
            show_help: self.show_help,
            show_all: self.show_all_interfaces,
            update_interval_ms: self.update_interval_ms,
            total_rx: self.total_rx_bytes,
            total_tx: self.total_tx_bytes,
            ipv4_scroll: self.ipv4_scroll_offset,
            ipv6_scroll: self.ipv6_scroll_offset,
            stats_reset_pending: self.stats_reset_pending,
            totals: self.totals@,
            last_counters: self.last_counters@,
            last_sample_at: self.last_sample_at@,
            last_history_update_at: self.last_history_update_at,
            sidebar_area: self.sidebar_area,
            sidebar_rows_top: self.sidebar_rows_top,
        }
    }
}

/// Time from `then` to `now`, zero when `now` is earlier.
pub open spec fn elapsed_since(now: u128, then: u128) -> u128 {
    if now >= then {
        (now - then) as u128
    } else {
        0
    }
}

/// `a - b`, floored at zero.
pub open spec fn saturating_sub_u64(a: u64, b: u64) -> u64 {
    if a >= b {
        (a - b) as u64
    } else {
        0
    }
}

/// `a + b`, capped at the largest `u16`.
pub open spec fn saturating_add_u16(a: u16, b: u16) -> int {
    if a + b > u16::MAX {
        u16::MAX as int
    } else {
        a + b
    }
}

impl AppState {
    /// The interfaces listed in the current view mode.
    pub open spec fn active(self) -> Seq<InterfaceInfo> {
        if self.show_all {
            self.interfaces
        } else {
            self.filtered
        }
    }

    /// What every reachable state satisfies: the physical view lists exactly
    /// the relevant interfaces, and the selection is the first entry or an
    /// entry of the active list.
    pub open spec fn is_consistent(self) -> bool {
        &&& self.interfaces.len() <= usize::MAX
        &&& self.filtered.len() <= usize::MAX
        &&& self.filtered == relevant_interfaces(self.interfaces)
        &&& (self.selected == 0 || self.selected < self.active().len())
    }

    /// Scrolling down would move the scrolled offset past the largest
    /// `usize`.
    pub open spec fn scroll_overflows(self, down: bool) -> bool {
        &&& down
        &&& !self.show_help
        &&& self.selected < self.active().len()
        &&& if self.active()[self.selected as int].ipv4_count > IPV4_VISIBLE_ROWS {
            self.ipv4_scroll == usize::MAX
        } else {
            self.ipv6_scroll == usize::MAX
        }
    }

    /// The key press would scroll an offset past the largest `usize`.
    pub open spec fn key_overflows(self, key: KeyPress) -> bool {
        key.code is Down && self.scroll_overflows(true)
    }

    /// The mouse event would scroll an offset past the largest `usize`.
    pub open spec fn mouse_overflows(self, mouse: MouseInput) -> bool {
        mouse.kind is ScrollDown && self.scroll_overflows(true)
    }

    /// The input event would scroll an offset past the largest `usize`.
    pub open spec fn event_overflows(self, event: InputEvent) -> bool {
        match event {
            InputEvent::Key { key, is_press } => is_press && self.key_overflows(key),
            InputEvent::Mouse(mouse) => self.mouse_overflows(mouse),
            _ => false,
        }
    }

    /// Per-selection statistics cleared: totals zero, reset flagged.
    pub open spec fn reset_stats(self) -> AppState {
        AppState {
            total_rx: 0,
            total_tx: 0,
            stats_reset_pending: true,
            last_history_update_at: None,
            ..self
        }
    }

    /// Select the entry `idx` of the active list (nothing when out of range):
    /// statistics reset and address scrolling back at the top.
    pub open spec fn change_interface(self, idx: usize) -> AppState {
        let len = self.active().len();
        if len == 0 || idx >= len {
            self
        } else {
            AppState { selected: idx, ipv4_scroll: 0, ipv6_scroll: 0, ..self.reset_stats() }
        }
    }

    /// Select the next entry, wrapping to the first.
    pub open spec fn next_interface(self) -> AppState {
        let len = self.active().len();
        if len == 0 {
            self
        } else {
            self.change_interface(((self.selected + 1) % (len as int)) as usize)
        }
    }

    /// Select the previous entry, wrapping to the last.
    pub open spec fn prev_interface(self) -> AppState {
        let len = self.active().len();
        if len == 0 {
            self
        } else if self.selected == 0 {
            self.change_interface((len - 1) as usize)
        } else {
            self.change_interface((self.selected - 1) as usize)
        }
    }

    /// Switch between all interfaces and physical ones; selection back to
    /// the first entry and statistics reset.
    pub open spec fn toggle_filter(self) -> AppState {
        AppState { show_all: !self.show_all, selected: 0, ..self }.reset_stats()
    }

    /// Scroll the address list of the selected interface one step: the IPv4
    /// list when it has more addresses than fit, else the IPv6 list. Nothing
    /// while help is shown or when nothing is selected.
    pub open spec fn scroll(self, down: bool) -> AppState {
        if self.show_help || self.selected >= self.active().len() {
            self
        } else if self.active()[self.selected as int].ipv4_count > IPV4_VISIBLE_ROWS {
            AppState {
                ipv4_scroll: if down {
                    (self.ipv4_scroll + 1) as usize
                } else if self.ipv4_scroll > 0 {
                    (self.ipv4_scroll - 1) as usize
                } else {
                    0
                },
                ..self
            }
        } else {
            AppState {
                ipv6_scroll: if down {
                    (self.ipv6_scroll + 1) as usize
                } else if self.ipv6_scroll > 0 {
                    (self.ipv6_scroll - 1) as usize
                } else {
                    0
                },
                ..self
            }
        }
    }

    /// Stop the main loop.
    pub open spec fn quit(self) -> AppState {
        AppState { running: false, ..self }
    }

    /// The effect of a key press: `Esc` closes help or quits, `q` quits, `h`
    /// toggles help, `f` the filter, `Tab` and `j` select the next
    /// interface, `Shift+Tab` (a back-tab, or a tab with only Shift held) and
    /// `k` the previous one, `1` to `9` jump to an interface, the arrows
    /// scroll addresses; other keys change nothing.
    pub open spec fn on_key(self, key: KeyPress) -> AppState {
        match key.code {
            KeyCode::Esc => if self.show_help {
                AppState { show_help: false, ..self }
            } else {
                self.quit()
            },
            KeyCode::Char(c) => if c == 'q' {
                self.quit()
            } else if c == 'h' {
                AppState { show_help: !self.show_help, ..self }
            } else if c == 'f' {
                self.toggle_filter()
            } else if c == 'k' {
                self.prev_interface()
            } else if c == 'j' {
                self.next_interface()
            } else if '1' <= c && c <= '9' {
                self.change_interface((c as u32 - '1' as u32) as usize)
            } else {
                self
            },
            KeyCode::Up => self.scroll(false),
            KeyCode::Down => self.scroll(true),
            KeyCode::Tab => if key.shift_only {
                self.prev_interface()
            } else {
                self.next_interface()
            },
            KeyCode::BackTab => self.prev_interface(),
            KeyCode::Other => self,
        }
    }

    /// The selected interface's recorded totals shown, if it has any.
    pub open spec fn with_selected_totals(self) -> AppState {
        if self.selected < self.active().len() && self.totals.contains_key(
            self.active()[self.selected as int].index,
        ) {
            let t = self.totals[self.active()[self.selected as int].index];
            AppState { total_rx: t.0, total_tx: t.1, ..self }
        } else {
            self
        }
    }

    /// A new sample of the interface `index` is due at `now`.
    pub open spec fn sample_due(self, index: u32, now: u128) -> bool {
        if self.last_sample_at.contains_key(index) {
            elapsed_since(now, self.last_sample_at[index]) >= MIN_SAMPLE_ELAPSED_NANOS
        } else {
            true
        }
    }

    /// The change since the previous sample of `index`, when one was taken
    /// with counters; nothing without counters or without a previous sample.
    pub open spec fn sample_delta(self, index: u32, now: u128, counters: Option<(u64, u64)>) -> Option<
        CounterDelta,
    > {
        match counters {
            Some(c) => if self.last_counters.contains_key(index) && self.last_sample_at.contains_key(
                index,
            ) {
                let prev = self.last_counters[index];
                Some(
                    CounterDelta {
                        rx_bytes: saturating_sub_u64(c.0, prev.0),
                        tx_bytes: saturating_sub_u64(c.1, prev.1),
                        elapsed_nanos: elapsed_since(now, self.last_sample_at[index]),
                    },
                )
            } else {
                None
            },
            None => None,
        }
    }

    /// The state after sampling `index` at `now`: with counters, they become
    /// its totals and the base of its next delta; either way `now` is its
    /// last sample time.
    pub open spec fn after_sample(self, index: u32, now: u128, counters: Option<(u64, u64)>) -> AppState {
        let counted = match counters {
            Some(c) => AppState {
                totals: self.totals.insert(index, c),
                last_counters: self.last_counters.insert(index, c),
                ..self
            },
            None => self,
        };
        AppState { last_sample_at: counted.last_sample_at.insert(index, now), ..counted }
    }

    /// A push to the selected interface's graph is due at `now`.
    pub open spec fn history_push_due(self, now: u128) -> bool {
        match self.last_history_update_at {
            Some(t) => elapsed_since(now, t) >= MIN_SAMPLE_ELAPSED_NANOS,
            None => true,
        }
    }

    /// The mouse cell lies in the sidebar's list rows.
    pub open spec fn in_sidebar(self, column: u16, row: u16) -> bool {
        &&& column >= self.sidebar_area.x
        &&& column < saturating_add_u16(self.sidebar_area.x, self.sidebar_area.width)
        &&& row >= self.sidebar_rows_top
        &&& row < saturating_add_u16(self.sidebar_area.y, self.sidebar_area.height)
    }

    /// The effect of a mouse event: a left click on a sidebar row selects
    /// that interface, the wheel scrolls addresses; nothing while help is
    /// shown.
    pub open spec fn on_mouse(self, mouse: MouseInput) -> AppState {
        if self.show_help {
            self
        } else {
            match mouse.kind {
                MouseKind::LeftDown => if self.in_sidebar(mouse.column, mouse.row) {
                    let idx = (mouse.row - self.sidebar_rows_top) as usize;
                    if idx < self.active().len() {
                        self.change_interface(idx)
                    } else {
                        self
                    }
                } else {
                    self
                },
                MouseKind::ScrollDown => self.scroll(true),
                MouseKind::ScrollUp => self.scroll(false),
                MouseKind::Other => self,
            }
        }
    }

    /// The effect of an input event: key presses and mouse events act,
    /// everything else is ignored.
    pub open spec fn on_event(self, event: InputEvent) -> AppState {
        match event {
            InputEvent::Key { key, is_press } => if is_press {
                self.on_key(key)
            } else {
                self
            },
            InputEvent::Mouse(mouse) => self.on_mouse(mouse),
            _ => self,
        }
    }
}

impl App {
    #[verifier::type_invariant]
    spec fn inv(self) -> bool {
        self@.is_consistent()
    }

    /// The built-in default time between samples, in milliseconds.
    pub fn default_update_interval() -> (ms: u64)
        ensures
            ms == DEFAULT_UPDATE_INTERVAL_MS,
    {
        DEFAULT_UPDATE_INTERVAL_MS
    }

    /// Create a new application state over the given interfaces with the
    /// default update interval.
    pub fn new(interfaces: Vec<InterfaceInfo>) -> (app: App)
        ensures
            app@ == initial_state(interfaces@, DEFAULT_UPDATE_INTERVAL_MS),
    {
        Self::with_update_interval(interfaces, Self::default_update_interval())
    }

    /// Create a new application state over the given interfaces with a
    /// custom update interval (milliseconds).
    pub fn with_update_interval(interfaces: Vec<InterfaceInfo>, update_interval_ms: u64) -> (app: App)
        ensures
            app@ == initial_state(interfaces@, update_interval_ms),
    {
        let filtered = filter_interfaces(interfaces.as_slice());
        assert(interfaces@.len() == interfaces.len());
        assert(filtered@.len() == filtered.len());
        let app = App {
            running: true,
            interfaces,
            filtered_interfaces: filtered,
            selected_interface: 0,
            show_help: false,
            show_all_interfaces: false,
            update_interval_ms,
            total_rx_bytes: 0,
            total_tx_bytes: 0,
            ipv4_scroll_offset: 0,
            ipv6_scroll_offset: 0,
            stats_reset_pending: false,
            totals: HashMap::new(),
            last_counters: HashMap::new(),
            last_sample_at: HashMap::new(),
            last_history_update_at: None,
            sidebar_area: Area { x: 0, y: 0, width: 0, height: 0 },
            sidebar_rows_top: 0,
        };
        proof {
            assert(app@ =~= initial_state(interfaces@, update_interval_ms));
        }
        app
    }

    /// Get the list of active interfaces based on the current filter setting.
    pub fn get_active_interfaces(&self) -> (active: &[InterfaceInfo])
        ensures
            active@ == self@.active(),
    {
        if self.show_all_interfaces {
            self.interfaces.as_slice()
        } else {
            self.filtered_interfaces.as_slice()
        }
    }

    /// The selected interface, if the active list has one.
    pub fn selected_interface(&self) -> (selected: Option<&InterfaceInfo>)
        ensures
            self@.selected < self@.active().len() ==> selected == Some(
                &self@.active()[self@.selected as int],
            ),
            self@.selected >= self@.active().len() ==> selected is None,
    {
        let active = self.get_active_interfaces();
        if self.selected_interface < active.len() {
            Some(&active[self.selected_interface])
        } else {
            None
        }
    }

    /// Toggle between showing all interfaces and filtered interfaces.
    pub fn toggle_interface_filter(&mut self)
        ensures
            final(self)@ == old(self)@.toggle_filter(),
            final(self)@.is_consistent(),
    {
        proof {
            use_type_invariant(&*self);
        }
        self.selected_interface = 0;
        self.show_all_interfaces = !self.show_all_interfaces;
        self.reset_stats();
        proof {
            use_type_invariant(&*self);
            assert(final(self)@ =~= old(self)@.toggle_filter());
        }
    }

    /// Change to a different interface (no-op for out-of-range indices).
    pub fn change_interface(&mut self, idx: usize)
        ensures
            final(self)@ == old(self)@.change_interface(idx),
            final(self)@.is_consistent(),
    {
        proof {
            use_type_invariant(&*self);
        }
        let len = self.get_active_interfaces().len();
        if len == 0 || idx >= len {
            return;
        }
        self.selected_interface = idx;
        self.reset_stats();
        self.ipv4_scroll_offset = 0;
        self.ipv6_scroll_offset = 0;
        proof {
            use_type_invariant(&*self);
            assert(final(self)@ =~= old(self)@.change_interface(idx));
        }
    }

    /// Move to the next (wrapping) interface.
    pub fn next_interface(&mut self)
        ensures
            final(self)@ == old(self)@.next_interface(),
            final(self)@.is_consistent(),
    {
        proof {
            use_type_invariant(&*self);
        }
        let len = self.get_active_interfaces().len();
        if len == 0 {
            return;
        }
        self.change_interface((self.selected_interface + 1) % len);
    }

    /// Move to the previous (wrapping) interface.
    pub fn prev_interface(&mut self)
        ensures
            final(self)@ == old(self)@.prev_interface(),
            final(self)@.is_consistent(),
    {
        proof {
            use_type_invariant(&*self);
        }
        let len = self.get_active_interfaces().len();
        if len == 0 {
            return;
        }
        let idx = if self.selected_interface == 0 {
            len - 1
        } else {
            self.selected_interface - 1
        };
        self.change_interface(idx);
    }

    /// Reset per-selection graph statistics (keeps per-interface data intact).
    pub fn reset_stats(&mut self)
        ensures
            final(self)@ == old(self)@.reset_stats(),
            final(self)@.is_consistent(),
    {
        proof {
            use_type_invariant(&*self);
        }
        self.total_rx_bytes = 0;
        self.total_tx_bytes = 0;
        self.stats_reset_pending = true;
        self.last_history_update_at = None;
        proof {
            use_type_invariant(&*self);
            assert(final(self)@ =~= old(self)@.reset_stats());
        }
    }

    /// Whether statistics were reset since the last call; clears the flag.
    /// The driving program then clears the speed history and speeds.
    pub fn take_stats_reset(&mut self) -> (was_reset: bool)
        ensures
            was_reset == old(self)@.stats_reset_pending,
            final(self)@ == (AppState { stats_reset_pending: false, ..old(self)@ }),
    {
        proof {
            use_type_invariant(&*self);
        }
        let was_reset = self.stats_reset_pending;
        self.stats_reset_pending = false;
        proof {
            assert(final(self)@ =~= (AppState { stats_reset_pending: false, ..old(self)@ }));
        }
        was_reset
    }

    /// Scroll the IP address list. Scrolls whichever family (IPv4 then IPv6)
    /// still has addresses beyond what's visible, instead of both at once.
    pub fn scroll_ip_addresses(&mut self, down: bool)
        requires
            !old(self)@.scroll_overflows(down),
        ensures
            final(self)@ == old(self)@.scroll(down),
            final(self)@.is_consistent(),
    {
        proof {
            use_type_invariant(&*self);
        }
        if self.show_help {
            return;
        }
        let v4_overflow = {
            let active = self.get_active_interfaces();
            if self.selected_interface < active.len() {
                active[self.selected_interface].ipv4_count > IPV4_VISIBLE_ROWS
            } else {
                return;
            }
        };
        if v4_overflow {
            if down {
                self.ipv4_scroll_offset = self.ipv4_scroll_offset + 1;
            } else {
                self.ipv4_scroll_offset = self.ipv4_scroll_offset.saturating_sub(1);
            }
        } else {
            if down {
                self.ipv6_scroll_offset = self.ipv6_scroll_offset + 1;
            } else {
                self.ipv6_scroll_offset = self.ipv6_scroll_offset.saturating_sub(1);
            }
        }
        proof {
            assert(final(self)@ =~= old(self)@.scroll(down));
        }
    }

    /// Handle mouse events.
    pub fn on_mouse_event(&mut self, mouse: MouseInput)
        requires
            !old(self)@.mouse_overflows(mouse),
        ensures
            final(self)@ == old(self)@.on_mouse(mouse),
            final(self)@.is_consistent(),
    {
        proof {
            use_type_invariant(&*self);
        }
        if self.show_help {
            return;
        }
        match mouse.kind {
            MouseKind::LeftDown => {
                let in_sidebar = mouse.column >= self.sidebar_area.x && mouse.column
                    < self.sidebar_area.x.saturating_add(self.sidebar_area.width) && mouse.row
                    >= self.sidebar_rows_top && mouse.row < self.sidebar_area.y.saturating_add(
                    self.sidebar_area.height,
                );
                if in_sidebar {
                    let idx = (mouse.row - self.sidebar_rows_top) as usize;
                    if idx < self.get_active_interfaces().len() {
                        self.change_interface(idx);
                    }
                }
            },
            MouseKind::ScrollDown => self.scroll_ip_addresses(true),
            MouseKind::ScrollUp => self.scroll_ip_addresses(false),
            MouseKind::Other => {},
        }
    }

    /// Handle key events.
    pub fn on_key_event(&mut self, key: KeyPress)
        requires
            !old(self)@.key_overflows(key),
        ensures
            final(self)@ == old(self)@.on_key(key),
            final(self)@.is_consistent(),
    {
        proof {
            use_type_invariant(&*self);
        }
        match key.code {
            KeyCode::Esc => {
                if self.show_help {
                    self.show_help = false;
                } else {
                    self.quit();
                }
            },
            KeyCode::Char(c) => {
                if c == 'q' {
                    self.quit();
                } else if c == 'h' {
                    self.show_help = !self.show_help;
                } else if c == 'f' {
                    self.toggle_interface_filter();
                } else if c == 'k' {
                    self.prev_interface();
                } else if c == 'j' {
                    self.next_interface();
                } else if '1' <= c && c <= '9' {
                    let idx = (c as u32 - '1' as u32) as usize;
                    self.change_interface(idx);
                }
            },
            KeyCode::Up => self.scroll_ip_addresses(false),
            KeyCode::Down => self.scroll_ip_addresses(true),
            KeyCode::Tab => {
                if key.shift_only {
                    self.prev_interface();
                } else {
                    self.next_interface();
                }
            },
            KeyCode::BackTab => self.prev_interface(),
            KeyCode::Other => {},
        }
        proof {
            use_type_invariant(&*self);
            assert(final(self)@ =~= old(self)@.on_key(key));
        }
    }

    /// Read and handle one input event.
    pub fn handle_event(&mut self, event: InputEvent)
        requires
            !old(self)@.event_overflows(event),
        ensures
            final(self)@ == old(self)@.on_event(event),
            final(self)@.is_consistent(),
    {
        proof {
            use_type_invariant(&*self);
        }
        match event {
            InputEvent::Key { key, is_press } => {
                if is_press {
                    self.on_key_event(key);
                }
            },
            InputEvent::Mouse(mouse) => self.on_mouse_event(mouse),
            InputEvent::Resize => {},
            InputEvent::Other => {},
        }
    }

    /// Whether the main loop should keep running.
    pub fn is_running(&self) -> (running: bool)
        ensures
            running == self@.running,
    {
        self.running
    }

    /// Whether the help screen is shown.
    pub fn is_help_shown(&self) -> (shown: bool)
        ensures
            shown == self@.show_help,
    {
        self.show_help
    }

    /// Whether all interfaces (rather than physical ones) are listed.
    pub fn shows_all_interfaces(&self) -> (all: bool)
        ensures
            all == self@.show_all,
    {
        self.show_all_interfaces
    }

    /// Position of the selection in the active list.
    pub fn selected_position(&self) -> (position: usize)
        ensures
            position == self@.selected,
    {
        self.selected_interface
    }

    /// Scroll offsets of the IPv4 and IPv6 address lists.
    pub fn scroll_offsets(&self) -> (offsets: (usize, usize))
        ensures
            offsets == (self@.ipv4_scroll, self@.ipv6_scroll),
    {
        (self.ipv4_scroll_offset, self.ipv6_scroll_offset)
    }

    /// Cumulative received and transmitted bytes of the selected interface.
    pub fn selected_totals(&self) -> (totals: (u64, u64))
        ensures
            totals == (self@.total_rx, self@.total_tx),
    {
        (self.total_rx_bytes, self.total_tx_bytes)
    }

    /// Time between samples, in milliseconds.
    pub fn update_interval_ms(&self) -> (ms: u64)
        ensures
            ms == self@.update_interval_ms,
    {
        self.update_interval_ms
    }

    /// Reflect the selected interface's recorded totals into the shown
    /// totals (unchanged when nothing is selected or nothing is recorded).
    pub fn update_selected_totals(&mut self)
        ensures
            final(self)@ == old(self)@.with_selected_totals(),
            final(self)@.is_consistent(),
    {
        proof {
            use_type_invariant(&*self);
        }
        let found = match self.selected_interface() {
            Some(iface) => match self.totals.get(&iface.index) {
                Some(t) => Some(*t),
                None => None,
            },
            None => None,
        };
        if let Some((r, t)) = found {
            self.total_rx_bytes = r;
            self.total_tx_bytes = t;
        }
        proof {
            assert(final(self)@ =~= old(self)@.with_selected_totals());
        }
    }

    /// Remember where the sidebar was drawn; its rows start one line below
    /// its top border.
    pub fn set_sidebar_area(&mut self, area: Area)
        requires
            area.y < u16::MAX,
        ensures
            final(self)@ == (AppState {
                sidebar_area: area,
                sidebar_rows_top: (area.y + 1) as u16,
                ..old(self)@
            }),
            final(self)@.is_consistent(),
    {
        proof {
            use_type_invariant(&*self);
        }
        self.sidebar_area = area;
        self.sidebar_rows_top = area.y + 1;
        proof {
            assert(final(self)@ =~= (AppState {
                sidebar_area: area,
                sidebar_rows_top: (area.y + 1) as u16,
                ..old(self)@
            }));
        }
    }

    /// Width of the sidebar inside a frame `inner_width` columns wide: room
    /// for the longest active name plus the speeds, within what the main
    /// content leaves, and never below the minimum.
    pub fn sidebar_width(&self, inner_width: u16) -> (width: u16)
        ensures
            width == sidebar_width_for(longest_name_width(self@.active()), inner_width),
    {
        let active = self.get_active_interfaces();
        let mut longest: usize = 0;
        let mut i: usize = 0;
        while i < active.len()
            invariant
                i <= active@.len(),
                longest == longest_name_width(active@.take(i as int)),
            decreases active@.len() - i,
        {
            let w = str_width(active[i].name.as_str());
            if w > longest {
                longest = w;
            }
            i = i + 1;
            proof {
                assert(active@.take(i as int).drop_last() =~= active@.take(i - 1));
            }
        }
        proof {
            assert(active@.take(active@.len() as int) =~= active@);
        }
        let available = inner_width.saturating_sub(MAIN_MIN_WIDTH) as usize;
        let wanted = longest.saturating_add(SIDEBAR_SPEED_RESERVE);
        let clamped = if wanted <= available {
            wanted
        } else {
            available
        };
        if clamped >= SIDEBAR_MIN_WIDTH as usize {
            clamped as u16
        } else {
            SIDEBAR_MIN_WIDTH
        }
    }

    /// Name of the selected interface, or "none".
    pub fn selected_name(&self) -> (name: String)
        ensures
            self@.selected < self@.active().len() ==> name@ == self@.active()[self@.selected as int].name@,
            self@.selected >= self@.active().len() ==> name@ == "none"@,
    {
        match self.selected_interface() {
            Some(iface) => iface.name.clone(),
            None => String::from_str("none"),
        }
    }

    /// Label of the view mode for the status bar.
    pub fn mode_label(&self) -> (label: &'static str)
        ensures
            self@.show_all ==> label@ == "all"@,
            !self@.show_all ==> label@ == "physical"@,
    {
        if self.show_all_interfaces {
            "all"
        } else {
            "physical"
        }
    }

    /// Texts of the status bar: the selected interface, the view mode, the
    /// sample interval and the selected interface's totals.
    pub fn status_texts(&self) -> (texts: StatusTexts)
        ensures
            texts.name@ == seq![' '] + (if self@.selected < self@.active().len() {
                self@.active()[self@.selected as int].name@
            } else {
                "none"@
            }) + seq![' '],
            texts.mode@ == " mode:"@ + (if self@.show_all {
                "all"@
            } else {
                "physical"@
            }) + seq![' '],
            texts.interval@ == seq![' '] + decimal_digits(self@.update_interval_ms as nat) + seq![
                'm',
                's',
                ' ',
            ],
            texts.rx_total@ == seq![' ', '\u{2193}'] + total_bytes_text(self@.total_rx) + seq![' '],
            texts.tx_total@ == seq![' ', '\u{2191}'] + total_bytes_text(self@.total_tx) + seq![' '],
    {
        let selected = self.selected_name();
        let mut name = String::new();
        push_char(&mut name, ' ');
        name.append(selected.as_str());
        push_char(&mut name, ' ');
        let mut mode = String::from_str(" mode:");
        mode.append(self.mode_label());
        push_char(&mut mode, ' ');
        let mut interval = String::new();
        push_char(&mut interval, ' ');
        push_decimal(&mut interval, self.update_interval_ms as u128);
        push_char(&mut interval, 'm');
        push_char(&mut interval, 's');
        push_char(&mut interval, ' ');
        let mut rx_total = String::new();
        push_char(&mut rx_total, ' ');
        push_char(&mut rx_total, '\u{2193}');
        rx_total.append(format_total_bytes(self.total_rx_bytes).as_str());
        push_char(&mut rx_total, ' ');
        let mut tx_total = String::new();
        push_char(&mut tx_total, ' ');
        push_char(&mut tx_total, '\u{2191}');
        tx_total.append(format_total_bytes(self.total_tx_bytes).as_str());
        push_char(&mut tx_total, ' ');
        proof {
            assert(name@ =~= seq![' '] + selected@ + seq![' ']);
            assert(interval@ =~= seq![' '] + decimal_digits(self@.update_interval_ms as nat) + seq![
                'm',
                's',
                ' ',
            ]);
            assert(rx_total@ =~= seq![' ', '\u{2193}'] + total_bytes_text(self@.total_rx) + seq![' ']);
            assert(tx_total@ =~= seq![' ', '\u{2191}'] + total_bytes_text(self@.total_tx) + seq![' ']);
        }
        StatusTexts { name, mode, interval, rx_total, tx_total }
    }

    /// Whether a new sample of the interface `index` is due at `now_nanos`
    /// (on the monitor's clock).
    pub fn sample_due(&self, index: u32, now_nanos: u128) -> (due: bool)
        ensures
            due == self@.sample_due(index, now_nanos),
    {
        match self.last_sample_at.get(&index) {
            Some(t) => is_sample_due(Some(now_nanos.saturating_sub(*t))),
            None => is_sample_due(None),
        }
    }

    /// Record a sample of the interface `index` taken at `now_nanos`, with
    /// its byte counters when the system reported them; returns the change
    /// since its previous sample, from which speeds are computed.
    pub fn record_sample(&mut self, index: u32, now_nanos: u128, counters: Option<(u64, u64)>) -> (delta:
        Option<CounterDelta>)
        ensures
            delta == old(self)@.sample_delta(index, now_nanos, counters),
            final(self)@ == old(self)@.after_sample(index, now_nanos, counters),
            final(self)@.is_consistent(),
    {
        proof {
            use_type_invariant(&*self);
        }
        let mut delta: Option<CounterDelta> = None;
        if let Some((rx, tx)) = counters {
            // Cumulative totals are available immediately (even on first sample).
            let mut totals: HashMap<u32, (u64, u64)> = HashMap::new();
            std::mem::swap(&mut totals, &mut self.totals);
            totals.insert(index, (rx, tx));
            self.totals = totals;
            let prev = match self.last_counters.get(&index) {
                Some(p) => Some(*p),
                None => None,
            };
            let then = match self.last_sample_at.get(&index) {
                Some(t) => Some(*t),
                None => None,
            };
            if let (Some((prev_rx, prev_tx)), Some(t0)) = (prev, then) {
                delta = Some(
                    CounterDelta {
                        rx_bytes: rx.saturating_sub(prev_rx),
                        tx_bytes: tx.saturating_sub(prev_tx),
                        elapsed_nanos: now_nanos.saturating_sub(t0),
                    },
                );
            }
            let mut last: HashMap<u32, (u64, u64)> = HashMap::new();
            std::mem::swap(&mut last, &mut self.last_counters);
            last.insert(index, (rx, tx));
            self.last_counters = last;
        }
        let mut times: HashMap<u32, u128> = HashMap::new();
        std::mem::swap(&mut times, &mut self.last_sample_at);
        times.insert(index, now_nanos);
        self.last_sample_at = times;
        proof {
            assert(final(self)@ =~= old(self)@.after_sample(index, now_nanos, counters));
        }
        delta
    }

    /// Whether the selected interface's graph takes a new point at
    /// `now_nanos`; when it does, `now_nanos` becomes the time of the last
    /// point.
    pub fn take_history_slot(&mut self, now_nanos: u128) -> (due: bool)
        ensures
            due == old(self)@.history_push_due(now_nanos),
            final(self)@ == (if due {
                AppState { last_history_update_at: Some(now_nanos), ..old(self)@ }
            } else {
                old(self)@
            }),
            final(self)@.is_consistent(),
    {
        proof {
            use_type_invariant(&*self);
        }
        let due = match self.last_history_update_at {
            Some(t) => is_sample_due(Some(now_nanos.saturating_sub(t))),
            None => is_sample_due(None),
        };
        if due {
            self.last_history_update_at = Some(now_nanos);
        }
        proof {
            assert(final(self)@ =~= (if due {
                AppState { last_history_update_at: Some(now_nanos), ..old(self)@ }
            } else {
                old(self)@
            }));
        }
        due
    }

    /// Whether handling `event` would scroll an address offset past the
    /// largest `usize`, which the monitor treats as an overflow.
    pub fn event_overflows(&self, event: InputEvent) -> (overflows: bool)
        ensures
            overflows == self@.event_overflows(event),
    {
        let scrolls_down = match event {
            InputEvent::Key { key, is_press } => is_press && matches!(key.code, KeyCode::Down),
            InputEvent::Mouse(mouse) => matches!(mouse.kind, MouseKind::ScrollDown),
            _ => false,
        };
        if !scrolls_down || self.show_help {
            return false;
        }
        match self.selected_interface() {
            Some(iface) => if iface.ipv4_count > IPV4_VISIBLE_ROWS {
                self.ipv4_scroll_offset == usize::MAX
            } else {
                self.ipv6_scroll_offset == usize::MAX
            },
            None => false,
        }
    }

    /// Set running to false to quit the application.
    pub fn quit(&mut self)
        ensures
            final(self)@ == old(self)@.quit(),
            final(self)@.is_consistent(),
    {
        proof {
            use_type_invariant(&*self);
        }
        self.running = false;
        proof {
            use_type_invariant(&*self);
            assert(final(self)@ =~= old(self)@.quit());
        }
    }
}

/// Widest display width among the names of `s` (0 when empty).
pub open spec fn longest_name_width(s: Seq<InterfaceInfo>) -> usize
    decreases s.len(),
{
    if s.len() == 0 {
        0
    } else {
        let rest = longest_name_width(s.drop_last());
        let w = unicode_str_width(s.last().name@);
        if w > rest {
            w
        } else {
            rest
        }
    }
}

/// Sidebar width for a longest name of `longest` columns in a frame
/// `inner_width` wide: the name plus the reserve for speeds (capped at the
/// largest `usize`), no wider than what leaves the main content its minimum,
/// and at least the sidebar minimum.
pub open spec fn sidebar_width_for(longest: usize, inner_width: u16) -> u16 {
    let wanted: int = if longest + SIDEBAR_SPEED_RESERVE > usize::MAX {
        usize::MAX as int
    } else {
        longest + SIDEBAR_SPEED_RESERVE
    };
    let available: int = if inner_width >= MAIN_MIN_WIDTH {
        inner_width - MAIN_MIN_WIDTH
    } else {
        0
    };
    let clamped = if wanted <= available {
        wanted
    } else {
        available
    };
    if clamped >= SIDEBAR_MIN_WIDTH {
        clamped as u16
    } else {
        SIDEBAR_MIN_WIDTH
    }
}

/// A decimal digit character.
pub open spec fn is_digit(c: char) -> bool {
    '0' <= c && c <= '9'
}

/// The number that a string of decimal digits denotes.
pub open spec fn digits_value(digits: Seq<char>) -> nat
    decreases digits.len(),
{
    if digits.len() == 0 {
        0
    } else {
        digits_value(digits.drop_last()) * 10 + ((digits.last() as u32) - 48) as nat
    }
}

/// Every character of `s` is a decimal digit.
pub open spec fn all_digits(s: Seq<char>) -> bool {
    forall|i: int| 0 <= i < s.len() ==> is_digit(#[trigger] s[i])
}

/// `text` without a leading `+` sign, unless the sign is all there is.
pub open spec fn unsigned_digits(text: Seq<char>) -> Seq<char> {
    if text.len() > 1 && text[0] == '+' {
        text.skip(1)
    } else {
        text
    }
}

/// What parsing `text` as a `u64` gives: an optional `+` sign (not alone)
/// followed by one or more decimal digits whose value fits.
pub open spec fn parsed_u64(text: Seq<char>) -> Option<u64> {
    let digits = unsigned_digits(text);
    if digits.len() > 0 && all_digits(digits) && digits_value(digits) <= u64::MAX {
        Some(digits_value(digits) as u64)
    } else {
        None
    }
}

/// The update interval that a configuration text sets: its value in
/// milliseconds, raised to the minimum; `None` when it is no number.
pub open spec fn update_interval_from(text: Seq<char>) -> Option<u64> {
    match parsed_u64(text) {
        Some(ms) => Some(
            if ms < MIN_UPDATE_INTERVAL_MS {
                MIN_UPDATE_INTERVAL_MS
            } else {
                ms
            },
        ),
        None => None,
    }
}

/// The characters of `text`, in order.
fn chars_of(text: &str) -> (chars: Vec<char>)
    ensures
        chars@ == text@,
{
    let mut out: Vec<char> = Vec::new();
    let mut it = text.chars();
    let ghost mut k: int = 0;
    proof {
        assert(text@.skip(0) =~= text@);
    }
    loop
        invariant_except_break
            IteratorSpec::remaining(&it) == text@.skip(k),
        invariant
            0 <= k <= text@.len(),
            it.obeys_prophetic_iter_laws(),
            out@ == text@.take(k),
        ensures
            out@ == text@,
        decreases text@.len() - k,
    {
        match it.next() {
            None => {
                assert(text@.take(k) =~= text@);
                break;
            },
            Some(c) => {
                out.push(c);
                proof {
                    k = k + 1;
                    assert(out@ =~= text@.take(k));
                    assert(text@.skip(k - 1).drop_first() =~= text@.skip(k));
                }
            },
        }
    }
    out
}

/// A longer run of digits never denotes less than its prefix.
proof fn lemma_digits_value_grows(digits: Seq<char>, k: int)
    requires
        0 <= k <= digits.len(),
        forall|i: int| 0 <= i < digits.len() ==> is_digit(#[trigger] digits[i]),
    ensures
        digits_value(digits.take(k)) <= digits_value(digits),
    decreases digits.len() - k,
{
    if k < digits.len() {
        let next = digits.take(k + 1);
        assert(next.drop_last() =~= digits.take(k));
        assert forall|i: int| 0 <= i < next.len() implies is_digit(#[trigger] next[i]) by {
            assert(next[i] == digits[i]);
        }
        lemma_digits_value_grows(digits, k + 1);
    } else {
        assert(digits.take(k) =~= digits);
    }
}

/// Parse an update interval (in milliseconds) from a configuration text,
/// enforcing the minimum; `None` when the text is no number.
pub fn parse_update_interval(raw: &str) -> (interval: Option<u64>)
    ensures
        interval == update_interval_from(raw@),
{
    let chars = chars_of(raw);
    let n = chars.len();
    let start: usize = if n > 1 && chars[0] == '+' {
        1
    } else {
        0
    };
    let ghost digits = chars@.skip(start as int);
    proof {
        assert(digits =~= unsigned_digits(raw@));
    }
    if start >= n {
        return None;
    }
    let mut value: u64 = 0;
    let mut i: usize = start;
    while i < n
        invariant
            start <= i <= n,
            n == chars@.len(),
            digits == chars@.skip(start as int),
            chars@ == raw@,
            digits == unsigned_digits(raw@),
            value == digits_value(digits.take(i - start)),
            forall|j: int| 0 <= j < i - start ==> is_digit(#[trigger] digits[j]),
        decreases n - i,
    {
        let c = chars[i];
        proof {
            assert(digits.take(i - start + 1).drop_last() =~= digits.take(i - start));
            assert(digits[i - start] == c);
        }
        if !('0' <= c && c <= '9') {
            assert(!is_digit(digits[i - start]));
            return None;
        }
        let d = (c as u32 - '0' as u32) as u64;
        let next = match value.checked_mul(10) {
            Some(v) => v.checked_add(d),
            None => None,
        };
        match next {
            Some(v) => {
                value = v;
            },
            None => {
                proof {
                    let longer = digits.take(i - start + 1);
                    assert(longer.last() == c);
                    assert(longer.drop_last() =~= digits.take(i - start));
                    assert(digits_value(longer) == value * 10 + d);
                    assert(value * 10 + d > u64::MAX);
                    assert(digits_value(longer) > u64::MAX);
                    if all_digits(digits) {
                        lemma_digits_value_grows(digits, i - start + 1);
                    }
                }
                return None;
            },
        }
        i = i + 1;
    }
    proof {
        assert(digits.take(n - start) =~= digits);
    }
    if value < MIN_UPDATE_INTERVAL_MS {
        Some(MIN_UPDATE_INTERVAL_MS)
    } else {
        Some(value)
    }
}

/// A new sample is due when none was taken yet or at least the minimum time
/// has passed since the last one.
pub fn is_sample_due(elapsed_nanos: Option<u128>) -> (due: bool)
    ensures
        due == match elapsed_nanos {
            Some(e) => e >= MIN_SAMPLE_ELAPSED_NANOS,
            None => true,
        },
{
    match elapsed_nanos {
        Some(e) => e >= MIN_SAMPLE_ELAPSED_NANOS,
        None => true,
    }
}

/// With `n` interfaces listed and entry `i` selected, the next interface is
/// entry `(i + 1) mod n` and the previous one entry `(i + n - 1) mod n`: `Tab`
/// and `j` move forward and wrap from the last entry to the first,
/// `Shift+Tab` (back-tab or tab with Shift) and `k` move back and wrap from
/// the first entry to the last.
pub proof fn lemma_navigation_wraps(s: AppState, shift_only: bool)
    requires
        s.is_consistent(),
        s.active().len() > 0,
    ensures
        ({
            let n = s.active().len() as int;
            let i = s.selected as int;
            let fwd = (i + 1) % n;
            let back = (i + n - 1) % n;
            &&& s.next_interface().selected == fwd
            &&& s.prev_interface().selected == back
            &&& s.on_key(KeyPress { code: KeyCode::Tab, shift_only: false }).selected == fwd
            &&& s.on_key(KeyPress { code: KeyCode::Char('j'), shift_only }).selected == fwd
            &&& s.on_key(KeyPress { code: KeyCode::Tab, shift_only: true }).selected == back
            &&& s.on_key(KeyPress { code: KeyCode::BackTab, shift_only }).selected == back
            &&& s.on_key(KeyPress { code: KeyCode::Char('k'), shift_only }).selected == back
        }),
{
    let n = s.active().len() as int;
    let i = s.selected as int;
    assert(i < n);
    vstd::arithmetic::div_mod::lemma_mod_bound(i + 1, n);
    if i == 0 {
        vstd::arithmetic::div_mod::lemma_small_mod((n - 1) as nat, n as nat);
    } else {
        vstd::arithmetic::div_mod::lemma_mod_add_multiples_vanish(i - 1, n);
        vstd::arithmetic::div_mod::lemma_small_mod((i - 1) as nat, n as nat);
        assert(n + (i - 1) == i + n - 1);
    }
}

/// Scrolling moves the selected interface's address lists by exactly one
/// step: down adds one to one of the two offsets, up takes one from one of
/// them unless it is already 0 (neither offset ever grows), and down then up
/// gives back both offsets. The IPv4 list is the one that moves when it has
/// more addresses than fit, else the IPv6 list. Outside the help screen the
/// mouse wheel does the same as the arrow keys.
pub proof fn lemma_scroll_steps(s: AppState, column: u16, row: u16)
    requires
        s.is_consistent(),
        !s.show_help,
        s.selected < s.active().len(),
    ensures
        ({
            let v4 = s.active()[s.selected as int].ipv4_count > IPV4_VISIBLE_ROWS;
            let up = s.scroll(false);
            let wheel_up = MouseInput { kind: MouseKind::ScrollUp, column, row };
            let wheel_down = MouseInput { kind: MouseKind::ScrollDown, column, row };
            &&& up.ipv4_scroll <= s.ipv4_scroll && up.ipv6_scroll <= s.ipv6_scroll
            &&& v4 ==> up.ipv6_scroll == s.ipv6_scroll
            &&& !v4 ==> up.ipv4_scroll == s.ipv4_scroll
            &&& v4 && s.ipv4_scroll > 0 ==> up.ipv4_scroll + 1 == s.ipv4_scroll
            &&& !v4 && s.ipv6_scroll > 0 ==> up.ipv6_scroll + 1 == s.ipv6_scroll
            &&& s.on_mouse(wheel_up) == s.on_key(KeyPress { code: KeyCode::Up, shift_only: false })
            &&& s.on_mouse(wheel_down) == s.on_key(
                KeyPress { code: KeyCode::Down, shift_only: false },
            )
            &&& !s.scroll_overflows(true) ==> {
                let down = s.scroll(true);
                &&& v4 ==> down.ipv4_scroll == s.ipv4_scroll + 1 && down.ipv6_scroll
                    == s.ipv6_scroll
                &&& !v4 ==> down.ipv6_scroll == s.ipv6_scroll + 1 && down.ipv4_scroll
                    == s.ipv4_scroll
                &&& down.scroll(false) == s
                &&& s.on_mouse(wheel_down).on_mouse(wheel_up) == s
            }
        }),
{
    if !s.scroll_overflows(true) {
        let down = s.scroll(true);
        assert(down.scroll(false) =~= s);
        assert(s.on_mouse(MouseInput { kind: MouseKind::ScrollDown, column, row }) == down);
    }
}

/// The sidebar is at least the minimum width; it is no wider than what
/// leaves the main content its minimum, unless that is below the sidebar
/// minimum; and when the widest name plus the speed reserve fits between
/// the two, that is exactly its width.
pub proof fn lemma_sidebar_width_bounds(longest: usize, inner_width: u16)
    ensures
        ({
            let w = sidebar_width_for(longest, inner_width) as int;
            let room = inner_width as int - MAIN_MIN_WIDTH as int;
            &&& w >= SIDEBAR_MIN_WIDTH
            &&& w <= SIDEBAR_MIN_WIDTH || w <= room
            &&& (SIDEBAR_MIN_WIDTH <= longest + SIDEBAR_SPEED_RESERVE <= room) ==> w == longest
                + SIDEBAR_SPEED_RESERVE
        }),
{
}

/// `f` switches between all interfaces and physical ones and selects the
/// first entry; neither `f` nor `h` quits.
pub proof fn lemma_filter_key_switches_view(s: AppState, shift_only: bool)
    ensures
        ({
            let t = s.on_key(KeyPress { code: KeyCode::Char('f'), shift_only });
            &&& t.show_all == !s.show_all
            &&& t.selected == 0
            &&& t.interfaces == s.interfaces
            &&& t.running == s.running
            &&& s.on_key(KeyPress { code: KeyCode::Char('h'), shift_only }).running == s.running
        }),
{
}

/// The sidebar is sized for the widest active name: the width it uses is
/// at least the display width of every name and is the width of one of
/// them (0 when nothing is listed).
pub proof fn lemma_longest_name_is_widest(names: Seq<InterfaceInfo>)
    ensures
        forall|k: int|
            0 <= k < names.len() ==> unicode_str_width(#[trigger] names[k].name@)
                <= longest_name_width(names),
        names.len() == 0 ==> longest_name_width(names) == 0,
        names.len() > 0 ==> exists|k: int|
            0 <= k < names.len() && longest_name_width(names) == unicode_str_width(
                #[trigger] names[k].name@,
            ),
    decreases names.len(),
{
    if names.len() > 0 {
        let rest = names.drop_last();
        lemma_longest_name_is_widest(rest);
        assert forall|k: int| 0 <= k < names.len() implies unicode_str_width(
            #[trigger] names[k].name@,
        ) <= longest_name_width(names) by {
            if k < names.len() - 1 {
                assert(names[k] == rest[k]);
            }
        }
        let last = names.len() - 1;
        if unicode_str_width(names[last].name@) > longest_name_width(rest) || rest.len() == 0 {
            assert(longest_name_width(names) == unicode_str_width(names[last].name@));
        } else {
            let k = choose|k: int|
                0 <= k < rest.len() && longest_name_width(rest) == unicode_str_width(
                    #[trigger] rest[k].name@,
                );
            assert(names[k] == rest[k]);
            assert(longest_name_width(names) == unicode_str_width(names[k].name@));
        }
    }
}

/// `Tab` selects the next interface and `Shift+Tab`, however the terminal
/// reports it, the previous one.
pub proof fn lemma_tab_keys(s: AppState)
    ensures
        s.on_key(KeyPress { code: KeyCode::Tab, shift_only: false }) == s.next_interface(),
        s.on_key(KeyPress { code: KeyCode::Tab, shift_only: true }) == s.prev_interface(),
        s.on_key(KeyPress { code: KeyCode::BackTab, shift_only: false }) == s.prev_interface(),
        s.on_key(KeyPress { code: KeyCode::BackTab, shift_only: true }) == s.prev_interface(),
{
}

/// Moving to the previous interface undoes moving to the next one, and the
/// other way round, whenever something can be selected.
pub proof fn lemma_prev_undoes_next(s: AppState)
    requires
        s.is_consistent(),
        s.active().len() > 0,
    ensures
        s.next_interface().prev_interface().selected == s.selected,
        s.prev_interface().next_interface().selected == s.selected,
{
    let len = s.active().len();
    let li = len as int;
    let sel = s.selected as int;
    assert(sel < li);
    let next_idx: int = if sel + 1 == li {
        0
    } else {
        sel + 1
    };
    assert((sel + 1) % li == next_idx) by {
        if sel + 1 == li {
            vstd::arithmetic::div_mod::lemma_mod_self_0(li);
        } else {
            vstd::arithmetic::div_mod::lemma_small_mod((sel + 1) as nat, li as nat);
        }
    }
    let t = s.next_interface();
    assert(t.active() == s.active());
    assert(t.selected == next_idx);
    let u = t.prev_interface();
    assert(u.selected == sel);
    let prev_idx: int = if sel == 0 {
        li - 1
    } else {
        sel - 1
    };
    let p = s.prev_interface();
    assert(p.active() == s.active());
    assert(p.selected == prev_idx);
    assert((prev_idx + 1) % li == sel) by {
        if sel == 0 {
            vstd::arithmetic::div_mod::lemma_mod_self_0(li);
        } else {
            vstd::arithmetic::div_mod::lemma_small_mod(sel as nat, li as nat);
        }
    }
    assert(p.next_interface().selected == sel);
}

/// Switching the filter twice brings back the view mode, with the first
/// interface selected and statistics reset.
pub proof fn lemma_toggle_filter_twice(s: AppState)
    ensures
        s.toggle_filter().toggle_filter() == (AppState {
            selected: 0,
            ..s.reset_stats()
        }),
{
    assert(s.toggle_filter().toggle_filter() =~= (AppState { selected: 0, ..s.reset_stats() }));
}

/// While the help screen is shown, mouse events and address scrolling
/// change nothing.
pub proof fn lemma_help_ignores_pointer(s: AppState, mouse: MouseInput, down: bool)
    requires
        s.show_help,
    ensures
        s.on_mouse(mouse) == s,
        s.scroll(down) == s,
{
}

/// Outside the help screen a left click on the sidebar selects the entry
/// on the clicked row, counted from the first interface row, and scrolls
/// its addresses back to the top; a click left of the sidebar, above its
/// first interface row or below its last listed entry changes nothing.
pub proof fn lemma_click_selects_row(s: AppState, column: u16, row: u16)
    requires
        s.is_consistent(),
        !s.show_help,
    ensures
        ({
            let t = s.on_mouse(MouseInput { kind: MouseKind::LeftDown, column, row });
            let x = s.sidebar_area.x as int;
            let right = x + s.sidebar_area.width as int;
            let bottom = s.sidebar_area.y as int + s.sidebar_area.height as int;
            let k = row as int - s.sidebar_rows_top as int;
            &&& (x <= column && column < right && column < u16::MAX && row < bottom
                && row < u16::MAX && 0 <= k < s.active().len()) ==> {
                &&& t.selected == k
                &&& t.ipv4_scroll == 0
                &&& t.ipv6_scroll == 0
                &&& t.show_all == s.show_all
                &&& t.interfaces == s.interfaces
                &&& t.running == s.running
            }
            &&& (column < x || k < 0 || k >= s.active().len()) ==> t == s
        }),
{
}

/// `q` always stops the main loop; `Esc` stops it unless help is shown, in
/// which case it closes help and keeps running.
pub proof fn lemma_quit_keys(s: AppState, shift_only: bool)
    ensures
        !s.on_key(KeyPress { code: KeyCode::Char('q'), shift_only }).running,
        !s.show_help ==> !s.on_key(KeyPress { code: KeyCode::Esc, shift_only }).running,
        s.show_help ==> s.on_key(KeyPress { code: KeyCode::Esc, shift_only }) == (AppState {
            show_help: false,
            ..s
        }),
{
}

/// Choosing an interface that exists selects it, clears the statistics
/// shown for the previous one and scrolls its addresses back to the top;
/// choosing one that does not exist changes nothing.
pub proof fn lemma_selection_resets_statistics(s: AppState, idx: usize)
    ensures
        idx < s.active().len() ==> {
            let t = s.change_interface(idx);
            &&& t.selected == idx
            &&& t.total_rx == 0
            &&& t.total_tx == 0
            &&& t.stats_reset_pending
            &&& t.ipv4_scroll == 0
            &&& t.ipv6_scroll == 0
        },
        idx >= s.active().len() ==> s.change_interface(idx) == s,
{
}

/// `h` shows the help screen and a second `h` hides it again.
pub proof fn lemma_help_key_toggles(s: AppState, shift_only: bool)
    ensures
        ({
            let h = KeyPress { code: KeyCode::Char('h'), shift_only };
            &&& s.on_key(h).show_help == !s.show_help
            &&& s.on_key(h).on_key(h) == s
        }),
{
    let h = KeyPress { code: KeyCode::Char('h'), shift_only };
    assert(s.on_key(h).on_key(h) =~= s);
}

/// The digit keys 1 to 9 jump to the interface with that number, when it
/// exists.
pub proof fn lemma_digit_keys_jump(s: AppState, c: char, shift_only: bool)
    requires
        '1' <= c <= '9',
    ensures
        ({
            let number = (c as u32) - 48;
            let t = s.on_key(KeyPress { code: KeyCode::Char(c), shift_only });
            &&& number - 1 < s.active().len() ==> t.selected == number - 1
            &&& number - 1 >= s.active().len() ==> t == s
        }),
{
}

/// Every input event keeps a consistent state consistent.
pub proof fn lemma_events_keep_consistency(s: AppState, event: InputEvent)
    requires
        s.is_consistent(),
    ensures
        s.on_event(event).is_consistent(),
{
    let len = s.active().len();
    if len > 0 {
        assert((s.selected + 1) % (len as int) < len) by {
            vstd::arithmetic::div_mod::lemma_mod_bound((s.selected + 1) as int, len as int);
        }
    }
}

/// Digit characters denote their digit.
proof fn lemma_digit_char_value(d: nat)
    requires
        d < 10,
    ensures
        is_digit(crate::utils::format::digit_char(d)),
        ((crate::utils::format::digit_char(d) as u32) - 48) as nat == d,
{
}

/// The decimal text of a number is a run of digits denoting that number.
proof fn lemma_decimal_digits_denote(n: nat)
    ensures
        all_digits(crate::utils::format::decimal_digits(n)),
        crate::utils::format::decimal_digits(n).len() > 0,
        digits_value(crate::utils::format::decimal_digits(n)) == n,
    decreases n,
{
    let ds = crate::utils::format::decimal_digits(n);
    if n < 10 {
        lemma_digit_char_value(n);
        assert(ds.drop_last() =~= Seq::<char>::empty());
        assert(digits_value(ds.drop_last()) == 0);
        assert(digits_value(ds) == n);
    } else {
        lemma_decimal_digits_denote(n / 10);
        lemma_digit_char_value(n % 10);
        vstd::arithmetic::div_mod::lemma_fundamental_div_mod(n as int, 10);
        let prefix = crate::utils::format::decimal_digits(n / 10);
        assert(ds.drop_last() =~= prefix);
        assert(ds.last() == crate::utils::format::digit_char(n % 10));
        assert(digits_value(ds) == digits_value(prefix) * 10 + (n % 10));
        assert(digits_value(prefix) == n / 10);
        assert forall|i: int| 0 <= i < ds.len() implies is_digit(#[trigger] ds[i]) by {
            if i < ds.len() - 1 {
                assert(ds[i] == prefix[i]);
            }
        }
    }
}

/// Parsing the decimal text of an interval gives it back (raised to the
/// minimum interval).
pub proof fn lemma_parse_reads_decimal_text(ms: u64)
    ensures
        parsed_u64(crate::utils::format::decimal_digits(ms as nat)) == Some(ms),
        update_interval_from(crate::utils::format::decimal_digits(ms as nat)) == Some(
            if ms < MIN_UPDATE_INTERVAL_MS {
                MIN_UPDATE_INTERVAL_MS
            } else {
                ms
            },
        ),
{
    let ds = crate::utils::format::decimal_digits(ms as nat);
    lemma_decimal_digits_denote(ms as nat);
    assert(is_digit(ds[0]));
    assert(unsigned_digits(ds) == ds);
}

/// The state a new application starts in.
pub open spec fn initial_state(interfaces: Seq<InterfaceInfo>, update_interval_ms: u64) -> AppState {
    AppState {
        running: true,
        interfaces,
        filtered: relevant_interfaces(interfaces),
        selected: 0,
        show_help: false,
        show_all: false,
        update_interval_ms,
        total_rx: 0,
        total_tx: 0,
        ipv4_scroll: 0,
        ipv6_scroll: 0,
        stats_reset_pending: false,
        totals: Map::empty(),
        last_counters: Map::empty(),
        last_sample_at: Map::empty(),
        last_history_update_at: None,
        sidebar_area: Area { x: 0, y: 0, width: 0, height: 0 },
        sidebar_rows_top: 0,
    }
}

} // verus!
