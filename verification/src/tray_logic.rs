//! The decisions of the tray icon and its menu: what a click or a menu entry does
//! to the main window, the menu's "Show"/"Hide" entry and the tooltip, and the
//! network counters behind the throughput shown in the tray.
use crate::date_text::{
    bytes_at_most, lemma_bytes_le_antisymmetric, lemma_bytes_le_reflexive, text_bytes,
};
use vstd::prelude::*;
use vstd::utf8::encode_utf8_decode_utf8;

verus! {

/// Clicks closer together than this many milliseconds count as one.
pub const DEBOUNCE_MS: u64 = 200;

#[derive(Debug, Clone, Copy, PartialEq, Eq, Structural)]
pub enum MouseButton {
    Left,
    Right,
    Middle,
}

#[derive(Debug, Clone, Copy, PartialEq, Eq, Structural)]
pub enum MouseButtonState {
    Up,
    Down,
}

/// What the main window reported when asked whether it is visible.
#[derive(Debug, Clone, Copy, PartialEq, Eq, Structural)]
pub enum Visibility {
    Visible,
    Hidden,
    /// The window could not tell.
    Unknown,
}

/// What is done to the main window.
#[derive(Debug, Clone, Copy, PartialEq, Eq, Structural)]
pub enum WindowAction {
    Leave,
    /// Hide it to the tray.
    Hide,
    /// Show it, unminimize it and focus it.
    ShowAndFocus,
    /// Minimize it and hide it to the tray.
    MinimizeToTray,
    /// Unminimize it, show it and focus it.
    RestoreAndFocus,
}

/// The text of the menu entry that toggles the main window.
#[derive(Debug, Clone, Copy, PartialEq, Eq, Structural)]
pub enum MenuLabel {
    Show,
    Hide,
}

/// The tray icon's tooltip.
#[derive(Debug, Clone, Copy, PartialEq, Eq, Structural)]
pub enum Tooltip {
    /// "Usage Meter — visible"
    Visible,
    /// "Usage Meter — hidden"
    Hidden,
    /// "Usage Meter"
    Plain,
}

/// What the tray does in answer to a click on its icon.
#[derive(Debug, Clone, Copy, PartialEq, Eq, Structural)]
pub struct ClickResponse {
    /// Hand the click to the positioner plugin.
    pub forward_to_positioner: bool,
    /// Remember now as the time of the last click.
    pub record_click: bool,
    pub window: WindowAction,
    pub menu_label: Option<MenuLabel>,
    pub tooltip: Option<Tooltip>,
    /// Move the overlay next to the tray icon.
    pub reposition_overlay: bool,
}

pub open spec fn no_response() -> ClickResponse {
    ClickResponse {
        forward_to_positioner: false,
        record_click: false,
        window: WindowAction::Leave,
        menu_label: None,
        tooltip: None,
        reposition_overlay: false,
    }
}

/// The answer to a click: `with_icon` tells whether the tray was built with its
/// icon (only then are clicks shared with the positioner and the overlay moved),
/// `since_last_ms` the time since the last recorded click, and `main_window`
/// the main window's state (`None` where there is no main window).
pub open spec fn click_response_spec(
    with_icon: bool,
    button: MouseButton,
    state: MouseButtonState,
    since_last_ms: u64,
    main_window: Option<Visibility>,
) -> ClickResponse {
    let forwarded = ClickResponse { forward_to_positioner: with_icon, ..no_response() };
    if state != MouseButtonState::Up || since_last_ms < DEBOUNCE_MS {
        forwarded
    } else {
        let recorded = ClickResponse {
            record_click: true,
            reposition_overlay: with_icon,
            ..forwarded
        };
        match (button, main_window) {
            (MouseButton::Left, Some(Visibility::Visible)) => ClickResponse {
                window: WindowAction::Hide,
                menu_label: Some(MenuLabel::Show),
                tooltip: Some(Tooltip::Hidden),
                ..recorded
            },
            (MouseButton::Left, Some(_)) => ClickResponse {
                window: WindowAction::ShowAndFocus,
                menu_label: Some(MenuLabel::Hide),
                tooltip: Some(Tooltip::Visible),
                ..recorded
            },
            _ => recorded,
        }
    }
}

/// What the tray does when its icon is clicked.
pub fn click_response(
    with_icon: bool,
    button: MouseButton,
    state: MouseButtonState,
    since_last_ms: u64,
    main_window: Option<Visibility>,
) -> (r: ClickResponse)
    ensures
        r == click_response_spec(with_icon, button, state, since_last_ms, main_window),
{
    let forwarded = ClickResponse {
        forward_to_positioner: with_icon,
        record_click: false,
        window: WindowAction::Leave,
        menu_label: None,
        tooltip: None,
        reposition_overlay: false,
    };
    if state != MouseButtonState::Up || since_last_ms < DEBOUNCE_MS {
        return forwarded;
    }
    let recorded = ClickResponse { record_click: true, reposition_overlay: with_icon, ..forwarded };
    match (button, main_window) {
        (MouseButton::Left, Some(Visibility::Visible)) => ClickResponse {
            window: WindowAction::Hide,
            menu_label: Some(MenuLabel::Show),
            tooltip: Some(Tooltip::Hidden),
            ..recorded
        },
        (MouseButton::Left, Some(_)) => ClickResponse {
            window: WindowAction::ShowAndFocus,
            menu_label: Some(MenuLabel::Hide),
            tooltip: Some(Tooltip::Visible),
            ..recorded
        },
        _ => recorded,
    }
}

/// The entries of the tray menu.
#[derive(Debug, Clone, Copy, PartialEq, Eq, Structural)]
pub enum MenuItem {
    ToggleAutostart,
    ToggleWindow,
    Quit,
    Other,
}

pub open spec fn menu_item_spec(id: Seq<char>) -> MenuItem {
    if id == "toggle-autostart"@ {
        MenuItem::ToggleAutostart
    } else if id == "toggle-window"@ {
        MenuItem::ToggleWindow
    } else if id == "quit"@ {
        MenuItem::Quit
    } else {
        MenuItem::Other
    }
}

/// Whether two texts are the same.
pub fn same_text(a: &str, b: &str) -> (r: bool)
    ensures
        r == (a@ == b@),
{
    let ab = a.as_bytes();
    let ba = b.as_bytes();
    let r = bytes_at_most(ab, ba) && bytes_at_most(ba, ab);
    proof {
        if r {
            lemma_bytes_le_antisymmetric(text_bytes(a@), text_bytes(b@));
            encode_utf8_decode_utf8(a@);
            encode_utf8_decode_utf8(b@);
        } else {
            lemma_bytes_le_reflexive(text_bytes(a@));
        }
    }
    r
}

/// The menu entry that a menu event's id names.
pub fn menu_item(id: &str) -> (r: MenuItem)
    ensures
        r == menu_item_spec(id@),
{
    if same_text(id, "toggle-autostart") {
        MenuItem::ToggleAutostart
    } else if same_text(id, "toggle-window") {
        MenuItem::ToggleWindow
    } else if same_text(id, "quit") {
        MenuItem::Quit
    } else {
        MenuItem::Other
    }
}

/// What the tray does when a menu entry is chosen.
#[derive(Debug, Clone, Copy, PartialEq, Eq, Structural)]
pub enum MenuResponse {
    Nothing,
    /// Set autostart to this value, check the menu entry as it, and announce it.
    SetAutostart(bool),
    /// Act on the main window and relabel the menu entry.
    Window(WindowAction, MenuLabel),
    /// Leave the application with this exit code.
    Exit(i32),
}

pub open spec fn menu_response_spec(
    item: MenuItem,
    autostart: Option<bool>,
    main_window: Option<Visibility>,
) -> MenuResponse {
    match item {
        MenuItem::ToggleAutostart => match autostart {
            Some(enabled) => MenuResponse::SetAutostart(!enabled),
            None => MenuResponse::Nothing,
        },
        MenuItem::ToggleWindow => match main_window {
            Some(Visibility::Visible) => MenuResponse::Window(WindowAction::MinimizeToTray, MenuLabel::Show),
            Some(Visibility::Hidden) => MenuResponse::Window(
                WindowAction::RestoreAndFocus,
                MenuLabel::Hide,
            ),
            _ => MenuResponse::Nothing,
        },
        MenuItem::Quit => MenuResponse::Exit(0),
        MenuItem::Other => MenuResponse::Nothing,
    }
}

/// What a menu entry does, given the autostart setting (`None` where it could
/// not be read) and the main window's state (`None` where there is none).
pub fn menu_response(item: MenuItem, autostart: Option<bool>, main_window: Option<Visibility>) -> (r:
    MenuResponse)
    ensures
        r == menu_response_spec(item, autostart, main_window),
{
    match item {
        MenuItem::ToggleAutostart => match autostart {
            Some(enabled) => MenuResponse::SetAutostart(!enabled),
            None => MenuResponse::Nothing,
        },
        MenuItem::ToggleWindow => match main_window {
            Some(Visibility::Visible) => MenuResponse::Window(WindowAction::MinimizeToTray, MenuLabel::Show),
            Some(Visibility::Hidden) => MenuResponse::Window(
                WindowAction::RestoreAndFocus,
                MenuLabel::Hide,
            ),
            _ => MenuResponse::Nothing,
        },
        MenuItem::Quit => MenuResponse::Exit(0),
        MenuItem::Other => MenuResponse::Nothing,
    }
}

/// The menu label the tray starts with: it names what the entry would do to the
/// window (`None` where the window's state is not known, leaving "Show").
pub fn initial_menu_label(main_window: Option<Visibility>) -> (r: Option<MenuLabel>)
    ensures
        r == (match main_window {
            Some(Visibility::Visible) => Some(MenuLabel::Hide),
            Some(Visibility::Hidden) => Some(MenuLabel::Show),
            _ => None::<MenuLabel>,
        }),
{
    match main_window {
        Some(Visibility::Visible) => Some(MenuLabel::Hide),
        Some(Visibility::Hidden) => Some(MenuLabel::Show),
        _ => None,
    }
}

/// The tooltip the tray starts with.
pub fn initial_tooltip(main_window: Option<Visibility>) -> (r: Tooltip)
    ensures
        r == (match main_window {
            Some(Visibility::Visible) => Tooltip::Visible,
            Some(Visibility::Hidden) => Tooltip::Hidden,
            _ => Tooltip::Plain,
        }),
{
    match main_window {
        Some(Visibility::Visible) => Tooltip::Visible,
        Some(Visibility::Hidden) => Tooltip::Hidden,
        _ => Tooltip::Plain,
    }
}

/// The running totals of bytes received and sent that the last tick saw.
#[derive(Debug, Clone, Copy, PartialEq, Eq, Structural)]
pub struct ThroughputTracker {
    pub prev_received: u64,
    pub prev_transmitted: u64,
}

pub open spec fn saturating_diff(a: u64, b: u64) -> u64 {
    if a >= b {
        (a - b) as u64
    } else {
        0
    }
}

impl ThroughputTracker {
    /// A tracker that starts from the totals of the first reading.
    pub fn new(total_received: u64, total_transmitted: u64) -> (t: ThroughputTracker)
        ensures
            t.prev_received == total_received,
            t.prev_transmitted == total_transmitted,
    {
        ThroughputTracker { prev_received: total_received, prev_transmitted: total_transmitted }
    }

    /// Takes the totals of a new tick and returns the bytes received and sent
    /// since the last one (none where a total went down, as after a counter
    /// reset); the new totals become the reference for the next tick.
    pub fn observe(&mut self, total_received: u64, total_transmitted: u64) -> (r: (u64, u64))
        ensures
            r == (
                saturating_diff(total_received, old(self).prev_received),
                saturating_diff(total_transmitted, old(self).prev_transmitted),
            ),
            final(self).prev_received == total_received,
            final(self).prev_transmitted == total_transmitted,
    {
        let rx = total_received.saturating_sub(self.prev_received);
        let tx = total_transmitted.saturating_sub(self.prev_transmitted);
        self.prev_received = total_received;
        self.prev_transmitted = total_transmitted;
        (rx, tx)
    }
}

/// The window's visibility after an action on it.
pub open spec fn visibility_after(action: WindowAction, before: Visibility) -> Visibility {
    match action {
        WindowAction::Leave => before,
        WindowAction::Hide | WindowAction::MinimizeToTray => Visibility::Hidden,
        WindowAction::ShowAndFocus | WindowAction::RestoreAndFocus => Visibility::Visible,
    }
}

/// A click within the debounce interval of the last recorded click, or on a
/// button that is not released, changes nothing: the window, the menu entry and
/// the tooltip stay, and the time of the last click is kept.
pub proof fn lemma_debounced_click_changes_nothing(
    with_icon: bool,
    button: MouseButton,
    state: MouseButtonState,
    since_last_ms: u64,
    main_window: Option<Visibility>,
)
    requires
        since_last_ms < DEBOUNCE_MS || state == MouseButtonState::Down,
    ensures
        ({
            let r = click_response_spec(with_icon, button, state, since_last_ms, main_window);
            &&& r.window == WindowAction::Leave
            &&& r.menu_label is None
            &&& r.tooltip is None
            &&& !r.record_click
            &&& !r.reposition_overlay
        }),
{
}

/// Only the left button toggles the main window: an accepted click (released,
/// outside the debounce interval) with any other button leaves the window, the
/// menu entry and the tooltip as they are, while the click is still recorded
/// and, with the icon, shared with the positioner and the overlay moved. An
/// accepted left click on a window that reports its state does change it.
pub proof fn lemma_only_left_click_toggles(
    with_icon: bool,
    button: MouseButton,
    since_last_ms: u64,
    main_window: Option<Visibility>,
)
    requires
        since_last_ms >= DEBOUNCE_MS,
    ensures
        ({
            let r = click_response_spec(
                with_icon,
                button,
                MouseButtonState::Up,
                since_last_ms,
                main_window,
            );
            &&& r.record_click
            &&& r.reposition_overlay == with_icon
            &&& r.forward_to_positioner == with_icon
            &&& button != MouseButton::Left ==> {
                &&& r.window == WindowAction::Leave
                &&& r.menu_label is None
                &&& r.tooltip is None
            }
            &&& button == MouseButton::Left && main_window is Some ==> r.window
                != WindowAction::Leave && visibility_after(r.window, main_window->0)
                != main_window->0
        }),
{
}

/// Whatever a click or a menu entry does, the menu entry afterwards offers the
/// opposite of the window's new state, and the tooltip names that state.
pub proof fn lemma_labels_follow_window(
    with_icon: bool,
    button: MouseButton,
    state: MouseButtonState,
    since_last_ms: u64,
    main_window: Option<Visibility>,
    item: MenuItem,
    autostart: Option<bool>,
)
    ensures
        ({
            let r = click_response_spec(with_icon, button, state, since_last_ms, main_window);
            &&& r.window == WindowAction::Hide <==> r.menu_label == Some(MenuLabel::Show)
            &&& r.window == WindowAction::Hide <==> r.tooltip == Some(Tooltip::Hidden)
            &&& r.window == WindowAction::ShowAndFocus <==> r.menu_label == Some(MenuLabel::Hide)
            &&& r.window == WindowAction::ShowAndFocus <==> r.tooltip == Some(Tooltip::Visible)
        }),
        menu_response_spec(item, autostart, main_window) matches MenuResponse::Window(a, l) ==> (
        visibility_after(a, main_window->0) == Visibility::Hidden <==> l == MenuLabel::Show),
{
}

/// An accepted left click hides a visible window and shows a hidden one, so two
/// accepted left clicks bring the window back to where it was; choosing the
/// window entry of the menu does the same.
pub proof fn lemma_left_click_toggles(
    with_icon: bool,
    since_last_ms: u64,
    visibility: Visibility,
    item: MenuItem,
)
    requires
        since_last_ms >= DEBOUNCE_MS,
        visibility != Visibility::Unknown,
    ensures
        ({
            let first = click_response_spec(
                with_icon,
                MouseButton::Left,
                MouseButtonState::Up,
                since_last_ms,
                Some(visibility),
            );
            let middle = visibility_after(first.window, visibility);
            let second = click_response_spec(
                with_icon,
                MouseButton::Left,
                MouseButtonState::Up,
                since_last_ms,
                Some(middle),
            );
            &&& middle != visibility
            &&& visibility_after(second.window, middle) == visibility
        }),
        item == MenuItem::ToggleWindow ==> (menu_response_spec(item, None, Some(visibility)) matches MenuResponse::Window(
            a,
            _,
        ) && visibility_after(a, visibility) != visibility),
{
}

/// Choosing the autostart entry twice restores the setting.
pub proof fn lemma_autostart_toggle_twice(enabled: bool)
    ensures
        (menu_response_spec(MenuItem::ToggleAutostart, Some(enabled), None) matches MenuResponse::SetAutostart(
            once,
        ) && menu_response_spec(MenuItem::ToggleAutostart, Some(once), None)
            == MenuResponse::SetAutostart(enabled)),
{
}

} // verus!
