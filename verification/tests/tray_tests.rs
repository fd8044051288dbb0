use usage_meter::greeting::greet;
use usage_meter::tray_logic::{
    click_response, initial_menu_label, initial_tooltip, menu_item, menu_response, same_text,
    MenuItem, MenuLabel, MenuResponse, MouseButton, MouseButtonState, ThroughputTracker, Tooltip,
    Visibility, WindowAction,
};
use usage_meter::window_logic::{hides_instead_of_closing, overlay_response, WindowEventKind};

#[test]
fn left_click_hides_a_visible_window() {
    let r = click_response(true, MouseButton::Left, MouseButtonState::Up, 500, Some(Visibility::Visible));
    assert!(r.forward_to_positioner && r.record_click && r.reposition_overlay);
    assert_eq!(r.window, WindowAction::Hide);
    assert_eq!(r.menu_label, Some(MenuLabel::Show));
    assert_eq!(r.tooltip, Some(Tooltip::Hidden));
}

#[test]
fn left_click_shows_a_hidden_or_unknown_window() {
    for v in [Visibility::Hidden, Visibility::Unknown] {
        let r = click_response(false, MouseButton::Left, MouseButtonState::Up, 200, Some(v));
        assert!(!r.forward_to_positioner && r.record_click && !r.reposition_overlay);
        assert_eq!(r.window, WindowAction::ShowAndFocus);
        assert_eq!(r.menu_label, Some(MenuLabel::Hide));
        assert_eq!(r.tooltip, Some(Tooltip::Visible));
    }
}

#[test]
fn quick_clicks_and_presses_do_nothing() {
    let r = click_response(true, MouseButton::Left, MouseButtonState::Up, 199, Some(Visibility::Visible));
    assert_eq!(r.window, WindowAction::Leave);
    assert!(r.forward_to_positioner && !r.record_click && !r.reposition_overlay);
    let r = click_response(true, MouseButton::Left, MouseButtonState::Down, 10_000, Some(Visibility::Visible));
    assert_eq!(r.window, WindowAction::Leave);
    assert!(!r.record_click);
}

#[test]
fn right_click_only_moves_the_overlay() {
    let r = click_response(true, MouseButton::Right, MouseButtonState::Up, 1000, Some(Visibility::Visible));
    assert_eq!(r.window, WindowAction::Leave);
    assert!(r.record_click && r.reposition_overlay);
    let r = click_response(true, MouseButton::Left, MouseButtonState::Up, 1000, None);
    assert_eq!(r.window, WindowAction::Leave);
    assert_eq!(r.menu_label, None);
}

#[test]
fn menu_entries() {
    assert_eq!(menu_item("toggle-autostart"), MenuItem::ToggleAutostart);
    assert_eq!(menu_item("toggle-window"), MenuItem::ToggleWindow);
    assert_eq!(menu_item("quit"), MenuItem::Quit);
    assert_eq!(menu_item("quit "), MenuItem::Other);
    assert_eq!(menu_response(MenuItem::ToggleAutostart, Some(true), None), MenuResponse::SetAutostart(false));
    assert_eq!(menu_response(MenuItem::ToggleAutostart, None, None), MenuResponse::Nothing);
    assert_eq!(
        menu_response(MenuItem::ToggleWindow, None, Some(Visibility::Visible)),
        MenuResponse::Window(WindowAction::MinimizeToTray, MenuLabel::Show)
    );
    assert_eq!(
        menu_response(MenuItem::ToggleWindow, None, Some(Visibility::Hidden)),
        MenuResponse::Window(WindowAction::RestoreAndFocus, MenuLabel::Hide)
    );
    assert_eq!(menu_response(MenuItem::ToggleWindow, None, Some(Visibility::Unknown)), MenuResponse::Nothing);
    assert_eq!(menu_response(MenuItem::Quit, None, None), MenuResponse::Exit(0));
}

#[test]
fn initial_tray_state() {
    assert_eq!(initial_menu_label(Some(Visibility::Visible)), Some(MenuLabel::Hide));
    assert_eq!(initial_menu_label(Some(Visibility::Hidden)), Some(MenuLabel::Show));
    assert_eq!(initial_menu_label(None), None);
    assert_eq!(initial_tooltip(Some(Visibility::Hidden)), Tooltip::Hidden);
    assert_eq!(initial_tooltip(Some(Visibility::Unknown)), Tooltip::Plain);
}

#[test]
fn throughput_deltas() {
    let mut t = ThroughputTracker::new(1000, 500);
    assert_eq!(t.observe(1500, 700), (500, 200));
    assert_eq!(t.observe(100, 700), (0, 0));
    assert_eq!(t.prev_received, 100);
    assert_eq!(t.observe(150, 800), (50, 100));
}

#[test]
fn overlay_and_main_window_events() {
    let r = overlay_response(WindowEventKind::CloseRequested, None);
    assert!(r.prevent_close && !r.keep_on_top && !r.show);
    let r = overlay_response(WindowEventKind::Focused(false), Some(false));
    assert!(!r.prevent_close && r.keep_on_top && r.show);
    let r = overlay_response(WindowEventKind::Focused(false), Some(true));
    assert!(r.keep_on_top && !r.show);
    let r = overlay_response(WindowEventKind::Focused(true), Some(false));
    assert!(!r.keep_on_top && !r.show);
    assert!(overlay_response(WindowEventKind::Moved, None).keep_on_top);
    assert!(hides_instead_of_closing("main", WindowEventKind::CloseRequested));
    assert!(!hides_instead_of_closing("overlay", WindowEventKind::CloseRequested));
    assert!(!hides_instead_of_closing("main", WindowEventKind::Moved));
}

#[test]
fn greeting_and_text_equality() {
    assert_eq!(greet("Ada"), "Hello, Ada! You've been greeted from Rust!");
    assert_eq!(greet(""), "Hello, ! You've been greeted from Rust!");
    assert!(same_text("abc", "abc"));
    assert!(!same_text("abc", "abd"));
    assert!(!same_text("ab", "abc"));
}

#[test]
fn two_left_clicks_restore_the_window() {
    let first = click_response(true, MouseButton::Left, MouseButtonState::Up, 300, Some(Visibility::Visible));
    assert_eq!(first.window, WindowAction::Hide);
    let second = click_response(true, MouseButton::Left, MouseButtonState::Up, 300, Some(Visibility::Hidden));
    assert_eq!(second.window, WindowAction::ShowAndFocus);
}

#[test]
fn autostart_toggled_twice_is_unchanged() {
    let once = menu_response(MenuItem::ToggleAutostart, Some(false), None);
    assert_eq!(once, MenuResponse::SetAutostart(true));
    assert_eq!(menu_response(MenuItem::ToggleAutostart, Some(true), None), MenuResponse::SetAutostart(false));
}
