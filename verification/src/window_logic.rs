//! How the overlay window and the main window answer window events: neither
//! can be closed, the overlay stays on top and visible, and the main window
//! hides to the tray instead of closing.
use crate::tray_logic::same_text;
use vstd::prelude::*;

verus! {

/// The window events that the windows answer.
#[derive(Debug, Clone, Copy, PartialEq, Eq, Structural)]
pub enum WindowEventKind {
    CloseRequested,
    /// The window gained (`true`) or lost (`false`) the focus.
    Focused(bool),
    Moved,
    Other,
}

/// What the overlay does in answer to an event.
#[derive(Debug, Clone, Copy, PartialEq, Eq, Structural)]
pub struct OverlayResponse {
    pub prevent_close: bool,
    pub keep_on_top: bool,
    pub show: bool,
}

pub open spec fn overlay_response_spec(event: WindowEventKind, visible: Option<bool>) -> OverlayResponse {
    match event {
        WindowEventKind::CloseRequested => OverlayResponse {
            prevent_close: true,
            keep_on_top: false,
            show: false,
        },
        WindowEventKind::Focused(false) => OverlayResponse {
            prevent_close: false,
            keep_on_top: true,
            show: visible == Some(false),
        },
        WindowEventKind::Moved => OverlayResponse {
            prevent_close: false,
            keep_on_top: true,
            show: false,
        },
        _ => OverlayResponse { prevent_close: false, keep_on_top: false, show: false },
    }
}

/// Handle overlay window events to keep it always on top and visible. `visible`
/// is the overlay's own answer to whether it is visible (`None` where it could
/// not tell).
pub fn overlay_response(event: WindowEventKind, visible: Option<bool>) -> (r: OverlayResponse)
    ensures
        r == overlay_response_spec(event, visible),
{
    match event {
        WindowEventKind::CloseRequested => OverlayResponse {
            prevent_close: true,
            keep_on_top: false,
            show: false,
        },
        WindowEventKind::Focused(false) => OverlayResponse {
            prevent_close: false,
            keep_on_top: true,
            show: match visible {
                Some(v) => !v,
                None => false,
            },
        },
        WindowEventKind::Moved => OverlayResponse {
            prevent_close: false,
            keep_on_top: true,
            show: false,
        },
        _ => OverlayResponse { prevent_close: false, keep_on_top: false, show: false },
    }
}

/// Whether an event on the window labelled `label` is a close request on the
/// main window, which then is kept open and hidden to the tray instead.
pub fn hides_instead_of_closing(label: &str, event: WindowEventKind) -> (r: bool)
    ensures
        r == (label@ == "main"@ && event == WindowEventKind::CloseRequested),
{
    same_text(label, "main") && event == WindowEventKind::CloseRequested
}

/// No close request ever closes the overlay, and losing the focus never leaves
/// it below other windows or hidden.
pub proof fn lemma_overlay_stays(event: WindowEventKind, visible: Option<bool>)
    ensures
        event == WindowEventKind::CloseRequested ==> overlay_response_spec(event, visible).prevent_close,
        event == WindowEventKind::Focused(false) ==> overlay_response_spec(event, visible).keep_on_top
            && (visible == Some(false) ==> overlay_response_spec(event, visible).show),
{
}

} // verus!
