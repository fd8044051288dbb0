//! Verified core of the usage meter: the calendar logic behind its reporting
//! periods, the daily usage ledger and the decisions of its tray and overlay.
pub mod calendar;
pub mod date_text;
pub mod chrono_bridge;
pub mod period;
pub mod ledger;
pub mod usage;
pub mod ledger_laws;
pub mod period_laws;
pub mod clock_laws;
pub mod tray_logic;
pub mod window_logic;
pub mod greeting;
