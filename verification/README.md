# usage_meter

The verified core of Usage Meter, a tray utility that shows CPU, memory and
network throughput and keeps a daily log of network usage in SQLite.

`src/` is the library, checked by Verus:

- `calendar` — proleptic Gregorian dates, their validity and day numbers.
- `date_text` — the `YYYY-MM-DD` text form and the byte order in which the
  database compares text; the text sorts like the days for years 0 to 9999.
- `chrono_bridge` — the calls into `chrono`, each with the contract its
  documentation gives.
- `period` — reporting periods (today, this week, last month, ...) and the
  range of days each covers; the retention cutoff.
- `ledger` — the daily usage table and its statements: add usage to a day,
  total a range, list a range latest first, delete days before a cutoff.
- `usage` — those statements for a reporting period or for today.
- `ledger_laws`, `period_laws` — what the operations promise together.
- `tray_logic`, `window_logic` — what tray clicks, menu entries and window
  events do, and the byte-counter deltas behind the throughput.
- `greeting` — the greeting command.

`app/` is the Tauri application around it: windows, tray, SQLite access,
system metrics (floating point) and serialization.
