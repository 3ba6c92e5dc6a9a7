# report-rs

A deterministic PDF engine: one manifest JSON comes in on stdin, one JSON
response goes out on stdout. Three document kinds: `payment_ticket` (80 mm
thermal ticket), `attendance_daily_report` (A4 report with summary card,
zebra table and paginated, repeated header) and `student_card` (CR80 card
with template, vector QR code and a turned label).

## Layout

- `src/` — the library, verified with Verus. Every length is a whole number
  of millipoints (1/1000 pt).
  - `protocol.rs` — protocol types and the manifest checks.
  - `strings.rs` — Unicode white space, decimal rendering, string helpers.
  - `text.rs` — font measurement (`ttf-parser`), fit and greedy word wrap.
  - `plan.rs` — page plans: each page as a list of drawing operations.
  - `render/` — the planners of each kind on top of the A4 kernel (`a4.rs`).
  - `batch.rs` — dispatch by kind, per-document outcomes, the response.
- `app/` — the process: stdin/stdout, JSON (serde), files, and drawing a
  page plan with `krilla`.
- `tests/` — tests of the library, with a small synthetic TrueType face.
