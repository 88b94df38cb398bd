# recall_cli

A screenshot archive for Windows in terminal style: periodic screen captures
with OCR text, stored compressed in SQLite, searchable, and exportable as a
static HTML timeline.

## Layout

- `src/` is the verified library (Verus):
  - `text.rs`: decimal formatting and parsing, trimming, replacing, string order.
  - `timeline.rs`: HTML escaping, the timeline page, and the plan of an export
    (which screenshots, which file names, in which order), with its laws.
  - `template.rs`: the fixed text of the timeline page.
  - `schedule.rs`: Task Scheduler names, weekday and time parsing, the plan of a
    scheduled capture, and the daily cleanup timer.
  - `storage.rs`: stored records, image compression (zstd), query patterns and
    the cleanup cutoff (chrono).
  - `capture.rs`: pixel reordering and PNG encoding (image).
  - `commands.rs`: small computations of the command line.
- `tests/` runs the library on concrete values.
- `app/` is the program: command line (clap), Win32 capture and Windows OCR
  (windows), the SQLite database (rusqlite), the capture loop (tokio) and the
  file and process I/O.
