# eaa

An Excel archiving assistant. Spreadsheets dropped into watched folders are
recognised by the columns of their header row, dated from a date column (or
yesterday), copied into a data center under a dated folder, and moved into
its history once they are a month old. User scripts run against the data
center, and every step is written to a bounded log.

- `src/` is the library, verified with Verus: recognition rules, date
  parsing and formatting, archive naming, the per-file decisions of a batch,
  scan and clean-up decisions, log lines (writing, reading back, trimming,
  retention), configuration edits, and script output handling. Each public
  function states its result in its `ensures`; the `lemma_*` proof
  functions state properties that span several functions.
- `tests/` runs the library on concrete values.
- `app/` is the plain Rust shell: the configuration file, workbook reading
  with calamine, file copying and folder walks, the log files, running
  Python scripts, and the commands a user interface calls.
