# AI Code Detector

A deterministic scanner that scores source code for generated-code signals,
written in Verus. Every line of a scanned tree is either excluded (blank,
comment, decompiler scaffolding, low-information syntax, shared template) or
scored from its file's profile; scores are kept in thousandths.

Layout:

- `src/` — the verified library: text helpers (`text`), comment syntax and
  normalization (`syntax`), decompiler scaffolding (`scaffold`), per-file
  counters (`stats`, `table`), line scanning (`source`), file profiles and
  line scores (`profile`), shared templates and calibration profiles
  (`template`), scoring and per-file tallies (`analysis`), exclusion kinds
  (`kinds`), command-line options (`args`), file names and directory walking
  (`paths`, `order`), JSON and Markdown reports (`report`), and properties of
  the whole (`laws`).
- `app/` — the command-line program: argument reading, directory listing,
  file reading, calibration corpora from the environment, percentages and
  the verdict (floating point), and writing the reports.
- `tests/` — tests of the library on concrete inputs.
