# sakoku

A library, with a command around it, that detects non-ASCII bytes in source
files, classifies them by remediation strategy (`cjk`, `fullwidth`,
`homoglyph`, `symbol`, `other`) and renders a compact per-file digest or a
GCC/Clang-style listing.

- `src/` is the library, written in Verus: the byte scanner with its UTF-8
  decoding, line/column tracking and `sakoku-ignore-next-line` suppression,
  the default Unicode allowlist, the classification, and the report text.
  Each function carries a contract; the laws of the library (the default
  level equals strict mode less the allowlist, `symbol` never appears at the
  default level, each character is reported once, the summary line ignores
  `--max-files`, output is empty exactly when nothing is reported, ...) are
  proof functions beside the code they speak of.
- `app/` is the command: argument parsing (clap), the directory walk (ignore),
  reading files and standard input, and writing the report.
- `tests/` runs the library on concrete inputs.
