# vz

The verified core of a terminal tool for tabular data: it reads CSV, TSV,
JSON, NDJSON and space-aligned text into tables, lays tables out as plain text
or Markdown, builds the one-line summary shown before a chart, turns a grid
of drawn terminal cells into an SVG document and wraps SVG in HTML pages, and
shows Markdown files as terminal slides with embedded chart blocks.

## Layout

- `src/` is the library, written in Verus. Every function carries a contract
  over a mathematical model of its inputs (text as `Seq<char>`, tables as
  sequences of rows), and Verus proves the code against it.
  - `text` — character-sequence utilities (trimming, splitting, lines,
    decimal numbers, float literal syntax).
  - `loader` — format detection and the loaders; `loader::space` finds the
    columns of space-aligned text.
  - `present` — the Markdown slide parser, inline emphasis, slide navigation,
    and the text pieces of the slide view.
  - `oneshot` — choices made before drawing a chart (chart type, height),
    the summary line, and ANSI escapes for drawn cells.
  - `output` — SVG documents of drawn cells, HTML pages, plain and Markdown
    tables (and the choice between a table of every column and an
    aggregated two-column one), column statistics.
  - `render` — tick labels, bar widths, heatmap cell text.
  - `pipeline` — checks on loaded data; `diagnostics` — spelling
    suggestions for unknown column names; `util` — path labels and the text
    around displayed numbers; `chart` — the chart vocabulary.
  Laws that relate several calls are public proof functions named `law_*`.
- `app/` is the command-line program around the library: arguments, files,
  standard input, the terminal, watching files, and the few computations that
  need floating point.
- `tests/` runs the library on concrete inputs.

The CSV reader and JSON parser are outside crates (`csv`, `serde_json`); the
library calls them through a few small trusted functions whose contracts name
their results.
