# bijjou

A post-processor for `jj log` output: the graph prefix of each line is
restyled (dimmed edges, configurable glyphs, optional column collapse),
commit rows framed as NUL/RS records are rendered through a small template
language with elastic-tab column alignment, and hydra stacks are recognised
from their bookmark names.

The library in `src/` is verified with Verus; every public function states
what it returns or changes over spec functions on bytes, sequences and maps.

- `ansi`, `text`, `bytes`: escape sequences, UTF-8 decoding, decimals,
  Unicode whitespace trimming.
- `map`: a byte-keyed map with a `Map` view.
- `config`: the configuration, its keys and value parsers, command-line
  arguments and environment variables, and the laws of layering them.
- `toml_config`: the configuration file, read with the `toml` crate and
  flattened into the same keys.
- `dsl`: templates, NUL/RS records, elastic-tab anchors and row rendering.
- `render`: graph-prefix detection and restyling.
- `rows`: classifying lines and the two passes over a batch: anchors and
  graph width first, then rendering with the hydra walk marking stacks up.
- `hydra`: stack classification, bookmark renaming and stack colours.
- `measure`: text that reads as whole units (closed escapes, complete
  characters), and the width laws built on it: pass 1 measures each row at
  the width pass 2 renders it at (stand-ins and colours included), elastic
  tabs line the following content up, and the restyled graph keeps the
  width jj drew.
- `stream`, `output`: batch sizes, activation, colour and pager decisions.

`app/main.rs` is the program around it: arguments, files, the environment,
standard input and output, the pager process and the terminal size.
