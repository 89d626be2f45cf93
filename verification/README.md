# red

A small `ed`-like line editor whose logic is verified with Verus.

The library (`src/`) holds everything the editor decides:

- `text`: character-level helpers (trimming, cutting text into lines,
  decimal numbers) with their specifications.
- `grammar`: the command language as specification functions: what a
  command line parses to.
- `state`: commands, addresses and errors, and the parser that turns a line
  into a command, proved against `grammar`.
- `pattern`: regular expressions, through the `regex` crate.
- `substitute`: what a substitution makes of one line.
- `buffer`: the text, its current line and range, address resolution and
  the editing operations; `editor` is an earlier, simpler buffer.
- `repl`: an editing session as a state machine: each input line (or the
  outcome of file work it asked for) takes the session to its next state
  and yields the text to print.
- `laws`: properties that span commands, such as undo undoing itself, or
  a written text reading back as the same lines.

`app/main.rs` runs a session on standard input and output and does the
file work the session asks for.
