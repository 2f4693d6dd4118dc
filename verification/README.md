# sued

A vector-oriented line editor: the text is a buffer of lines, and commands
typed at the prompt (`~insert 3`, `~swap 1 4`, `~substitute 2 foo/bar`, ...)
change it by line number. Anything typed that is not a command is appended to
the buffer.

- `src/` is the editor's logic, verified with Verus:
  - `text.rs`: whitespace, trimming, splitting and joining words;
  - `buffer.rs`: line checks and the editing commands (insert, replace, swap,
    delete, substitute, indent, show, search);
  - `file.rs`: the text written by `~save` and the lines read by `~open`;
  - `pattern.rs`: regular expressions (through the `regex` crate) and the
    splitting of a `pattern/replacement` argument;
  - `command.rs`: reading a typed line as a command, and number parsing;
  - `session.rs`: the greeting, `~run`, the overflow prompt, the crash codes;
  - `laws.rs`: properties that span several commands.
- `app/main.rs` is the terminal program: it reads lines, files and the shell,
  and prints what the library decides.
- `tests/` exercises the library, against `std` where it mirrors it.
