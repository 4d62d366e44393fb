# gix-command

Launch commands the way `git` does: directly or with a shell, with arguments split by hand where
that is safe, with the variables that tell about a repository, and with the help of a shebang on
Windows.

- `src/` is the library, written and proved with Verus. It turns the description of a command
  (`Prepare`) into the program, arguments and environment of a process (`Command`), parses shebangs
  and looks up programs, all on byte strings. `src/laws.rs` states what holds of every command.
- `app/` connects it to the operating system: it reads files and environment variables, and spawns
  processes.
- `tests/` runs the library.

What is taken from other crates stands behind small functions whose contracts are trusted: searching
and trimming of byte strings (`bstr`), splitting a line into words (`shell-words`), quoting
(`gix-quote`), and paths (the standard library, with conversions by `gix-path` and `bstr`).
