# gx

`gx` runs a git command in every git repository below a directory, and
shows an overview of those repositories (branch, status, ahead/behind,
latest commits).

The crate is in two parts:

- `src/` is the library, written in Verus: every function there carries a
  contract that Verus proves. It holds the tool's rules and formats: how the
  command line splits into command groups and what each group asks for, how
  the user-level and project-level configurations merge, which directories
  the search skips, how git's answers are read (branch, ahead/behind,
  porcelain status, log lines), each step of the choice of a proxy from the
  environment and the system settings, each step of a run over the
  repositories, and the lines of its listings, tables, headings, summaries
  and messages.
- `app/` is the program around it: argument parsing, reading and writing the
  configuration files, walking the directory tree, starting git and the
  other system tools, the loops that alternate running those tools with the
  library's next decision, a few fixed notices (such as "No git
  repositories found."), and printing.

Modules of the library:

| module | content |
|---|---|
| `text` | character-level string functions and their specifications |
| `color` | ANSI colours |
| `shortcut_map` | the shortcut table, kept sorted by name |
| `config` | configuration model, merging and its laws, shortcut management |
| `collect` | which directories the search skips |
| `git` | git arguments and the reading of git's output |
| `proxy` | proxy mode and proxy detection from settings |
| `cli` | command groups and subcommand dispatch |
| `report` | headings, summaries and the `info`, `last` and `log` listings |
| `spinner` | spinner frames |

Calls into `glob`, `regex` and std's string conversions stand behind a few
trusted wrappers, each documented where it is declared.
