# qtrs-build

Build helpers for qtrs: compile a project's Qt Designer `.ui` forms and `.qrc`
resource lists into the final binary.

- `src/` is the library, verified with Verus. It decides what is to be done: which
  files are embedded, which `uic` and `rcc` are taken, what a form is called in the
  binary, which steps make and link the archive, and what an error says. It does
  no I/O. `Ui::embed` and `Rcc::embed` start a session that asks for one thing
  after another.
- `app/` drives a session from a build script: it reads directories, runs the
  tools and the C++ compiler, writes files and prints the directives for cargo.
  `app/examples/embed.rs` is a program that checks what was embedded in it; it
  needs the `qtrs` crate.
- `tests/` runs the library against made-up worlds.

A form `<package>/ui/<name>.ui` is a resource at `:/qrc/<name>.ui`. A form in a
subdirectory is named by its path, with `_` in place of the separators:
`ui/dialogs/open.ui` is at `:/qrc/dialogs_open.ui`. Where two forms would share a
name so, the nested one keeps its separators: beside `ui/a_b.ui`, `ui/a/b.ui` is at
`:/qrc/a/b.ui`.

Paths are those of Unix: text with `/` as the separator, and `:` between the
directories of `PATH`.
