# chiba

A task manager whose task file is a markdown checklist: every `- [ ]` line
holds a todo.txt task, and every other line (headings, prose, fenced code)
is carried through untouched.

The library in `src/` is verified with Verus:

- `doc`, `todo`, `convert`: parsing a markdown body into tasks and anchored
  text, writing it back byte for byte, and converting to and from todo.txt.
- `store`: the task store, its archive (`done.md`), undo history, and the
  list view's filtering, due-date buckets and stable sorting. File reads and
  writes are values handed in and steps handed out; the caller performs them.
- `app`: which rows the list and archive views show, in which order, with
  which group headers, and the cursor over them.
- `migrate`: moving a directory between todo.txt and markdown, verified by
  converting every file back before anything is written.
- `herdr`, `cmd::integration`, `xdg`: pane markers for the herdr terminal
  multiplexer, its plugin's version and status, and XDG base directories.
- `ui`, `theme`: the header bar and the logo as styled text.

`app/` is the command-line program around it: the file system, the
environment, the clock, subprocesses and drawing with ratatui.
