# tasknote

A task and note manager for the terminal: tasks and notes live on named
boards, can be marked done, given a priority, moved, archived and restored,
and are shown as reports on the command line or in an interactive view.

- `src/` is the library, verified with Verus: the item model (`item`), the
  store and its lookups (`store`), the commands (`commands`), ID parsing and
  the command line's shape (`cli`), grouping by board (`board`), the report
  and view layouts (`render`, `screen`), the interactive views' key handling
  (`tui`), and the text model they are stated over (`text`).
- `app/` is the program around it: argument parsing with clap, the JSON store
  on disk, painting the layouts with colored and ratatui, reading keys and
  line edits.
