# rscalendar

A command-line tool for Google Calendar events and their shared extended properties,
whose logic is written in Verus and proved against its contracts.

- `src/` is the verified library: the event and calendar models, the property tables,
  the config and its warnings, date parsing (through `chrono`), URL and request-body
  building (through `urlencoding`), and what the commands decide and print: `check`
  findings and fixes, `list` filters and table cells, `stats` counts, the plans and
  patches of `properties add/check/delete/rename/set-value/edit`, the bodies and tags of
  calendar copy and move, and the per-event steps and counts of these commands.
- `app/` is the program around it: argument parsing with `clap`, the REST calls with
  `reqwest`, OAuth with `yup-oauth2`, reading `config.toml`, the terminal (prompts,
  menus, printing) and the loops that ask the library what to do next.
- `tests/` runs the library on concrete values.
