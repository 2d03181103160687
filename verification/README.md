# Generic Accounting System

A small graphical budgeting app: spending put into categories, totals for the
year, and reports written as CSV, Word, HTML or JSON, with money and dates in
the conventions of the user's locale and the interface's words in their
language.

## Layout

- `src/` is the library, verified with Verus: reading and writing amounts and
  dates in a locale (and the proof that what is written reads back), the
  language files and the registry that picks a language, the report's figures
  and the CSV, HTML and Word documents written from them, the checks every
  database backend shares, the update check's decisions, and what the panes
  make of what is typed into them.
- `tests/` runs the library on concrete values.
- `app/` is the program around it: the egui window and its panes, the SQLite,
  MariaDB and SQL Server stores, the configuration file, the JSON report, the
  network request for updates, and the sounds.
