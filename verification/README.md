# nirvana

Time tracking against issue trackers (Jira Cloud and Jira Data Center): connections to a
tracker, tickets, and slots of work on them that are started, stopped, listed and published as
worklogs.

- `src/` is the library, written in Verus. Its rules are stated in `requires`/`ensures`
  contracts over spec functions and proved: the store of connections, tickets and slots
  (`storage`), the tracking rules (`api`), the tracker's answers (`integration`), time parsing
  and rendering (`time`, `text`), table layout (`table`), and the command line's and the
  desktop window's own rules (`cli`, `gui`). `laws` holds the properties that span operations.
- `app/` is the `nirvana` command: argument parsing, the settings file, the SQLite database,
  the HTTP calls to the tracker and the terminal prompts. It hands plain values to the library.
- `tests/` runs the library on concrete values.
