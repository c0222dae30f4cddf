# ssh-menu (verified library)

An interactive SSH connection manager: a saved list of hosts, searchable and
sortable, from which the `ssh` command line is built; entries can be imported
from `~/.ssh/config`, and each host keeps a record of when it was last used.

- `src/` is the library, verified with Verus:
  - `text` — character-level helpers (Unicode trim, substring search,
    decimal numbers, joining/splitting) with their specifications;
  - `config::model` — hosts, the one-line listing, the search predicate and
    finding a host by name;
  - `config::usage` — last-use stamps: their age, how recent a host is, and
    recording a connection;
  - `ssh::connect` — the `ssh` argument vector (identity file, port,
    ProxyJump resolution, extra flags);
  - `ssh::locate` — where to look for the `ssh` program;
  - `ssh::import` — the OpenSSH config parser and the merge into the list;
  - `tui` — the host form, list orders, application state and key handling
    as a state machine, plus the texts of list rows, form lines and the
    footer.
- `app/` is the program: command line, files, clock, terminal and drawing.
- `tests/` exercise the library on concrete values.
