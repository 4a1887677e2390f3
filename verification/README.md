# storm_switch

An account switcher for the Battle.net client. It keeps a copy of the
client's configuration file for each saved login, files the logins under
groups, and switches logins by copying a saved configuration back over the
active one.

The library under `src/` is verified with Verus:

- `text`: trimming, ASCII case folding, identifier checks, and the splitting
  of saved account name lists.
- `json`: reading the Battle.net configuration (the `SingleInstance`
  setting and the `SavedAccountNames` list), through `serde_json`.
- `records`, `switcher`: the account and group records, and the switcher.
- `groups`: putting the stored group list in order; creating, renaming and
  deleting groups.
- `accounts`: repairing the stored account list, marking logged-in
  accounts, and moving, renaming, adding and removing accounts.
- `tray`: the tray menu's items, most recently used account first, and what
  a click on one asks for.
- `flows`: the operations that alternate file, process and store work with
  decisions, as step machines.
- `platform`, `stamps`: start-up registration, the processes to stop, fresh
  ids (`uuid`) and time stamps (`chrono`).

`app/` holds the desktop application around the library: the Tauri
commands and tray, the settings store, file and process work, and the
Windows registry.
