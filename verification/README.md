# awards

Look up and edit member decorations in the Decorations Database Google Sheet
(Badges, Ribbons and Foreign Awards tabs), with the logic verified by Verus.

## Layout

- `src/` — the verified library.
  - `text`, `meta`, `types`, `sort`: the text model, tab layout and column
    names, the data types and a stable sort.
  - `parse`, `format`: reading member cells (usernames, typos, format issues,
    pasted requests) and naming awards.
  - `index`: the member → awards index and its upkeep after sheet edits.
  - `audit`, `eligibility`: the duplicate audit and the clerk assist checks.
  - `edit`: the add / correct / delete / rename edits as state machines that
    say what to read or write next and decide on each answer.
  - `sheets`, `oauth`: building the index from fetched tabs, CSV, sign-in
    status and the sign-in redirect.
  - `gui`, `tui`, `dialogs`, `cli`: the decisions of the windowed tool, the
    terminal browser's lists and dialogs, and the command line.
  - `browser`, `console`: the terminal browser as a state machine — keys,
    text fields and dialogs, and `App`, whose every key press and finished
    background job returns the next state and the work to start.
  - `colors`: the `#RRGGBB` colours of the browser's settings file.
  - `laws`: properties across operations (a written cell reads back as its
    member; lookups after writes; deleting shifts a column; the browser never
    starts a second job while one runs, and Esc or a failed fix brings the
    audit browser back as it was).
  - `trusted`: the calls into `regex`, `strsim`, `csv`, `urlencoding`, `chrono`,
    `tui-input` and std formatting, with the contracts they are believed to
    meet.
- `app/` — the command line and the terminal browser's run loop and drawing:
  HTTP, credentials, files, threads, and running the edit state machines
  against the Sheets API.
- `tests/` — tests of the library.

The configured award columns are read from `award_columns.json` (or the file
named by `AWARDS_COLUMNS_PATH`).
