# destiny_report

Verified core of a Destiny 2 clan service: member reports built from activity history,
leaderboard and rank settings, the clan overview spreadsheet and the report folders in
Google Drive, Discord clan roles, and the records kept from Bungie's manifest and profiles.

- `src/` is the library, written in Verus. Every function carries a contract that Verus
  proves; the few calls into std and `chrono` go through small trusted wrappers in
  `text.rs` and `windows.rs`, each with a doc comment that says what is assumed.
- `tests/` runs the library on concrete values.
- `app/` is a command line program around the library: it reads and writes the
  spreadsheet and the Drive folders through the Google APIs.

Main modules: `report` (one window of a member's history), `merge` (windows merged into
a report), `windows` (season and lifetime windows, cache keys), `workbook` (the clan
overview spreadsheet), `drive` (the report folders), `discord` (clan roles), `settings`
(leaderboard modes), `definitions` and `sync` (stored records), `text`, `tally`,
`keyed`, `order` and `ranking` (the text, counting, map and ordering operations they
rest on).
