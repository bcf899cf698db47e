# sync-memo

Keeps local memo files in sync with private GitHub gists.  `sync-memo watch`
starts a daemon that watches every file listed in
`~/sync-memo/.sync-memo-config.json` and uploads a file to its gist whenever it
changes; `add`, `show` and `kill` talk to the daemon over the socket
`/tmp/sync-memo.sock`.

Layout:

- `src/` — the verified library (Verus): the socket messages and their JSON
  text (`client`, `json`), how the daemon reads a request and what it does
  with it (`daemon`), the list of synced files (`handler`), and the gist API
  requests and replies (`github`), and what a file watcher does on each
  event (`watcher`).
- `app/` — the program around it: argument parsing, sockets, files, HTTP,
  file watching, threads and logging.
- `tests/` — tests of the library.
