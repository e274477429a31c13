# muzn_dm

The download logic of Muzn Download Manager — multi-connection segmented HTTP
downloads with pause and resume — as a Verus-verified library.

`src/` is the library. Every function in it is verified against its contract:

- `plan`, `segment`, `download`, `layout`: how a file is split into ranges,
  what each attempt asks for and accepts, retries with backoff, work stealing,
  how a run ends, which saved segments a resume accepts, and which part file
  a download claims (running downloads never share one). `layout` proves
  that a ranged run's segments stay valid resume state through its first
  layout, every write and every steal, and that a durable snapshot never
  claims more bytes than the run holds later.
- `filename`, `file`, `probe`, `request`, `urls`, `error`, `engine`: names
  made safe for every file system, part-file names, what a probe learns from
  a server's answer, the headers a request carries, error classification,
  the HTTP client configuration and the settings handed to reqwest's
  client builder.
- `model`, `store`, `settings`, `manager`, `events`, `api`, `paths`, `tray`:
  the download records, how stored rows read back, settings validation, and
  the rules of the download queue (which signal wins, what a stopped download
  becomes, when the next one starts).

`app/` is the code around the library that Verus does not see: HTTP requests
and their streams (reqwest, tokio), the part file on disk, the SQLite
database (rusqlite), the async tasks, and the JSON shapes (serde). It makes
no decision of its own; each one is a call into the library.

`tests/` runs the library on concrete values.
