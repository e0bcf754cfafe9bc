# website_stalker

Tracks changes on websites via git: each configured site is fetched, passed through a
pipeline of editors (CSS selection, sorting, prettifying, Markdown, RSS, …), and stored in
a file named after its URL; changed files are committed and reported.

- `src/` is the library, verified with Verus: the editors and the document model they work
  on, file names, the configuration checks, the decisions of a run, and the texts of
  commits and notifications. Calls into `scraper`, `html5ever`, `url`, `regex`, `mustache`,
  `ammonia`, `html2md`, `kuchiki`, `rss`, `chrono`, `serde_json` and `mime2ext` go through
  small trusted wrappers whose contracts state what those crates document.
- `app/` is the command line program around it: reading the YAML configuration, HTTP
  requests, the file system, running git and sending notifications.
- `tests/` holds the tests of the library.
