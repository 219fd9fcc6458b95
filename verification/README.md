# hnparser

Watches the monthly "Ask HN: Who is hiring?" thread, keeps the job offers
that mention configured keywords, mails the new ones and serves them on a
small web page.

- `src/` is the library, with machine-checked proofs of its contracts: keyword matching
  (`highlighter`), the job store and its listings (`state`, `state_task`),
  selection of threads and batching of fetches (`scraper`, `hn_client`,
  `poll`), elapsed-time rendering (`timeago`), decimal notation (`decimal`),
  page preparation (`web`), configuration (`config`) and `NonEmptyVec`.
- `app/` is the program around it: configuration file (`/etc/hnparser.json`), HTTP fetches,
  e-mail, templates, web server and the tasks that connect them.
- `tests/` runs the library on concrete values.
