# rsspub

A service that turns RSS feeds and saved links into EPUB digests and mails them to an
e-reader on a schedule.

- `src/` is the verified library (Verus). It decides the layout of a digest (which
  sources, in which order, which file names and part numbers), renders every page,
  links the chapters of a source, writes the pages into the EPUB archive in plan order
  (`write_digest`, or `BookWriter` for pages produced concurrently), and holds the rules of the service:
  when a daily, weekly or monthly delivery happens in the requested time zone and its
  cron expression on the server's clock (`delivery::build_cron_expression`), the checks
  of a schedule request, the removal of scripts from article pages, which feeds a scheduled digest takes, the names of the files, the parts of the
  digest email and the stored forms of the settings.
- `tests/` runs the library on concrete values.
- `app/` is the service around it: SQLite storage, SMTP delivery, the cron scheduler, the
  HTTP handlers for schedules and the drawing of text on the cover image. Fetching and parsing feeds and pages is passed in by the
  caller (`state::Sources`).
