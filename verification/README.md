# untroche

The request logic of the untroche web applications (the ondyst chat site and the portal),
written in Verus and proved against its contracts.

- `src/` is the verified library:
  - `common/`: HTML encoding of user text (escaping, line breaks, links, the bracket tag
    syntax), request helpers (paging, destinations, the shared stage of a site), profile
    sections, template filters, the session and administration keys, and the SQL queries
    assembled at run time.
  - `ondyst/`: the chat site — its stages, tags, searches, posts with their mentions and
    anchors, settings, places and characters.
  - `portal/`: the portal — passwords, webhook delivery, settings, reports, one-time codes
    and the internal-address guard.
  - `erltod/`: the page data of the erltod site.
  - `text.rs`, `matcher.rs`, `random.rs`: characters and decimal numbers, regular
    expressions (`regex`), and random choices (`rand`, `nanoid`).
- `tests/` runs the library on concrete values.
- `app/` is the servers themselves (actix-web, sqlx, tera): it reads requests and the
  database and hands plain values to the library.
