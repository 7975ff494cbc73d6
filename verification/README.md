# flysoar

A command-line client for FlySoar.ai's anonymous flight search stream, built
around a library whose logic is proved with Verus.

## Layout

- `src/` — the verified library:
  - `text` — character-level helpers (trim, split, join, lexicographic order)
    with their models;
  - `sse` — the line-at-a-time server-sent-event parser;
  - `stream` — bytes in chunks to events (line splitting, UTF-8 decoding);
  - `validate`, `dates` — the rules for IATA codes, dates, cabins and search
    bodies, and the reading of `--slices` items;
  - `headers` — the request headers, with the route's `Referer`;
  - `duration`, `ordering`, `offers` — ISO-8601 durations, a stable sort by
    key, and ordering and filtering offers;
  - `summary` — the short form of an offer that is printed;
  - `search` — the decisions of a session: building the request, reacting to
    events, trimming the result.
- `app/` — the program: argument parsing, HTTP, JSON, progress output and
  printing.
- `tests/` — tests of the library.
