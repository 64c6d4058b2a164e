# placeclient

Tools that recorded the 2022 r/place canvas, with their core verified in Verus.

- `src/` is the verified library:
  - `diff`: the 128-bit diff element (bit layout, packing, unpacking) and its round-trip laws.
  - `bytes`: the sixteen little-endian bytes a diff element is stored as.
  - `encode`: reading a line of the official placement CSV into a diff element
    (palette lookup, user numbering).
  - `decode`: the text line a stored diff element is printed as.
  - `text`: decimal rendering, splitting, trimming, replacing and `u16` parsing with the
    meaning of the corresponding `str` operations.
  - `json`: JSON values as plain data, with `serde_json::Value`'s accessors.
  - `scrape`: the websocket scraper as a state machine: each server message gives the
    effects to carry out (log, print, forward a URL, send a subscription) and whether the
    session goes on.
  - `session`: the login URL, the token in the login reply, the first session messages.
  - `archive`: archive file names (in `/mnt/hdd/place2`), entry headers, and closing each
    archive after its 1024th image.
- `app/` holds the programs: `display`, `download`, `reddit encode|decode`, `ws-scrape`.
