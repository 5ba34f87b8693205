# rusteze

A key-value cache with an optional time-to-live per key, served over an HTTP
API, and a small static page server. The logic is a Verus library in `src/`;
the programs around it (sockets, threads, async runtime, configuration files,
logging) are in `app/`.

- `src/memcache.rs` — the cache. Time is a clock reading in nanoseconds since
  the cache was created; `set_at`, `get_at` and `cleanup_at` take the reading
  as an argument and are specified exactly over `CacheState`, while `set`,
  `get` and `cleanup` read the clock first, never going back before the last
  reading the cache used. A type invariant keeps the stored state well
  formed. The file ends with the laws of the cache (read after write, expiry,
  keys without a time-to-live never expiring, independence of keys, absent keys
  staying absent, cleanup and expiry on read being unobservable).
- `src/api.rs`, `src/requests.rs` — what the `/api/set` and `/api/get`
  endpoints do with a decoded request.
- `src/configs.rs` — the server settings and their defaults.
- `src/http.rs` — the page server's decisions: reading the request line,
  routing, building the answer, and the per-connection exchange as a state
  machine that `app/pages.rs` drives, with the laws that the answer depends
  only on the request line and the template, and that every exchange ends.
- `src/decimal.rs` — decimal digits of a length, with the proof that they read
  back to the number.

`app/main.rs` runs the cache server by default and the page server when its
first argument is `pages`.
