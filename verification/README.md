# rushsocket

A Pusher-protocol (v7) WebSocket server whose logic is a Verus-verified library.

- `src/` is the library. Every function in it is verified: the channel model and
  namespaces (`adapter::namespace`, `adapter::local`), the cluster's decisions and stats
  (`adapter::cluster`, `adapter::merge`), the WebSocket protocol handlers (`websocket::events`),
  the HTTP API's checks and answers (`http::api`, `http::auth`), authentication (`auth`),
  JSON writing (`json`), webhooks (`webhook`), metrics, the event cache, rate limiting and
  the `/proc` parsers (`util`), and the stats report (`stats`). Public proof functions named
  `law_*` state what holds across calls.
- Calls into other crates (HMAC-SHA256, MD5, hex, constant-time comparison, random
  numbers, governor rate limiters, DashMap) go through small trusted wrappers whose
  contracts say what those crates do.
- Tables whose entries the library lends out or whose contents are generic (a namespace's
  sockets, channels and presence members, the apps) are the library's own verified
  collections: `collections::StrMap` and `StrSet`, small vectors searched in order, and
  `sorted::SortedStrMap`, a vector kept in key order that gives JSON objects their key
  order. DashMap stays, behind trusted wrappers, where the contents are plain values (the
  cache, the metrics counters, the cluster's peers, the rate limiters).
- `app/` is the server around the library: configuration, the axum listeners, the socket
  loop that performs what the library decides, the Redis cluster connection, the webhook
  requests and the `/proc` reads.
- `tests/` runs the library on concrete inputs.
