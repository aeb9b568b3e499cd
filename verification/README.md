# devin-usage

A local usage monitor for the Devin CLI: token totals from the CLI's
`sessions.db`, the quota that the CLI caches, live quota and analytics from
the server, and a small account switcher with a PKCE sign-in.

- `src/` is the verified library (Verus). Each module states its behaviour
  in `requires`/`ensures` over spec functions and views:
  - `proto`: the protocol-buffer wire reader; `wire`: the wire encoding and
    the laws that the reader gives back what was encoded; `quota`: the cached and live
    quota; `usage`: requests and their totals; `online`: the analytics summary;
    `sort`: a stable sort by rank;
  - `store`, `tokens`: the account store, token resolution (a step machine
    driven by the caller) and the caches in front of it;
  - `auth`, `pending`, `callback`: the sign-in's URL, state and verifier, the
    sign-ins in progress, and the loopback listener's decision;
  - `session`: Devin Desktop's stored secret; `paths`: where the files are;
  - `codec`, `text`: the trusted calls into `base64`, `sha2`, `aes-gcm`,
    `chrono`, `serde_json` and std, each with the contract the library relies on.
- `app/` is the unverified front end: files, SQLite, the network, DPAPI,
  threads, the local time zone and floating-point costs.
- `tests/` runs the library on concrete values.
