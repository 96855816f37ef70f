# tau_ext_searxng_search

The `searxng_search` tool for Tau: it queries a SearXNG instance and returns
normalized results. The core is a Verus-verified library; a thin application
crate sends the HTTP requests and hosts the Tau extension.

## Layout

- `src/` — the verified library.
  - `json.rs`: JSON values as parsed by `serde_json`, their model, lookup,
    and compact JSON text.
  - `endpoint.rs`, `query.rs`: base-URL validation, form-urlencoded query
    strings, request URLs, the `results` array of a reply.
  - `options.rs`: the per-call options read from the tool arguments.
  - `normalize.rs`, `hits.rs`: one SearXNG result in the reported form,
    with its local-engine flag and score rank.
  - `ranking.rs`: the stable `prefer_local` ordering and its laws.
  - `output.rs`: the output text and the output size limit.
  - `client.rs`: configuration, instance failover, status handling, and the
    whole reply-to-output function with its laws.
  - `outside.rs`: the contracts of the `url`, `form_urlencoded` and
    `serde_json` functions the library calls.
- `tests/` — tests of the library on concrete values.
- `app/` — HTTP through `ureq`, JSON parsing and conversion, the serde
  configuration, and the Tau extension glue.
