# opensovd

Verified core logic of an SOVD (ISO 17978) diagnostic stack: the parts of a
SOVD server, gateway, client and diagnostic library that decide and compute,
written in Verus and proved against their contracts.

## Layout

- `src/` — the verified library.
  - `text`, `keyed` — character-level helpers and a sorted key/value vector
    that the rest is proved against.
  - `bulkdata`, `server`, `models` — the bulk-data store and the decisions of
    the server's routes: header parsing, upload handling, error answers.
  - `docs` — the online capability documents (OpenAPI), with the hoisting of
    schema definitions; `openapi_refs` — that every schema reference of such
    a document resolves.
  - `client` — links, request builders, percent-encoding, retry backoff and
    the selection of an advertised SOVD version.
  - `diagnostic` — the diagnostic library's data model, stream requests,
    error answers and the pace of self-registration.
  - `mdns`, `providers`, `gateway`, `net` — mDNS/DNS-SD announcement and
    discovery, and what the gateway announces.
  - `tls` — the server's TLS files and the admission of TLS handshakes.
  - `stamp` — the version, commit and build date stamped into binaries.
  - `proxy` — the proxying of data resources of diagnostic apps.
- `tests/` — tests of the library on concrete values.
- `app/` — the I/O around the library: HTTP servers and clients, the mDNS
  responder (which publishes the service descriptions the library checks),
  TLS listeners, and the JSON forms of the library's values.

Laws that span several functions are stated as public proof functions
(`lemma_*`) next to the functions they speak of.
