# glint

Core logic of the Glint shader-catalog backend, written in Verus: each
function carries a `requires`/`ensures` contract that Verus proves.

Layout:

- `src/` — the verified library
  - `work_ordering.rs`, `work_ordering_laws.rs` — execution order of capture
    work (scene grouping, derived and proximity clusters, nearest-neighbour
    visiting) and the laws it obeys (a permutation that keeps every pass in
    place; derived scenes in time order)
  - `listing.rs`, `pagination.rs` — listing queries as SQL pieces and bound
    parameters, offset and cursor pagination
  - `capture_health.rs`, `featured.rs`, `adoption.rs` — capture health
    matrix, featured before/after pairs, adopted-shader index
  - `platform/` — platform URLs, response classification, Modrinth and
    CurseForge records mapped to common records, version deduplication
  - `client_ip.rs`, `rate_limit.rs`, `middleware.rs` — request-handling decisions
  - `device.rs`, `session.rs`, `extraction.rs` — codes, tokens and ids
  - `logging.rs` — log line layout, field display, JSON field collection
  - `models.rs`, `models/` — statuses, roles, request rules and records
  - `text.rs`, `validation.rs` — text helpers and input rules
- `tests/` — tests of the library on concrete values
- `app/` — the server around the library: tracing subscriber, tower
  middleware, HTTP clients and database access

Positions in the work ordering are integers in thousandths of a block, so
every distance comparison is exact; cluster centroids are mean positions
rounded down to the thousandth of a block.
