# laralux_core

The core of a local web development stack for Linux (nginx, PHP-FPM, MariaDB,
Redis, Mailpit, CoreDNS, ...): the sites and their vhosts, the site registry,
the service orchestration, the setup run, the tool catalogs and the download
locations, written in Verus and verified.

## Layout

- `src/` — the verified library. Every function carries a contract; the
  properties that relate several calls are public proof functions named
  `lemma_*`, beside the functions they speak of.
- `app/` — the `laragonctl` command line: files, processes, downloads and
  privilege escalation around the library.
- `tests/` — tests of the library on concrete values.

The only calls into other crates made from `src/` are `serde_json` (reading
release indexes, `json.rs`) and `zip` (the PostgreSQL binaries jar,
`postgres_static.rs`); their contracts are stated where they are declared.
