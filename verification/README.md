# weight-cdn-pinner

Pins the weights of registered models: it looks for them in a local cache, fetches
them from mirrors where they are missing, and keeps only what has the expected
SHA-256 digest.

- `src/` is the library, verified with Verus. It decides: which identifiers and
  mirrors are acceptable, what to do next in a fetch, and what counts as a verified
  blob. It does no I/O.
- `app/` is the command-line program around it: it reads the environment, resolves
  hosts, sends requests and reads and writes files.
- `tests/` runs the library on concrete values.

Settings, all from the environment:

- `WEIGHT_PIN_ALLOWED_HOSTS`: host suffixes between commas. Where it names at least
  one, no other host is contacted.
- `WEIGHT_PIN_ALLOW_LOOPBACK`: `1` or `true` lets loopback addresses through, for
  development and tests. No setting opens any other forbidden address. An
  IPv4-mapped IPv6 address is judged by the IPv6 ranges.
- `WEIGHT_PIN_MAX_DOWNLOAD_BYTES`: the limit for a model of unknown size; 10 GiB
  where it is not set.
