# rdap_utils

Three RDAP command-line tools (`find-ip-networks`, `find-protected-domains`,
`networks-of-nameservers`) whose logic is a library verified with Verus.

## Layout

- `src/` — the verified library:
  - `text.rs`: whitespace trimming, ASCII case folding, decimal rendering, joining.
  - `input.rs`: plain-text and CSV input (one entry per data row, with per-row errors).
  - `output.rs`: output formats, CSV documents, JSON-lines and RFC 7464 framing, exit codes.
  - `rdap.rs`: the plain-value model of RDAP answers and the names, addresses and
    messages derived from them.
  - `report.rs`: the network columns shared by two tools.
  - `ip_networks.rs`, `protected_domains.rs`, `nameserver_networks.rs`: each tool's
    row type and the state machine that turns lookup outcomes into rows.
- `app/` — the programs: argument parsing, file and network I/O, the RDAP client,
  JSON serialisation, and the loops that drive the state machines.
- `tests/` — tests of the library.
