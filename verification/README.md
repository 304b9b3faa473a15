# security_suite

A port scanner, an HTTP fuzzer and a CVE scanner, with their logic written
in Verus and proved against its contracts.

- `src/` is the verified library:
  - `text.rs`: character-level text handling (trimming, splitting, finding,
    decimal numbers as `from_str` reads them).
  - `targets.rs`, `ipv6.rs`: scan targets (addresses, CIDR blocks, ranges) and
    the text forms of IPv4 and IPv6 addresses.
  - `ports.rs`: port lists, service names, probes and timing levels.
  - `scan.rs`: port states, per-host summaries and banners.
  - `syn.rs`: the SYN scan's probes, checksum and reply bookkeeping.
  - `services.rs`, `consolidate.rs`, `nvd.rs`, `cache.rs`, `config.rs`,
    `patterns.rs`: the CVE scanner (matching, filters, counts, banner
    recognition, NVD answers, cache file names, command line, file patterns).
  - `fuzzer.rs`: the fuzzer's options, request plan and findings.
- `app/` is the program around it: sockets, HTTP, files, JSON, the clock and
  floating-point scores.
- `tests/` runs the library on concrete values.
