# aegis_proxy

A reverse proxy whose request handling, caching, load balancing, access
control, header directives, certificate management decisions and wire
formats are written in Verus and proved against their contracts.

- `src/` is the verified library. Each module states what its functions
  do over mathematical models (sequences, maps, spec functions), and the
  laws the library keeps (cache byte accounting, PROXY header round trips,
  round-robin order, circuit breaker transitions, and more) are public
  proof functions. The binary PROXY header round trip holds outright; the
  text one is stated for headers whose addresses the address parser (an
  outside crate) reads back from their printed text, which a proof cannot
  learn of that parser. Calls into outside crates (regex, chrono, lru, aes-gcm,
  x509 parsing, compression, ...) go through small trusted wrappers whose
  contracts say what those crates document.
- Work that waits on the network or the clock is modelled as state
  machines (`RequestFlow`, `HandshakeFlow`, `IssueFlow`, `EnsureFlow`,
  the auth subrequest check): the library decides the next action, and the
  caller performs it and reports back.
- `app/` is the binary around the library: configuration files and the
  environment, the HTTP and health servers, the upstream client, the
  Prometheus recorder, and the Green-Wait job store (redb) that runs the
  library's scheduling decisions.
- `tests/` runs the library on concrete inputs.
