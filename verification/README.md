# grpc-probe

An Internet-wide scanner for gRPC servers. It looks domains up, connects to them,
sends a reflection request over HTTP/2 and inspects the decoded headers,
trailers and body of the reply.

- `src/` is the library, written and verified in Verus: what is to be scanned,
  how a scan goes on from step to step, what is noted, and how the names of
  services are read out of a reply. `src/properties.rs`, `src/encoding.rs`,
  `src/reading.rs`, `src/plan.rs` and `src/text.rs` state what holds of it as a whole;
  `src/outside.rs` holds everything that is taken on trust.
- `app/` is the program around it: arguments, files, DNS, TCP, TLS and HTTP/2.
- `tests/` runs the library.

The output is a CSV file with the columns `domain, port, tcp_ok, tls_version,
cipher, cert_issuer, h2_ok, grpc_detected, content_type, reflection_enabled,
grpc_status, signal, tls_used`, followed by the rest of what a scan finds out.
With `--resume`, endpoints that the file already has are passed over.
