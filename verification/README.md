# osproxy

The core of a tenancy proxy in front of OpenSearch clusters, verified with
[Verus](https://github.com/verus-lang/verus).

Clients work with logical indices and document ids. The proxy finds the partition of a
request, rewrites it for the physical index the partition lives in, and turns the cluster's
answer back into the client's view.

- `src/` is the library. It decides everything that can be decided from plain values: what
  is sent for a request, what is answered, how a bulk is taken apart and put together again,
  how a search answer is shaped while it flows, how the durable buffer frames and recovers
  its records. Every function carries its contract, and what holds across functions is
  stated in public proof functions named `law_…`.
- `app/` is what stands around it: the router, the clusters, the broker, the disk and the
  control plane, each behind a small loop that asks the library what to do next.
- `tests/` runs the library on concrete requests.

JSON texts are parsed and printed by `serde_json`, and the buffer of a streamed body is a
`BytesMut`. What is taken from these crates is declared next to its use, with the property
relied on.
