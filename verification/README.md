# kuadrant_praxis

Request-phase logic of a Kuadrant policy filter for the Praxis proxy,
verified with Verus.

- `src/store.rs`: the store of gRPC responses handed to the policy pipeline
  by token, with its abstract state and the laws its operations obey.
- `src/config.rs`: upstream and plugin-service tables and the validation
  that every service endpoint names an upstream.
- `src/attributes.rs`: resolution of request attributes (host, method, path,
  time, addresses and ports) and header lookups from a request snapshot.
- `src/pipeline.rs`: the decisions taken while the pipeline runs: upstream
  choice for a call, the order in which stored replies are digested, how a
  denied request is answered, and usage counters taken from metadata.
- `src/text.rs`: string comparison, decimal parsing and little-endian
  encoding.
- `app/`: the glue to Praxis, kuadrant-filter and tonic: configuration
  parsing, the attribute resolver, the gRPC client and the filter's phases.
