# avi_device

Device coordination for the AVI mesh, verified with Verus.

- `src/` is the verified library: vector clocks and causally merged device
  contexts, dotted-path access into JSON documents, the node runtime's
  decisions (streams, peers, context gossip), the stream dispatcher's
  bookkeeping, capability descriptions and queries, the UDP bridge for
  embedded devices, and the embedded client's link state, command queue and
  C-interface argument checks. Every public function states its behaviour in
  `requires`/`ensures`; laws that span several functions are public proof
  functions (`lemma_*`).
- `tests/` runs the library on concrete values.
- `app/` is the plumbing around it: the libp2p swarm and its task, serde and
  postcard/bincode encodings, the tokio UDP bridge loop, the device facade
  with its callbacks, device queries with caller predicates, and the C
  interface of the embedded client.
