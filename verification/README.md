# rust_dpdk

A verified model of the logic of a set of Rust helpers for DPDK 17.08.

- `src/` is the library, proved with Verus: 16-bit atomic counters,
  lcore enumeration over a snapshot of the EAL configuration, the EAL
  command-line split, mbuf reference counting, freeing mbuf chains, the
  per-lcore mempool cache put path, the single-producer / single-consumer
  ring copies, the Ethernet transmit buffer, and the version string.
  Objects, mbufs and pools are known by integer handles.
- `app/` is the DPDK side: the calls into the C library and the reads of
  DPDK's global state, which hand plain values to the library and act on
  what it returns (for instance, sending the batch a transmit buffer hands
  out).
- `tests/` runs the library on concrete values.
