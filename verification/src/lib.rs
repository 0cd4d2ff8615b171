//! A verified model of the DPDK packet-processing helpers: atomic 16-bit
//! counters, lcore enumeration, mbuf reference counting and chains, the
//! per-lcore mempool cache, the single-producer / single-consumer ring
//! paths, the Ethernet transmit buffer, and the version string.

pub mod atomic;
pub mod ring;
pub mod lcore;
pub mod mempool;
pub mod mbuf;
pub mod pktmbuf;
pub mod eth;
pub mod eal;
pub mod cycles;
pub mod flow;
pub mod version;
pub mod inline;
