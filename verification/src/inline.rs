//! The `rte_*` names of the inline helpers of the DPDK headers, with the
//! same meaning as their counterparts in [`crate::lcore`] and
//! [`crate::eth`].
use vstd::prelude::*;
use crate::eth::TxBuffer;
use crate::lcore::{EalConfig, count, get_master, is_enabled, get_first, get_next, RTE_MAX_LCORE};

verus! {

/// Number of lcores the EAL runs on (`rte_lcore_count`).
pub fn rte_lcore_count(cfg: &EalConfig) -> (r: u32)
    ensures
        r == cfg.lcore_count,
{
    count(cfg)
}

/// Id of the master lcore (`rte_get_master_lcore`).
pub fn rte_get_master_lcore(cfg: &EalConfig) -> (r: u32)
    ensures
        r == cfg.master_lcore,
{
    get_master(cfg)
}

/// Whether lcore `lcore_id` exists and has the EAL role
/// (`rte_lcore_is_enabled`).
pub fn rte_lcore_is_enabled(cfg: &EalConfig, lcore_id: u32) -> (r: bool)
    requires
        cfg.wf(),
    ensures
        r == cfg.enabled(lcore_id as int),
{
    is_enabled(cfg, lcore_id)
}

/// The first lcore to use (`rte_get_first_lcore`), as [`get_first`].
pub fn rte_get_first_lcore(cfg: &EalConfig, skip_master: bool) -> (r: u32)
    requires
        cfg.wf(),
    ensures
        r == cfg.first_spec(skip_master),
        r <= RTE_MAX_LCORE,
        r < 128 ==> cfg.lcore_role@[r as int] is Rte && !(skip_master && r == cfg.master_lcore),
        forall|j: int|
            0 <= j < r ==> !(#[trigger] cfg.lcore_role@[j] is Rte && !(skip_master && j
                == cfg.master_lcore)),
{
    get_first(cfg, skip_master)
}

/// The lcore after `prev` (`rte_get_next_lcore`), as [`get_next`].
pub fn rte_get_next_lcore(cfg: &EalConfig, prev: u32, skip_master: bool, wrap: bool) -> (r: u32)
    requires
        cfg.wf(),
        wrap ==> cfg.some_qualifies(skip_master),
    ensures
        r == cfg.next_spec(prev as int, skip_master, wrap),
        wrap ==> r < RTE_MAX_LCORE && cfg.qualifies(r as int, skip_master),
        wrap ==> cfg.lcore_role@[r as int] is Rte && !(skip_master && r == cfg.master_lcore)
            && forall|j: int|
            0 <= j < 128 && (j - (prev + 1) % 128) % 128 < (r - (prev + 1) % 128) % 128 ==> !(
            #[trigger] cfg.lcore_role@[j] is Rte && !(skip_master && j == cfg.master_lcore)),
        !wrap && (prev + 1) % 0x1_0000_0000 < 128 ==> (prev + 1) % 0x1_0000_0000 <= r <= 128 && (r
            < 128 ==> cfg.lcore_role@[r as int] is Rte && !(skip_master && r == cfg.master_lcore))
            && forall|j: int|
            (prev + 1) % 0x1_0000_0000 <= j < r ==> !(#[trigger] cfg.lcore_role@[j] is Rte && !(
            skip_master && j == cfg.master_lcore)),
{
    get_next(cfg, prev, skip_master, wrap)
}

/// Takes the buffered packets out of `buffer`, to be sent in one burst
/// (`rte_eth_tx_buffer_flush`), as [`TxBuffer::flush`].
pub fn rte_eth_tx_buffer_flush(buffer: &mut TxBuffer) -> (batch: Vec<usize>)
    requires
        old(buffer).wf(),
    ensures
        batch@ == old(buffer).pkts@,
        final(buffer).wf(),
        final(buffer).length == 0,
        final(buffer).size == old(buffer).size,
{
    buffer.flush()
}

/// Adds `tx_pkt` to `buffer` and returns the packets to send when the
/// buffer is full (`rte_eth_tx_buffer`), as [`TxBuffer::tx`].
pub fn rte_eth_tx_buffer(buffer: &mut TxBuffer, tx_pkt: usize) -> (batch: Vec<usize>)
    requires
        old(buffer).wf(),
        old(buffer).length < old(buffer).size,
    ensures
        final(buffer).wf(),
        final(buffer).size == old(buffer).size,
        final(buffer).pkts@ + batch@ == old(buffer).pkts@.push(tx_pkt),
        old(buffer).length + 1 < old(buffer).size ==> batch@.len() == 0,
        old(buffer).length + 1 >= old(buffer).size ==> final(buffer).length == 0,
        final(buffer).length < final(buffer).size,
{
    buffer.tx(tx_pkt)
}

} // verus!
