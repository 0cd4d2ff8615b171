use rust_dpdk::eth::{EthDev, Port, PromiscuousOp, TxBuffer, RTE_ETH_DEV_INTR_LSC};
use rust_dpdk::inline::{rte_eth_tx_buffer, rte_eth_tx_buffer_flush};

#[test]
fn port_is_copy() {
    let p = Port { port_id: 3 };
    let q = p;
    assert_eq!(p.port_id, q.port_id);
    assert!(matches!(p.promiscuous_op(true), PromiscuousOp::Enable));
    assert!(matches!(p.promiscuous_op(false), PromiscuousOp::Disable));
}

#[test]
fn lsc_interrupt_flag() {
    let dev = EthDev { dev_flags: RTE_ETH_DEV_INTR_LSC | 0x4, name: vec![0] };
    assert!(dev.is_intr_lsc_enable());
    let dev = EthDev { dev_flags: 0x4 | 0x8, name: vec![0] };
    assert!(!dev.is_intr_lsc_enable());
}

#[test]
fn device_name_stops_at_nul() {
    let mut name = b"net_ixgbe\0garbage".to_vec();
    name.resize(64, 0);
    let dev = EthDev { dev_flags: 0, name };
    assert_eq!(dev.name(), "net_ixgbe");
    let dev = EthDev { dev_flags: 0, name: "é\0".as_bytes().to_vec() };
    assert_eq!(dev.name(), "é");
    let dev = EthDev { dev_flags: 0, name: vec![0, 65] };
    assert_eq!(dev.name(), "");
}

#[test]
fn tx_buffer_sends_when_full() {
    let mut b = TxBuffer { size: 0, length: 0, pkts: vec![] };
    b.init(3);
    assert_eq!(b.size, 3);
    assert_eq!(b.tx(11), Vec::<usize>::new());
    assert_eq!(b.tx(12), Vec::<usize>::new());
    assert_eq!(b.length, 2);
    assert_eq!(b.tx(13), vec![11, 12, 13]);
    assert_eq!(b.length, 0);
    assert_eq!(b.pkts, Vec::<usize>::new());
}

#[test]
fn tx_buffer_flush() {
    let mut b = TxBuffer { size: 4, length: 0, pkts: vec![] };
    assert_eq!(b.flush(), Vec::<usize>::new());
    b.tx(1);
    b.tx(2);
    assert_eq!(b.flush(), vec![1, 2]);
    assert_eq!(b.length, 0);
    assert_eq!(b.flush(), Vec::<usize>::new());
    // size one: every packet is sent at once
    let mut b = TxBuffer { size: 1, length: 0, pkts: vec![] };
    assert_eq!(b.tx(5), vec![5]);
}

#[test]
fn inline_tx_buffer_helpers() {
    let mut b = TxBuffer { size: 2, length: 0, pkts: vec![] };
    assert_eq!(rte_eth_tx_buffer(&mut b, 1), Vec::<usize>::new());
    assert_eq!(rte_eth_tx_buffer_flush(&mut b), vec![1]);
    assert_eq!(rte_eth_tx_buffer(&mut b, 2), Vec::<usize>::new());
    assert_eq!(rte_eth_tx_buffer(&mut b, 3), vec![2, 3]);
}

#[test]
fn unsent_packets_of_a_burst() {
    let batch = vec![1, 2, 3, 4];
    assert_eq!(TxBuffer::unsent(&batch, 4), Vec::<usize>::new());
    assert_eq!(TxBuffer::unsent(&batch, 1), vec![2, 3, 4]);
    assert_eq!(TxBuffer::unsent(&batch, 0), vec![1, 2, 3, 4]);
    assert_eq!(TxBuffer::unsent(&batch, 9), Vec::<usize>::new());
    assert_eq!(TxBuffer::unsent(&vec![], 0), Vec::<usize>::new());
}
