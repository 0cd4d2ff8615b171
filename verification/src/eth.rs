//! Ethernet ports (`rte_ethdev.h`): the port handle, the device data the
//! library reads, the promiscuous-mode switch, and the transmit buffer.
use vstd::prelude::*;
use vstd::utf8::{valid_utf8, decode_utf8};

verus! {

/// A port, known by its id.
#[derive(Clone, Copy)]
pub struct Port {
    pub port_id: u16,
}

/// Device flag: the device raises link-state-change interrupts
/// (`RTE_ETH_DEV_INTR_LSC`).
pub const RTE_ETH_DEV_INTR_LSC: u32 = 0x0002;

/// The device data of a port (`struct rte_eth_dev_data`) that the library
/// reads: its flags and its name, a NUL-terminated byte string.
pub struct EthDev {
    pub dev_flags: u32,
    pub name: Vec<u8>,
}

/// The device type under its DPDK name.
#[allow(non_camel_case_types)]
pub type rte_eth_dev = EthDev;

/// `bytes` holds a NUL byte.
pub open spec fn has_nul(bytes: Seq<u8>) -> bool {
    exists|k: int| 0 <= k < bytes.len() && bytes[k] == 0
}

/// `k` is the index of the first NUL byte of `bytes`.
pub open spec fn is_first_nul(bytes: Seq<u8>, k: int) -> bool {
    &&& 0 <= k < bytes.len()
    &&& bytes[k] == 0
    &&& forall|j: int| 0 <= j < k ==> bytes[j] != 0
}

/// The bytes of a NUL-terminated string, before its first NUL.
pub open spec fn c_str(bytes: Seq<u8>) -> Seq<u8> {
    bytes.take(choose|k: int| is_first_nul(bytes, k))
}

/// Builds a `String` from UTF-8 bytes, or gives `None` when they are not
/// valid UTF-8.
///
/// Trusted: calls `String::from_utf8`, whose documentation says that it
/// succeeds exactly on valid UTF-8 and that the string holds the decoded
/// characters.
#[verifier::external_body]
fn string_from_utf8(bytes: Vec<u8>) -> (r: Option<String>)
    ensures
        r is Some <==> valid_utf8(bytes@),
        r matches Some(s) ==> s@ == decode_utf8(bytes@),
{
    match String::from_utf8(bytes) {
        Ok(s) => Some(s),
        Err(_) => None,
    }
}

/// The index of the first NUL byte of `bytes`.
fn first_nul(bytes: &Vec<u8>) -> (k: usize)
    requires
        has_nul(bytes@),
    ensures
        is_first_nul(bytes@, k as int),
{
    let n = bytes.len();
    let mut k: usize = 0;
    while bytes[k] != 0
        invariant
            n == bytes@.len(),
            has_nul(bytes@),
            k < bytes@.len(),
            forall|j: int| 0 <= j < k ==> bytes@[j] != 0,
        decreases bytes@.len() - k,
    {
        k = k + 1;
        proof {
            if k == bytes@.len() {
                let w = choose|w: int| 0 <= w < bytes@.len() && bytes@[w] == 0;
                assert(bytes@[w] != 0);
            }
        }
    }
    k
}

/// The first NUL of a byte string is unique.
proof fn lemma_first_nul_unique(bytes: Seq<u8>, k: int, l: int)
    requires
        is_first_nul(bytes, k),
        is_first_nul(bytes, l),
    ensures
        k == l,
{
}

impl EthDev {
    /// Whether the device raises link-state-change interrupts.
    pub fn is_intr_lsc_enable(&self) -> (r: bool)
        ensures
            r == (self.dev_flags & RTE_ETH_DEV_INTR_LSC != 0),
    {
        self.dev_flags & RTE_ETH_DEV_INTR_LSC != 0
    }

    /// The device name: the bytes before the first NUL, decoded as UTF-8.
    pub fn name(&self) -> (r: String)
        requires
            has_nul(self.name@),
            valid_utf8(c_str(self.name@)),
        ensures
            r@ == decode_utf8(c_str(self.name@)),
    {
        let k = first_nul(&self.name);
        proof {
            let c = choose|c: int| is_first_nul(self.name@, c);
            lemma_first_nul_unique(self.name@, k as int, c);
        }
        let mut bytes: Vec<u8> = Vec::new();
        let mut i: usize = 0;
        while i < k
            invariant
                i <= k,
                k < self.name@.len(),
                bytes@ == self.name@.take(i as int),
            decreases k - i,
        {
            bytes.push(self.name[i]);
            i = i + 1;
            assert(bytes@ =~= self.name@.take(i as int));
        }
        assert(bytes@ =~= c_str(self.name@));
        let s = string_from_utf8(bytes);
        s.unwrap()
    }
}

/// Which of the two promiscuous-mode calls a switch makes.
pub enum PromiscuousOp {
    Enable,
    Disable,
}

impl Port {
    /// The call that sets promiscuous mode to `onoff`: enable when `onoff`,
    /// disable otherwise.
    pub fn promiscuous_op(&self, onoff: bool) -> (r: PromiscuousOp)
        ensures
            onoff ==> r is Enable,
            !onoff ==> r is Disable,
    {
        if onoff == true {
            PromiscuousOp::Enable
        } else {
            PromiscuousOp::Disable
        }
    }
}

/// A transmit buffer (`struct rte_eth_dev_tx_buffer`): up to `size`
/// packets are gathered before they are sent in one burst. `pkts` holds the
/// `length` buffered packets.
pub struct TxBuffer {
    pub size: u16,
    pub length: u16,
    pub pkts: Vec<usize>,
}

/// The transmit buffer type under its DPDK name.
#[allow(non_camel_case_types)]
pub type tx_buffer = TxBuffer;

impl TxBuffer {
    /// `length` counts the buffered packets.
    pub open spec fn wf(&self) -> bool {
        self.pkts@.len() == self.length
    }

    /// Sets the buffer's size to `size`; the buffered packets stay.
    pub fn init(&mut self, size: u16)
        ensures
            final(self).size == size,
            final(self).length == old(self).length,
            final(self).pkts@ == old(self).pkts@,
    {
        self.size = size;
    }

    /// Takes the buffered packets out of the buffer and returns them, to be
    /// sent in one burst; an empty buffer gives no packet (and nothing is
    /// sent).
    pub fn flush(&mut self) -> (batch: Vec<usize>)
        requires
            old(self).wf(),
        ensures
            batch@ == old(self).pkts@,
            final(self).wf(),
            final(self).length == 0,
            final(self).size == old(self).size,
    {
        let to_send = self.length;
        if to_send == 0 {
            return Vec::new();
        }
        let batch = self.pkts.split_off(0);
        self.length = 0;
        batch
    }

    /// The packets of a sent `batch` that the device did not take, when it
    /// took `sent` of them: the packets from index `sent` on, in order. These
    /// are the packets the buffer's error callback is given.
    pub fn unsent(batch: &Vec<usize>, sent: u16) -> (r: Vec<usize>)
        ensures
            r@ == if sent as nat >= batch@.len() {
                Seq::<usize>::empty()
            } else {
                batch@.skip(sent as int)
            },
    {
        let mut r: Vec<usize> = Vec::new();
        let mut i: usize = sent as usize;
        if i >= batch.len() {
            return r;
        }
        let ghost s = sent as int;
        while i < batch.len()
            invariant
                0 <= s <= i <= batch@.len(),
                s < batch@.len(),
                r@ == batch@.subrange(s, i as int),
            decreases batch@.len() - i,
        {
            let ghost prev = r@;
            r.push(batch[i]);
            assert(r@ == prev.push(batch@[i as int]));
            assert(batch@.subrange(s, i + 1) =~= batch@.subrange(s, i as int).push(batch@[i as int]));
            i = i + 1;
        }
        assert(batch@.subrange(s, batch@.len() as int) =~= batch@.skip(s));
        r
    }

    /// Adds `pkt` to the buffer. Once the buffer holds `size` packets, they
    /// are all taken out and returned, to be sent in one burst; otherwise no
    /// packet is returned.
    pub fn tx(&mut self, tx_pkt: usize) -> (batch: Vec<usize>)
        requires
            old(self).wf(),
            old(self).length < old(self).size,
        ensures
            final(self).wf(),
            final(self).size == old(self).size,
            final(self).pkts@ + batch@ == old(self).pkts@.push(tx_pkt),
            old(self).length + 1 < old(self).size ==> batch@.len() == 0,
            old(self).length + 1 >= old(self).size ==> final(self).length == 0,
            final(self).length < final(self).size,
    {
        self.pkts.push(tx_pkt);
        self.length = self.length + 1;
        if self.length < self.size {
            assert(self.pkts@ + Seq::<usize>::empty() =~= self.pkts@);
            return Vec::new();
        }
        let batch = self.flush();
        assert(Seq::<usize>::empty() + batch@ =~= batch@);
        batch
    }
}

} // verus!
