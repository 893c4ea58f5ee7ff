//! The interrupt-status register: its bits, a snapshot type, and the polling
//! waits that acknowledge what they act on.

use vstd::prelude::*;
use crate::bus::{confined, lemma_chain, Access, Mmio, Port};
use crate::regs::{REG_INT_STS, SD_DRIVER_ADDR};

verus! {

/// Address of the interrupt-status register.
pub const INT_STS_ADDR: usize = SD_DRIVER_ADDR + REG_INT_STS;

pub const CMD_CMPL: u32 = 0x0001;

pub const XFER_CMPL: u32 = 0x0002;

pub const DMA_INT: u32 = 0x0008;

pub const BUF_WRDY: u32 = 0x0010;

pub const BUF_RRDY: u32 = 0x0020;

pub const ERR_INT: u32 = 0x8000;

/// Idle iterations between two polls of the status register.
pub const POLL_SPINS: u32 = 1000;

/// What the interrupt-status register showed at one moment.
#[derive(Clone, Copy, Debug, PartialEq, Eq, Structural)]
pub struct InterruptStatus {
    pub bits: u32,
}

impl InterruptStatus {
    /// Some bit of `mask` is set in the snapshot.
    pub open spec fn has(self, mask: u32) -> bool {
        self.bits & mask != 0
    }

    /// What the register shows after `written` is stored to it, if the
    /// hardware raises nothing in between: every bit written as one is
    /// cleared, every other bit stays.
    pub open spec fn cleared(self, written: u32) -> InterruptStatus {
        InterruptStatus { bits: self.bits & !written }
    }

    pub fn new(bits: u32) -> (s: InterruptStatus)
        ensures
            s.bits == bits,
    {
        InterruptStatus { bits }
    }

    /// Computes `has`.
    pub fn is_set(self, mask: u32) -> (b: bool)
        ensures
            b == self.has(mask),
    {
        self.bits & mask != 0
    }

    pub fn cmd_cmpl(self) -> (b: bool)
        ensures
            b == self.has(CMD_CMPL),
    {
        self.is_set(CMD_CMPL)
    }

    pub fn xfer_cmpl(self) -> (b: bool)
        ensures
            b == self.has(XFER_CMPL),
    {
        self.is_set(XFER_CMPL)
    }

    pub fn dma_int(self) -> (b: bool)
        ensures
            b == self.has(DMA_INT),
    {
        self.is_set(DMA_INT)
    }

    pub fn buf_rrdy(self) -> (b: bool)
        ensures
            b == self.has(BUF_RRDY),
    {
        self.is_set(BUF_RRDY)
    }

    pub fn err_int(self) -> (b: bool)
        ensures
            b == self.has(ERR_INT),
    {
        self.is_set(ERR_INT)
    }

    /// Computes `cleared`.
    pub fn after_clear(self, written: u32) -> (s: InterruptStatus)
        ensures
            s == self.cleared(written),
            !s.has(written),
    {
        let before = self.bits;
        let bits = before & !written;
        assert((bits & written) == 0) by (bit_vector)
            requires
                bits == before & !written,
        ;
        InterruptStatus { bits }
    }
}

/// Acknowledging bits that are already clear changes nothing, and
/// acknowledging twice is the same as acknowledging once: a one written to a
/// clear bit does not set it.
pub proof fn lemma_clear_idempotent(status: InterruptStatus, written: u32)
    ensures
        !status.has(written) ==> status.cleared(written) == status,
        status.cleared(written).cleared(written) == status.cleared(written),
        !status.cleared(written).has(written),
{
    let b = status.bits;
    assert(b & written == 0 ==> b & !written == b) by (bit_vector);
    assert((b & !written) & !written == b & !written) by (bit_vector);
    assert((b & !written) & written == 0) by (bit_vector);
}

/// Acknowledging some bits leaves every other bit as it was.
pub proof fn lemma_clear_keeps_others(status: InterruptStatus, written: u32, other: u32)
    requires
        written & other == 0,
    ensures
        status.cleared(written).has(other) == status.has(other),
{
    let b = status.bits;
    assert(written & other == 0 ==> (b & !written) & other == b & other) by (bit_vector);
}

/// How a wait on the status register ended.
#[derive(Clone, Copy, Debug, PartialEq, Eq, Structural)]
pub enum Waited {
    /// The bit looked for first was set; it was acknowledged.
    First,
    /// The first bit was clear and the second was set; it was acknowledged.
    Second,
    /// Neither bit showed up within the poll budget.
    TimedOut,
}

/// `a` is the step at position `i` of a fruitless wait on the register at
/// `addr`: at even positions a load that shows neither bit, at odd positions
/// the pause before the next load.
pub open spec fn idle_step(a: Access, i: int, addr: usize, first: u32, second: u32, spins: u32)
    -> bool {
    if i % 2 == 0 {
        a matches Access::Read { addr: x, value: v } && x == addr && v & first == 0 && v & second
            == 0
    } else {
        a == Access::Delay { spins }
    }
}

/// `s` is a whole number of fruitless polls: load, pause, load, pause, ...
pub open spec fn idle_polls(s: Seq<Access>, addr: usize, first: u32, second: u32, spins: u32)
    -> bool {
    &&& s.len() % 2 == 0
    &&& forall|i: int| 0 <= i < s.len() ==> idle_step(#[trigger] s[i], i, addr, first, second, spins)
}

/// `s` is what a wait for `first` or `second` puts on the bus when it ends
/// as `outcome` says, with at most `limit` loads of the status register.
///
/// A wait that is served ends with the load that showed the bit and the
/// store that acknowledges exactly that bit. Before it come only fruitless
/// polls. A wait that times out is `limit` fruitless polls.
pub open spec fn status_wait(s: Seq<Access>, first: u32, second: u32, limit: u32, outcome: Waited)
    -> bool {
    match outcome {
        Waited::TimedOut => {
            &&& s.len() == 2 * limit
            &&& idle_polls(s, INT_STS_ADDR, first, second, POLL_SPINS)
        },
        Waited::First => {
            &&& 2 <= s.len() <= 2 * limit
            &&& idle_polls(s.take(s.len() - 2), INT_STS_ADDR, first, second, POLL_SPINS)
            &&& s[s.len() - 2] matches Access::Read { addr, value }
            &&& addr == INT_STS_ADDR
            &&& value & first != 0
            &&& s[s.len() - 1] == Access::Write { addr: INT_STS_ADDR, value: first }
        },
        Waited::Second => {
            &&& 2 <= s.len() <= 2 * limit
            &&& idle_polls(s.take(s.len() - 2), INT_STS_ADDR, first, second, POLL_SPINS)
            &&& s[s.len() - 2] matches Access::Read { addr, value }
            &&& addr == INT_STS_ADDR
            &&& value & first == 0
            &&& value & second != 0
            &&& s[s.len() - 1] == Access::Write { addr: INT_STS_ADDR, value: second }
        },
    }
}

/// A wait on the status register touches no other register, and pauses
/// only for the time between two polls.
pub proof fn lemma_status_wait_confined(
    s: Seq<Access>,
    first: u32,
    second: u32,
    limit: u32,
    outcome: Waited,
)
    requires
        status_wait(s, first, second, limit, outcome),
    ensures
        forall|i: int| 0 <= i < s.len() ==> confined(#[trigger] s[i], INT_STS_ADDR),
        forall|i: int|
            0 <= i < s.len() ==> (#[trigger] s[i] is Delay ==> s[i] == (Access::Delay {
                spins: POLL_SPINS,
            })),
{
    assert forall|i: int| 0 <= i < s.len() implies confined(#[trigger] s[i], INT_STS_ADDR) && (
    s[i] is Delay ==> s[i] == (Access::Delay { spins: POLL_SPINS })) by {
        if outcome == Waited::TimedOut {
            assert(idle_step(s[i], i, INT_STS_ADDR, first, second, POLL_SPINS));
        } else if i < s.len() - 2 {
            let head = s.take(s.len() - 2);
            assert(head[i] == s[i]);
            assert(idle_step(head[i], i, INT_STS_ADDR, first, second, POLL_SPINS));
        }
    }
}

/// Polls the status register until `first` or `second` shows, looking for
/// `first` first, acknowledges the bit found and says which it was. Gives up
/// after `limit` loads.
pub fn wait_status<B: Mmio>(port: &mut Port<B>, first: u32, second: u32, limit: u32) -> (outcome:
    Waited)
    ensures
        final(port).extends(old(port).trace()),
        status_wait(final(port).since(old(port).trace()), first, second, limit, outcome),
{
    let ghost t0 = port.trace();
    let mut polls: u32 = 0;
    proof {
        assert(port.trace().take(t0.len() as int) =~= t0);
    }
    while polls < limit
        invariant
            polls <= limit,
            t0 == old(port).trace(),
            port.extends(t0),
            port.since(t0).len() == 2 * polls,
            idle_polls(port.since(t0), INT_STS_ADDR, first, second, POLL_SPINS),
        decreases limit - polls,
    {
        let ghost t1 = port.trace();
        let status = InterruptStatus::new(port.read(INT_STS_ADDR));
        if status.is_set(first) {
            let ghost t2 = port.trace();
            port.write(INT_STS_ADDR, first);
            proof {
                lemma_chain(t1, t2, port.trace());
                lemma_chain(t0, t1, port.trace());
            }
            return Waited::First;
        }
        if status.is_set(second) {
            let ghost t2 = port.trace();
            port.write(INT_STS_ADDR, second);
            proof {
                lemma_chain(t1, t2, port.trace());
                lemma_chain(t0, t1, port.trace());
            }
            return Waited::Second;
        }
        let ghost t2 = port.trace();
        port.delay(POLL_SPINS);
        proof {
            lemma_chain(t1, t2, port.trace());
            lemma_chain(t0, t1, port.trace());
        }
        polls = polls + 1;
    }
    Waited::TimedOut
}

} // verus!
