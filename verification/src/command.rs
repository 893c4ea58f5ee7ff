//! The command engine: the table that says how each command is framed, the
//! word that goes into the command register, and the exchange itself.

use vstd::prelude::*;
use crate::bus::{
    is_load_from, is_store_to, lemma_chain, lemma_confined_elsewhere, lemma_join, lemma_loads_concat,
    lemma_loads_none, lemma_pauses_concat, lemma_pauses_none, lemma_stores_concat,
    lemma_stores_none, lemma_stores_one, loads_from, pauses, stores_to, Access, Mmio, Port,
};
use crate::regs::{
    mmio_clrsetbits_32, update_at, REG_ARGUMENT, REG_BLK_SIZE_CNT, REG_CLK_CTL, REG_PRESENT_STATE,
    REG_RESP1_0, REG_RESP3_2, REG_RESP5_4, REG_RESP7_6, REG_XFER_CMD, SD_DRIVER_ADDR,
};
use crate::session::TransferSession;
use crate::status::{
    lemma_status_wait_confined, status_wait, wait_status, Waited, CMD_CMPL, ERR_INT, INT_STS_ADDR,
    POLL_SPINS,
};
use crate::transfer::{BUF_DATA_ADDR, DMA_ADDR_ADDR};

verus! {

pub const PRESENT_STATE_ADDR: usize = SD_DRIVER_ADDR + REG_PRESENT_STATE;

pub const BLK_SIZE_CNT_ADDR: usize = SD_DRIVER_ADDR + REG_BLK_SIZE_CNT;

pub const CLK_CTL_ADDR: usize = SD_DRIVER_ADDR + REG_CLK_CTL;

pub const ARGUMENT_ADDR: usize = SD_DRIVER_ADDR + REG_ARGUMENT;

pub const XFER_CMD_ADDR: usize = SD_DRIVER_ADDR + REG_XFER_CMD;

pub const RESP1_0_ADDR: usize = SD_DRIVER_ADDR + REG_RESP1_0;

pub const RESP3_2_ADDR: usize = SD_DRIVER_ADDR + REG_RESP3_2;

pub const RESP5_4_ADDR: usize = SD_DRIVER_ADDR + REG_RESP5_4;

pub const RESP7_6_ADDR: usize = SD_DRIVER_ADDR + REG_RESP7_6;

/// Present state: a command is in flight on the command line.
pub const CMD_INHIBIT: u32 = 0x1;

/// Present state: a command that uses the data lines is in flight.
pub const CMD_INHIBIT_DAT: u32 = 0x2;

/// Both inhibit bits of the present-state register.
pub const INHIBIT_MASK: u32 = 0x3;

/// Command word: data follows the command.
pub const DATA_PRESENT: u32 = 0x0020_0000;

/// Command word: the controller checks the index in the response.
pub const INX_CHECK_EN: u32 = 0x0010_0000;

/// Command word: the controller checks the CRC of the response.
pub const CRC_CHECK_EN: u32 = 0x0008_0000;

/// Response select: a response of 136 bits.
pub const L136: u32 = 0x0001_0000;

/// Response select: a response of 48 bits.
pub const L48: u32 = 0x0002_0000;

/// The block count field of the block size and count register.
pub const BLK_CNT_MASK: u32 = 0xFFFF_0000;

/// The data timeout field of the clock control register.
pub const TOUT_CNT_MASK: u32 = 0x000F_0000;

/// The data timeout programmed before each command.
pub const TOUT_CNT_VALUE: u32 = 0x000E_0000;

/// Present state: a card sits in the slot.
pub const CARD_INSERTED: u32 = 0x0001_0000;

/// What the present-state register showed at one moment.
#[derive(Clone, Copy, Debug, PartialEq, Eq, Structural)]
pub struct PresentState {
    pub bits: u32,
}

impl PresentState {
    /// Neither inhibit bit is set: the controller takes a command.
    pub open spec fn free(self) -> bool {
        self.bits & INHIBIT_MASK == 0
    }

    /// A card sits in the slot.
    pub open spec fn inserted(self) -> bool {
        self.bits & CARD_INSERTED != 0
    }

    pub fn new(bits: u32) -> (s: PresentState)
        ensures
            s.bits == bits,
    {
        PresentState { bits }
    }

    /// Computes `free`.
    pub fn can_issue(self) -> (b: bool)
        ensures
            b == self.free(),
    {
        self.bits & INHIBIT_MASK == 0
    }

    /// Computes `inserted`.
    pub fn card_inserted(self) -> (b: bool)
        ensures
            b == self.inserted(),
    {
        self.bits & CARD_INSERTED != 0
    }
}

/// The command line and the data lines are free exactly when neither of the
/// two inhibit bits is set.
pub proof fn lemma_free_means_both_clear(state: PresentState)
    ensures
        state.free() <==> (state.bits & CMD_INHIBIT == 0 && state.bits & CMD_INHIBIT_DAT == 0),
{
    let b = state.bits;
    assert((b & 0x3 == 0) <==> (b & 0x1 == 0 && b & 0x2 == 0)) by (bit_vector);
}

/// The kind of response a command is answered with.
#[derive(Clone, Copy, Debug, PartialEq, Eq, Structural)]
pub enum ResponseType {
    NoResponse,
    R1,
    R1b,
    R2,
    R3,
    R6,
    R7,
}

/// Why a command did not complete.
#[derive(Clone, Copy, Debug, PartialEq, Eq, Structural)]
pub enum CmdError {
    /// The controller raised the error interrupt while the command ran.
    IntError,
    /// Neither completion nor error showed up within the poll budget.
    Timeout,
    /// The controller stayed inhibited for the whole poll budget; the
    /// command was not written.
    Busy,
}

/// The four response registers, as read after a command completed.
#[derive(Clone, Copy, Debug, PartialEq, Eq, Structural)]
pub struct Response {
    pub resp1_0: u32,
    pub resp3_2: u32,
    pub resp5_4: u32,
    pub resp7_6: u32,
}

/// The response each command index is answered with. An index the table
/// does not list gets none.
pub open spec fn response_type_of(index: u8) -> ResponseType {
    if index == 2 || index == 9 {
        ResponseType::R2
    } else if index == 3 {
        ResponseType::R6
    } else if index == 7 {
        ResponseType::R1b
    } else if index == 8 || index == 17 || index == 42 || index == 51 || index == 55 {
        ResponseType::R1
    } else if index == 41 {
        ResponseType::R3
    } else {
        ResponseType::NoResponse
    }
}

/// Data follows the command on the data lines.
pub open spec fn data_present_of(index: u8) -> bool {
    index == 17
}

/// The controller is to check the CRC of the response.
pub open spec fn crc_check_of(index: u8) -> bool {
    index == 2 || index == 3 || index == 7 || index == 8 || index == 9 || index == 17 || index
        == 42 || index == 51 || index == 55
}

/// The controller is to check the command index in the response.
pub open spec fn index_check_of(index: u8) -> bool {
    index == 3 || index == 7 || index == 8 || index == 17 || index == 42 || index == 51 || index
        == 55
}

/// The response-select bits for a response type: none, 136 bits, or 48 bits.
pub open spec fn response_select(kind: ResponseType) -> u32 {
    match kind {
        ResponseType::NoResponse => 0u32,
        ResponseType::R2 => L136,
        _ => L48,
    }
}

/// The high half of the word written to the command register for `index`:
/// the index in bits 24 to 29, below it the flags of the table.
pub open spec fn command_word(index: u8) -> u32 {
    ((index as u32) << 24) | (if data_present_of(index) {
        DATA_PRESENT
    } else {
        0u32
    }) | (if index_check_of(index) {
        INX_CHECK_EN
    } else {
        0u32
    }) | (if crc_check_of(index) {
        CRC_CHECK_EN
    } else {
        0u32
    }) | response_select(response_type_of(index))
}

/// A command for the card.
#[derive(Clone, Copy, Debug, PartialEq, Eq, Structural)]
pub struct Command {
    pub index: u8,
    pub argument: u32,
}

impl Command {
    /// The index fits the six bits the command register has for it.
    pub open spec fn wf(self) -> bool {
        self.index < 64
    }

    /// A command, if `index` is at most 63.
    pub fn new(index: u8, argument: u32) -> (cmd: Option<Command>)
        ensures
            cmd.is_some() <==> index < 64,
            cmd.is_some() ==> cmd.unwrap() == (Command { index, argument }),
    {
        if index < 64 {
            Some(Command { index, argument })
        } else {
            None
        }
    }

    pub fn response_type(self) -> (kind: ResponseType)
        ensures
            kind == response_type_of(self.index),
    {
        let i = self.index;
        if i == 2 || i == 9 {
            ResponseType::R2
        } else if i == 3 {
            ResponseType::R6
        } else if i == 7 {
            ResponseType::R1b
        } else if i == 8 || i == 17 || i == 42 || i == 51 || i == 55 {
            ResponseType::R1
        } else if i == 41 {
            ResponseType::R3
        } else {
            ResponseType::NoResponse
        }
    }

    pub fn data_present(self) -> (b: bool)
        ensures
            b == data_present_of(self.index),
    {
        self.index == 17
    }

    pub fn crc_check_enable(self) -> (b: bool)
        ensures
            b == crc_check_of(self.index),
    {
        match self.response_type() {
            ResponseType::NoResponse | ResponseType::R3 => false,
            _ => true,
        }
    }

    pub fn index_check_enable(self) -> (b: bool)
        ensures
            b == index_check_of(self.index),
    {
        match self.response_type() {
            ResponseType::NoResponse | ResponseType::R3 | ResponseType::R2 => false,
            _ => true,
        }
    }

    /// The high half of the word for the command register.
    pub fn encode(self) -> (word: u32)
        ensures
            word == command_word(self.index),
    {
        let select: u32 = match self.response_type() {
            ResponseType::NoResponse => 0u32,
            ResponseType::R2 => L136,
            _ => L48,
        };
        let data: u32 = if self.data_present() {
            DATA_PRESENT
        } else {
            0u32
        };
        let inx: u32 = if self.index_check_enable() {
            INX_CHECK_EN
        } else {
            0u32
        };
        let crc: u32 = if self.crc_check_enable() {
            CRC_CHECK_EN
        } else {
            0u32
        };
        ((self.index as u32) << 24) | data | inx | crc | select
    }
}

/// The command register holds the index in bits 24 to 29, the data-present
/// flag in bit 21, the index check in bit 20, the CRC check in bit 19 and the
/// response select in bits 16 and 17. The word built for a command has in
/// each of them what the table says, and nothing anywhere else.
pub proof fn lemma_command_word_fields(index: u8)
    requires
        index < 64,
    ensures
        (command_word(index) >> 24) & 0x3F == index,
        (command_word(index) >> 21) & 1 == (if data_present_of(index) { 1u32 } else { 0u32 }),
        (command_word(index) >> 20) & 1 == (if index_check_of(index) { 1u32 } else { 0u32 }),
        (command_word(index) >> 19) & 1 == (if crc_check_of(index) { 1u32 } else { 0u32 }),
        (command_word(index) >> 16) & 3 == response_select(response_type_of(index)) >> 16,
        command_word(index) & 0xC0C4_FFFF == 0,
{
    let i = index as u32;
    let d: u32 = if data_present_of(index) { DATA_PRESENT } else { 0u32 };
    let x: u32 = if index_check_of(index) { INX_CHECK_EN } else { 0u32 };
    let c: u32 = if crc_check_of(index) { CRC_CHECK_EN } else { 0u32 };
    let s: u32 = response_select(response_type_of(index));
    let w = (i << 24) | d | x | c | s;
    assert(w == command_word(index));
    assert(i < 64 && (d == 0 || d == 0x0020_0000) && (x == 0 || x == 0x0010_0000) && (c == 0 || c
        == 0x0008_0000) && (s == 0 || s == 0x0001_0000 || s == 0x0002_0000) && w == ((i << 24) | d
        | x | c | s) ==> {
        &&& (w >> 24) & 0x3F == i
        &&& (w >> 21) & 1 == (if d != 0 { 1u32 } else { 0u32 })
        &&& (w >> 20) & 1 == (if x != 0 { 1u32 } else { 0u32 })
        &&& (w >> 19) & 1 == (if c != 0 { 1u32 } else { 0u32 })
        &&& (w >> 16) & 3 == s >> 16
        &&& w & 0xC0C4_FFFF == 0
    }) by (bit_vector);
}

/// The word for each command the table lists.
pub proof fn lemma_command_table()
    ensures
        command_word(0) == 0x0000_0000,
        command_word(2) == 0x0209_0000,
        command_word(3) == 0x031A_0000,
        command_word(7) == 0x071A_0000,
        command_word(8) == 0x081A_0000,
        command_word(9) == 0x0909_0000,
        command_word(17) == 0x113A_0000,
        command_word(41) == 0x2902_0000,
        command_word(42) == 0x2A1A_0000,
        command_word(51) == 0x331A_0000,
        command_word(55) == 0x371A_0000,
{
    assert({
        &&& (0u32 << 24) | 0 | 0 | 0 | 0 == 0
        &&& (2u32 << 24) | 0 | 0 | 0x0008_0000 | 0x0001_0000 == 0x0209_0000
        &&& (3u32 << 24) | 0 | 0x0010_0000 | 0x0008_0000 | 0x0002_0000 == 0x031A_0000
        &&& (7u32 << 24) | 0 | 0x0010_0000 | 0x0008_0000 | 0x0002_0000 == 0x071A_0000
        &&& (8u32 << 24) | 0 | 0x0010_0000 | 0x0008_0000 | 0x0002_0000 == 0x081A_0000
        &&& (9u32 << 24) | 0 | 0 | 0x0008_0000 | 0x0001_0000 == 0x0909_0000
        &&& (17u32 << 24) | 0x0020_0000 | 0x0010_0000 | 0x0008_0000 | 0x0002_0000 == 0x113A_0000
        &&& (41u32 << 24) | 0 | 0 | 0 | 0x0002_0000 == 0x2902_0000
        &&& (42u32 << 24) | 0 | 0x0010_0000 | 0x0008_0000 | 0x0002_0000 == 0x2A1A_0000
        &&& (51u32 << 24) | 0 | 0x0010_0000 | 0x0008_0000 | 0x0002_0000 == 0x331A_0000
        &&& (55u32 << 24) | 0 | 0x0010_0000 | 0x0008_0000 | 0x0002_0000 == 0x371A_0000
    }) by (bit_vector);
}

/// `s` is what waiting for the controller to accept a command puts on the
/// bus: loads of the present state, each but the last showing an inhibit bit.
/// If the controller became `ready`, the last load shows both clear; if not,
/// all `limit` loads show one set.
pub open spec fn ready_wait(s: Seq<Access>, limit: u32, ready: bool) -> bool {
    &&& s.len() <= limit
    &&& forall|i: int|
        0 <= i < s.len() ==> (#[trigger] s[i] matches Access::Read { addr, value } && addr
            == PRESENT_STATE_ADDR && ((value & INHIBIT_MASK == 0) <==> (ready && i == s.len() - 1)))
    &&& if ready {
        s.len() >= 1
    } else {
        s.len() == limit
    }
}

/// `s` is the stores that start a command, in the order they must be made:
/// for a command without a session the block count is set to zero, the data
/// timeout is programmed, the argument is written, and last the word with the
/// transfer mode and the command, which sets the command off.
pub open spec fn command_setup(s: Seq<Access>, cmd: Command, session: Option<TransferSession>)
    -> bool {
    match session {
        Some(ts) => {
            &&& s.len() == 4
            &&& update_at(s, 0, CLK_CTL_ADDR, TOUT_CNT_MASK, TOUT_CNT_VALUE)
            &&& s[2] == Access::Write { addr: ARGUMENT_ADDR, value: cmd.argument }
            &&& s[3] == Access::Write {
                addr: XFER_CMD_ADDR,
                value: command_word(cmd.index) | ts.mode_bits(),
            }
        },
        None => {
            &&& s.len() == 6
            &&& update_at(s, 0, BLK_SIZE_CNT_ADDR, BLK_CNT_MASK, 0)
            &&& update_at(s, 2, CLK_CTL_ADDR, TOUT_CNT_MASK, TOUT_CNT_VALUE)
            &&& s[4] == Access::Write { addr: ARGUMENT_ADDR, value: cmd.argument }
            &&& s[5] == Access::Write { addr: XFER_CMD_ADDR, value: command_word(cmd.index) }
        },
    }
}

/// The loads of the four response registers, lowest first.
pub open spec fn response_reads(r: Response) -> Seq<Access> {
    seq![
        Access::Read { addr: RESP1_0_ADDR, value: r.resp1_0 },
        Access::Read { addr: RESP3_2_ADDR, value: r.resp3_2 },
        Access::Read { addr: RESP5_4_ADDR, value: r.resp5_4 },
        Access::Read { addr: RESP7_6_ADDR, value: r.resp7_6 },
    ]
}

/// How the wait for a command's completion ended, as the wait on the status
/// register saw it: the error interrupt is looked for first.
pub open spec fn completion_of(result: Result<(), CmdError>) -> Waited {
    match result {
        Ok(_) => Waited::Second,
        Err(CmdError::IntError) => Waited::First,
        Err(_) => Waited::TimedOut,
    }
}

/// `s` is the wait for a command's completion that ended in `result`.
pub open spec fn completion_wait(s: Seq<Access>, limit: u32, result: Result<(), CmdError>) -> bool {
    &&& !(result matches Err(CmdError::Busy))
    &&& status_wait(s, ERR_INT, CMD_CMPL, limit, completion_of(result))
}

/// `s` splits into the four phases of a command exchange that ended in
/// `result`: the wait `ready` for the controller, the stores `setup` that set
/// the command off, the wait `done` for its completion, and the loads of the
/// response.
pub open spec fn exchange_phases(
    s: Seq<Access>,
    ready: Seq<Access>,
    setup: Seq<Access>,
    done: Seq<Access>,
    cmd: Command,
    session: Option<TransferSession>,
    limit: u32,
    result: Result<Response, CmdError>,
) -> bool {
    match result {
        Err(CmdError::Busy) => {
            &&& s == ready
            &&& ready_wait(ready, limit, false)
        },
        Err(e) => {
            &&& s == ready + setup + done
            &&& ready_wait(ready, limit, true)
            &&& command_setup(setup, cmd, session)
            &&& completion_wait(done, limit, Err(e))
        },
        Ok(r) => {
            &&& s == ready + setup + done + response_reads(r)
            &&& ready_wait(ready, limit, true)
            &&& command_setup(setup, cmd, session)
            &&& completion_wait(done, limit, Ok(()))
        },
    }
}

/// `s` is one command exchange that ended in `result`.
///
/// The command register is written only after a load of the present state
/// showed both inhibit bits clear, and every load before that one showed one
/// of them set. The argument is written before the command. The response
/// registers are read only after the completion bit was seen and
/// acknowledged.
pub open spec fn command_exchange(
    s: Seq<Access>,
    cmd: Command,
    session: Option<TransferSession>,
    limit: u32,
    result: Result<Response, CmdError>,
) -> bool {
    exists|ready: Seq<Access>, setup: Seq<Access>, done: Seq<Access>|
        exchange_phases(s, ready, setup, done, cmd, session, limit, result)
}

/// The word that sets the command off: the command in the high half, the
/// transfer mode of the session, if there is one, in the low half.
pub open spec fn trigger_word(cmd: Command, session: Option<TransferSession>) -> u32 {
    match session {
        Some(ts) => command_word(cmd.index) | ts.mode_bits(),
        None => command_word(cmd.index),
    }
}

/// Position `i` of `s` is where the controller was first seen to accept a
/// command: a load of the present state with both inhibit bits clear, all
/// before it being loads of the present state with an inhibit bit set.
pub open spec fn ready_at(s: Seq<Access>, i: int) -> bool {
    &&& 0 <= i < s.len()
    &&& s[i] matches Access::Read { addr, value }
    &&& addr == PRESENT_STATE_ADDR
    &&& value & INHIBIT_MASK == 0
    &&& forall|m: int|
        0 <= m < i ==> (#[trigger] s[m] matches Access::Read { addr: a, value: v } && a
            == PRESENT_STATE_ADDR && v & INHIBIT_MASK != 0)
}

/// What one command exchange does to the registers, whatever the hardware
/// answered.
///
/// If the controller stayed inhibited nothing was stored anywhere.
/// Otherwise the command register was written exactly once, with the word
/// for the command, and every store of the exchange came after the load
/// that first showed both inhibit bits clear. The data port is not read and
/// the DMA address is not written.
pub proof fn lemma_exchange_effect(
    s: Seq<Access>,
    cmd: Command,
    session: Option<TransferSession>,
    limit: u32,
    result: Result<Response, CmdError>,
)
    requires
        command_exchange(s, cmd, session, limit, result),
    ensures
        result == Err::<Response, CmdError>(CmdError::Busy) ==> forall|j: int|
            0 <= j < s.len() ==> #[trigger] s[j] is Read,
        result != Err::<Response, CmdError>(CmdError::Busy) ==> stores_to(s, XFER_CMD_ADDR)
            == seq![trigger_word(cmd, session)] && stores_to(s, ARGUMENT_ADDR) == seq![
            cmd.argument,
        ] && exists|i: int|
            #[trigger] ready_at(s, i) && forall|j: int|
                0 <= j <= i ==> #[trigger] s[j] is Read,
        result == Err::<Response, CmdError>(CmdError::Busy) ==> stores_to(s, XFER_CMD_ADDR)
            == Seq::<u32>::empty(),
        loads_from(s, BUF_DATA_ADDR) == Seq::<u32>::empty(),
        stores_to(s, DMA_ADDR_ADDR) == Seq::<u32>::empty(),
{
    let (ready, setup, done) = choose|ready: Seq<Access>, setup: Seq<Access>, done: Seq<Access>|
        exchange_phases(s, ready, setup, done, cmd, session, limit, result);
    assert forall|j: int| 0 <= j < ready.len() implies !is_store_to(
        #[trigger] ready[j],
        XFER_CMD_ADDR,
    ) && !is_store_to(ready[j], ARGUMENT_ADDR) && !is_store_to(ready[j], DMA_ADDR_ADDR)
        && !is_load_from(ready[j], BUF_DATA_ADDR) && ready[j] is Read by {
        assert(ready[j] matches Access::Read { addr, value } && addr == PRESENT_STATE_ADDR);
    }
    lemma_stores_none(ready, XFER_CMD_ADDR);
    lemma_stores_none(ready, ARGUMENT_ADDR);
    lemma_stores_none(ready, DMA_ADDR_ADDR);
    lemma_loads_none(ready, BUF_DATA_ADDR);
    if result != Err::<Response, CmdError>(CmdError::Busy) {
        let unit: Result<(), CmdError> = match result {
            Ok(_) => Ok(()),
            Err(e) => Err(e),
        };
        let resp: Seq<Access> = match result {
            Ok(r) => response_reads(r),
            Err(_) => Seq::empty(),
        };
        assert(s =~= ready + setup + done + resp);
        let n = setup.len() as int;
        assert forall|j: int| 0 <= j < n implies !is_store_to(#[trigger] setup[j], DMA_ADDR_ADDR)
            && !is_load_from(setup[j], BUF_DATA_ADDR) && (j != n - 1 ==> !is_store_to(
            setup[j],
            XFER_CMD_ADDR,
        )) && (j != n - 2 ==> !is_store_to(setup[j], ARGUMENT_ADDR)) by {
            if session.is_some() {
                assert(j == 0 || j == 1 || j == 2 || j == 3);
            } else {
                assert(j == 0 || j == 1 || j == 2 || j == 3 || j == 4 || j == 5);
            }
        }
        lemma_stores_none(setup, DMA_ADDR_ADDR);
        lemma_loads_none(setup, BUF_DATA_ADDR);
        lemma_stores_one(setup, XFER_CMD_ADDR, n - 1, trigger_word(cmd, session));
        lemma_stores_one(setup, ARGUMENT_ADDR, n - 2, cmd.argument);
        lemma_status_wait_confined(done, ERR_INT, CMD_CMPL, limit, completion_of(unit));
        lemma_confined_elsewhere(done, INT_STS_ADDR, XFER_CMD_ADDR);
        lemma_confined_elsewhere(done, INT_STS_ADDR, ARGUMENT_ADDR);
        lemma_confined_elsewhere(done, INT_STS_ADDR, DMA_ADDR_ADDR);
        lemma_confined_elsewhere(done, INT_STS_ADDR, BUF_DATA_ADDR);
        assert forall|j: int| 0 <= j < resp.len() implies !is_store_to(
            #[trigger] resp[j],
            XFER_CMD_ADDR,
        ) && !is_store_to(resp[j], ARGUMENT_ADDR) && !is_store_to(resp[j], DMA_ADDR_ADDR)
            && !is_load_from(resp[j], BUF_DATA_ADDR) by {
            assert(j == 0 || j == 1 || j == 2 || j == 3);
        }
        lemma_stores_none(resp, XFER_CMD_ADDR);
        lemma_stores_none(resp, ARGUMENT_ADDR);
        lemma_stores_none(resp, DMA_ADDR_ADDR);
        lemma_loads_none(resp, BUF_DATA_ADDR);
        lemma_stores_concat(ready, setup, XFER_CMD_ADDR);
        lemma_stores_concat(ready + setup, done, XFER_CMD_ADDR);
        lemma_stores_concat(ready + setup + done, resp, XFER_CMD_ADDR);
        lemma_stores_concat(ready, setup, ARGUMENT_ADDR);
        lemma_stores_concat(ready + setup, done, ARGUMENT_ADDR);
        lemma_stores_concat(ready + setup + done, resp, ARGUMENT_ADDR);
        lemma_stores_concat(ready, setup, DMA_ADDR_ADDR);
        lemma_stores_concat(ready + setup, done, DMA_ADDR_ADDR);
        lemma_stores_concat(ready + setup + done, resp, DMA_ADDR_ADDR);
        lemma_loads_concat(ready, setup, BUF_DATA_ADDR);
        lemma_loads_concat(ready + setup, done, BUF_DATA_ADDR);
        lemma_loads_concat(ready + setup + done, resp, BUF_DATA_ADDR);
        assert(stores_to(s, XFER_CMD_ADDR) =~= seq![trigger_word(cmd, session)]);
        assert(stores_to(s, ARGUMENT_ADDR) =~= seq![cmd.argument]);
        assert(stores_to(s, DMA_ADDR_ADDR) =~= Seq::<u32>::empty());
        assert(loads_from(s, BUF_DATA_ADDR) =~= Seq::<u32>::empty());
        let i = ready.len() - 1;
        assert forall|m: int| 0 <= m <= i implies s[m] == ready[m] by {}
        assert(ready_at(s, i));
        assert forall|j: int| 0 <= j <= i implies #[trigger] s[j] is Read by {
            assert(s[j] == ready[j]);
        }
    } else {
        assert(s == ready);
    }
}

/// No load of the present state in `s` shows an inhibit bit.
pub open spec fn never_inhibited(s: Seq<Access>) -> bool {
    forall|i: int|
        0 <= i < s.len() ==> (#[trigger] s[i] matches Access::Read { addr, value } ==> addr
            == PRESENT_STATE_ADDR ==> value & INHIBIT_MASK == 0)
}

/// A controller that is never seen inhibited takes every command: with at
/// least one poll allowed, no exchange ends as busy.
pub proof fn lemma_exchange_not_busy(
    s: Seq<Access>,
    cmd: Command,
    session: Option<TransferSession>,
    limit: u32,
    result: Result<Response, CmdError>,
)
    requires
        command_exchange(s, cmd, session, limit, result),
        never_inhibited(s),
        limit >= 1,
    ensures
        result != Err::<Response, CmdError>(CmdError::Busy),
{
    let (ready, setup, done) = choose|ready: Seq<Access>, setup: Seq<Access>, done: Seq<Access>|
        exchange_phases(s, ready, setup, done, cmd, session, limit, result);
    if result == Err::<Response, CmdError>(CmdError::Busy) {
        assert(ready[0] matches Access::Read { addr, value } && addr == PRESENT_STATE_ADDR && value
            & INHIBIT_MASK != 0);
        assert(s[0] == ready[0]);
    }
}

/// A command exchange pauses only for the time between two polls of the
/// status register.
pub proof fn lemma_exchange_pauses(
    s: Seq<Access>,
    cmd: Command,
    session: Option<TransferSession>,
    limit: u32,
    result: Result<Response, CmdError>,
    spins: u32,
)
    requires
        command_exchange(s, cmd, session, limit, result),
        spins != POLL_SPINS,
    ensures
        pauses(s, spins) == 0,
{
    let (ready, setup, done) = choose|ready: Seq<Access>, setup: Seq<Access>, done: Seq<Access>|
        exchange_phases(s, ready, setup, done, cmd, session, limit, result);
    assert forall|j: int| 0 <= j < ready.len() implies #[trigger] ready[j] != (Access::Delay {
        spins,
    }) by {
        assert(ready[j] matches Access::Read { addr, value } && addr == PRESENT_STATE_ADDR);
    }
    lemma_pauses_none(ready, spins);
    if result != Err::<Response, CmdError>(CmdError::Busy) {
        let unit: Result<(), CmdError> = match result {
            Ok(_) => Ok(()),
            Err(e) => Err(e),
        };
        let resp: Seq<Access> = match result {
            Ok(r) => response_reads(r),
            Err(_) => Seq::empty(),
        };
        assert(s =~= ready + setup + done + resp);
        let n = setup.len() as int;
        assert forall|j: int| 0 <= j < n implies #[trigger] setup[j] != (Access::Delay {
            spins,
        }) by {
            if session.is_some() {
                assert(j == 0 || j == 1 || j == 2 || j == 3);
            } else {
                assert(j == 0 || j == 1 || j == 2 || j == 3 || j == 4 || j == 5);
            }
        }
        lemma_pauses_none(setup, spins);
        lemma_status_wait_confined(done, ERR_INT, CMD_CMPL, limit, completion_of(unit));
        assert forall|j: int| 0 <= j < done.len() implies #[trigger] done[j] != (Access::Delay {
            spins,
        }) by {
            assert(done[j] is Delay ==> done[j] == (Access::Delay { spins: POLL_SPINS }));
        }
        lemma_pauses_none(done, spins);
        assert forall|j: int| 0 <= j < resp.len() implies #[trigger] resp[j] != (Access::Delay {
            spins,
        }) by {
            assert(j == 0 || j == 1 || j == 2 || j == 3);
        }
        lemma_pauses_none(resp, spins);
        lemma_pauses_concat(ready, setup, spins);
        lemma_pauses_concat(ready + setup, done, spins);
        lemma_pauses_concat(ready + setup + done, resp, spins);
    } else {
        assert(s == ready);
    }
}

/// Polls the status register until the command completes or fails, and
/// acknowledges the bit that ended the wait.
pub fn wait_for_cmd_done<B: Mmio>(port: &mut Port<B>, limit: u32) -> (result: Result<(), CmdError>)
    ensures
        final(port).extends(old(port).trace()),
        completion_wait(final(port).since(old(port).trace()), limit, result),
{
    match wait_status(port, ERR_INT, CMD_CMPL, limit) {
        Waited::First => Err(CmdError::IntError),
        Waited::Second => Ok(()),
        Waited::TimedOut => Err(CmdError::Timeout),
    }
}

/// Polls the present state until both inhibit bits are clear. Says whether
/// they cleared within `limit` loads.
pub fn wait_ready<B: Mmio>(port: &mut Port<B>, limit: u32) -> (ready: bool)
    ensures
        final(port).extends(old(port).trace()),
        ready_wait(final(port).since(old(port).trace()), limit, ready),
{
    let ghost t0 = port.trace();
    let mut polls: u32 = 0;
    proof {
        assert(port.trace().take(t0.len() as int) =~= t0);
    }
    while polls < limit
        invariant
            polls <= limit,
            t0 == old(port).trace(),
            port.extends(t0),
            port.since(t0).len() == polls,
            forall|i: int|
                0 <= i < port.since(t0).len() ==> (#[trigger] port.since(t0)[i] matches Access::Read {
                    addr,
                    value,
                } && addr == PRESENT_STATE_ADDR && value & INHIBIT_MASK != 0),
        decreases limit - polls,
    {
        let ghost t1 = port.trace();
        let value = port.read(PRESENT_STATE_ADDR);
        proof {
            lemma_chain(t0, t1, port.trace());
        }
        polls = polls + 1;
        if PresentState::new(value).can_issue() {
            return true;
        }
    }
    false
}

/// Sends one command to the card and waits for its outcome.
///
/// Waits until the controller accepts a command, programs the command,
/// waits for completion or error, acknowledges what it saw, and on
/// completion reads the response. With a session the block count and the
/// transfer mode are the session's; without one the block count is zero and
/// no data moves.
///
/// The command register is never written while an inhibit bit is seen set:
/// if the controller stays inhibited nothing is written at all, and
/// otherwise the one store to the command register, like every other store,
/// comes after the load that first showed both bits clear.
pub fn cmd_transfer<B: Mmio>(
    port: &mut Port<B>,
    cmd: u8,
    arg: u32,
    session: Option<TransferSession>,
    limit: u32,
) -> (result: Result<Response, CmdError>)
    requires
        cmd < 64,
    ensures
        final(port).extends(old(port).trace()),
        command_exchange(
            final(port).since(old(port).trace()),
            Command { index: cmd, argument: arg },
            session,
            limit,
            result,
        ),
        result == Err::<Response, CmdError>(CmdError::Busy) ==> forall|j: int|
            0 <= j < final(port).since(old(port).trace()).len() ==> #[trigger] final(port).since(
                old(port).trace(),
            )[j] is Read,
        result != Err::<Response, CmdError>(CmdError::Busy) ==> stores_to(
            final(port).since(old(port).trace()),
            XFER_CMD_ADDR,
        ) == seq![trigger_word(Command { index: cmd, argument: arg }, session)] && exists|i: int|
            #[trigger] ready_at(final(port).since(old(port).trace()), i) && forall|j: int|
                0 <= j <= i ==> #[trigger] final(port).since(old(port).trace())[j] is Read,
{
    let ghost t0 = port.trace();
    let result = issue(port, cmd, arg, session, limit);
    proof {
        lemma_exchange_effect(
            port.since(t0),
            Command { index: cmd, argument: arg },
            session,
            limit,
            result,
        );
    }
    result
}

/// Makes the exchange that `cmd_transfer` promises.
pub(crate) fn issue<B: Mmio>(
    port: &mut Port<B>,
    cmd: u8,
    arg: u32,
    session: Option<TransferSession>,
    limit: u32,
) -> (result: Result<Response, CmdError>)
    requires
        cmd < 64,
    ensures
        final(port).extends(old(port).trace()),
        command_exchange(
            final(port).since(old(port).trace()),
            Command { index: cmd, argument: arg },
            session,
            limit,
            result,
        ),
{
    let ghost t0 = port.trace();
    let command = Command { index: cmd, argument: arg };
    let ready = wait_ready(port, limit);
    let ghost t1 = port.trace();
    let ghost a = port.since(t0);
    if !ready {
        proof {
            assert(exchange_phases(
                a,
                a,
                Seq::empty(),
                Seq::empty(),
                command,
                session,
                limit,
                Err(CmdError::Busy),
            ));
        }
        return Err(CmdError::Busy);
    }
    let word = command.encode();
    let word = match session {
        Some(ts) => word | ts.transfer_mode(),
        None => {
            mmio_clrsetbits_32(port, BLK_SIZE_CNT_ADDR, BLK_CNT_MASK, 0);
            word
        },
    };
    let ghost t1a = port.trace();
    mmio_clrsetbits_32(port, CLK_CTL_ADDR, TOUT_CNT_MASK, TOUT_CNT_VALUE);
    let ghost t1b = port.trace();
    port.write(ARGUMENT_ADDR, arg);
    let ghost t1c = port.trace();
    port.write(XFER_CMD_ADDR, word);
    let ghost t2 = port.trace();
    let ghost b = port.since(t1);
    proof {
        if session.is_some() {
            assert(t1a.take(t1.len() as int) =~= t1);
        }
        lemma_chain(t1, t1a, t1b);
        lemma_chain(t1, t1b, t1c);
        lemma_chain(t1, t1c, t2);
        assert(command_setup(b, command, session));
    }
    proof {
        lemma_join(t0, t1, t2);
    }
    let done = wait_for_cmd_done(port, limit);
    let ghost t3 = port.trace();
    let ghost c = port.since(t2);
    proof {
        lemma_join(t0, t2, t3);
    }
    match done {
        Err(e) => {
            proof {
                assert(port.since(t0) =~= a + b + c);
                assert(exchange_phases(port.since(t0), a, b, c, command, session, limit, Err(e)));
            }
            Err(e)
        },
        Ok(_) => {
            let resp1_0 = port.read(RESP1_0_ADDR);
            let ghost ta = port.trace();
            let resp3_2 = port.read(RESP3_2_ADDR);
            let ghost tb = port.trace();
            let resp5_4 = port.read(RESP5_4_ADDR);
            let ghost tc = port.trace();
            let resp7_6 = port.read(RESP7_6_ADDR);
            let r = Response { resp1_0, resp3_2, resp5_4, resp7_6 };
            proof {
                let t4 = port.trace();
                assert(t4.take(t3.len() as int) == t3 && t4.skip(t3.len() as int)
                    =~= response_reads(r)) by {
                    lemma_chain(t3, ta, tb);
                    lemma_chain(t3, tb, tc);
                    lemma_chain(t3, tc, t4);
                }
                lemma_join(t0, t3, t4);
                assert(port.since(t0) =~= a + b + c + response_reads(r));
                assert(exchange_phases(port.since(t0), a, b, c, command, session, limit, Ok(r)));
            }
            Ok(r)
        },
    }
}

} // verus!
