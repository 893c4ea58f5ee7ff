use byteos::bringup::{
    check_sd, configure, get_sd_caps, identify, init, negotiate, negotiate_retry, BringUpError,
    CardState, Negotiation, Policy, SdCaps,
};
use byteos::bus::{Access, Mmio, Port};
use byteos::command::{cmd_transfer, wait_for_cmd_done, wait_ready, CmdError, Response};
use byteos::power::{
    enable_clock, pad_settings, power_config, reset_config, ClockError, PowerError, PowerLevel,
};
use byteos::regs::{
    mmio_clearbits_32, mmio_clrsetbits_32, mmio_read_32, mmio_setbits_32, mmio_write_32,
    read_field, write_field, Field,
};
use byteos::session::TransferSession;
use byteos::status::{wait_status, Waited};
use byteos::transfer::{dma_read, read, read_block_data, wait_dma, DmaWaited, TransferError};
use std::collections::HashMap;

const BASE: usize = 0x0431_0000;
const DMA_ADDR: usize = BASE;
const BLK: usize = BASE + 0x04;
const ARG: usize = BASE + 0x08;
const CMD: usize = BASE + 0x0C;
const RESP0: usize = BASE + 0x10;
const RESP1: usize = BASE + 0x14;
const RESP2: usize = BASE + 0x18;
const RESP3: usize = BASE + 0x1C;
const DATA: usize = BASE + 0x20;
const PRESENT: usize = BASE + 0x24;
const HOST: usize = BASE + 0x28;
const CLK: usize = BASE + 0x2C;
const STS: usize = BASE + 0x30;
const CAP1: usize = BASE + 0x40;
const CAP2: usize = BASE + 0x44;
const PWRSW: usize = 0x0300_01F4;

const CMD_CMPL: u32 = 0x1;
const XFER_CMPL: u32 = 0x2;
const DMA_INT: u32 = 0x8;
const BUF_RRDY: u32 = 0x20;
const ERR_INT: u32 = 0x8000;

/// A simulated controller with a card behind it.
struct SimHost {
    log: Vec<Access>,
    regs: HashMap<usize, u32>,
    card_inserted: bool,
    /// Loads of the present state that still show an inhibit bit.
    busy_left: u32,
    /// The inhibit bits shown while busy.
    busy_bits: u32,
    status: u32,
    /// Loads of the status register a command takes to complete.
    cmd_delay: u32,
    pending: Option<(u8, u32)>,
    /// Commands that end in the error interrupt.
    failing: Vec<u8>,
    /// What the card answers to command 41, in turn; the last one repeats.
    op_cond: Vec<u32>,
    op_cond_pos: usize,
    rca: u32,
    data: Vec<u32>,
    data_pos: usize,
    /// The data phase ends in the error interrupt before this word.
    data_error_at: Option<usize>,
    /// Loads of the status register a DMA transfer takes to complete.
    dma_delay: Option<u32>,
    dma_left: Option<u32>,
    /// Raise the DMA interrupt on the first look at a running DMA transfer.
    dma_boundary: bool,
    /// Loads of the clock register until the oscillator is stable.
    clk_left: Option<u32>,
}

impl SimHost {
    fn new() -> SimHost {
        SimHost {
            log: Vec::new(),
            regs: HashMap::new(),
            card_inserted: true,
            busy_left: 0,
            busy_bits: 0x2,
            status: 0,
            cmd_delay: 0,
            pending: None,
            failing: Vec::new(),
            op_cond: vec![0x80FF_8000],
            op_cond_pos: 0,
            rca: 0xAAAA_0000,
            data: Vec::new(),
            data_pos: 0,
            data_error_at: None,
            dma_delay: None,
            dma_left: None,
            dma_boundary: false,
            clk_left: Some(0),
        }
    }

    fn reg(&self, addr: usize) -> u32 {
        *self.regs.get(&addr).unwrap_or(&0)
    }

    fn complete(&mut self, cmd: u8) {
        if self.failing.contains(&cmd) {
            self.status |= ERR_INT;
            return;
        }
        self.status |= CMD_CMPL;
        let r0 = match cmd {
            41 => {
                let i = self.op_cond_pos.min(self.op_cond.len() - 1);
                self.op_cond_pos += 1;
                self.op_cond[i]
            }
            3 => self.rca | 0x0500,
            _ => 0x0000_0900 + cmd as u32,
        };
        self.regs.insert(RESP0, r0);
        self.regs.insert(RESP1, 0x1111_0000 + cmd as u32);
        self.regs.insert(RESP2, 0x2222_0000 + cmd as u32);
        self.regs.insert(RESP3, 0x3333_0000 + cmd as u32);
        if cmd == 17 {
            if self.reg(CMD) & 1 != 0 {
                self.dma_left = self.dma_delay;
            } else {
                self.data_pos = 0;
                self.offer_data();
            }
        }
    }

    fn offer_data(&mut self) {
        if self.data_error_at == Some(self.data_pos) {
            self.status |= ERR_INT;
        } else if self.data_pos < self.data.len() {
            self.status |= BUF_RRDY;
        } else {
            self.status |= XFER_CMPL;
        }
    }

    fn writes(&self) -> Vec<(usize, u32)> {
        let mut out = Vec::new();
        for a in &self.log {
            if let Access::Write { addr, value } = a {
                out.push((*addr, *value));
            }
        }
        out
    }

    fn writes_to(&self, target: usize) -> Vec<u32> {
        self.writes().into_iter().filter(|w| w.0 == target).map(|w| w.1).collect()
    }

    fn reads_of(&self, target: usize) -> Vec<u32> {
        let mut out = Vec::new();
        for a in &self.log {
            if let Access::Read { addr, value } = a {
                if *addr == target {
                    out.push(*value);
                }
            }
        }
        out
    }

    fn commands(&self) -> Vec<u8> {
        self.writes_to(CMD).into_iter().map(|w| ((w >> 24) & 0x3F) as u8).collect()
    }
}

impl Mmio for SimHost {
    fn read32(&mut self, addr: usize) -> u32 {
        let value = if addr == PRESENT {
            let inserted = if self.card_inserted { 0x0001_0000 } else { 0 };
            if self.busy_left > 0 {
                self.busy_left -= 1;
                inserted | self.busy_bits
            } else {
                inserted
            }
        } else if addr == STS {
            if let Some((cmd, left)) = self.pending {
                if left == 0 {
                    self.pending = None;
                    self.complete(cmd);
                } else {
                    self.pending = Some((cmd, left - 1));
                }
            } else if let Some(left) = self.dma_left {
                if self.dma_boundary {
                    self.dma_boundary = false;
                    self.status |= DMA_INT;
                } else if left == 0 {
                    self.dma_left = None;
                    self.status |= XFER_CMPL;
                } else {
                    self.dma_left = Some(left - 1);
                }
            }
            self.status
        } else if addr == DATA {
            let word = self.data[self.data_pos];
            self.data_pos += 1;
            self.offer_data();
            word
        } else if addr == CLK {
            let mut v = self.reg(CLK);
            if v & 1 != 0 {
                match self.clk_left {
                    Some(0) => v |= 0x2,
                    Some(n) => self.clk_left = Some(n - 1),
                    None => {}
                }
            }
            v
        } else {
            self.reg(addr)
        };
        self.log.push(Access::Read { addr, value });
        value
    }

    fn write32(&mut self, addr: usize, value: u32) {
        self.log.push(Access::Write { addr, value });
        if addr == STS {
            self.status &= !value;
        } else {
            self.regs.insert(addr, value);
            if addr == CMD {
                self.pending = Some((((value >> 24) & 0x3F) as u8, self.cmd_delay));
            }
        }
    }

    fn delay(&mut self, spins: u32) {
        self.log.push(Access::Delay { spins });
    }
}

fn rd(addr: usize, value: u32) -> Access {
    Access::Read { addr, value }
}

fn wr(addr: usize, value: u32) -> Access {
    Access::Write { addr, value }
}

fn pause(spins: u32) -> Access {
    Access::Delay { spins }
}

// ---- register accessors ----

#[test]
fn mmio_helpers_make_the_accesses_they_name() {
    let mut host = SimHost::new();
    host.regs.insert(0x100, 0x0000_00FF);
    let mut port = Port::new(host);
    assert_eq!(mmio_read_32(&mut port, 0x100), 0xFF);
    mmio_write_32(&mut port, 0x104, 7);
    mmio_clrsetbits_32(&mut port, 0x100, 0x0F, 0x100);
    mmio_clearbits_32(&mut port, 0x100, 0xF0);
    mmio_setbits_32(&mut port, 0x100, 0x3);
    let host = port.into_inner();
    assert_eq!(
        host.log,
        vec![
            rd(0x100, 0xFF),
            wr(0x104, 7),
            rd(0x100, 0xFF),
            wr(0x100, 0x1F0),
            rd(0x100, 0x1F0),
            wr(0x100, 0x100),
            rd(0x100, 0x100),
            wr(0x100, 0x103),
        ]
    );
}

#[test]
fn field_accessors_read_modify_write() {
    let mut host = SimHost::new();
    host.regs.insert(BLK, 0x0003_7200);
    let mut port = Port::new(host);
    let size = Field { shift: 0, width: 12 };
    let count = Field { shift: 16, width: 16 };
    assert_eq!(read_field(&mut port, BLK, size), 0x200);
    assert_eq!(read_field(&mut port, BLK, count), 3);
    write_field(&mut port, BLK, count, 1);
    write_field(&mut port, BLK, size, 0x1400);
    let host = port.into_inner();
    assert_eq!(
        host.log,
        vec![
            rd(BLK, 0x0003_7200),
            rd(BLK, 0x0003_7200),
            rd(BLK, 0x0003_7200),
            wr(BLK, 0x0001_7200),
            rd(BLK, 0x0001_7200),
            wr(BLK, 0x0001_7400),
        ]
    );
}

// ---- status waits ----

#[test]
fn wait_status_acknowledges_only_the_bit_it_found() {
    let mut host = SimHost::new();
    host.status = BUF_RRDY | CMD_CMPL | XFER_CMPL;
    let mut port = Port::new(host);
    assert_eq!(wait_status(&mut port, XFER_CMPL, ERR_INT, 5), Waited::First);
    let host = port.into_inner();
    assert_eq!(host.log, vec![rd(STS, 0x23), wr(STS, XFER_CMPL)]);
    assert_eq!(host.status, BUF_RRDY | CMD_CMPL);
}

#[test]
fn wait_status_looks_for_the_first_bit_first() {
    let mut host = SimHost::new();
    host.status = BUF_RRDY | ERR_INT;
    let mut port = Port::new(host);
    assert_eq!(wait_status(&mut port, BUF_RRDY, ERR_INT, 5), Waited::First);
    assert_eq!(wait_status(&mut port, BUF_RRDY, ERR_INT, 5), Waited::Second);
    let host = port.into_inner();
    assert_eq!(
        host.log,
        vec![rd(STS, 0x8020), wr(STS, BUF_RRDY), rd(STS, 0x8000), wr(STS, ERR_INT)]
    );
    assert_eq!(host.status, 0);
}

#[test]
fn wait_status_times_out_after_limit_polls() {
    let mut port = Port::new(SimHost::new());
    assert_eq!(wait_status(&mut port, CMD_CMPL, ERR_INT, 3), Waited::TimedOut);
    assert_eq!(wait_status(&mut port, CMD_CMPL, ERR_INT, 0), Waited::TimedOut);
    let host = port.into_inner();
    assert_eq!(
        host.log,
        vec![rd(STS, 0), pause(1000), rd(STS, 0), pause(1000), rd(STS, 0), pause(1000)]
    );
}

#[test]
fn wait_for_cmd_done_error_wins_over_completion() {
    let mut host = SimHost::new();
    host.status = CMD_CMPL | ERR_INT;
    let mut port = Port::new(host);
    assert_eq!(wait_for_cmd_done(&mut port, 4), Err(CmdError::IntError));
    assert_eq!(wait_for_cmd_done(&mut port, 4), Ok(()));
    assert_eq!(wait_for_cmd_done(&mut port, 2), Err(CmdError::Timeout));
    let host = port.into_inner();
    assert_eq!(
        host.log,
        vec![
            rd(STS, 0x8001),
            wr(STS, ERR_INT),
            rd(STS, 0x0001),
            wr(STS, CMD_CMPL),
            rd(STS, 0),
            pause(1000),
            rd(STS, 0),
            pause(1000),
        ]
    );
}

// ---- command engine ----

#[test]
fn cmd_transfer_exact_accesses() {
    let mut host = SimHost::new();
    host.regs.insert(BLK, 0x0005_0200);
    host.regs.insert(CLK, 0x0003_0404);
    host.cmd_delay = 1;
    let mut port = Port::new(host);
    let r = cmd_transfer(&mut port, 8, 0x1AA, None, 10);
    assert_eq!(
        r,
        Ok(Response {
            resp1_0: 0x0000_0908,
            resp3_2: 0x1111_0008,
            resp5_4: 0x2222_0008,
            resp7_6: 0x3333_0008,
        })
    );
    let host = port.into_inner();
    assert_eq!(
        host.log,
        vec![
            rd(PRESENT, 0x0001_0000),
            rd(BLK, 0x0005_0200),
            wr(BLK, 0x0000_0200),
            rd(CLK, 0x0003_0404),
            wr(CLK, 0x000E_0404),
            wr(ARG, 0x1AA),
            wr(CMD, 0x081A_0000),
            rd(STS, 0),
            pause(1000),
            rd(STS, CMD_CMPL),
            wr(STS, CMD_CMPL),
            rd(RESP0, 0x0000_0908),
            rd(RESP1, 0x1111_0008),
            rd(RESP2, 0x2222_0008),
            rd(RESP3, 0x3333_0008),
        ]
    );
}

#[test]
fn cmd_transfer_waits_exactly_until_inhibit_clears() {
    let mut host = SimHost::new();
    host.busy_left = 3;
    let mut port = Port::new(host);
    assert!(cmd_transfer(&mut port, 0, 0, None, 10).is_ok());
    let host = port.into_inner();
    assert_eq!(host.reads_of(PRESENT), vec![0x0001_0002, 0x0001_0002, 0x0001_0002, 0x0001_0000]);
    for a in &host.log[0..4] {
        assert!(matches!(a, Access::Read { addr: PRESENT, .. }));
    }
    assert_eq!(host.writes_to(CMD), vec![0]);
    let at = host.log.iter().position(|a| matches!(a, Access::Write { addr: CMD, .. }));
    assert_eq!(at, Some(9));
    assert_eq!(host.log[8], wr(ARG, 0));
}

#[test]
fn cmd_transfer_waits_for_the_command_line_too() {
    for bits in [0x1u32, 0x2, 0x3] {
        let mut host = SimHost::new();
        host.busy_left = 2;
        host.busy_bits = bits;
        let mut port = Port::new(host);
        assert!(cmd_transfer(&mut port, 0, 0, None, 10).is_ok());
        let host = port.into_inner();
        assert_eq!(
            host.reads_of(PRESENT),
            vec![0x0001_0000 | bits, 0x0001_0000 | bits, 0x0001_0000]
        );
        let at = host.log.iter().position(|a| matches!(a, Access::Write { .. }));
        assert_eq!(at, Some(4));
    }
}

#[test]
fn cmd_transfer_gives_up_while_inhibited_without_writing() {
    let mut host = SimHost::new();
    host.busy_left = 3;
    let mut port = Port::new(host);
    assert_eq!(cmd_transfer(&mut port, 0, 0, None, 3), Err(CmdError::Busy));
    let host = port.into_inner();
    assert_eq!(host.log.len(), 3);
    assert!(host.writes().is_empty());
}

#[test]
fn cmd_transfer_with_zero_budget_is_busy() {
    let mut port = Port::new(SimHost::new());
    assert_eq!(cmd_transfer(&mut port, 0, 0, None, 0), Err(CmdError::Busy));
    assert!(port.into_inner().log.is_empty());
}

#[test]
fn cmd_transfer_reports_the_error_interrupt() {
    let mut host = SimHost::new();
    host.failing = vec![8];
    let mut port = Port::new(host);
    assert_eq!(cmd_transfer(&mut port, 8, 0x1AA, None, 5), Err(CmdError::IntError));
    let host = port.into_inner();
    assert_eq!(host.status, 0);
    assert_eq!(host.log[host.log.len() - 2..], [rd(STS, ERR_INT), wr(STS, ERR_INT)]);
    assert!(host.reads_of(RESP0).is_empty());
}

#[test]
fn cmd_transfer_times_out_after_the_command_is_written() {
    let mut host = SimHost::new();
    host.cmd_delay = 100;
    let mut port = Port::new(host);
    assert_eq!(cmd_transfer(&mut port, 9, 0x1234_0000, None, 4), Err(CmdError::Timeout));
    let host = port.into_inner();
    assert_eq!(host.writes_to(CMD), vec![0x0909_0000]);
    assert_eq!(host.writes_to(ARG), vec![0x1234_0000]);
    assert_eq!(host.reads_of(STS).len(), 4);
    assert!(host.writes_to(STS).is_empty());
}

#[test]
fn cmd_transfer_with_a_session_keeps_the_block_count() {
    let mut host = SimHost::new();
    host.regs.insert(BLK, 0x0001_0200);
    host.data = vec![0; 1];
    let mut port = Port::new(host);
    let session = TransferSession::single_block_read();
    assert!(cmd_transfer(&mut port, 17, 5, Some(session), 5).is_ok());
    let host = port.into_inner();
    assert!(host.writes_to(BLK).is_empty());
    assert_eq!(host.writes_to(CMD), vec![0x113A_0010]);
    assert_eq!(host.writes_to(ARG), vec![5]);
}

#[test]
fn wait_ready_counts_loads() {
    let mut host = SimHost::new();
    host.busy_left = 2;
    let mut port = Port::new(host);
    assert!(!wait_ready(&mut port, 2));
    assert!(wait_ready(&mut port, 1));
    assert_eq!(port.into_inner().log.len(), 3);
}

// ---- pads, power, clock ----

#[test]
fn pad_settings_operating_values() {
    let mut host = SimHost::new();
    host.regs.insert(0x0300_1904, 0xFFFF_FFFF);
    let mut port = Port::new(host);
    pad_settings(&mut port, false);
    let host = port.into_inner();
    assert_eq!(
        host.log,
        vec![
            wr(PWRSW, 0x9),
            wr(0x0300_1034, 0),
            wr(0x0300_1038, 0),
            wr(0x0300_101C, 0),
            wr(0x0300_1020, 0),
            wr(0x0300_1024, 0),
            wr(0x0300_1028, 0),
            wr(0x0300_102C, 0),
            wr(0x0300_1030, 0),
            rd(0x0300_1904, 0xFFFF_FFFF),
            wr(0x0300_1904, 0xFFFF_FFFB),
            rd(0x0300_1900, 0),
            wr(0x0300_1900, 0x4),
            rd(0x0300_1A00, 0),
            wr(0x0300_1A00, 0x8),
            rd(0x0300_1A04, 0),
            wr(0x0300_1A04, 0x4),
            rd(0x0300_1A0C, 0),
            wr(0x0300_1A0C, 0x4),
            rd(0x0300_1A08, 0),
            wr(0x0300_1A08, 0x4),
            rd(0x0300_1A10, 0),
            wr(0x0300_1A10, 0x4),
            rd(0x0300_1A14, 0),
            wr(0x0300_1A14, 0x4),
        ]
    );
}

#[test]
fn pad_settings_reset_values() {
    let mut port = Port::new(SimHost::new());
    pad_settings(&mut port, true);
    let host = port.into_inner();
    let w = host.writes();
    assert_eq!(w.len(), 17);
    assert_eq!(w[0], (PWRSW, 0x9));
    assert_eq!(w[1], (0x0300_1034, 0));
    assert_eq!(w[2], (0x0300_1038, 0));
    for i in 3..9 {
        assert_eq!(w[i].1, 3);
    }
    assert_eq!(
        w[9..],
        [
            (0x0300_1904, 0x8),
            (0x0300_1900, 0x4),
            (0x0300_1A00, 0x8),
            (0x0300_1A04, 0x8),
            (0x0300_1A0C, 0x8),
            (0x0300_1A08, 0x8),
            (0x0300_1A10, 0x8),
            (0x0300_1A14, 0x8),
        ]
    );
}

#[test]
fn power_config_patterns() {
    let mut host = SimHost::new();
    host.regs.insert(HOST, 0x00AB_5506);
    let mut port = Port::new(host);
    assert_eq!(power_config(&mut port, PowerLevel::V33), Ok(()));
    assert_eq!(power_config(&mut port, PowerLevel::V30), Ok(()));
    assert_eq!(power_config(&mut port, PowerLevel::Close), Ok(()));
    let host = port.into_inner();
    assert_eq!(
        host.log,
        vec![
            rd(HOST, 0x00AB_5506),
            wr(HOST, 0x00AB_0F06),
            wr(PWRSW, 0x9),
            pause(0x100_0000),
            rd(HOST, 0x00AB_0F06),
            wr(HOST, 0x00AB_0D06),
            wr(PWRSW, 0x9),
            pause(0x100_0000),
            rd(HOST, 0x00AB_0D06),
            wr(HOST, 0x00AB_0006),
            wr(PWRSW, 0x9),
            pause(0x100_0000),
        ]
    );
}

#[test]
fn power_config_refuses_one_point_eight_volts() {
    let mut port = Port::new(SimHost::new());
    assert_eq!(power_config(&mut port, PowerLevel::V18), Err(PowerError::VoltageSwitchRequired));
    assert!(port.into_inner().log.is_empty());
}

#[test]
fn reset_config_sequence() {
    let mut host = SimHost::new();
    host.regs.insert(CLK, 0x070E_0007);
    let mut port = Port::new(host);
    reset_config(&mut port);
    let host = port.into_inner();
    assert_eq!(
        host.log,
        vec![
            rd(HOST, 0),
            wr(HOST, 0),
            wr(PWRSW, 0x9),
            pause(0x100_0000),
            rd(CLK, 0x070E_0007),
            wr(CLK, 0x000E_0007),
            pause(0x100_0000),
            rd(HOST, 0),
            wr(HOST, 0x0F00),
            wr(PWRSW, 0x9),
            pause(0x100_0000),
            rd(HOST, 0x0F00),
            wr(HOST, 0x0F06),
            rd(HOST, 0x0F06),
            wr(HOST, 0x0F0E),
        ]
    );
}

#[test]
fn enable_clock_waits_for_the_oscillator() {
    let mut host = SimHost::new();
    host.regs.insert(CLK, 0x000E_8004);
    host.clk_left = Some(2);
    let mut port = Port::new(host);
    assert_eq!(enable_clock(&mut port, 4, 10), Ok(()));
    let host = port.into_inner();
    assert_eq!(
        host.log,
        vec![
            rd(CLK, 0x000E_8004),
            wr(CLK, 0x000E_8000),
            rd(CLK, 0x000E_8000),
            wr(CLK, 0x000E_0400),
            rd(CLK, 0x000E_0400),
            wr(CLK, 0x000E_0401),
            rd(CLK, 0x000E_0401),
            pause(0x100_0000),
            rd(CLK, 0x000E_0401),
            pause(0x100_0000),
            rd(CLK, 0x000E_0403),
            rd(CLK, 0x000E_0403),
            wr(CLK, 0x000E_0407),
            pause(0x100_0000),
        ]
    );
}

#[test]
fn enable_clock_gives_up_on_a_dead_oscillator() {
    let mut host = SimHost::new();
    host.clk_left = None;
    let mut port = Port::new(host);
    assert_eq!(enable_clock(&mut port, 4, 3), Err(ClockError::Unstable));
    let host = port.into_inner();
    assert_eq!(host.log.len(), 12);
    assert_eq!(host.writes_to(CLK), vec![0, 0x400, 0x401]);
    assert_eq!(host.reg(CLK) & 0x4, 0);
}

// ---- data transfer ----

fn pattern() -> Vec<u8> {
    (0..512u32).map(|i| ((i * 7 + 3) % 256) as u8).collect()
}

fn words_of(bytes: &[u8]) -> Vec<u32> {
    bytes.chunks(4).map(|c| u32::from_le_bytes([c[0], c[1], c[2], c[3]])).collect()
}

#[test]
fn pio_read_round_trip() {
    let bytes = pattern();
    let mut host = SimHost::new();
    host.data = words_of(&bytes);
    let mut port = Port::new(host);
    let mut buffer = vec![0xEEu8; 3];
    assert_eq!(read(&mut port, 9, &mut buffer, 10), Ok(()));
    assert_eq!(buffer, bytes);
    let host = port.into_inner();
    assert_eq!(host.log[0], wr(BLK, 0x0001_0200));
    assert_eq!(host.writes_to(BLK), vec![0x0001_0200]);
    assert_eq!(host.writes_to(ARG), vec![9]);
    assert_eq!(host.writes_to(CMD), vec![0x113A_0010]);
    assert_eq!(host.reads_of(DATA), words_of(&bytes));
    let acks = host.writes_to(STS);
    assert_eq!(acks.len(), 130);
    assert_eq!(acks[0], CMD_CMPL);
    for i in 1..129 {
        assert_eq!(acks[i], BUF_RRDY);
    }
    assert_eq!(acks[129], XFER_CMPL);
    assert_eq!(host.status, 0);
}

#[test]
fn pio_read_byte_order_within_a_word() {
    let mut host = SimHost::new();
    host.data = vec![0x4433_2211; 128];
    host.data[127] = 0xDDCC_BBAA;
    let mut port = Port::new(host);
    let mut buffer = Vec::new();
    assert_eq!(read(&mut port, 0, &mut buffer, 10), Ok(()));
    assert_eq!(buffer.len(), 512);
    assert_eq!(buffer[0..4], [0x11, 0x22, 0x33, 0x44]);
    assert_eq!(buffer[508..512], [0xAA, 0xBB, 0xCC, 0xDD]);
}

#[test]
fn pio_read_aborts_on_a_data_error() {
    let mut host = SimHost::new();
    host.data = vec![0x0101_0101; 128];
    host.data_error_at = Some(5);
    let mut port = Port::new(host);
    let mut buffer = Vec::new();
    assert_eq!(read(&mut port, 0, &mut buffer, 10), Err(TransferError::DataError));
    let host = port.into_inner();
    assert_eq!(host.reads_of(DATA).len(), 5);
    assert_eq!(host.log[host.log.len() - 1], wr(STS, ERR_INT));
    assert_eq!(host.status, 0);
}

#[test]
fn pio_read_reports_a_failed_command() {
    let mut host = SimHost::new();
    host.failing = vec![17];
    let mut port = Port::new(host);
    let mut buffer = Vec::new();
    assert_eq!(
        read(&mut port, 0, &mut buffer, 10),
        Err(TransferError::Command(CmdError::IntError))
    );
    assert!(port.into_inner().reads_of(DATA).is_empty());
}

#[test]
fn pio_read_reports_a_busy_controller() {
    let mut host = SimHost::new();
    host.busy_left = 50;
    let mut port = Port::new(host);
    let mut buffer = Vec::new();
    assert_eq!(read(&mut port, 0, &mut buffer, 10), Err(TransferError::Command(CmdError::Busy)));
    let host = port.into_inner();
    assert_eq!(host.writes(), vec![(BLK, 0x0001_0200)]);
}

#[test]
fn pio_read_times_out_when_no_data_comes() {
    let mut host = SimHost::new();
    host.data = vec![1, 2];
    host.data_error_at = None;
    let mut port = Port::new(host);
    let mut buffer = Vec::new();
    // after two words the card signals the end, which the third wait never sees as ready
    assert_eq!(read(&mut port, 0, &mut buffer, 4), Err(TransferError::Timeout));
    assert_eq!(port.into_inner().reads_of(DATA), vec![1, 2]);
}

#[test]
fn read_block_data_error_at_the_end_of_transfer() {
    let mut host = SimHost::new();
    host.data = vec![7; 128];
    host.data_error_at = Some(128);
    host.status = BUF_RRDY;
    let mut port = Port::new(host);
    let mut buffer = Vec::new();
    assert_eq!(read_block_data(&mut port, &mut buffer, 3), Err(TransferError::DataError));
    assert_eq!(port.into_inner().reads_of(DATA).len(), 128);
}

#[test]
fn dma_read_programs_the_address_once_and_waits_for_completion() {
    let mut host = SimHost::new();
    host.dma_delay = Some(3);
    let mut port = Port::new(host);
    assert_eq!(dma_read(&mut port, 0x8020_0000, 7, 10), Ok(()));
    let host = port.into_inner();
    assert_eq!(host.log[0], wr(DMA_ADDR, 0x8020_0000));
    assert_eq!(host.log[1], wr(BLK, 0x0001_0200));
    assert_eq!(host.writes_to(DMA_ADDR), vec![0x8020_0000]);
    assert_eq!(host.writes_to(CMD), vec![0x113A_0013]);
    assert_eq!(host.writes_to(ARG), vec![7]);
    assert_eq!(host.writes_to(STS), vec![CMD_CMPL, XFER_CMPL | DMA_INT]);
    let n = host.log.len();
    assert_eq!(host.log[n - 2], rd(STS, XFER_CMPL));
    assert_eq!(host.log[n - 1], wr(STS, 0xA));
    // one load completed the command, three found the transfer going, one found it done
    assert_eq!(host.reads_of(STS).len(), 5);
    assert!(host.reads_of(DATA).is_empty());
}

#[test]
fn dma_read_acknowledges_a_boundary_interrupt_and_goes_on() {
    let mut host = SimHost::new();
    host.dma_delay = Some(1);
    host.dma_boundary = true;
    let mut port = Port::new(host);
    assert_eq!(dma_read(&mut port, 0x1000, 0, 10), Ok(()));
    let host = port.into_inner();
    assert_eq!(host.writes_to(STS), vec![CMD_CMPL, DMA_INT, XFER_CMPL | DMA_INT]);
    assert_eq!(host.writes_to(DMA_ADDR), vec![0x1000]);
}

#[test]
fn dma_read_times_out_without_completion() {
    let mut host = SimHost::new();
    host.dma_delay = Some(100);
    let mut port = Port::new(host);
    assert_eq!(dma_read(&mut port, 0x1000, 0, 4), Err(TransferError::Timeout));
}

#[test]
fn wait_dma_outcomes() {
    let mut host = SimHost::new();
    host.status = ERR_INT | DMA_INT;
    let mut port = Port::new(host);
    assert_eq!(wait_dma(&mut port, 4), DmaWaited::Failed);
    assert_eq!(wait_dma(&mut port, 4), DmaWaited::TimedOut);
    let host = port.into_inner();
    assert_eq!(
        host.log,
        vec![
            rd(STS, 0x8008),
            wr(STS, ERR_INT),
            rd(STS, 0x0008),
            wr(STS, DMA_INT),
            rd(STS, 0),
            pause(1000),
            rd(STS, 0),
            pause(1000),
            rd(STS, 0),
            pause(1000),
        ]
    );
}

#[test]
fn wait_dma_completion_wins_over_error() {
    let mut host = SimHost::new();
    host.status = ERR_INT | XFER_CMPL;
    let mut port = Port::new(host);
    assert_eq!(wait_dma(&mut port, 4), DmaWaited::Complete);
    assert_eq!(port.into_inner().status, ERR_INT);
}

// ---- bring-up ----

fn policy() -> Policy {
    Policy { poll_limit: 10, retry_limit: 8 }
}

#[test]
fn check_sd_reads_the_inserted_bit() {
    let mut port = Port::new(SimHost::new());
    assert!(check_sd(&mut port));
    let mut host = port.into_inner();
    host.card_inserted = false;
    let mut port = Port::new(host);
    assert!(!check_sd(&mut port));
    assert_eq!(port.into_inner().log, vec![rd(PRESENT, 0x0001_0000), rd(PRESENT, 0)]);
}

#[test]
fn get_sd_caps_reads_three_registers() {
    let mut host = SimHost::new();
    host.regs.insert(CAP1, 0x3F68_C832);
    host.regs.insert(CAP2, 0x0800_6077);
    host.regs.insert(HOST, 0x0000_0F06);
    let mut port = Port::new(host);
    let caps = get_sd_caps(&mut port);
    assert_eq!(
        caps,
        SdCaps { capabilities1: 0x3F68_C832, capabilities2: 0x0800_6077, host_control: 0x0F06 }
    );
    assert_eq!(caps.max_block_size(), 512);
    assert_eq!(
        port.into_inner().log,
        vec![rd(CAP1, 0x3F68_C832), rd(CAP2, 0x0800_6077), rd(HOST, 0x0F06)]
    );
}

#[test]
fn absent_card_stops_the_bring_up_without_a_write() {
    let mut host = SimHost::new();
    host.card_inserted = false;
    let mut port = Port::new(host);
    let out = init(&mut port, policy());
    assert_eq!(out.state, CardState::Absent);
    assert_eq!(out.error, Some(BringUpError::CardAbsent));
    assert_eq!(out.failures, 0);
    assert_eq!(out.caps, None);
    assert_eq!(out.identity, None);
    let host = port.into_inner();
    assert_eq!(host.log, vec![rd(PRESENT, 0)]);
    assert!(host.writes().is_empty());
}

#[test]
fn retry_loop_issues_one_pair_per_answer() {
    let mut host = SimHost::new();
    host.op_cond = vec![0x00FF_8000, 0x00FF_8000, 0x00FF_8000, 0x80FF_8000];
    let mut port = Port::new(host);
    let out = init(&mut port, policy());
    assert_eq!(out.state, CardState::Ready);
    assert_eq!(out.error, None);
    assert_eq!(out.ocr, 0x80FF_8000);
    assert_eq!(out.failures, 0);
    let host = port.into_inner();
    assert_eq!(
        host.commands(),
        vec![0, 8, 55, 41, 55, 41, 55, 41, 55, 41, 2, 3, 9, 7, 55, 51]
    );
    let pauses = host.log.iter().filter(|a| **a == pause(0x1000_0000)).count();
    assert_eq!(pauses, 3);
}

#[test]
fn bring_up_command_words_and_arguments() {
    let mut port = Port::new(SimHost::new());
    let out = init(&mut port, policy());
    assert_eq!(out.state, CardState::Ready);
    let identity = out.identity.unwrap();
    assert_eq!(identity.rca, 0xAAAA_0000);
    assert_eq!(identity.failures, 0);
    assert!(identity.selected);
    assert_eq!(identity.cid.unwrap().resp3_2, 0x1111_0002);
    assert_eq!(identity.csd.unwrap().resp5_4, 0x2222_0009);
    assert_eq!(identity.scr.unwrap().resp7_6, 0x3333_0033);
    let host = port.into_inner();
    assert_eq!(
        host.writes_to(CMD),
        vec![
            0x0000_0000,
            0x081A_0000,
            0x371A_0000,
            0x2902_0000,
            0x0209_0000,
            0x031A_0000,
            0x0909_0000,
            0x071A_0000,
            0x371A_0000,
            0x331A_0000,
        ]
    );
    assert_eq!(
        host.writes_to(ARG),
        vec![0, 0x1AA, 0, 0x40FF_8000, 0, 0, 0xAAAA_0000, 0xAAAA_0000, 0, 0]
    );
}

#[test]
fn bring_up_order_of_the_configuration() {
    let mut port = Port::new(SimHost::new());
    init(&mut port, policy());
    let host = port.into_inner();
    assert_eq!(host.log[0], rd(PRESENT, 0x0001_0000));
    // pads
    assert_eq!(host.log[1], wr(PWRSW, 0x9));
    assert_eq!(host.log[25], wr(0x0300_1A14, 0x4));
    // power at 3.3 V
    assert_eq!(host.log[26..30], [rd(HOST, 0), wr(HOST, 0x0F00), wr(PWRSW, 9), pause(0x100_0000)]);
    // reset: power off first, power back last but for width and speed
    assert_eq!(host.log[30..32], [rd(HOST, 0x0F00), wr(HOST, 0)]);
    assert_eq!(host.log[43..45], [rd(HOST, 0x0F06), wr(HOST, 0x0F0E)]);
    // capabilities
    assert_eq!(host.log[45..48], [rd(CAP1, 0), rd(CAP2, 0), rd(HOST, 0x0F0E)]);
    // clock with divider 4, then the block size
    assert_eq!(host.log[48..54].iter().filter(|a| **a == wr(CLK, 0x0401)).count(), 1);
    assert_eq!(host.log[58..60], [rd(BLK, 0), wr(BLK, 0x200)]);
    assert_eq!(host.log[60], rd(PRESENT, 0x0001_0000));
}

#[test]
fn bring_up_stops_when_the_clock_is_unstable() {
    let mut host = SimHost::new();
    host.clk_left = None;
    let mut port = Port::new(host);
    let out = init(&mut port, policy());
    assert_eq!(out.state, CardState::PowerConfigured);
    assert_eq!(out.error, Some(BringUpError::ClockUnstable));
    assert!(out.caps.is_some());
    let host = port.into_inner();
    assert!(host.commands().is_empty());
    assert!(host.writes_to(BLK).is_empty());
}

#[test]
fn bring_up_stops_when_the_card_never_gets_ready() {
    let mut host = SimHost::new();
    host.op_cond = vec![0x00FF_8000];
    let mut port = Port::new(host);
    let out = init(&mut port, Policy { poll_limit: 10, retry_limit: 3 });
    assert_eq!(out.state, CardState::ClockStable);
    assert_eq!(out.error, Some(BringUpError::VoltageNegotiationFailed));
    assert_eq!(out.identity, None);
    let host = port.into_inner();
    assert_eq!(host.commands(), vec![0, 8, 55, 41, 55, 41, 55, 41]);
}

#[test]
fn negotiation_retries_a_failed_command() {
    let mut host = SimHost::new();
    host.failing = vec![55];
    let mut port = Port::new(host);
    let out = negotiate(&mut port, policy());
    assert_eq!(out.result, Ok(0x80FF_8000));
    assert_eq!(out.failures, 1);
    assert_eq!(port.into_inner().commands(), vec![0, 8, 55, 41]);
}

#[test]
fn negotiate_retry_with_no_attempts_allowed() {
    let mut port = Port::new(SimHost::new());
    assert_eq!(
        negotiate_retry(&mut port, Policy { poll_limit: 10, retry_limit: 0 }),
        Negotiation { result: Err(BringUpError::VoltageNegotiationFailed), failures: 0 }
    );
    assert!(port.into_inner().log.is_empty());
}

#[test]
fn negotiate_retry_treats_a_failed_answer_as_not_ready() {
    let mut host = SimHost::new();
    host.failing = vec![41];
    let mut port = Port::new(host);
    assert_eq!(
        negotiate_retry(&mut port, Policy { poll_limit: 10, retry_limit: 2 }),
        Negotiation { result: Err(BringUpError::VoltageNegotiationFailed), failures: 2 }
    );
    let host = port.into_inner();
    assert_eq!(host.commands(), vec![55, 41, 55, 41]);
    assert_eq!(host.log[host.log.len() - 1], pause(0x1000_0000));
}

#[test]
fn identify_goes_on_after_a_failure() {
    let mut host = SimHost::new();
    host.failing = vec![3, 51];
    let mut port = Port::new(host);
    let identity = identify(&mut port, 10);
    assert_eq!(identity.failures, 2);
    assert_eq!(identity.rca, 0);
    assert!(identity.cid.is_some());
    assert!(identity.csd.is_some());
    assert!(identity.selected);
    assert_eq!(identity.scr, None);
    let host = port.into_inner();
    assert_eq!(host.commands(), vec![2, 3, 9, 7, 55, 51]);
    assert_eq!(host.writes_to(ARG), vec![0, 0, 0, 0, 0, 0]);
}

#[test]
fn configure_returns_capabilities_and_clock_outcome() {
    let mut host = SimHost::new();
    host.regs.insert(CAP1, 0x0002_0000);
    let mut port = Port::new(host);
    let (caps, started) = configure(&mut port, 10);
    assert_eq!(started, Ok(()));
    assert_eq!(caps.max_block_size(), 2048);
    let host = port.into_inner();
    assert_eq!(host.log.len(), 59);
    assert_eq!(host.log[58], wr(BLK, 0x200));
}

#[test]
fn bring_up_counts_every_failed_command_and_goes_on() {
    let mut host = SimHost::new();
    host.failing = vec![0, 8, 55, 9];
    host.op_cond = vec![0x00FF_8000, 0x80FF_8000];
    let mut port = Port::new(host);
    let out = init(&mut port, policy());
    assert_eq!(out.state, CardState::Ready);
    assert_eq!(out.error, None);
    // the reset, the interface condition, two prefixes, the specific data and the last prefix
    assert_eq!(out.failures, 6);
    let identity = out.identity.unwrap();
    assert_eq!(identity.failures, 2);
    assert_eq!(identity.csd, None);
    assert!(identity.scr.is_some());
    assert_eq!(port.into_inner().commands(), vec![0, 8, 55, 41, 55, 41, 2, 3, 9, 7, 55, 51]);
}

#[test]
fn failed_negotiation_reports_its_failures() {
    let mut host = SimHost::new();
    host.failing = vec![41];
    let mut port = Port::new(host);
    let out = init(&mut port, Policy { poll_limit: 10, retry_limit: 3 });
    assert_eq!(out.state, CardState::ClockStable);
    assert_eq!(out.error, Some(BringUpError::VoltageNegotiationFailed));
    assert_eq!(out.failures, 3);
}
