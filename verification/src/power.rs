//! Pads, power rail and clock: what has to be done before the card can be
//! talked to.

use vstd::prelude::*;
use crate::bus::{lemma_chain, Access, Mmio, Port};
use crate::command::CLK_CTL_ADDR;
use crate::regs::{
    mmio_clearbits_32, mmio_clrsetbits_32, mmio_setbits_32, mmio_write_32, update_at, PINMUX_BASE,
    REG_HOST_CTL1, REG_TOP_SD_PWRSW_CTRL, SD_DRIVER_ADDR, TOP_BASE,
};

verus! {

pub const PAD_SDIO0_CD_REG: usize = PINMUX_BASE + 0x34;

pub const PAD_SDIO0_PWR_EN_REG: usize = PINMUX_BASE + 0x38;

pub const PAD_SDIO0_CLK_REG: usize = PINMUX_BASE + 0x1C;

pub const PAD_SDIO0_CMD_REG: usize = PINMUX_BASE + 0x20;

pub const PAD_SDIO0_D0_REG: usize = PINMUX_BASE + 0x24;

pub const PAD_SDIO0_D1_REG: usize = PINMUX_BASE + 0x28;

pub const PAD_SDIO0_D2_REG: usize = PINMUX_BASE + 0x2C;

pub const PAD_SDIO0_D3_REG: usize = PINMUX_BASE + 0x30;

/// Position of the function-select field in a pad register.
pub const REG_SDIO0_PAD_SHIFT: u32 = 2;

/// The two bits of the function-select field.
pub const REG_SDIO0_PAD_CLR_MASK: u32 = 0xC;

pub const REG_SDIO0_CD_PAD_REG: usize = PINMUX_BASE + 0x900;

pub const REG_SDIO0_PWR_EN_PAD_REG: usize = PINMUX_BASE + 0x904;

pub const REG_SDIO0_CLK_PAD_REG: usize = PINMUX_BASE + 0xA00;

pub const REG_SDIO0_CMD_PAD_REG: usize = PINMUX_BASE + 0xA04;

pub const REG_SDIO0_DAT0_PAD_REG: usize = PINMUX_BASE + 0xA08;

pub const REG_SDIO0_DAT1_PAD_REG: usize = PINMUX_BASE + 0xA0C;

pub const REG_SDIO0_DAT2_PAD_REG: usize = PINMUX_BASE + 0xA10;

pub const REG_SDIO0_DAT3_PAD_REG: usize = PINMUX_BASE + 0xA14;

/// Address of the SD power-switch control register.
pub const PWRSW_CTRL_ADDR: usize = TOP_BASE + REG_TOP_SD_PWRSW_CTRL;

/// What the power switch is set to for 3.3 V and 3.0 V operation.
pub const PWRSW_ON: u32 = 0x9;

/// Address of the host control and power control register.
pub const HOST_CTL1_ADDR: usize = SD_DRIVER_ADDR + REG_HOST_CTL1;

/// The power control byte of the host control register.
pub const PWR_CTL_MASK: u32 = 0x0000_FF00;

/// Host control: four data lines and high speed.
pub const HOST_WIDTH_AND_SPEED: u32 = 0x6;

/// Host control: the low bit of the DMA select field.
pub const HOST_DMA_SEL: u32 = 0x8;

/// Clock control: the three software reset bits.
pub const SW_RESET_MASK: u32 = 0x0700_0000;

/// Clock control: the internal oscillator runs.
pub const INT_CLK_EN: u32 = 0x1;

/// Clock control: the internal oscillator is stable.
pub const INT_CLK_STABLE: u32 = 0x2;

/// Clock control: the bus clock reaches the card.
pub const SD_CLK_EN: u32 = 0x4;

/// Clock control: the frequency select field.
pub const FREQ_SEL_MASK: u32 = 0x0000_FF00;

/// Idle iterations after a change of power or clock.
pub const SETTLE_SPINS: u32 = 0x100_0000;

/// Number of pad registers the SD bus uses.
pub const PAD_COUNT: usize = 8;

/// The level of the bus power rail.
#[derive(Clone, Copy, Debug, PartialEq, Eq, Structural)]
pub enum PowerLevel {
    V33,
    V30,
    V18,
    Close,
}

/// Why the power rail was left as it was.
#[derive(Clone, Copy, Debug, PartialEq, Eq, Structural)]
pub enum PowerError {
    /// 1.8 V signalling needs a voltage switch negotiated with the card
    /// first, which this driver does not do.
    VoltageSwitchRequired,
}

/// The clock did not come up.
#[derive(Clone, Copy, Debug, PartialEq, Eq, Structural)]
pub enum ClockError {
    /// The internal oscillator was not stable within the poll budget.
    Unstable,
}

/// The power control byte for a level: the voltage select in bits 1 to 3,
/// the power enable in bit 0.
pub open spec fn power_pattern(level: PowerLevel) -> u32 {
    match level {
        PowerLevel::V33 => 0x0Fu32,
        PowerLevel::V30 => 0x0Du32,
        PowerLevel::V18 => 0x0Bu32,
        PowerLevel::Close => 0x00u32,
    }
}

/// `s` is what setting the power rail puts on the bus: the power control
/// byte is replaced, the power switch is set, and the rail is left to settle.
pub open spec fn power_trace(s: Seq<Access>, level: PowerLevel) -> bool {
    &&& s.len() == 4
    &&& update_at(s, 0, HOST_CTL1_ADDR, PWR_CTL_MASK, power_pattern(level) << 8)
    &&& s[2] == Access::Write { addr: PWRSW_CTRL_ADDR, value: PWRSW_ON }
    &&& s[3] == Access::Delay { spins: SETTLE_SPINS }
}

/// Sets the bus power rail to `level` and waits for it to settle. 1.8 V is
/// refused, and nothing is touched.
pub fn power_config<B: Mmio>(port: &mut Port<B>, level: PowerLevel) -> (result: Result<
    (),
    PowerError,
>)
    ensures
        final(port).extends(old(port).trace()),
        result.is_err() <==> level == PowerLevel::V18,
        result.is_err() ==> final(port).trace() == old(port).trace(),
        result.is_ok() ==> power_trace(final(port).since(old(port).trace()), level),
{
    let ghost t0 = port.trace();
    let pattern: u32 = match level {
        PowerLevel::V33 => 0x0F,
        PowerLevel::V30 => 0x0D,
        PowerLevel::Close => 0x00,
        PowerLevel::V18 => {
            proof {
                assert(t0.take(t0.len() as int) =~= t0);
            }
            return Err(PowerError::VoltageSwitchRequired);
        },
    };
    mmio_clrsetbits_32(port, HOST_CTL1_ADDR, PWR_CTL_MASK, pattern << 8);
    let ghost t1 = port.trace();
    mmio_write_32(port, PWRSW_CTRL_ADDR, PWRSW_ON);
    let ghost t2 = port.trace();
    port.delay(SETTLE_SPINS);
    proof {
        lemma_chain(t0, t1, t2);
        lemma_chain(t0, t2, port.trace());
    }
    Ok(())
}

/// The pad registers in the order their function is selected.
pub open spec fn pad_register(k: int) -> usize {
    if k == 0 {
        REG_SDIO0_PWR_EN_PAD_REG
    } else if k == 1 {
        REG_SDIO0_CD_PAD_REG
    } else if k == 2 {
        REG_SDIO0_CLK_PAD_REG
    } else if k == 3 {
        REG_SDIO0_CMD_PAD_REG
    } else if k == 4 {
        REG_SDIO0_DAT1_PAD_REG
    } else if k == 5 {
        REG_SDIO0_DAT0_PAD_REG
    } else if k == 6 {
        REG_SDIO0_DAT2_PAD_REG
    } else {
        REG_SDIO0_DAT3_PAD_REG
    }
}

/// The function selected for pad `k`: power enable and clock always get 2
/// and card detect 1; command and data lines get 1 in operation and 2 at
/// reset.
pub open spec fn pad_function(k: int, reset: bool) -> u32 {
    if k == 1 {
        1u32
    } else if k == 0 || k == 2 || reset {
        2u32
    } else {
        1u32
    }
}

/// The pin multiplexer words for the eight lines, after the power switch:
/// card detect and power enable get 0, clock, command and data get 3 at
/// reset and 0 in operation.
pub open spec fn mux_writes(reset: bool) -> Seq<Access> {
    let val = if reset {
        3u32
    } else {
        0u32
    };
    seq![
        Access::Write { addr: PWRSW_CTRL_ADDR, value: PWRSW_ON },
        Access::Write { addr: PAD_SDIO0_CD_REG, value: 0 },
        Access::Write { addr: PAD_SDIO0_PWR_EN_REG, value: 0 },
        Access::Write { addr: PAD_SDIO0_CLK_REG, value: val },
        Access::Write { addr: PAD_SDIO0_CMD_REG, value: val },
        Access::Write { addr: PAD_SDIO0_D0_REG, value: val },
        Access::Write { addr: PAD_SDIO0_D1_REG, value: val },
        Access::Write { addr: PAD_SDIO0_D2_REG, value: val },
        Access::Write { addr: PAD_SDIO0_D3_REG, value: val },
    ]
}

/// `s` is what configuring the pads puts on the bus: the nine multiplexer
/// stores, then for each pad a load and a store that replaces its
/// function-select field and keeps the rest.
pub open spec fn pad_trace(s: Seq<Access>, reset: bool) -> bool {
    &&& s.len() == 25
    &&& s.take(9) == mux_writes(reset)
    &&& forall|k: int|
        0 <= k < 8 ==> #[trigger] update_at(
            s,
            9 + 2 * k,
            pad_register(k),
            REG_SDIO0_PAD_CLR_MASK,
            pad_function(k, reset) << REG_SDIO0_PAD_SHIFT,
        )
}

/// Computes `pad_register`.
fn pad_register_of(k: usize) -> (addr: usize)
    requires
        k < PAD_COUNT,
    ensures
        addr == pad_register(k as int),
{
    if k == 0 {
        REG_SDIO0_PWR_EN_PAD_REG
    } else if k == 1 {
        REG_SDIO0_CD_PAD_REG
    } else if k == 2 {
        REG_SDIO0_CLK_PAD_REG
    } else if k == 3 {
        REG_SDIO0_CMD_PAD_REG
    } else if k == 4 {
        REG_SDIO0_DAT1_PAD_REG
    } else if k == 5 {
        REG_SDIO0_DAT0_PAD_REG
    } else if k == 6 {
        REG_SDIO0_DAT2_PAD_REG
    } else {
        REG_SDIO0_DAT3_PAD_REG
    }
}

/// Computes `pad_function`.
fn pad_function_of(k: usize, reset: bool) -> (value: u32)
    requires
        k < PAD_COUNT,
    ensures
        value == pad_function(k as int, reset),
{
    if k == 1 {
        1
    } else if k == 0 || k == 2 || reset {
        2
    } else {
        1
    }
}

/// Routes the SD bus lines to the controller, or back to their reset
/// function.
pub fn pad_settings<B: Mmio>(port: &mut Port<B>, reset: bool)
    ensures
        final(port).extends(old(port).trace()),
        pad_trace(final(port).since(old(port).trace()), reset),
{
    let ghost t0 = port.trace();
    let val: u32 = if reset {
        0x3
    } else {
        0x0
    };
    mmio_write_32(port, PWRSW_CTRL_ADDR, PWRSW_ON);
    let ghost t1 = port.trace();
    mmio_write_32(port, PAD_SDIO0_CD_REG, 0x0);
    let ghost t2 = port.trace();
    mmio_write_32(port, PAD_SDIO0_PWR_EN_REG, 0x0);
    let ghost t3 = port.trace();
    mmio_write_32(port, PAD_SDIO0_CLK_REG, val);
    let ghost t4 = port.trace();
    mmio_write_32(port, PAD_SDIO0_CMD_REG, val);
    let ghost t5 = port.trace();
    mmio_write_32(port, PAD_SDIO0_D0_REG, val);
    let ghost t6 = port.trace();
    mmio_write_32(port, PAD_SDIO0_D1_REG, val);
    let ghost t7 = port.trace();
    mmio_write_32(port, PAD_SDIO0_D2_REG, val);
    let ghost t8 = port.trace();
    mmio_write_32(port, PAD_SDIO0_D3_REG, val);
    proof {
        lemma_chain(t0, t1, t2);
        lemma_chain(t0, t2, t3);
        lemma_chain(t0, t3, t4);
        lemma_chain(t0, t4, t5);
        lemma_chain(t0, t5, t6);
        lemma_chain(t0, t6, t7);
        lemma_chain(t0, t7, t8);
        lemma_chain(t0, t8, port.trace());
        assert(port.since(t0) =~= mux_writes(reset));
    }
    let mut k: usize = 0;
    while k < PAD_COUNT
        invariant
            k <= PAD_COUNT,
            t0 == old(port).trace(),
            port.extends(t0),
            port.since(t0).len() == 9 + 2 * k,
            port.since(t0).take(9) == mux_writes(reset),
            forall|j: int|
                0 <= j < k ==> #[trigger] update_at(
                    port.since(t0),
                    9 + 2 * j,
                    pad_register(j),
                    REG_SDIO0_PAD_CLR_MASK,
                    pad_function(j, reset) << REG_SDIO0_PAD_SHIFT,
                ),
        decreases PAD_COUNT - k,
    {
        let ghost tk = port.trace();
        let addr = pad_register_of(k);
        let function = pad_function_of(k, reset);
        mmio_clrsetbits_32(port, addr, REG_SDIO0_PAD_CLR_MASK, function << REG_SDIO0_PAD_SHIFT);
        proof {
            lemma_chain(t0, tk, port.trace());
            assert(port.since(t0).take(9) =~= tk.skip(t0.len() as int).take(9));
            assert forall|j: int| 0 <= j < k + 1 implies #[trigger] update_at(
                port.since(t0),
                9 + 2 * j,
                pad_register(j),
                REG_SDIO0_PAD_CLR_MASK,
                pad_function(j, reset) << REG_SDIO0_PAD_SHIFT,
            ) by {
                if j < k {
                    assert(update_at(
                        tk.skip(t0.len() as int),
                        9 + 2 * j,
                        pad_register(j),
                        REG_SDIO0_PAD_CLR_MASK,
                        pad_function(j, reset) << REG_SDIO0_PAD_SHIFT,
                    ));
                } else {
                    let e = port.trace().skip(tk.len() as int);
                    assert(port.since(t0)[9 + 2 * j] == e[0]);
                    assert(port.since(t0)[9 + 2 * j + 1] == e[1]);
                }
            }
        }
        k = k + 1;
    }
}

/// The words that the power patterns and the pad functions come to in
/// their registers: the pattern stands in the second byte of the host
/// control word, the function in bits 2 and 3 of the pad word.
pub proof fn lemma_power_and_pad_words()
    ensures
        power_pattern(PowerLevel::V33) << 8 == 0x0F00,
        power_pattern(PowerLevel::V30) << 8 == 0x0D00,
        power_pattern(PowerLevel::V18) << 8 == 0x0B00,
        power_pattern(PowerLevel::Close) << 8 == 0x0000,
        forall|k: int, reset: bool| #[trigger]
            pad_function(k, reset) << REG_SDIO0_PAD_SHIFT == if pad_function(k, reset) == 1 {
                0x4u32
            } else {
                0x8u32
            },
{
    assert(0x0Fu32 << 8 == 0x0F00 && 0x0Du32 << 8 == 0x0D00 && 0x0Bu32 << 8 == 0x0B00 && 0x00u32
        << 8 == 0 && 1u32 << 2u32 == 4 && 2u32 << 2u32 == 8) by (bit_vector);
}

/// The frequency select field takes the divider in the second byte of the
/// clock control word.
pub proof fn lemma_divider_word(divider: u8)
    ensures
        (divider as u32) << 8 == divider * 256,
        ((divider as u32) << 8) & !FREQ_SEL_MASK == 0,
{
    let d = divider as u32;
    assert(d < 256 ==> d << 8 == d * 256 && (d << 8) & !0x0000_FF00u32 == 0) by (bit_vector);
}

/// `s` is what the controller reset puts on the bus: power off, the reset
/// bits of the clock control register cleared, a pause, power back on at
/// 3.3 V, then bus width and speed and the DMA select set.
pub open spec fn reset_trace(s: Seq<Access>) -> bool {
    &&& s.len() == 15
    &&& power_trace(s.subrange(0, 4), PowerLevel::Close)
    &&& update_at(s, 4, CLK_CTL_ADDR, SW_RESET_MASK, 0)
    &&& s[6] == Access::Delay { spins: SETTLE_SPINS }
    &&& power_trace(s.subrange(7, 11), PowerLevel::V33)
    &&& update_at(s, 11, HOST_CTL1_ADDR, 0, HOST_WIDTH_AND_SPEED)
    &&& update_at(s, 13, HOST_CTL1_ADDR, 0, HOST_DMA_SEL)
}

/// Resets the controller and brings the power back.
pub fn reset_config<B: Mmio>(port: &mut Port<B>)
    ensures
        final(port).extends(old(port).trace()),
        reset_trace(final(port).since(old(port).trace())),
{
    let ghost t0 = port.trace();
    let _ = power_config(port, PowerLevel::Close);
    let ghost t1 = port.trace();
    mmio_clearbits_32(port, CLK_CTL_ADDR, SW_RESET_MASK);
    let ghost t2 = port.trace();
    port.delay(SETTLE_SPINS);
    let ghost t3 = port.trace();
    let _ = power_config(port, PowerLevel::V33);
    let ghost t4 = port.trace();
    mmio_setbits_32(port, HOST_CTL1_ADDR, HOST_WIDTH_AND_SPEED);
    let ghost t5 = port.trace();
    mmio_setbits_32(port, HOST_CTL1_ADDR, HOST_DMA_SEL);
    proof {
        lemma_chain(t0, t1, t2);
        lemma_chain(t0, t2, t3);
        lemma_chain(t0, t3, t4);
        lemma_chain(t0, t4, t5);
        lemma_chain(t0, t5, port.trace());
        let s = port.since(t0);
        assert(s.subrange(0, 4) =~= t1.skip(t0.len() as int));
        assert(s.subrange(7, 11) =~= t4.skip(t3.len() as int));
    }
}

/// `s` is a whole number of looks at the clock control register that found
/// the oscillator not yet stable, each followed by a pause.
pub open spec fn unstable_polls(s: Seq<Access>) -> bool {
    &&& s.len() % 2 == 0
    &&& forall|i: int|
        0 <= i < s.len() ==> if i % 2 == 0 {
            #[trigger] s[i] matches Access::Read { addr, value } && addr == CLK_CTL_ADDR && value
                & INT_CLK_STABLE == 0
        } else {
            s[i] == Access::Delay { spins: SETTLE_SPINS }
        }
}

/// `s` is what starting the clock puts on the bus: the bus clock is gated
/// off, the divider is set, the oscillator is started and polled until
/// stable. If it becomes stable within `limit` looks, the bus clock is
/// enabled and left to settle; if not, the bus clock stays off.
pub open spec fn clock_trace(s: Seq<Access>, divider: u8, limit: u32, result: Result<
    (),
    ClockError,
>) -> bool {
    &&& s.len() >= 6
    &&& update_at(s, 0, CLK_CTL_ADDR, SD_CLK_EN, 0)
    &&& update_at(s, 2, CLK_CTL_ADDR, FREQ_SEL_MASK, (divider as u32) << 8)
    &&& update_at(s, 4, CLK_CTL_ADDR, INT_CLK_EN, INT_CLK_EN)
    &&& match result {
        Err(_) => {
            &&& s.len() == 6 + 2 * limit
            &&& unstable_polls(s.skip(6))
        },
        Ok(_) => {
            &&& 10 <= s.len() <= 8 + 2 * limit
            &&& unstable_polls(s.subrange(6, s.len() - 4))
            &&& s[s.len() - 4] matches Access::Read { addr, value }
            &&& addr == CLK_CTL_ADDR
            &&& value & INT_CLK_STABLE != 0
            &&& update_at(s, s.len() - 3, CLK_CTL_ADDR, SD_CLK_EN, SD_CLK_EN)
            &&& s[s.len() - 1] == Access::Delay { spins: SETTLE_SPINS }
        },
    }
}

/// Starts the bus clock at the internal frequency divided by twice
/// `divider`.
pub fn enable_clock<B: Mmio>(port: &mut Port<B>, divider: u8, limit: u32) -> (result: Result<
    (),
    ClockError,
>)
    ensures
        final(port).extends(old(port).trace()),
        clock_trace(final(port).since(old(port).trace()), divider, limit, result),
{
    let ghost t0 = port.trace();
    mmio_clrsetbits_32(port, CLK_CTL_ADDR, SD_CLK_EN, 0);
    let ghost t1 = port.trace();
    mmio_clrsetbits_32(port, CLK_CTL_ADDR, FREQ_SEL_MASK, (divider as u32) << 8);
    let ghost t2 = port.trace();
    mmio_clrsetbits_32(port, CLK_CTL_ADDR, INT_CLK_EN, INT_CLK_EN);
    let ghost t3 = port.trace();
    proof {
        lemma_chain(t0, t1, t2);
        lemma_chain(t0, t2, t3);
        assert(t3.take(t3.len() as int) =~= t3);
    }
    let mut polls: u32 = 0;
    let mut stable = false;
    while polls < limit && !stable
        invariant
            polls <= limit,
            port.extends(t3),
            stable ==> polls >= 1,
            port.since(t3).len() == (if stable {
                2 * polls - 1
            } else {
                2 * polls
            }),
            !stable ==> unstable_polls(port.since(t3)),
            stable ==> unstable_polls(port.since(t3).drop_last()) && (
            port.since(t3).last() matches Access::Read { addr, value } && addr == CLK_CTL_ADDR
                && value & INT_CLK_STABLE != 0),
        decreases limit - polls,
    {
        let ghost ta = port.trace();
        let value = port.read(CLK_CTL_ADDR);
        let ghost tb = port.trace();
        polls = polls + 1;
        if value & INT_CLK_STABLE != 0 {
            stable = true;
            proof {
                lemma_chain(t3, ta, tb);
                assert(port.since(t3).drop_last() =~= ta.skip(t3.len() as int));
            }
        } else {
            port.delay(SETTLE_SPINS);
            proof {
                lemma_chain(ta, tb, port.trace());
                lemma_chain(t3, ta, port.trace());
            }
        }
    }
    let ghost t4 = port.trace();
    proof {
        lemma_chain(t0, t3, t4);
    }
    if !stable {
        proof {
            assert(port.since(t0).skip(6) =~= port.since(t3));
        }
        return Err(ClockError::Unstable);
    }
    mmio_clrsetbits_32(port, CLK_CTL_ADDR, SD_CLK_EN, SD_CLK_EN);
    let ghost t5 = port.trace();
    port.delay(SETTLE_SPINS);
    proof {
        let t6 = port.trace();
        lemma_chain(t0, t4, t5);
        lemma_chain(t0, t5, t6);
        let s = port.since(t0);
        assert(s.subrange(6, s.len() - 4) =~= t4.skip(t3.len() as int).drop_last());
    }
    Ok(())
}

} // verus!
