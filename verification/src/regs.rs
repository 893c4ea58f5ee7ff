//! The register map: where each register lives, how a word splits into
//! fields, and the read-modify-write accessors built on the port.

use vstd::prelude::*;
use crate::bus::{lemma_chain, Access, Mmio, Port};

verus! {

/// Base of the SD host controller's register block.
pub const SD_DRIVER_ADDR: usize = 0x0431_0000;

/// Base of the pin multiplexer.
pub const PINMUX_BASE: usize = 0x0300_1000;

/// Base of the SoC's top-level control block.
pub const TOP_BASE: usize = 0x0300_0000;

/// Offset of the SD power-switch control register in the top-level block.
pub const REG_TOP_SD_PWRSW_CTRL: usize = 0x1F4;

pub const REG_DMA_ADDR: usize = 0x00;

pub const REG_BLK_SIZE_CNT: usize = 0x04;

pub const REG_ARGUMENT: usize = 0x08;

pub const REG_XFER_CMD: usize = 0x0C;

pub const REG_RESP1_0: usize = 0x10;

pub const REG_RESP3_2: usize = 0x14;

pub const REG_RESP5_4: usize = 0x18;

pub const REG_RESP7_6: usize = 0x1C;

pub const REG_BUF_DATA: usize = 0x20;

pub const REG_PRESENT_STATE: usize = 0x24;

pub const REG_HOST_CTL1: usize = 0x28;

pub const REG_CLK_CTL: usize = 0x2C;

pub const REG_INT_STS: usize = 0x30;

pub const REG_CAPABILITIES1: usize = 0x40;

pub const REG_CAPABILITIES2: usize = 0x44;

/// A run of adjacent bits inside a 32-bit register.
#[derive(Clone, Copy, Debug, PartialEq, Eq, Structural)]
pub struct Field {
    /// Position of the field's lowest bit.
    pub shift: u32,
    /// Number of bits, at least one.
    pub width: u32,
}

/// The word whose lowest `width` bits are set.
pub open spec fn low_bits(width: u32) -> u32 {
    if width >= 32 {
        0xFFFF_FFFFu32
    } else {
        ((1u32 << width) - 1) as u32
    }
}

/// Computes `low_bits`.
pub fn low_mask(width: u32) -> (m: u32)
    ensures
        m == low_bits(width),
{
    if width >= 32 {
        0xFFFF_FFFFu32
    } else {
        let one: u32 = 1u32 << width;
        assert(one >= 1) by (bit_vector)
            requires
                one == 1u32 << width,
                width < 32,
        ;
        one - 1
    }
}

impl Field {
    /// The field lies inside the word and is not empty.
    pub open spec fn wf(self) -> bool {
        1 <= self.width && self.shift + self.width <= 32
    }

    /// The bits of the word that belong to the field.
    pub open spec fn mask(self) -> u32 {
        low_bits(self.width) << self.shift
    }

    /// The field's value in `word`.
    pub open spec fn get(self, word: u32) -> u32 {
        (word >> self.shift) & low_bits(self.width)
    }

    /// `word` with the field replaced by the low bits of `value`.
    pub open spec fn put(self, word: u32, value: u32) -> u32 {
        (word & !self.mask()) | ((value << self.shift) & self.mask())
    }

    /// Two fields share no bit.
    pub open spec fn disjoint(self, other: Field) -> bool {
        self.shift + self.width <= other.shift || other.shift + other.width <= self.shift
    }

    /// A field of `width` bits starting at bit `shift`, if it fits the word.
    pub fn new(shift: u32, width: u32) -> (field: Option<Field>)
        ensures
            field.is_some() <==> (1 <= width && shift + width <= 32),
            field.is_some() ==> field.unwrap() == (Field { shift, width }),
    {
        if width >= 1 && width <= 32 && shift <= 32 - width {
            Some(Field { shift, width })
        } else {
            None
        }
    }

    /// Computes `mask`.
    pub fn bits(self) -> (m: u32)
        requires
            self.wf(),
        ensures
            m == self.mask(),
    {
        let low = low_mask(self.width);
        low << self.shift
    }

    /// Computes `get`.
    pub fn extract(self, word: u32) -> (value: u32)
        requires
            self.wf(),
        ensures
            value == self.get(word),
    {
        let low = low_mask(self.width);
        (word >> self.shift) & low
    }

    /// Computes `put`.
    pub fn insert(self, word: u32, value: u32) -> (out: u32)
        requires
            self.wf(),
        ensures
            out == self.put(word, value),
    {
        let m = self.bits();
        (word & !m) | ((value << self.shift) & m)
    }
}

/// What was put into a field is what comes out of it, cut to the field's width.
pub proof fn lemma_get_put(f: Field, word: u32, value: u32)
    requires
        f.wf(),
    ensures
        f.get(f.put(word, value)) == value & low_bits(f.width),
{
    let s = f.shift;
    let w = f.width;
    if w >= 32 {
        assert((((word & !(0xFFFF_FFFFu32 << 0u32)) | ((value << 0u32) & (0xFFFF_FFFFu32 << 0u32)))
            >> 0u32) & 0xFFFF_FFFFu32 == value & 0xFFFF_FFFFu32) by (bit_vector);
    } else {
        assert((((word & !((((1u32 << w) - 1) as u32) << s)) | ((value << s) & ((((1u32 << w)
            - 1) as u32) << s))) >> s) & (((1u32 << w) - 1) as u32) == value & (((1u32 << w)
            - 1) as u32)) by (bit_vector)
            requires
                1 <= w < 32,
                s + w <= 32,
        ;
    }
}

/// Replacing one field leaves every field that shares no bit with it as it was.
pub proof fn lemma_put_preserves(f: Field, g: Field, word: u32, value: u32)
    requires
        f.wf(),
        g.wf(),
        f.disjoint(g),
    ensures
        g.get(f.put(word, value)) == g.get(word),
{
    let s = f.shift;
    let w = f.width;
    let t = g.shift;
    let v = g.width;
    if w >= 32 || v >= 32 {
        assert(false);
    }
    assert((((word & !((((1u32 << w) - 1) as u32) << s)) | ((value << s) & ((((1u32 << w)
        - 1) as u32) << s))) >> t) & (((1u32 << v) - 1) as u32) == (word >> t) & (((1u32 << v)
        - 1) as u32)) by (bit_vector)
        requires
            1 <= w < 32,
            1 <= v < 32,
            s + w <= 32,
            t + v <= 32,
            s + w <= t || t + v <= s,
    ;
}

/// Replacing a field changes no bit outside its mask.
pub proof fn lemma_put_outside(f: Field, word: u32, value: u32)
    requires
        f.wf(),
    ensures
        f.put(word, value) & !f.mask() == word & !f.mask(),
{
    let m = f.mask();
    let x = value << f.shift;
    assert(((word & !m) | (x & m)) & !m == word & !m) by (bit_vector);
}

/// The address of the controller register at `offset`.
pub fn reg_transfer(offset: usize) -> (addr: usize)
    requires
        SD_DRIVER_ADDR + offset <= usize::MAX,
    ensures
        addr == SD_DRIVER_ADDR + offset,
{
    SD_DRIVER_ADDR + offset
}

/// At position `i` of `s` stands a load from `addr`, and right after it the
/// store to `addr` of the loaded word with the bits of `clear` removed and
/// those of `set` added.
pub open spec fn update_at(s: Seq<Access>, i: int, addr: usize, clear: u32, set: u32) -> bool {
    &&& 0 <= i
    &&& i + 2 <= s.len()
    &&& s[i] matches Access::Read { addr: a, value: v }
    &&& a == addr
    &&& s[i + 1] == Access::Write { addr, value: (v & !clear) | set }
}

/// Loads the word at `addr`, clears the bits of `clear`, sets those of `set`,
/// and stores it back.
pub fn mmio_clrsetbits_32<B: Mmio>(port: &mut Port<B>, addr: usize, clear: u32, set: u32)
    ensures
        final(port).extends(old(port).trace()),
        final(port).since(old(port).trace()).len() == 2,
        update_at(final(port).since(old(port).trace()), 0, addr, clear, set),
{
    let ghost t0 = port.trace();
    let v = port.read(addr);
    let ghost t1 = port.trace();
    port.write(addr, (v & !clear) | set);
    proof {
        lemma_chain(t0, t1, port.trace());
    }
}

/// Loads the word at `addr`, clears the bits of `clear`, and stores it back.
pub fn mmio_clearbits_32<B: Mmio>(port: &mut Port<B>, addr: usize, clear: u32)
    ensures
        final(port).extends(old(port).trace()),
        final(port).since(old(port).trace()).len() == 2,
        update_at(final(port).since(old(port).trace()), 0, addr, clear, 0),
{
    let ghost t0 = port.trace();
    let v = port.read(addr);
    let ghost t1 = port.trace();
    port.write(addr, v & !clear);
    proof {
        assert((v & !clear) | 0 == v & !clear) by (bit_vector);
        lemma_chain(t0, t1, port.trace());
    }
}

/// Loads the word at `addr`, sets the bits of `set`, and stores it back.
pub fn mmio_setbits_32<B: Mmio>(port: &mut Port<B>, addr: usize, set: u32)
    ensures
        final(port).extends(old(port).trace()),
        final(port).since(old(port).trace()).len() == 2,
        update_at(final(port).since(old(port).trace()), 0, addr, 0, set),
{
    let ghost t0 = port.trace();
    let v = port.read(addr);
    let ghost t1 = port.trace();
    port.write(addr, v | set);
    proof {
        assert((v & !0u32) | set == v | set) by (bit_vector);
        lemma_chain(t0, t1, port.trace());
    }
}

/// Stores `value` to the word at `addr`.
pub fn mmio_write_32<B: Mmio>(port: &mut Port<B>, addr: usize, value: u32)
    ensures
        final(port).extends(old(port).trace()),
        final(port).since(old(port).trace()) == seq![Access::Write { addr, value }],
{
    port.write(addr, value);
}

/// Loads the word at `addr`.
pub fn mmio_read_32<B: Mmio>(port: &mut Port<B>, addr: usize) -> (value: u32)
    ensures
        final(port).extends(old(port).trace()),
        final(port).since(old(port).trace()) == seq![Access::Read { addr, value }],
{
    port.read(addr)
}

/// Loads the word at `addr` and returns the value of `field` in it.
pub fn read_field<B: Mmio>(port: &mut Port<B>, addr: usize, field: Field) -> (value: u32)
    requires
        field.wf(),
    ensures
        final(port).extends(old(port).trace()),
        final(port).since(old(port).trace()).len() == 1,
        final(port).since(old(port).trace())[0] matches Access::Read { addr: a, value: word }
            && a == addr && value == field.get(word),
{
    let word = port.read(addr);
    field.extract(word)
}

/// Loads the word at `addr`, replaces `field` by the low bits of `value`,
/// and stores it back. The other fields keep what the load returned.
pub fn write_field<B: Mmio>(port: &mut Port<B>, addr: usize, field: Field, value: u32)
    requires
        field.wf(),
    ensures
        final(port).extends(old(port).trace()),
        final(port).since(old(port).trace()).len() == 2,
        final(port).since(old(port).trace())[0] matches Access::Read { addr: a, value: word }
            && a == addr && final(port).since(old(port).trace())[1] == (Access::Write {
            addr,
            value: field.put(word, value),
        }),
{
    let m = field.bits();
    mmio_clrsetbits_32(port, addr, m, (value << field.shift) & m);
}

} // verus!
