//! One block transfer, as the caller describes it and as the controller is
//! told about it.

use vstd::prelude::*;

verus! {

/// The largest block the size field of the controller is used for.
pub const MAX_BLOCK_SIZE: u16 = 2048;

/// Transfer-mode bit: the controller moves the data itself.
pub const MODE_DMA_ENABLE: u32 = 0x01;

/// Transfer-mode bit: the block count register is in force.
pub const MODE_BLK_CNT_ENABLE: u32 = 0x02;

/// Transfer-mode bit: data flows from the card to the host.
pub const MODE_READ: u32 = 0x10;

/// Transfer-mode bit: more than one block is moved.
pub const MODE_MULTI_BLOCK: u32 = 0x20;

#[derive(Clone, Copy, Debug, PartialEq, Eq, Structural)]
pub enum Direction {
    /// Card to host.
    Read,
    /// Host to card.
    Write,
}

#[derive(Clone, Copy, Debug, PartialEq, Eq, Structural)]
pub enum TransferMode {
    /// The processor moves each word through the data port.
    Pio,
    /// The controller moves the data to or from one physical buffer.
    Dma { address: u32 },
}

/// One block I/O operation.
#[derive(Clone, Copy, Debug, PartialEq, Eq, Structural)]
pub struct TransferSession {
    pub block_size: u16,
    pub block_count: u16,
    pub direction: Direction,
    pub mode: TransferMode,
}

/// `n` is one of 1, 2, 4, ..., 2048.
pub open spec fn is_block_size(n: u16) -> bool {
    n == 1 || n == 2 || n == 4 || n == 8 || n == 16 || n == 32 || n == 64 || n == 128 || n == 256
        || n == 512 || n == 1024 || n == 2048
}

impl TransferSession {
    /// The block size is a power of two the size field can hold, and there
    /// is at least one block.
    pub open spec fn wf(self) -> bool {
        is_block_size(self.block_size) && self.block_count >= 1
    }

    /// The low half of the transfer-mode and command word for this session.
    pub open spec fn mode_bits(self) -> u32 {
        (if self.mode is Dma {
            MODE_DMA_ENABLE | MODE_BLK_CNT_ENABLE
        } else {
            0u32
        }) | (if self.direction is Read {
            MODE_READ
        } else {
            0u32
        }) | (if self.block_count > 1 {
            MODE_MULTI_BLOCK
        } else {
            0u32
        })
    }

    /// The word for the block size and count register: the size in the low
    /// twelve bits, the count in the high half.
    pub open spec fn size_count_word(self) -> u32 {
        (self.block_size as u32) | ((self.block_count as u32) << 16)
    }

    /// A session, if the block size is a power of two no larger than
    /// `controller_max` and the size field, and the count is not zero.
    pub fn new(
        block_size: u16,
        block_count: u16,
        direction: Direction,
        mode: TransferMode,
        controller_max: u16,
    ) -> (session: Option<TransferSession>)
        ensures
            session.is_some() <==> (is_block_size(block_size) && block_size <= controller_max
                && block_count >= 1),
            session.is_some() ==> session.unwrap() == (TransferSession {
                block_size,
                block_count,
                direction,
                mode,
            }),
    {
        let n = block_size;
        let pow2 = n != 0 && n <= MAX_BLOCK_SIZE && (n & (n - 1) as u16) == 0;
        proof {
            assert((n != 0 && n <= 2048 && (n & (n - 1) as u16) == 0) <==> (n == 1 || n == 2 || n
                == 4 || n == 8 || n == 16 || n == 32 || n == 64 || n == 128 || n == 256 || n == 512
                || n == 1024 || n == 2048)) by (bit_vector);
        }
        if pow2 && block_size <= controller_max && block_count >= 1 {
            Some(TransferSession { block_size, block_count, direction, mode })
        } else {
            None
        }
    }

    /// The session of an ordinary read: one block of 512 bytes, read by
    /// the processor.
    pub fn single_block_read() -> (session: TransferSession)
        ensures
            session == (TransferSession {
                block_size: 512,
                block_count: 1,
                direction: Direction::Read,
                mode: TransferMode::Pio,
            }),
            session.wf(),
    {
        TransferSession {
            block_size: 512,
            block_count: 1,
            direction: Direction::Read,
            mode: TransferMode::Pio,
        }
    }

    /// One block of 512 bytes, moved by the controller into the buffer at
    /// `address`.
    pub fn single_block_dma_read(address: u32) -> (session: TransferSession)
        ensures
            session == (TransferSession {
                block_size: 512,
                block_count: 1,
                direction: Direction::Read,
                mode: TransferMode::Dma { address },
            }),
            session.wf(),
    {
        TransferSession {
            block_size: 512,
            block_count: 1,
            direction: Direction::Read,
            mode: TransferMode::Dma { address },
        }
    }

    /// Computes `mode_bits`.
    pub fn transfer_mode(self) -> (bits: u32)
        ensures
            bits == self.mode_bits(),
            bits & 0xFFFF_0000 == 0,
    {
        let dma: u32 = match self.mode {
            TransferMode::Dma { .. } => MODE_DMA_ENABLE | MODE_BLK_CNT_ENABLE,
            TransferMode::Pio => 0u32,
        };
        let dir: u32 = match self.direction {
            Direction::Read => MODE_READ,
            Direction::Write => 0u32,
        };
        let multi: u32 = if self.block_count > 1 {
            MODE_MULTI_BLOCK
        } else {
            0u32
        };
        proof {
            assert((dma == 0 || dma == 3) && (dir == 0 || dir == 0x10) && (multi == 0 || multi
                == 0x20) ==> (dma | dir | multi) & 0xFFFF_0000 == 0) by (bit_vector);
            assert(0x01u32 | 0x02u32 == 3) by (bit_vector);
        }
        dma | dir | multi
    }

    /// Computes `size_count_word`.
    pub fn size_and_count(self) -> (word: u32)
        ensures
            word == self.size_count_word(),
    {
        (self.block_size as u32) | ((self.block_count as u32) << 16)
    }
}

/// The words of the two sessions that read one block of 512 bytes: the size
/// and count word is the same, and the transfer mode has the read bit, and
/// for DMA the two DMA bits beside it.
pub proof fn lemma_single_block_words(address: u32)
    ensures
        (TransferSession {
            block_size: 512,
            block_count: 1,
            direction: Direction::Read,
            mode: TransferMode::Pio,
        }).size_count_word() == 0x0001_0200,
        (TransferSession {
            block_size: 512,
            block_count: 1,
            direction: Direction::Read,
            mode: TransferMode::Pio,
        }).mode_bits() == 0x10,
        (TransferSession {
            block_size: 512,
            block_count: 1,
            direction: Direction::Read,
            mode: TransferMode::Dma { address },
        }).size_count_word() == 0x0001_0200,
        (TransferSession {
            block_size: 512,
            block_count: 1,
            direction: Direction::Read,
            mode: TransferMode::Dma { address },
        }).mode_bits() == 0x13,
{
    assert(512u32 | (1u32 << 16) == 0x0001_0200 && 0u32 | 0x10u32 | 0u32 == 0x10 && (0x01u32
        | 0x02u32) | 0x10u32 | 0u32 == 0x13) by (bit_vector);
}

} // verus!
