//! The data transfer engine: one block read word by word through the data
//! port, or moved by the controller into a buffer.

use vstd::prelude::*;
use crate::bus::{
    confined, is_load_from, is_store_to, lemma_chain, lemma_confined_elsewhere,
    lemma_loads_concat, lemma_loads_none, lemma_stores_concat, lemma_stores_none,
    lemma_stores_one, loads_from, stores_to, Access, Mmio, Port,
};
use crate::command::{
    command_exchange, issue, lemma_exchange_effect, trigger_word, CmdError, Command,
    Response, BLK_SIZE_CNT_ADDR, XFER_CMD_ADDR,
};
use crate::regs::{REG_BUF_DATA, REG_DMA_ADDR, SD_DRIVER_ADDR};
use crate::session::{Direction, TransferMode, TransferSession};
use crate::status::{
    lemma_status_wait_confined, status_wait, wait_status, InterruptStatus, Waited, BUF_RRDY, DMA_INT, ERR_INT, INT_STS_ADDR, POLL_SPINS,
    XFER_CMPL,
};

verus! {

/// Address of the data port.
pub const BUF_DATA_ADDR: usize = SD_DRIVER_ADDR + REG_BUF_DATA;

/// Address of the DMA address register.
pub const DMA_ADDR_ADDR: usize = SD_DRIVER_ADDR + REG_DMA_ADDR;

/// The command that reads one block.
pub const READ_SINGLE_BLOCK: u8 = 17;

/// Bytes in the block that a read moves.
pub const BLOCK_BYTES: usize = 512;

/// Words in the block that a read moves.
pub const BLOCK_WORDS: usize = 128;

/// What is written to acknowledge the end of a DMA transfer.
pub const DMA_DONE_ACK: u32 = 0x000A;

/// Why a transfer did not complete. The buffer then holds nothing a caller
/// may rely on.
#[derive(Clone, Copy, Debug, PartialEq, Eq, Structural)]
pub enum TransferError {
    /// The command that starts the transfer failed.
    Command(CmdError),
    /// The controller raised the error interrupt while data moved.
    DataError,
    /// The controller showed neither progress nor error within the poll
    /// budget.
    Timeout,
}

/// Byte `k` of `word`, the lowest being byte 0.
pub open spec fn byte_of(word: u32, k: int) -> u8 {
    if k == 0 {
        (word & 0xFF) as u8
    } else if k == 1 {
        ((word >> 8) & 0xFF) as u8
    } else if k == 2 {
        ((word >> 16) & 0xFF) as u8
    } else {
        ((word >> 24) & 0xFF) as u8
    }
}

/// The bytes of `words` in buffer order: word after word, each lowest byte
/// first.
pub open spec fn block_bytes(words: Seq<u32>) -> Seq<u8> {
    Seq::new(4 * words.len(), |i: int| byte_of(words[i / 4], i % 4))
}

/// `s` ends with the wait `wait` for the data port and the load of `value`
/// from it; `head` is what came before.
pub open spec fn word_step(
    s: Seq<Access>,
    head: Seq<Access>,
    wait: Seq<Access>,
    limit: u32,
    value: u32,
) -> bool {
    &&& s == head + wait.push(Access::Read { addr: BUF_DATA_ADDR, value })
    &&& status_wait(wait, BUF_RRDY, ERR_INT, limit, Waited::First)
}

/// `s` is the reading of `words` through the data port: for each word a
/// wait that ends with buffer-read-ready seen and acknowledged, then one
/// load from the data port.
pub open spec fn words_read(s: Seq<Access>, limit: u32, words: Seq<u32>) -> bool
    decreases words.len(),
{
    if words.len() == 0 {
        s.len() == 0
    } else {
        exists|head: Seq<Access>, wait: Seq<Access>|
            #[trigger] word_step(s, head, wait, limit, words.last()) && words_read(
                head,
                limit,
                words.drop_last(),
            )
    }
}

/// `s` is the data phase of a one-block read into `data` that ended in
/// `result`, split into the words that arrived, `got`, and the wait that
/// ended it, `last`.
pub open spec fn data_phase_parts(
    s: Seq<Access>,
    got: Seq<Access>,
    last: Seq<Access>,
    words: Seq<u32>,
    limit: u32,
    result: Result<(), TransferError>,
    data: Seq<u8>,
) -> bool {
    &&& s == got + last
    &&& words_read(got, limit, words)
    &&& words.len() <= BLOCK_WORDS
    &&& match result {
        Ok(_) => {
            &&& words.len() == BLOCK_WORDS
            &&& status_wait(last, XFER_CMPL, ERR_INT, limit, Waited::First)
            &&& data == block_bytes(words)
        },
        Err(e) => {
            &&& status_wait(
                last,
                if words.len() == BLOCK_WORDS {
                    XFER_CMPL
                } else {
                    BUF_RRDY
                },
                ERR_INT,
                limit,
                if e == TransferError::DataError {
                    Waited::Second
                } else {
                    Waited::TimedOut
                },
            )
            &&& !(e is Command)
        },
    }
}

/// `s` is the data phase of a one-block read into `data` that ended in
/// `result`: words are read until the block is full, then the end of the
/// transfer is awaited and acknowledged. The first error interrupt or
/// exhausted wait ends it.
pub open spec fn data_phase(s: Seq<Access>, limit: u32, result: Result<(), TransferError>, data: Seq<
    u8,
>) -> bool {
    exists|got: Seq<Access>, last: Seq<Access>, words: Seq<u32>|
        data_phase_parts(s, got, last, words, limit, result, data)
}

/// `s` splits into the store of block size and count, the command exchange
/// `exchange` that ended in `outcome`, and the data phase `moved`.
pub open spec fn pio_read_parts(
    s: Seq<Access>,
    exchange: Seq<Access>,
    moved: Seq<Access>,
    outcome: Result<Response, CmdError>,
    block: u32,
    limit: u32,
    result: Result<(), TransferError>,
    data: Seq<u8>,
) -> bool {
    let session = TransferSession {
        block_size: 512,
        block_count: 1,
        direction: Direction::Read,
        mode: TransferMode::Pio,
    };
    &&& s == seq![Access::Write { addr: BLK_SIZE_CNT_ADDR, value: session.size_count_word() }]
        + exchange + moved
    &&& command_exchange(
        exchange,
        Command { index: READ_SINGLE_BLOCK, argument: block },
        Some(session),
        limit,
        outcome,
    )
    &&& match outcome {
        Err(e) => moved.len() == 0 && result == Err::<(), TransferError>(TransferError::Command(e)),
        Ok(_) => data_phase(moved, limit, result, data),
    }
}

/// `s` is a read of block `block` by the processor that ended in `result`
/// with `data` in the buffer.
pub open spec fn pio_read_trace(
    s: Seq<Access>,
    block: u32,
    limit: u32,
    result: Result<(), TransferError>,
    data: Seq<u8>,
) -> bool {
    exists|exchange: Seq<Access>, moved: Seq<Access>, outcome: Result<Response, CmdError>|
        pio_read_parts(s, exchange, moved, outcome, block, limit, result, data)
}

/// Reading words through the data port loads exactly those words from it,
/// in order.
pub proof fn lemma_words_read_loads(s: Seq<Access>, limit: u32, words: Seq<u32>)
    requires
        words_read(s, limit, words),
    ensures
        loads_from(s, BUF_DATA_ADDR) == words,
    decreases words.len(),
{
    if words.len() == 0 {
        assert(words =~= Seq::<u32>::empty());
    } else {
        let (head, wait) = choose|head: Seq<Access>, wait: Seq<Access>|
            #[trigger] word_step(s, head, wait, limit, words.last()) && words_read(
                head,
                limit,
                words.drop_last(),
            );
        lemma_words_read_loads(head, limit, words.drop_last());
        lemma_status_wait_confined(wait, BUF_RRDY, ERR_INT, limit, Waited::First);
        lemma_confined_elsewhere(wait, INT_STS_ADDR, BUF_DATA_ADDR);
        let tail = wait.push(Access::Read { addr: BUF_DATA_ADDR, value: words.last() });
        assert(tail.drop_last() =~= wait);
        lemma_loads_concat(head, tail, BUF_DATA_ADDR);
        assert(loads_from(s, BUF_DATA_ADDR) =~= words.drop_last().push(words.last()));
        assert(words.drop_last().push(words.last()) =~= words);
    }
}

/// A successful read by the processor leaves in the buffer exactly what the
/// data port yielded, byte for byte and in the order it came: 128 loads from
/// the data port, each giving four bytes, lowest first.
pub proof fn lemma_pio_read_assembles(
    s: Seq<Access>,
    block: u32,
    limit: u32,
    result: Result<(), TransferError>,
    data: Seq<u8>,
)
    requires
        pio_read_trace(s, block, limit, result, data),
        result.is_ok(),
    ensures
        loads_from(s, BUF_DATA_ADDR).len() == BLOCK_WORDS,
        data == block_bytes(loads_from(s, BUF_DATA_ADDR)),
        data.len() == BLOCK_BYTES,
{
    let (exchange, moved, outcome) = choose|
        exchange: Seq<Access>,
        moved: Seq<Access>,
        outcome: Result<Response, CmdError>,
    |
        pio_read_parts(s, exchange, moved, outcome, block, limit, result, data);
    let session = TransferSession {
        block_size: 512,
        block_count: 1,
        direction: Direction::Read,
        mode: TransferMode::Pio,
    };
    let first = seq![Access::Write { addr: BLK_SIZE_CNT_ADDR, value: session.size_count_word() }];
    let (got, last, words) = choose|got: Seq<Access>, last: Seq<Access>, words: Seq<u32>|
        data_phase_parts(moved, got, last, words, limit, result, data);
    lemma_exchange_effect(
        exchange,
        Command { index: READ_SINGLE_BLOCK, argument: block },
        Some(session),
        limit,
        outcome,
    );
    lemma_words_read_loads(got, limit, words);
    lemma_status_wait_confined(last, XFER_CMPL, ERR_INT, limit, Waited::First);
    lemma_confined_elsewhere(last, INT_STS_ADDR, BUF_DATA_ADDR);
    assert forall|i: int| 0 <= i < first.len() implies !is_load_from(
        #[trigger] first[i],
        BUF_DATA_ADDR,
    ) by {}
    lemma_loads_none(first, BUF_DATA_ADDR);
    lemma_loads_concat(got, last, BUF_DATA_ADDR);
    lemma_loads_concat(first, exchange, BUF_DATA_ADDR);
    lemma_loads_concat(first + exchange, moved, BUF_DATA_ADDR);
    assert(loads_from(s, BUF_DATA_ADDR) =~= words);
}

/// Appends the four bytes of `word` to `buffer`, lowest first.
pub fn push_word(buffer: &mut Vec<u8>, word: u32)
    ensures
        final(buffer)@ == old(buffer)@ + seq![
            byte_of(word, 0),
            byte_of(word, 1),
            byte_of(word, 2),
            byte_of(word, 3),
        ],
{
    proof {
        assert(word & 0xFF < 256 && (word >> 8) & 0xFF < 256 && (word >> 16) & 0xFF < 256 && (word
            >> 24) & 0xFF < 256) by (bit_vector);
    }
    buffer.push((word & 0xFF) as u8);
    buffer.push(((word >> 8) & 0xFF) as u8);
    buffer.push(((word >> 16) & 0xFF) as u8);
    buffer.push(((word >> 24) & 0xFF) as u8);
    proof {
        assert(buffer@ =~= old(buffer)@ + seq![
            byte_of(word, 0),
            byte_of(word, 1),
            byte_of(word, 2),
            byte_of(word, 3),
        ]);
    }
}

/// Appending a word to the words appends its four bytes to the block.
pub proof fn lemma_block_bytes_push(words: Seq<u32>, word: u32)
    ensures
        block_bytes(words.push(word)) == block_bytes(words) + seq![
            byte_of(word, 0),
            byte_of(word, 1),
            byte_of(word, 2),
            byte_of(word, 3),
        ],
{
    let a = block_bytes(words.push(word));
    let b = block_bytes(words) + seq![
        byte_of(word, 0),
        byte_of(word, 1),
        byte_of(word, 2),
        byte_of(word, 3),
    ];
    assert(a.len() == b.len());
    assert forall|i: int| 0 <= i < a.len() implies a[i] == b[i] by {
        if i < 4 * words.len() {
            assert(i / 4 < words.len());
        } else {
            assert(i / 4 == words.len());
            assert(i % 4 == i - 4 * words.len());
        }
    }
    assert(a =~= b);
}

/// Moves the block that the card sends after a read command from the data
/// port into `buffer`, and waits for the end of the transfer.
pub fn read_block_data<B: Mmio>(port: &mut Port<B>, buffer: &mut Vec<u8>, limit: u32) -> (result:
    Result<(), TransferError>)
    ensures
        final(port).extends(old(port).trace()),
        data_phase(final(port).since(old(port).trace()), limit, result, final(buffer)@),
{
    let ghost t0 = port.trace();
    let ghost mut words: Seq<u32> = Seq::empty();
    buffer.clear();
    proof {
        assert(t0.take(t0.len() as int) =~= t0);
        assert(buffer@ =~= block_bytes(words));
    }
    let mut n: usize = 0;
    while n < BLOCK_WORDS
        invariant
            n <= BLOCK_WORDS,
            t0 == old(port).trace(),
            port.extends(t0),
            words.len() == n,
            words_read(port.since(t0), limit, words),
            buffer@ == block_bytes(words),
        decreases BLOCK_WORDS - n,
    {
        let ghost t1 = port.trace();
        let ghost got = port.since(t0);
        let waited = wait_status(port, BUF_RRDY, ERR_INT, limit);
        let ghost t2 = port.trace();
        proof {
            lemma_chain(t0, t1, t2);
        }
        match waited {
            Waited::First => {},
            Waited::Second => {
                proof {
                    assert(data_phase_parts(
                        port.since(t0),
                        got,
                        port.since(t1),
                        words,
                        limit,
                        Err(TransferError::DataError),
                        buffer@,
                    ));
                }
                return Err(TransferError::DataError);
            },
            Waited::TimedOut => {
                proof {
                    assert(data_phase_parts(
                        port.since(t0),
                        got,
                        port.since(t1),
                        words,
                        limit,
                        Err(TransferError::Timeout),
                        buffer@,
                    ));
                }
                return Err(TransferError::Timeout);
            },
        }
        let word = port.read(BUF_DATA_ADDR);
        push_word(buffer, word);
        proof {
            let t3 = port.trace();
            lemma_chain(t1, t2, t3);
            lemma_chain(t0, t1, t3);
            lemma_block_bytes_push(words, word);
            let wait = t2.skip(t1.len() as int);
            let next = words.push(word);
            assert(port.since(t1) =~= wait.push(Access::Read { addr: BUF_DATA_ADDR, value: word }));
            assert(next.drop_last() =~= words);
            assert(word_step(port.since(t0), got, wait, limit, next.last()));
            words = next;
        }
        n = n + 1;
    }
    let ghost t1 = port.trace();
    let ghost got = port.since(t0);
    let waited = wait_status(port, XFER_CMPL, ERR_INT, limit);
    proof {
        lemma_chain(t0, t1, port.trace());
    }
    let result = match waited {
        Waited::First => Ok(()),
        Waited::Second => Err(TransferError::DataError),
        Waited::TimedOut => Err(TransferError::Timeout),
    };
    proof {
        assert(data_phase_parts(
            port.since(t0),
            got,
            port.since(t1),
            words,
            limit,
            result,
            buffer@,
        ));
    }
    result
}

/// Reads block `block` of the card into `buffer`, word by word through the
/// data port. On success the buffer holds the 512 bytes of the block in the
/// order they arrived.
pub fn read<B: Mmio>(port: &mut Port<B>, block: u32, buffer: &mut Vec<u8>, limit: u32) -> (result:
    Result<(), TransferError>)
    ensures
        final(port).extends(old(port).trace()),
        pio_read_trace(final(port).since(old(port).trace()), block, limit, result, final(buffer)@),
        result.is_ok() ==> final(buffer)@ == block_bytes(
            loads_from(final(port).since(old(port).trace()), BUF_DATA_ADDR),
        ) && final(buffer)@.len() == BLOCK_BYTES,
{
    let ghost t0 = port.trace();
    let session = TransferSession::single_block_read();
    port.write(BLK_SIZE_CNT_ADDR, session.size_and_count());
    let ghost t1 = port.trace();
    let outcome = issue(port, READ_SINGLE_BLOCK, block, Some(session), limit);
    let ghost t2 = port.trace();
    proof {
        lemma_chain(t0, t1, t2);
    }
    match outcome {
        Err(e) => {
            proof {
                assert(port.since(t0) =~= t1.skip(t0.len() as int) + port.since(t1)
                    + Seq::<Access>::empty());
                assert(pio_read_parts(
                    port.since(t0),
                    port.since(t1),
                    Seq::empty(),
                    outcome,
                    block,
                    limit,
                    Err(TransferError::Command(e)),
                    buffer@,
                ));
            }
            Err(TransferError::Command(e))
        },
        Ok(_) => {
            let result = read_block_data(port, buffer, limit);
            proof {
                lemma_chain(t0, t2, port.trace());
                assert(port.since(t0) =~= t1.skip(t0.len() as int) + t2.skip(t1.len() as int)
                    + port.since(t2));
                assert(pio_read_parts(
                    port.since(t0),
                    t2.skip(t1.len() as int),
                    port.since(t2),
                    outcome,
                    block,
                    limit,
                    result,
                    buffer@,
                ));
                if result.is_ok() {
                    lemma_pio_read_assembles(port.since(t0), block, limit, result, buffer@);
                }
            }
            result
        },
    }
}

/// How the wait for the end of a DMA transfer ended.
#[derive(Clone, Copy, Debug, PartialEq, Eq, Structural)]
pub enum DmaWaited {
    /// Transfer complete was seen; both completion bits were acknowledged.
    Complete,
    /// The error interrupt was seen and acknowledged.
    Failed,
    /// Neither showed up within the poll budget.
    TimedOut,
}

/// `a` and `b` are one look at the status register during a DMA transfer
/// that found it neither complete nor failed, and what followed: the
/// acknowledgment of the DMA interrupt if that was raised, else a pause.
pub open spec fn dma_idle(a: Access, b: Access) -> bool {
    &&& a matches Access::Read { addr, value }
    &&& addr == INT_STS_ADDR
    &&& value & XFER_CMPL == 0
    &&& value & ERR_INT == 0
    &&& b == if value & DMA_INT != 0 {
        Access::Write { addr: INT_STS_ADDR, value: DMA_INT }
    } else {
        Access::Delay { spins: POLL_SPINS }
    }
}

/// `s` is a whole number of looks that found the DMA transfer still going.
pub open spec fn dma_idle_polls(s: Seq<Access>) -> bool {
    &&& s.len() % 2 == 0
    &&& forall|i: int| 0 <= i < s.len() / 2 ==> dma_idle(#[trigger] s[2 * i], s[2 * i + 1])
}

/// `s` is the wait for the end of a DMA transfer that ended as `outcome`
/// says, with at most `limit` loads of the status register. Success comes
/// only with a load that showed transfer complete.
pub open spec fn dma_wait(s: Seq<Access>, limit: u32, outcome: DmaWaited) -> bool {
    match outcome {
        DmaWaited::TimedOut => s.len() == 2 * limit && dma_idle_polls(s),
        DmaWaited::Complete => {
            &&& 2 <= s.len() <= 2 * limit
            &&& dma_idle_polls(s.take(s.len() - 2))
            &&& s[s.len() - 2] matches Access::Read { addr, value }
            &&& addr == INT_STS_ADDR
            &&& value & XFER_CMPL != 0
            &&& s[s.len() - 1] == Access::Write { addr: INT_STS_ADDR, value: DMA_DONE_ACK }
        },
        DmaWaited::Failed => {
            &&& 2 <= s.len() <= 2 * limit
            &&& dma_idle_polls(s.take(s.len() - 2))
            &&& s[s.len() - 2] matches Access::Read { addr, value }
            &&& addr == INT_STS_ADDR
            &&& value & XFER_CMPL == 0
            &&& value & ERR_INT != 0
            &&& s[s.len() - 1] == Access::Write { addr: INT_STS_ADDR, value: ERR_INT }
        },
    }
}

/// What a DMA read returns for each end of its wait.
pub open spec fn dma_result(outcome: DmaWaited) -> Result<(), TransferError> {
    match outcome {
        DmaWaited::Complete => Ok(()),
        DmaWaited::Failed => Err(TransferError::DataError),
        DmaWaited::TimedOut => Err(TransferError::Timeout),
    }
}

/// `s` splits into the stores of buffer address and of block size and
/// count, the command exchange `exchange` that ended in `outcome`, and the
/// wait `moved` for the controller to finish.
pub open spec fn dma_read_parts(
    s: Seq<Access>,
    exchange: Seq<Access>,
    moved: Seq<Access>,
    outcome: Result<Response, CmdError>,
    waited: DmaWaited,
    address: u32,
    block: u32,
    limit: u32,
    result: Result<(), TransferError>,
) -> bool {
    let session = TransferSession {
        block_size: 512,
        block_count: 1,
        direction: Direction::Read,
        mode: TransferMode::Dma { address },
    };
    &&& s == seq![
        Access::Write { addr: DMA_ADDR_ADDR, value: address },
        Access::Write { addr: BLK_SIZE_CNT_ADDR, value: session.size_count_word() },
    ] + exchange + moved
    &&& command_exchange(
        exchange,
        Command { index: READ_SINGLE_BLOCK, argument: block },
        Some(session),
        limit,
        outcome,
    )
    &&& match outcome {
        Err(e) => moved.len() == 0 && result == Err::<(), TransferError>(TransferError::Command(e)),
        Ok(_) => dma_wait(moved, limit, waited) && result == dma_result(waited),
    }
}

/// `s` is a read of block `block` by DMA into the buffer at `address` that
/// ended in `result`.
pub open spec fn dma_read_trace(
    s: Seq<Access>,
    address: u32,
    block: u32,
    limit: u32,
    result: Result<(), TransferError>,
) -> bool {
    exists|
        exchange: Seq<Access>,
        moved: Seq<Access>,
        outcome: Result<Response, CmdError>,
        waited: DmaWaited,
    |
        dma_read_parts(s, exchange, moved, outcome, waited, address, block, limit, result)
}

/// The wait for the end of a DMA transfer touches no register but the
/// status register.
pub proof fn lemma_dma_wait_confined(s: Seq<Access>, limit: u32, outcome: DmaWaited)
    requires
        dma_wait(s, limit, outcome),
    ensures
        forall|i: int| 0 <= i < s.len() ==> confined(#[trigger] s[i], INT_STS_ADDR),
{
    assert forall|i: int| 0 <= i < s.len() implies confined(#[trigger] s[i], INT_STS_ADDR) by {
        let k = i / 2;
        if outcome == DmaWaited::TimedOut {
            assert(dma_idle(s[2 * k], s[2 * k + 1]));
        } else if i < s.len() - 2 {
            let head = s.take(s.len() - 2);
            assert(head[2 * k] == s[2 * k]);
            assert(head[2 * k + 1] == s[2 * k + 1]);
            assert(dma_idle(head[2 * k], head[2 * k + 1]));
        }
    }
}

/// What a read by DMA does, whatever the hardware answered.
///
/// The buffer address is written exactly once, before anything else. At
/// most one command is issued, and exactly one unless the controller stayed
/// inhibited. Success is returned only if the last load showed transfer
/// complete, which was then acknowledged. The data port is never read.
pub proof fn lemma_dma_read_effect(
    s: Seq<Access>,
    address: u32,
    block: u32,
    limit: u32,
    result: Result<(), TransferError>,
)
    requires
        dma_read_trace(s, address, block, limit, result),
    ensures
        s.len() >= 2,
        s[0] == (Access::Write { addr: DMA_ADDR_ADDR, value: address }),
        stores_to(s, DMA_ADDR_ADDR) == seq![address],
        stores_to(s, XFER_CMD_ADDR) == if result == Err::<(), TransferError>(
            TransferError::Command(CmdError::Busy),
        ) {
            Seq::<u32>::empty()
        } else {
            seq![
                trigger_word(
                    Command { index: READ_SINGLE_BLOCK, argument: block },
                    Some(
                        TransferSession {
                            block_size: 512,
                            block_count: 1,
                            direction: Direction::Read,
                            mode: TransferMode::Dma { address },
                        },
                    ),
                ),
            ]
        },
        result.is_ok() ==> (s[s.len() - 2] matches Access::Read { addr, value } && addr
            == INT_STS_ADDR && value & XFER_CMPL != 0) && s[s.len() - 1] == (Access::Write {
            addr: INT_STS_ADDR,
            value: DMA_DONE_ACK,
        }),
        loads_from(s, BUF_DATA_ADDR) == Seq::<u32>::empty(),
{
    let (exchange, moved, outcome, waited) = choose|
        exchange: Seq<Access>,
        moved: Seq<Access>,
        outcome: Result<Response, CmdError>,
        waited: DmaWaited,
    |
        dma_read_parts(s, exchange, moved, outcome, waited, address, block, limit, result);
    let session = TransferSession {
        block_size: 512,
        block_count: 1,
        direction: Direction::Read,
        mode: TransferMode::Dma { address },
    };
    let cmd = Command { index: READ_SINGLE_BLOCK, argument: block };
    let first = seq![
        Access::Write { addr: DMA_ADDR_ADDR, value: address },
        Access::Write { addr: BLK_SIZE_CNT_ADDR, value: session.size_count_word() },
    ];
    assert(s =~= first + exchange + moved);
    lemma_exchange_effect(exchange, cmd, Some(session), limit, outcome);
    assert forall|i: int| 0 <= i < first.len() implies !is_load_from(
        #[trigger] first[i],
        BUF_DATA_ADDR,
    ) && !is_store_to(first[i], XFER_CMD_ADDR) && (i != 0 ==> !is_store_to(
        first[i],
        DMA_ADDR_ADDR,
    )) by {}
    lemma_loads_none(first, BUF_DATA_ADDR);
    lemma_stores_none(first, XFER_CMD_ADDR);
    lemma_stores_one(first, DMA_ADDR_ADDR, 0, address);
    if outcome.is_ok() {
        lemma_dma_wait_confined(moved, limit, waited);
    }
    lemma_confined_elsewhere(moved, INT_STS_ADDR, BUF_DATA_ADDR);
    lemma_confined_elsewhere(moved, INT_STS_ADDR, XFER_CMD_ADDR);
    lemma_confined_elsewhere(moved, INT_STS_ADDR, DMA_ADDR_ADDR);
    lemma_loads_concat(first, exchange, BUF_DATA_ADDR);
    lemma_loads_concat(first + exchange, moved, BUF_DATA_ADDR);
    lemma_stores_concat(first, exchange, XFER_CMD_ADDR);
    lemma_stores_concat(first + exchange, moved, XFER_CMD_ADDR);
    lemma_stores_concat(first, exchange, DMA_ADDR_ADDR);
    lemma_stores_concat(first + exchange, moved, DMA_ADDR_ADDR);
    assert(stores_to(s, DMA_ADDR_ADDR) =~= seq![address]);
    assert(loads_from(s, BUF_DATA_ADDR) =~= Seq::<u32>::empty());
    if outcome == Err::<Response, CmdError>(CmdError::Busy) {
        assert(stores_to(s, XFER_CMD_ADDR) =~= Seq::<u32>::empty());
    } else {
        assert(stores_to(s, XFER_CMD_ADDR) =~= seq![trigger_word(cmd, Some(session))]);
    }
}

/// Polls the status register until the DMA transfer is complete or failed.
/// A DMA interrupt on the way is acknowledged and the wait goes on.
pub fn wait_dma<B: Mmio>(port: &mut Port<B>, limit: u32) -> (outcome: DmaWaited)
    ensures
        final(port).extends(old(port).trace()),
        dma_wait(final(port).since(old(port).trace()), limit, outcome),
{
    let ghost t0 = port.trace();
    let mut polls: u32 = 0;
    proof {
        assert(t0.take(t0.len() as int) =~= t0);
    }
    while polls < limit
        invariant
            polls <= limit,
            t0 == old(port).trace(),
            port.extends(t0),
            port.since(t0).len() == 2 * polls,
            dma_idle_polls(port.since(t0)),
        decreases limit - polls,
    {
        let ghost t1 = port.trace();
        let status = InterruptStatus::new(port.read(INT_STS_ADDR));
        let ghost t2 = port.trace();
        if status.is_set(XFER_CMPL) {
            port.write(INT_STS_ADDR, XFER_CMPL | DMA_INT);
            proof {
                assert(0x0002u32 | 0x0008u32 == 0x000Au32) by (bit_vector);
                lemma_chain(t1, t2, port.trace());
                lemma_chain(t0, t1, port.trace());
            }
            return DmaWaited::Complete;
        }
        if status.is_set(ERR_INT) {
            port.write(INT_STS_ADDR, ERR_INT);
            proof {
                lemma_chain(t1, t2, port.trace());
                lemma_chain(t0, t1, port.trace());
            }
            return DmaWaited::Failed;
        }
        if status.is_set(DMA_INT) {
            port.write(INT_STS_ADDR, DMA_INT);
        } else {
            port.delay(POLL_SPINS);
        }
        proof {
            lemma_chain(t1, t2, port.trace());
            lemma_chain(t0, t1, port.trace());
            let s = port.since(t0);
            let before = t1.skip(t0.len() as int);
            assert forall|i: int| 0 <= i < s.len() / 2 implies dma_idle(
                #[trigger] s[2 * i],
                s[2 * i + 1],
            ) by {
                if i < polls {
                    assert(dma_idle(before[2 * i], before[2 * i + 1]));
                }
            }
        }
        polls = polls + 1;
    }
    DmaWaited::TimedOut
}

/// Reads block `block` of the card by DMA into the physical buffer at
/// `address`. The address is programmed once, before the one command that
/// starts the transfer.
pub fn dma_read<B: Mmio>(port: &mut Port<B>, address: u32, block: u32, limit: u32) -> (result:
    Result<(), TransferError>)
    ensures
        final(port).extends(old(port).trace()),
        dma_read_trace(final(port).since(old(port).trace()), address, block, limit, result),
        stores_to(final(port).since(old(port).trace()), DMA_ADDR_ADDR) == seq![address],
        stores_to(final(port).since(old(port).trace()), XFER_CMD_ADDR).len() <= 1,
{
    let ghost t0 = port.trace();
    let session = TransferSession::single_block_dma_read(address);
    port.write(DMA_ADDR_ADDR, address);
    let ghost ta = port.trace();
    port.write(BLK_SIZE_CNT_ADDR, session.size_and_count());
    let ghost t1 = port.trace();
    let outcome = issue(port, READ_SINGLE_BLOCK, block, Some(session), limit);
    let ghost t2 = port.trace();
    proof {
        lemma_chain(t0, ta, t1);
        lemma_chain(t0, t1, t2);
        assert(t1.skip(t0.len() as int) =~= seq![
            Access::Write { addr: DMA_ADDR_ADDR, value: address },
            Access::Write { addr: BLK_SIZE_CNT_ADDR, value: session.size_count_word() },
        ]);
    }
    match outcome {
        Err(e) => {
            proof {
                assert(port.since(t0) =~= t1.skip(t0.len() as int) + port.since(t1)
                    + Seq::<Access>::empty());
                assert(dma_read_parts(
                    port.since(t0),
                    port.since(t1),
                    Seq::empty(),
                    outcome,
                    DmaWaited::TimedOut,
                    address,
                    block,
                    limit,
                    Err(TransferError::Command(e)),
                ));
                lemma_dma_read_effect(
                    port.since(t0),
                    address,
                    block,
                    limit,
                    Err(TransferError::Command(e)),
                );
            }
            Err(TransferError::Command(e))
        },
        Ok(_) => {
            let waited = wait_dma(port, limit);
            let result = match waited {
                DmaWaited::Complete => Ok(()),
                DmaWaited::Failed => Err(TransferError::DataError),
                DmaWaited::TimedOut => Err(TransferError::Timeout),
            };
            proof {
                lemma_chain(t0, t2, port.trace());
                assert(port.since(t0) =~= t1.skip(t0.len() as int) + t2.skip(t1.len() as int)
                    + port.since(t2));
                assert(dma_read_parts(
                    port.since(t0),
                    t2.skip(t1.len() as int),
                    port.since(t2),
                    outcome,
                    waited,
                    address,
                    block,
                    limit,
                    result,
                ));
                lemma_dma_read_effect(port.since(t0), address, block, limit, result);
            }
            result
        },
    }
}

} // verus!
