//! The bring-up sequencer: from an empty slot to a card that is identified,
//! selected and ready for transfers.

use vstd::prelude::*;
use crate::bus::{
    lemma_chain, lemma_join, lemma_pauses_concat, lemma_stores_concat, pauses, stores_to, Access, Mmio, Port,
};
use crate::command::{
    command_exchange, issue, command_word, lemma_exchange_effect, lemma_exchange_not_busy,
    lemma_exchange_pauses, never_inhibited, CmdError, Command, PresentState, Response,
    BLK_SIZE_CNT_ADDR, CARD_INSERTED, INHIBIT_MASK, PRESENT_STATE_ADDR, XFER_CMD_ADDR,
};
use crate::power::{
    clock_trace, enable_clock, pad_settings, pad_trace, power_config, power_trace, reset_config,
    reset_trace, ClockError, PowerLevel, HOST_CTL1_ADDR,
};
use crate::regs::{
    mmio_clrsetbits_32, update_at, REG_CAPABILITIES1, REG_CAPABILITIES2, SD_DRIVER_ADDR,
};

verus! {

pub const CAPABILITIES1_ADDR: usize = SD_DRIVER_ADDR + REG_CAPABILITIES1;

pub const CAPABILITIES2_ADDR: usize = SD_DRIVER_ADDR + REG_CAPABILITIES2;

/// The response to the operating-conditions command says the card has
/// finished powering up.
pub const CARD_READY: u32 = 0x8000_0000;

/// The relative card address in the response to the address command.
pub const RCA_MASK: u32 = 0xFFFF_0000;

/// The check pattern and voltage range sent with the interface-condition
/// command.
pub const IF_COND_ARG: u32 = 0x1AA;

/// The voltage window and the block-addressing bit sent with the
/// operating-conditions command.
pub const OP_COND_ARG: u32 = 0x40FF_8000;

/// Idle iterations between two attempts at the operating conditions.
pub const RETRY_SPINS: u32 = 0x1000_0000;

/// The divider the bus clock is started with.
pub const INIT_DIVIDER: u8 = 4;

/// The transfer block size field of the block size and count register.
pub const BLK_SIZE_MASK: u32 = 0x0000_0FFF;

/// The block size set at bring-up.
pub const INIT_BLOCK_SIZE: u32 = 0x200;

pub const GO_IDLE: u8 = 0;

pub const ALL_SEND_CID: u8 = 2;

pub const SEND_RELATIVE_ADDR: u8 = 3;

pub const SELECT_CARD: u8 = 7;

pub const SEND_IF_COND: u8 = 8;

pub const SEND_CSD: u8 = 9;

pub const SD_SEND_OP_COND: u8 = 41;

pub const SEND_SCR: u8 = 51;

pub const APP_CMD: u8 = 55;

/// How far the bring-up of a card has come.
#[derive(Clone, Copy, Debug, PartialEq, Eq, Structural)]
pub enum CardState {
    Absent,
    Detected,
    PowerConfigured,
    ClockStable,
    VoltageNegotiated,
    Identified,
    Selected,
    Ready,
}

impl CardState {
    /// The position of the state in the bring-up order.
    pub open spec fn rank(self) -> nat {
        match self {
            CardState::Absent => 0,
            CardState::Detected => 1,
            CardState::PowerConfigured => 2,
            CardState::ClockStable => 3,
            CardState::VoltageNegotiated => 4,
            CardState::Identified => 5,
            CardState::Selected => 6,
            CardState::Ready => 7,
        }
    }

    /// Computes `rank`.
    pub fn order(self) -> (n: u8)
        ensures
            n == self.rank(),
    {
        match self {
            CardState::Absent => 0,
            CardState::Detected => 1,
            CardState::PowerConfigured => 2,
            CardState::ClockStable => 3,
            CardState::VoltageNegotiated => 4,
            CardState::Identified => 5,
            CardState::Selected => 6,
            CardState::Ready => 7,
        }
    }

    /// The state that follows in the bring-up order; `Ready` is the last.
    pub fn next(self) -> (state: CardState)
        ensures
            state.rank() == (if self == CardState::Ready {
                7
            } else {
                self.rank() + 1
            }),
    {
        match self {
            CardState::Absent => CardState::Detected,
            CardState::Detected => CardState::PowerConfigured,
            CardState::PowerConfigured => CardState::ClockStable,
            CardState::ClockStable => CardState::VoltageNegotiated,
            CardState::VoltageNegotiated => CardState::Identified,
            CardState::Identified => CardState::Selected,
            CardState::Selected => CardState::Ready,
            CardState::Ready => CardState::Ready,
        }
    }
}

/// Why the bring-up stopped before the card was ready.
#[derive(Clone, Copy, Debug, PartialEq, Eq, Structural)]
pub enum BringUpError {
    /// No card sits in the slot.
    CardAbsent,
    /// The internal oscillator did not become stable.
    ClockUnstable,
    /// The card did not report ready within the allowed attempts.
    VoltageNegotiationFailed,
}

/// The bounds on waiting during bring-up.
#[derive(Clone, Copy, Debug, PartialEq, Eq, Structural)]
pub struct Policy {
    /// Most loads of a register in one wait.
    pub poll_limit: u32,
    /// Most attempts at the operating conditions.
    pub retry_limit: u32,
}

/// The capability registers and the host control register, as read.
#[derive(Clone, Copy, Debug, PartialEq, Eq, Structural)]
pub struct SdCaps {
    pub capabilities1: u32,
    pub capabilities2: u32,
    pub host_control: u32,
}

impl SdCaps {
    /// The largest block the controller takes, from the two-bit field at
    /// bit 16 of the first capability word: 512, 1024 or 2048 bytes.
    pub open spec fn max_block(self) -> u16 {
        let code = (self.capabilities1 >> 16) & 3;
        if code == 0 {
            512
        } else if code == 1 {
            1024
        } else {
            2048
        }
    }

    /// Computes `max_block`.
    pub fn max_block_size(self) -> (n: u16)
        ensures
            n == self.max_block(),
    {
        let code = (self.capabilities1 >> 16) & 3;
        if code == 0 {
            512
        } else if code == 1 {
            1024
        } else {
            2048
        }
    }
}

/// What the identification commands brought back. A command that failed
/// leaves `None`, and the sequence went on without it.
#[derive(Clone, Copy, Debug, PartialEq, Eq, Structural)]
pub struct Identity {
    /// The card identification, from the response to `ALL_SEND_CID`.
    pub cid: Option<Response>,
    /// The relative card address, in the high half; zero if the card gave
    /// none.
    pub rca: u32,
    /// The card-specific data, from the response to `SEND_CSD`.
    pub csd: Option<Response>,
    /// Whether the card accepted its selection.
    pub selected: bool,
    /// The response to the read of the configuration register.
    pub scr: Option<Response>,
    /// How many of the six commands failed.
    pub failures: u8,
}

/// The outcome of a bring-up.
#[derive(Clone, Copy, Debug, PartialEq, Eq, Structural)]
pub struct BringUp {
    /// The last state reached.
    pub state: CardState,
    /// Why it went no further, if it did not reach `Ready`.
    pub error: Option<BringUpError>,
    /// The controller's capabilities, once read.
    pub caps: Option<SdCaps>,
    /// The operating conditions the card reported, once negotiated.
    pub ocr: u32,
    /// What identification brought back, once done.
    pub identity: Option<Identity>,
    /// How many commands failed in all; the bring-up went on after each.
    pub failures: u64,
}

/// Says whether a card sits in the slot, from one load of the present
/// state.
pub fn check_sd<B: Mmio>(port: &mut Port<B>) -> (inserted: bool)
    ensures
        final(port).extends(old(port).trace()),
        final(port).since(old(port).trace()).len() == 1,
        final(port).since(old(port).trace())[0] matches Access::Read { addr, value } && addr
            == PRESENT_STATE_ADDR && inserted == (value & CARD_INSERTED != 0),
{
    PresentState::new(port.read(PRESENT_STATE_ADDR)).card_inserted()
}

/// Reads the two capability registers and the host control register.
pub fn get_sd_caps<B: Mmio>(port: &mut Port<B>) -> (caps: SdCaps)
    ensures
        final(port).extends(old(port).trace()),
        final(port).since(old(port).trace()) == seq![
            Access::Read { addr: CAPABILITIES1_ADDR, value: caps.capabilities1 },
            Access::Read { addr: CAPABILITIES2_ADDR, value: caps.capabilities2 },
            Access::Read { addr: HOST_CTL1_ADDR, value: caps.host_control },
        ],
{
    let ghost t0 = port.trace();
    let capabilities1 = port.read(CAPABILITIES1_ADDR);
    let ghost t1 = port.trace();
    let capabilities2 = port.read(CAPABILITIES2_ADDR);
    let ghost t2 = port.trace();
    let host_control = port.read(HOST_CTL1_ADDR);
    proof {
        lemma_chain(t0, t1, t2);
        lemma_chain(t0, t2, port.trace());
        assert(port.since(t0) =~= seq![
            Access::Read { addr: CAPABILITIES1_ADDR, value: capabilities1 },
            Access::Read { addr: CAPABILITIES2_ADDR, value: capabilities2 },
            Access::Read { addr: HOST_CTL1_ADDR, value: host_control },
        ]);
    }
    SdCaps { capabilities1, capabilities2, host_control }
}

/// The card answered the operating-conditions command and reports that it
/// has finished powering up.
pub open spec fn card_ready(result: Result<Response, CmdError>) -> bool {
    result matches Ok(r) && r.resp1_0 & CARD_READY != 0
}

/// One if the command failed, zero if it completed.
pub open spec fn failed(result: Result<Response, CmdError>) -> nat {
    if result.is_err() {
        1
    } else {
        0
    }
}

/// `s` is the application-command prefix `a` that ended in `prefix`,
/// followed by the operating-conditions command `b` that ended in `answer`.
pub open spec fn attempt_parts(
    s: Seq<Access>,
    a: Seq<Access>,
    b: Seq<Access>,
    limit: u32,
    prefix: Result<Response, CmdError>,
    answer: Result<Response, CmdError>,
) -> bool {
    &&& s == a + b
    &&& command_exchange(a, Command { index: APP_CMD, argument: 0 }, None, limit, prefix)
    &&& command_exchange(
        b,
        Command { index: SD_SEND_OP_COND, argument: OP_COND_ARG },
        None,
        limit,
        answer,
    )
}

/// `s` is one attempt at the operating conditions: the application-command
/// prefix, which ended in `prefix`, and the command itself, which ended in
/// `answer`.
pub open spec fn attempt(
    s: Seq<Access>,
    limit: u32,
    prefix: Result<Response, CmdError>,
    answer: Result<Response, CmdError>,
) -> bool {
    exists|a: Seq<Access>, b: Seq<Access>| attempt_parts(s, a, b, limit, prefix, answer)
}

/// `s` ends with the attempt `x` that did not find the card ready, and the
/// pause after it; `head` is what came before.
pub open spec fn failed_attempt(
    s: Seq<Access>,
    head: Seq<Access>,
    x: Seq<Access>,
    limit: u32,
    prefix: Result<Response, CmdError>,
    answer: Result<Response, CmdError>,
) -> bool {
    &&& s == head + x.push(Access::Delay { spins: RETRY_SPINS })
    &&& attempt(x, limit, prefix, answer)
    &&& !card_ready(answer)
}

/// `s` is `k` attempts in a row that did not find the card ready, each
/// followed by a pause, in which `f` commands failed.
pub open spec fn failed_attempts(s: Seq<Access>, limit: u32, k: nat, f: nat) -> bool
    decreases k,
{
    if k == 0 {
        s.len() == 0 && f == 0
    } else {
        exists|
            head: Seq<Access>,
            x: Seq<Access>,
            prefix: Result<Response, CmdError>,
            answer: Result<Response, CmdError>,
        |
            #[trigger] failed_attempt(s, head, x, limit, prefix, answer) && f >= failed(prefix)
                + failed(answer) && failed_attempts(
                head,
                limit,
                (k - 1) as nat,
                (f - failed(prefix) - failed(answer)) as nat,
            )
    }
}

/// How the retry loop of the voltage negotiation ended.
#[derive(Clone, Copy, Debug, PartialEq, Eq)]
pub struct Negotiation {
    /// What the card reported once ready, or why there is nothing to report.
    pub result: Result<u32, BringUpError>,
    /// How many commands failed on the way.
    pub failures: u64,
}

/// `s` is the retry loop of the voltage negotiation: `k` attempts that did
/// not find the card ready, held in `head`, in which `f` commands failed,
/// and for success one more, `x`, that did and brought `answer`.
pub open spec fn retry_parts(
    s: Seq<Access>,
    head: Seq<Access>,
    x: Seq<Access>,
    k: nat,
    f: nat,
    prefix: Result<Response, CmdError>,
    answer: Result<Response, CmdError>,
    policy: Policy,
    out: Negotiation,
) -> bool {
    &&& failed_attempts(head, policy.poll_limit, k, f)
    &&& match out.result {
        Ok(ocr) => {
            &&& s == head + x
            &&& k < policy.retry_limit
            &&& attempt(x, policy.poll_limit, prefix, answer)
            &&& answer matches Ok(r)
            &&& r.resp1_0 & CARD_READY != 0
            &&& ocr == r.resp1_0
            &&& out.failures == f + failed(prefix)
        },
        Err(e) => {
            &&& s == head
            &&& k == policy.retry_limit
            &&& e == BringUpError::VoltageNegotiationFailed
            &&& out.failures == f
        },
    }
}

/// `s` is the retry loop of the voltage negotiation that ended as `out`
/// says.
///
/// As many attempts are made as it takes to find the card ready: each
/// attempt before the last saw it not ready, the last saw it ready. With
/// `retry_limit` attempts made and none ready, the negotiation has failed.
/// Every command that failed on the way is counted.
pub open spec fn retry_loop(s: Seq<Access>, policy: Policy, out: Negotiation) -> bool {
    exists|
        head: Seq<Access>,
        x: Seq<Access>,
        k: nat,
        f: nat,
        prefix: Result<Response, CmdError>,
        answer: Result<Response, CmdError>,
    |
        retry_parts(s, head, x, k, f, prefix, answer, policy, out)
}

/// `s` is the reset command `a`, the interface-condition command `b`, and
/// the retry loop `c`, which ended as `tried` says.
pub open spec fn negotiation_parts(
    s: Seq<Access>,
    a: Seq<Access>,
    b: Seq<Access>,
    c: Seq<Access>,
    idle: Result<Response, CmdError>,
    cond: Result<Response, CmdError>,
    tried: Negotiation,
    policy: Policy,
    out: Negotiation,
) -> bool {
    &&& s == a + b + c
    &&& command_exchange(a, Command { index: GO_IDLE, argument: 0 }, None, policy.poll_limit, idle)
    &&& command_exchange(
        b,
        Command { index: SEND_IF_COND, argument: IF_COND_ARG },
        None,
        policy.poll_limit,
        cond,
    )
    &&& retry_loop(c, policy, tried)
    &&& out.result == tried.result
    &&& out.failures == failed(idle) + failed(cond) + tried.failures
}

/// `s` is a voltage negotiation that ended as `out` says: the card is
/// reset, told the interface condition, and asked for its operating
/// conditions until it reports ready. A failure of the first two commands
/// is counted and the negotiation goes on.
pub open spec fn negotiation(s: Seq<Access>, policy: Policy, out: Negotiation) -> bool {
    exists|
        a: Seq<Access>,
        b: Seq<Access>,
        c: Seq<Access>,
        idle: Result<Response, CmdError>,
        cond: Result<Response, CmdError>,
        tried: Negotiation,
    |
        negotiation_parts(s, a, b, c, idle, cond, tried, policy, out)
}

/// The words that `n` attempts at the operating conditions write to the
/// command register: the application-command prefix and the command itself,
/// in turn.
pub open spec fn attempt_words(n: nat) -> Seq<u32> {
    Seq::new(
        2 * n,
        |i: int|
            if i % 2 == 0 {
                command_word(APP_CMD)
            } else {
                command_word(SD_SEND_OP_COND)
            },
    )
}

/// If no load in a record shows an inhibit bit, none does in its parts.
pub proof fn lemma_never_inhibited_split(a: Seq<Access>, b: Seq<Access>)
    requires
        never_inhibited(a + b),
    ensures
        never_inhibited(a),
        never_inhibited(b),
{
    let s = a + b;
    assert forall|i: int| 0 <= i < a.len() implies (#[trigger] a[i] matches Access::Read {
        addr,
        value,
    } ==> addr == PRESENT_STATE_ADDR ==> value & INHIBIT_MASK == 0) by {
        assert(s[i] == a[i]);
    }
    assert forall|i: int| 0 <= i < b.len() implies (#[trigger] b[i] matches Access::Read {
        addr,
        value,
    } ==> addr == PRESENT_STATE_ADDR ==> value & INHIBIT_MASK == 0) by {
        assert(s[a.len() + i] == b[i]);
    }
}

/// One attempt on a controller that is never seen inhibited writes the two
/// command words, and does not pause as between attempts.
pub proof fn lemma_attempt_effect(
    x: Seq<Access>,
    limit: u32,
    prefix: Result<Response, CmdError>,
    answer: Result<Response, CmdError>,
)
    requires
        attempt(x, limit, prefix, answer),
        never_inhibited(x),
        limit >= 1,
    ensures
        stores_to(x, XFER_CMD_ADDR) == seq![command_word(APP_CMD), command_word(SD_SEND_OP_COND)],
        pauses(x, RETRY_SPINS) == 0,
{
    let (a, b) = choose|a: Seq<Access>, b: Seq<Access>|
        attempt_parts(x, a, b, limit, prefix, answer);
    let first = Command { index: APP_CMD, argument: 0 };
    let second = Command { index: SD_SEND_OP_COND, argument: OP_COND_ARG };
    lemma_never_inhibited_split(a, b);
    lemma_exchange_not_busy(a, first, None, limit, prefix);
    lemma_exchange_not_busy(b, second, None, limit, answer);
    lemma_exchange_effect(a, first, None, limit, prefix);
    lemma_exchange_effect(b, second, None, limit, answer);
    lemma_exchange_pauses(a, first, None, limit, prefix, RETRY_SPINS);
    lemma_exchange_pauses(b, second, None, limit, answer, RETRY_SPINS);
    lemma_stores_concat(a, b, XFER_CMD_ADDR);
    lemma_pauses_concat(a, b, RETRY_SPINS);
    assert(stores_to(x, XFER_CMD_ADDR) =~= seq![
        command_word(APP_CMD),
        command_word(SD_SEND_OP_COND),
    ]);
}

/// Attempts that did not find the card ready, on a controller that is never
/// seen inhibited: each wrote the two command words and was followed by one
/// pause, and no more commands failed than were sent.
pub proof fn lemma_failed_attempts_effect(s: Seq<Access>, limit: u32, k: nat, f: nat)
    requires
        failed_attempts(s, limit, k, f),
        never_inhibited(s),
        limit >= 1,
    ensures
        stores_to(s, XFER_CMD_ADDR) == attempt_words(k),
        pauses(s, RETRY_SPINS) == k,
    decreases k,
{
    if k == 0 {
        assert(stores_to(s, XFER_CMD_ADDR) =~= attempt_words(0));
    } else {
        let (head, x, prefix, answer) = choose|
            head: Seq<Access>,
            x: Seq<Access>,
            prefix: Result<Response, CmdError>,
            answer: Result<Response, CmdError>,
        |
            #[trigger] failed_attempt(s, head, x, limit, prefix, answer) && f >= failed(prefix)
                + failed(answer) && failed_attempts(
                head,
                limit,
                (k - 1) as nat,
                (f - failed(prefix) - failed(answer)) as nat,
            );
        let tail = x.push(Access::Delay { spins: RETRY_SPINS });
        let gap = seq![Access::Delay { spins: RETRY_SPINS }];
        assert(tail =~= x + gap);
        lemma_never_inhibited_split(head, tail);
        lemma_never_inhibited_split(x, gap);
        lemma_failed_attempts_effect(
            head,
            limit,
            (k - 1) as nat,
            (f - failed(prefix) - failed(answer)) as nat,
        );
        lemma_attempt_effect(x, limit, prefix, answer);
        assert(tail.drop_last() =~= x);
        lemma_stores_concat(head, tail, XFER_CMD_ADDR);
        lemma_pauses_concat(head, tail, RETRY_SPINS);
        assert(stores_to(s, XFER_CMD_ADDR) =~= attempt_words(k));
    }
}

/// No more commands fail in `k` attempts than are sent in them.
pub proof fn lemma_failures_bounded(s: Seq<Access>, limit: u32, k: nat, f: nat)
    requires
        failed_attempts(s, limit, k, f),
    ensures
        f <= 2 * k,
    decreases k,
{
    if k > 0 {
        let (head, x, prefix, answer) = choose|
            head: Seq<Access>,
            x: Seq<Access>,
            prefix: Result<Response, CmdError>,
            answer: Result<Response, CmdError>,
        |
            #[trigger] failed_attempt(s, head, x, limit, prefix, answer) && f >= failed(prefix)
                + failed(answer) && failed_attempts(
                head,
                limit,
                (k - 1) as nat,
                (f - failed(prefix) - failed(answer)) as nat,
            );
        lemma_failures_bounded(
            head,
            limit,
            (k - 1) as nat,
            (f - failed(prefix) - failed(answer)) as nat,
        );
    }
}

/// How many attempts the retry loop makes, seen from the bus, on a
/// controller that is never seen inhibited.
///
/// Every attempt that does not find the card ready is followed by one pause,
/// so the pauses count the answers that were not ready. The loop writes the
/// two command words once for each of them and, if it succeeds, once more
/// for the answer that was ready: exactly one pair per answer, and none
/// after the first ready one. If it fails, it made all the attempts it was
/// allowed.
pub proof fn lemma_retry_commands(s: Seq<Access>, policy: Policy, out: Negotiation)
    requires
        retry_loop(s, policy, out),
        never_inhibited(s),
        policy.poll_limit >= 1,
    ensures
        out.result.is_ok() ==> pauses(s, RETRY_SPINS) < policy.retry_limit && stores_to(
            s,
            XFER_CMD_ADDR,
        ) == attempt_words(pauses(s, RETRY_SPINS) + 1),
        out.result.is_err() ==> pauses(s, RETRY_SPINS) == policy.retry_limit && stores_to(
            s,
            XFER_CMD_ADDR,
        ) == attempt_words(policy.retry_limit as nat),
{
    let (head, x, k, f, prefix, answer) = choose|
        head: Seq<Access>,
        x: Seq<Access>,
        k: nat,
        f: nat,
        prefix: Result<Response, CmdError>,
        answer: Result<Response, CmdError>,
    |
        retry_parts(s, head, x, k, f, prefix, answer, policy, out);
    if out.result.is_ok() {
        lemma_never_inhibited_split(head, x);
        lemma_failed_attempts_effect(head, policy.poll_limit, k, f);
        lemma_attempt_effect(x, policy.poll_limit, prefix, answer);
        lemma_stores_concat(head, x, XFER_CMD_ADDR);
        lemma_pauses_concat(head, x, RETRY_SPINS);
        assert(stores_to(s, XFER_CMD_ADDR) =~= attempt_words(k + 1));
    } else {
        lemma_failed_attempts_effect(head, policy.poll_limit, k, f);
    }
}

/// Asks the card for its operating conditions until it reports ready, at
/// most `retry_limit` times. Returns what the card reported, and how many
/// commands failed.
pub fn negotiate_retry<B: Mmio>(port: &mut Port<B>, policy: Policy) -> (out: Negotiation)
    ensures
        final(port).extends(old(port).trace()),
        retry_loop(final(port).since(old(port).trace()), policy, out),
{
    let ghost t0 = port.trace();
    let limit = policy.poll_limit;
    let mut tries: u32 = 0;
    let mut failures: u64 = 0;
    proof {
        assert(t0.take(t0.len() as int) =~= t0);
    }
    while tries < policy.retry_limit
        invariant
            tries <= policy.retry_limit,
            limit == policy.poll_limit,
            t0 == old(port).trace(),
            port.extends(t0),
            failures <= 2 * tries,
            failed_attempts(port.since(t0), limit, tries as nat, failures as nat),
        decreases policy.retry_limit - tries,
    {
        let ghost t1 = port.trace();
        let ghost head = port.since(t0);
        let ghost before = failures;
        let prefix = issue(port, APP_CMD, 0, None, limit);
        let ghost t2 = port.trace();
        let answer = issue(port, SD_SEND_OP_COND, OP_COND_ARG, None, limit);
        let ghost t3 = port.trace();
        if prefix.is_err() {
            failures = failures + 1;
        }
        proof {
            lemma_join(t1, t2, t3);
            lemma_join(t0, t1, t3);
            assert(attempt_parts(
                t3.skip(t1.len() as int),
                t2.skip(t1.len() as int),
                t3.skip(t2.len() as int),
                limit,
                prefix,
                answer,
            ));
        }
        match answer {
            Ok(r) => {
                if r.resp1_0 & CARD_READY != 0 {
                    let out = Negotiation { result: Ok(r.resp1_0), failures };
                    proof {
                        assert(retry_parts(
                            port.since(t0),
                            head,
                            t3.skip(t1.len() as int),
                            tries as nat,
                            before as nat,
                            prefix,
                            answer,
                            policy,
                            out,
                        ));
                    }
                    return out;
                }
            },
            Err(_) => {
                failures = failures + 1;
            },
        }
        port.delay(RETRY_SPINS);
        proof {
            let t4 = port.trace();
            lemma_join(t1, t3, t4);
            lemma_join(t0, t1, t4);
            let x = t3.skip(t1.len() as int);
            assert(t4.skip(t1.len() as int) =~= x.push(Access::Delay { spins: RETRY_SPINS }));
            assert(failed_attempt(port.since(t0), head, x, limit, prefix, answer));
            assert(failures == before + failed(prefix) + failed(answer));
        }
        tries = tries + 1;
    }
    let out = Negotiation {
        result: Err(BringUpError::VoltageNegotiationFailed),
        failures,
    };
    proof {
        assert(retry_parts(
            port.since(t0),
            port.since(t0),
            Seq::empty(),
            tries as nat,
            failures as nat,
            Err(CmdError::Busy),
            Err(CmdError::Busy),
            policy,
            out,
        ));
    }
    out
}

/// A negotiation counts no more failures than it sent commands: two, and
/// two for each attempt it was allowed.
pub proof fn lemma_negotiation_failures(s: Seq<Access>, policy: Policy, out: Negotiation)
    requires
        negotiation(s, policy, out),
    ensures
        out.failures <= 2 + 2 * policy.retry_limit,
{
    let (a, b, c, idle, cond, tried) = choose|
        a: Seq<Access>,
        b: Seq<Access>,
        c: Seq<Access>,
        idle: Result<Response, CmdError>,
        cond: Result<Response, CmdError>,
        tried: Negotiation,
    |
        negotiation_parts(s, a, b, c, idle, cond, tried, policy, out);
    let (head, x, k, f, prefix, answer) = choose|
        head: Seq<Access>,
        x: Seq<Access>,
        k: nat,
        f: nat,
        prefix: Result<Response, CmdError>,
        answer: Result<Response, CmdError>,
    |
        retry_parts(c, head, x, k, f, prefix, answer, policy, tried);
    lemma_failures_bounded(head, policy.poll_limit, k, f);
}

/// Resets the card, tells it the interface condition, and negotiates the
/// operating voltage.
pub fn negotiate<B: Mmio>(port: &mut Port<B>, policy: Policy) -> (out: Negotiation)
    ensures
        final(port).extends(old(port).trace()),
        negotiation(final(port).since(old(port).trace()), policy, out),
        out.failures <= 2 + 2 * policy.retry_limit,
{
    let ghost t0 = port.trace();
    let idle = issue(port, GO_IDLE, 0, None, policy.poll_limit);
    let ghost t1 = port.trace();
    let cond = issue(port, SEND_IF_COND, IF_COND_ARG, None, policy.poll_limit);
    let ghost t2 = port.trace();
    let tried = negotiate_retry(port, policy);
    let ghost t3 = port.trace();
    let mut failures = tried.failures;
    proof {
        let (head, x, k, f, prefix, answer) = choose|
            head: Seq<Access>,
            x: Seq<Access>,
            k: nat,
            f: nat,
            prefix: Result<Response, CmdError>,
            answer: Result<Response, CmdError>,
        |
            retry_parts(t3.skip(t2.len() as int), head, x, k, f, prefix, answer, policy, tried);
        lemma_failures_bounded(head, policy.poll_limit, k, f);
    }
    if idle.is_err() {
        failures = failures + 1;
    }
    if cond.is_err() {
        failures = failures + 1;
    }
    let out = Negotiation { result: tried.result, failures };
    proof {
        lemma_join(t0, t1, t2);
        lemma_join(t0, t2, t3);
        assert(negotiation_parts(
            port.since(t0),
            t1.skip(t0.len() as int),
            t2.skip(t1.len() as int),
            t3.skip(t2.len() as int),
            idle,
            cond,
            tried,
            policy,
            out,
        ));
        lemma_negotiation_failures(port.since(t0), policy, out);
    }
    out
}

/// The response of a command that completed, or nothing.
pub open spec fn answer_of(result: Result<Response, CmdError>) -> Option<Response> {
    match result {
        Ok(r) => Some(r),
        Err(_) => None,
    }
}

/// The relative card address in the response to the address command; zero
/// if the command failed.
pub open spec fn rca_of(result: Result<Response, CmdError>) -> u32 {
    match result {
        Ok(r) => r.resp1_0 & RCA_MASK,
        Err(_) => 0,
    }
}

/// The commands of the identification, in order, given the relative card
/// address that the second of them brought.
pub open spec fn identification_command(i: int, rca: u32) -> Command {
    if i == 0 {
        Command { index: ALL_SEND_CID, argument: 0 }
    } else if i == 1 {
        Command { index: SEND_RELATIVE_ADDR, argument: 0 }
    } else if i == 2 {
        Command { index: SEND_CSD, argument: rca }
    } else if i == 3 {
        Command { index: SELECT_CARD, argument: rca }
    } else if i == 4 {
        Command { index: APP_CMD, argument: 0 }
    } else {
        Command { index: SEND_SCR, argument: 0 }
    }
}

/// `s` is the six exchanges `x` of the identification, one after the other,
/// which ended in `r`, and `identity` is what they brought.
pub open spec fn identification_parts(
    s: Seq<Access>,
    x: Seq<Seq<Access>>,
    r: Seq<Result<Response, CmdError>>,
    limit: u32,
    identity: Identity,
) -> bool {
    &&& x.len() == 6
    &&& r.len() == 6
    &&& s == x[0] + x[1] + x[2] + x[3] + x[4] + x[5]
    &&& forall|i: int|
        0 <= i < 6 ==> command_exchange(
            #[trigger] x[i],
            identification_command(i, rca_of(r[1])),
            None,
            limit,
            r[i],
        )
    &&& identity.cid == answer_of(r[0])
    &&& identity.rca == rca_of(r[1])
    &&& identity.csd == answer_of(r[2])
    &&& identity.selected == r[3].is_ok()
    &&& identity.scr == answer_of(r[5])
    &&& identity.failures == failed(r[0]) + failed(r[1]) + failed(r[2]) + failed(r[3]) + failed(
        r[4],
    ) + failed(r[5])
}

/// `s` is an identification that brought `identity`: the card is asked for
/// its identification and for a relative address, then, under that address,
/// for its specific data and selected, and last asked for its configuration
/// register. A command that fails is counted, and the next one is sent all
/// the same.
pub open spec fn identification(s: Seq<Access>, limit: u32, identity: Identity) -> bool {
    exists|x: Seq<Seq<Access>>, r: Seq<Result<Response, CmdError>>|
        identification_parts(s, x, r, limit, identity)
}

/// Identifies and selects the card after the voltage is negotiated.
pub fn identify<B: Mmio>(port: &mut Port<B>, limit: u32) -> (identity: Identity)
    ensures
        final(port).extends(old(port).trace()),
        identification(final(port).since(old(port).trace()), limit, identity),
{
    let ghost t0 = port.trace();
    let r0 = issue(port, ALL_SEND_CID, 0, None, limit);
    let ghost t1 = port.trace();
    let r1 = issue(port, SEND_RELATIVE_ADDR, 0, None, limit);
    let ghost t2 = port.trace();
    let rca: u32 = match r1 {
        Ok(r) => r.resp1_0 & RCA_MASK,
        Err(_) => 0,
    };
    let r2 = issue(port, SEND_CSD, rca, None, limit);
    let ghost t3 = port.trace();
    let r3 = issue(port, SELECT_CARD, rca, None, limit);
    let ghost t4 = port.trace();
    let r4 = issue(port, APP_CMD, 0, None, limit);
    let ghost t5 = port.trace();
    let r5 = issue(port, SEND_SCR, 0, None, limit);
    let ghost t6 = port.trace();
    let mut failures: u8 = 0;
    if r0.is_err() {
        failures = failures + 1;
    }
    if r1.is_err() {
        failures = failures + 1;
    }
    if r2.is_err() {
        failures = failures + 1;
    }
    if r3.is_err() {
        failures = failures + 1;
    }
    if r4.is_err() {
        failures = failures + 1;
    }
    if r5.is_err() {
        failures = failures + 1;
    }
    let identity = Identity {
        cid: match r0 {
            Ok(r) => Some(r),
            Err(_) => None,
        },
        rca,
        csd: match r2 {
            Ok(r) => Some(r),
            Err(_) => None,
        },
        selected: r3.is_ok(),
        scr: match r5 {
            Ok(r) => Some(r),
            Err(_) => None,
        },
        failures,
    };
    proof {
        lemma_chain(t0, t1, t2);
        lemma_chain(t0, t2, t3);
        lemma_chain(t0, t3, t4);
        lemma_chain(t0, t4, t5);
        lemma_chain(t0, t5, t6);
        let x = seq![
            t1.skip(t0.len() as int),
            t2.skip(t1.len() as int),
            t3.skip(t2.len() as int),
            t4.skip(t3.len() as int),
            t5.skip(t4.len() as int),
            t6.skip(t5.len() as int),
        ];
        let r = seq![r0, r1, r2, r3, r4, r5];
        assert(identification_parts(port.since(t0), x, r, limit, identity));
    }
    identity
}

/// `s` is the configuration of the controller for a card that is present:
/// the pads are routed, the power rail is set to 3.3 V, the controller is
/// reset, the capabilities `caps` are read, and the clock is started, which
/// ended in `started`. If the clock came up, the block size is set last.
pub open spec fn configuration(
    s: Seq<Access>,
    limit: u32,
    caps: SdCaps,
    started: Result<(), ClockError>,
) -> bool {
    &&& s.len() >= 47
    &&& pad_trace(s.subrange(0, 25), false)
    &&& power_trace(s.subrange(25, 29), PowerLevel::V33)
    &&& reset_trace(s.subrange(29, 44))
    &&& s.subrange(44, 47) == seq![
        Access::Read { addr: CAPABILITIES1_ADDR, value: caps.capabilities1 },
        Access::Read { addr: CAPABILITIES2_ADDR, value: caps.capabilities2 },
        Access::Read { addr: HOST_CTL1_ADDR, value: caps.host_control },
    ]
    &&& match started {
        Err(_) => clock_trace(s.skip(47), INIT_DIVIDER, limit, started),
        Ok(_) => {
            &&& s.len() >= 49
            &&& clock_trace(s.subrange(47, s.len() - 2), INIT_DIVIDER, limit, started)
            &&& update_at(s, s.len() - 2, BLK_SIZE_CNT_ADDR, BLK_SIZE_MASK, INIT_BLOCK_SIZE)
        },
    }
}

/// Routes the pads, powers the bus, resets the controller, reads its
/// capabilities, starts the clock and sets the block size.
pub fn configure<B: Mmio>(port: &mut Port<B>, limit: u32) -> (out: (SdCaps, Result<(), ClockError>))
    ensures
        final(port).extends(old(port).trace()),
        configuration(final(port).since(old(port).trace()), limit, out.0, out.1),
{
    let ghost t1 = port.trace();
    pad_settings(port, false);
    let ghost t2 = port.trace();
    let _ = power_config(port, PowerLevel::V33);
    let ghost t3 = port.trace();
    reset_config(port);
    let ghost t4 = port.trace();
    let caps = get_sd_caps(port);
    let ghost t5 = port.trace();
    proof {
        lemma_chain(t1, t2, t3);
        lemma_chain(t1, t3, t4);
        lemma_chain(t1, t4, t5);
        let s = t5.skip(t1.len() as int);
        assert(s.subrange(0, 25) =~= t2.skip(t1.len() as int));
        assert(s.subrange(25, 29) =~= t3.skip(t2.len() as int));
        assert(s.subrange(29, 44) =~= t4.skip(t3.len() as int));
        assert(s.subrange(44, 47) =~= t5.skip(t4.len() as int));
    }
    let started = enable_clock(port, INIT_DIVIDER, limit);
    let ghost t6 = port.trace();
    proof {
        lemma_chain(t1, t5, t6);
        let s = t6.skip(t1.len() as int);
        let s5 = t5.skip(t1.len() as int);
        assert(s.subrange(0, 25) =~= s5.subrange(0, 25));
        assert(s.subrange(25, 29) =~= s5.subrange(25, 29));
        assert(s.subrange(29, 44) =~= s5.subrange(29, 44));
        assert(s.subrange(44, 47) =~= s5.subrange(44, 47));
        assert(s.skip(47) =~= t6.skip(t5.len() as int));
    }
    if started.is_err() {
        return (caps, started);
    }
    mmio_clrsetbits_32(port, BLK_SIZE_CNT_ADDR, BLK_SIZE_MASK, INIT_BLOCK_SIZE);
    proof {
        let t7 = port.trace();
        lemma_chain(t1, t6, t7);
        let s = t7.skip(t1.len() as int);
        let s6 = t6.skip(t1.len() as int);
        assert(s.subrange(0, 25) =~= s6.subrange(0, 25));
        assert(s.subrange(25, 29) =~= s6.subrange(25, 29));
        assert(s.subrange(29, 44) =~= s6.subrange(29, 44));
        assert(s.subrange(44, 47) =~= s6.subrange(44, 47));
        assert(s.subrange(47, s.len() - 2) =~= s6.skip(47));
    }
    (caps, started)
}

/// `s` is a bring-up that ended as `out` says, split after the look for the
/// card into the configuration `config`, the voltage negotiation `volt` and
/// the identification `ident`.
pub open spec fn bring_up_parts(
    s: Seq<Access>,
    config: Seq<Access>,
    volt: Seq<Access>,
    ident: Seq<Access>,
    started: Result<(), ClockError>,
    agreed: Negotiation,
    policy: Policy,
    out: BringUp,
) -> bool {
    &&& s.len() >= 1
    &&& s[0] matches Access::Read { addr, value }
    &&& addr == PRESENT_STATE_ADDR
    &&& if value & CARD_INSERTED == 0 {
        &&& s.len() == 1
        &&& out == (BringUp {
            state: CardState::Absent,
            error: Some(BringUpError::CardAbsent),
            caps: None,
            ocr: 0,
            identity: None,
            failures: 0,
        })
    } else {
        &&& s.skip(1) == config + volt + ident
        &&& out.caps matches Some(caps)
        &&& configuration(config, policy.poll_limit, caps, started)
        &&& match started {
            Err(_) => {
                &&& volt.len() == 0 && ident.len() == 0
                &&& out.state == CardState::PowerConfigured
                &&& out.error == Some(BringUpError::ClockUnstable)
                &&& out.ocr == 0
                &&& out.identity.is_none()
                &&& out.failures == 0
            },
            Ok(_) => {
                &&& negotiation(volt, policy, agreed)
                &&& match agreed.result {
                    Err(e) => {
                        &&& ident.len() == 0
                        &&& out.state == CardState::ClockStable
                        &&& out.error == Some(e)
                        &&& out.ocr == 0
                        &&& out.identity.is_none()
                        &&& out.failures == agreed.failures
                    },
                    Ok(ocr) => {
                        &&& out.state == CardState::Ready
                        &&& out.error.is_none()
                        &&& out.ocr == ocr
                        &&& out.identity matches Some(identity)
                        &&& identification(ident, policy.poll_limit, identity)
                        &&& out.failures == agreed.failures + identity.failures
                    },
                }
            },
        }
    }
}

/// `s` is a bring-up that ended as `out` says.
///
/// With no card in the slot it is the one load that found this out. With a
/// card it goes, in order, through the configuration of the controller, the
/// voltage negotiation and the identification, and stops where a step
/// cannot be completed. A command that fails is counted, and does not stop
/// it.
pub open spec fn bring_up(s: Seq<Access>, policy: Policy, out: BringUp) -> bool {
    exists|
        config: Seq<Access>,
        volt: Seq<Access>,
        ident: Seq<Access>,
        started: Result<(), ClockError>,
        agreed: Negotiation,
    |
        bring_up_parts(s, config, volt, ident, started, agreed, policy, out)
}

/// Where a bring-up can end, and what that says.
///
/// It ends in one of four states: `Absent`, `PowerConfigured`,
/// `ClockStable` or `Ready`. It reports an error exactly when it did not
/// reach `Ready`. It ends in `Absent` exactly when the first load of the
/// present state showed no card, and then that load is all that happened:
/// no register was written.
pub proof fn lemma_bring_up_outcome(s: Seq<Access>, policy: Policy, out: BringUp)
    requires
        bring_up(s, policy, out),
    ensures
        out.state == CardState::Absent || out.state == CardState::PowerConfigured || out.state
            == CardState::ClockStable || out.state == CardState::Ready,
        out.error.is_none() <==> out.state == CardState::Ready,
        out.identity.is_some() <==> out.state == CardState::Ready,
        out.caps.is_some() <==> out.state != CardState::Absent,
        s.len() >= 1,
        s[0] matches Access::Read { addr, value } && addr == PRESENT_STATE_ADDR && (out.state
            == CardState::Absent <==> value & CARD_INSERTED == 0),
        out.state == CardState::Absent ==> s.len() == 1 && out.error == Some(
            BringUpError::CardAbsent,
        ),
        out.state == CardState::PowerConfigured ==> out.error == Some(BringUpError::ClockUnstable),
        out.state == CardState::ClockStable ==> out.error == Some(
            BringUpError::VoltageNegotiationFailed,
        ),
{
    let (config, volt, ident, started, agreed) = choose|
        config: Seq<Access>,
        volt: Seq<Access>,
        ident: Seq<Access>,
        started: Result<(), ClockError>,
        agreed: Negotiation,
    |
        bring_up_parts(s, config, volt, ident, started, agreed, policy, out);
    if s[0]->Read_value & CARD_INSERTED != 0 && started.is_ok() && agreed.result.is_err() {
        let (a, b, c, idle, cond, tried) = choose|
            a: Seq<Access>,
            b: Seq<Access>,
            c: Seq<Access>,
            idle: Result<Response, CmdError>,
            cond: Result<Response, CmdError>,
            tried: Negotiation,
        |
            negotiation_parts(volt, a, b, c, idle, cond, tried, policy, agreed);
        let (head, x, k, f, prefix, answer) = choose|
            head: Seq<Access>,
            x: Seq<Access>,
            k: nat,
            f: nat,
            prefix: Result<Response, CmdError>,
            answer: Result<Response, CmdError>,
        |
            retry_parts(c, head, x, k, f, prefix, answer, policy, tried);
    }
}

/// Brings the card up, as far as it goes, and says how far that was.
pub fn init<B: Mmio>(port: &mut Port<B>, policy: Policy) -> (out: BringUp)
    ensures
        final(port).extends(old(port).trace()),
        bring_up(final(port).since(old(port).trace()), policy, out),
{
    let ghost t0 = port.trace();
    let ghost empty = Seq::<Access>::empty();
    let ghost none = Negotiation { result: Ok(0), failures: 0 };
    let state = CardState::Absent;
    if !check_sd(port) {
        let out = BringUp {
            state,
            error: Some(BringUpError::CardAbsent),
            caps: None,
            ocr: 0,
            identity: None,
            failures: 0,
        };
        proof {
            assert(bring_up_parts(port.since(t0), empty, empty, empty, Ok(()), none, policy, out));
        }
        return out;
    }
    let state = state.next();
    let ghost t1 = port.trace();
    let (caps, started) = configure(port, policy.poll_limit);
    let state = state.next();
    let ghost t2 = port.trace();
    proof {
        lemma_join(t0, t1, t2);
        let one = t1.skip(t0.len() as int);
        assert(one.len() == 1);
        assert((one + t2.skip(t1.len() as int)).skip(1) =~= t2.skip(t1.len() as int));
        assert((one + t2.skip(t1.len() as int))[0] == one[0]);
    }
    if started.is_err() {
        let out = BringUp {
            state,
            error: Some(BringUpError::ClockUnstable),
            caps: Some(caps),
            ocr: 0,
            identity: None,
            failures: 0,
        };
        proof {
            let c = t2.skip(t1.len() as int);
            assert(c =~= c + empty + empty);
            assert(bring_up_parts(port.since(t0), c, empty, empty, started, none, policy, out));
        }
        return out;
    }
    let state = state.next();
    let agreed = negotiate(port, policy);
    let ghost t3 = port.trace();
    proof {
        lemma_join(t1, t2, t3);
        lemma_join(t0, t1, t3);
        let one = t1.skip(t0.len() as int);
        assert((one + t3.skip(t1.len() as int)).skip(1) =~= t3.skip(t1.len() as int));
        assert((one + t3.skip(t1.len() as int))[0] == one[0]);
    }
    let ocr = match agreed.result {
        Err(e) => {
            let out = BringUp {
                state,
                error: Some(e),
                caps: Some(caps),
                ocr: 0,
                identity: None,
                failures: agreed.failures,
            };
            proof {
                let c = t2.skip(t1.len() as int);
                let v = t3.skip(t2.len() as int);
                assert(c + v =~= c + v + empty);
                assert(bring_up_parts(port.since(t0), c, v, empty, started, agreed, policy, out));
            }
            return out;
        },
        Ok(ocr) => ocr,
    };
    let state = state.next();
    let identity = identify(port, policy.poll_limit);
    let state = state.next().next().next();
    let out = BringUp {
        state,
        error: None,
        caps: Some(caps),
        ocr,
        identity: Some(identity),
        failures: agreed.failures + identity.failures as u64,
    };
    proof {
        let t4 = port.trace();
        lemma_join(t1, t3, t4);
        lemma_join(t0, t1, t4);
        let one = t1.skip(t0.len() as int);
        assert((one + t4.skip(t1.len() as int)).skip(1) =~= t4.skip(t1.len() as int));
        assert((one + t4.skip(t1.len() as int))[0] == one[0]);
        assert(bring_up_parts(
            port.since(t0),
            t2.skip(t1.len() as int),
            t3.skip(t2.len() as int),
            t4.skip(t3.len() as int),
            started,
            agreed,
            policy,
            out,
        ));
    }
    out
}

} // verus!
