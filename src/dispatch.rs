use vstd::prelude::*;
use crate::gas::{
    Gas, r55_gas_used, translated_gas, SLOAD_COLD, SLOAD_WARM, SSTORE_COLD, SSTORE_WARM,
    CALL_EMPTY_ACCOUNT, CALL_NEW_ACCOUNT, CALL_VALUE, CALL_BASE,
};
use crate::host::{
    U256, Address, Env, FrameContext, Host, keccak256, keccak256_of, le_word, word_from_le_bytes,
};
use crate::machine::{Cpu, GuestMemory, RiscVInterpreter, RunExit, in_range, bytes_at, written, REG_A0, REG_T0};
use crate::syscall::{Syscall, syscall_of};

verus! {

/// Gas for reading one value of the environment or of the frame.
pub const ENV_READ_COST: u64 = 2;
/// Base gas of a Keccak-256 system call.
pub const KECCAK_BASE: u64 = 30;
/// Gas per 32-byte word hashed.
pub const KECCAK_WORD: u64 = 6;
/// Base gas of a log.
pub const LOG_BASE: u64 = 375;
/// Gas per log topic.
pub const LOG_TOPIC: u64 = 375;
/// Gas per byte of log data.
pub const LOG_BYTE: u64 = 8;

/// A byte range of guest memory.
#[derive(Clone, Copy, Debug, PartialEq, Eq, Structural)]
pub struct MemoryRange {
    pub offset: u64,
    pub size: u64,
}

/// One guest execution context: the guest's machine state and, while a
/// nested call it issued is outstanding, where that call's output goes.
#[derive(Clone, Debug)]
pub struct GuestFrame {
    pub cpu: Cpu,
    pub pending: Option<MemoryRange>,
}

/// How a frame ended.
#[derive(Clone, Copy, Debug, PartialEq, Eq, Structural)]
pub enum Status {
    Return,
    Revert,
    OutOfGas,
}

/// What a guest run hands to the host.
#[derive(Clone, Debug)]
pub enum Action {
    /// Spawn a nested call; the frame waits for its result.
    Call { target: Address, value: u64, calldata: Vec<u8>, gas_limit: u64 },
    /// The frame is finished.
    Halt { status: Status, output: Vec<u8> },
}

impl Action {
    pub open spec fn is_halt_with(self, s: Status) -> bool {
        match self {
            Action::Halt { status, .. } => status == s,
            _ => false,
        }
    }

    pub open spec fn is_empty_halt(self, s: Status) -> bool {
        match self {
            Action::Halt { status, output } => status == s && output@.len() == 0,
            _ => false,
        }
    }

    /// The output of a halt; nothing for a call.
    pub open spec fn halt_output(self) -> Seq<u8> {
        match self {
            Action::Halt { output, .. } => output@,
            _ => Seq::empty(),
        }
    }

    /// A failed halt: a revert or running out of gas, with no output.
    pub open spec fn is_failure(self) -> bool {
        self.is_empty_halt(Status::Revert) || self.is_empty_halt(Status::OutOfGas)
    }
}

/// The registers after a word is written to `a0..a3`, least significant limb first.
pub open spec fn with_word(regs: Seq<u64>, v: U256) -> Seq<u64> {
    regs.update(10, v.l0).update(11, v.l1).update(12, v.l2).update(13, v.l3)
}

/// The registers after an address is written to `a0..a2`, least significant limb first.
pub open spec fn with_address(regs: Seq<u64>, a: Address) -> Seq<u64> {
    regs.update(10, a.l0).update(11, a.l1).update(12, a.l2 as u64)
}

/// The registers after a Keccak-256 call on `cpu`, where its range is in memory.
pub open spec fn keccak_regs(cpu: Cpu) -> Seq<u64> {
    let off = cpu.regs@[10];
    let size = cpu.regs@[11];
    let data = if size == 0 { Seq::<u8>::empty() } else { bytes_at(cpu.memory, off, size) };
    with_word(cpu.regs@, le_word(keccak256_of(data)))
}

/// The address held by `a0..a2`; the top limb keeps its low 32 bits.
pub open spec fn address_in(regs: Seq<u64>) -> Address {
    Address { l0: regs[10], l1: regs[11], l2: (regs[12] % 0x1_0000_0000) as u32 }
}

/// The surcharge of a nested call: account access, and value transfer.
pub open spec fn call_surcharge(account: Option<bool>, value: u64) -> nat {
    (match account {
        Some(true) => CALL_NEW_ACCOUNT as nat,
        Some(false) => CALL_BASE as nat,
        None => (CALL_EMPTY_ACCOUNT + CALL_NEW_ACCOUNT) as nat,
    }) + (if value != 0 { CALL_VALUE as nat } else { 0 })
}

pub open spec fn keccak_cost(size: u64) -> nat {
    (KECCAK_BASE + KECCAK_WORD * ((size as nat + 31) / 32)) as nat
}

pub open spec fn log_cost(topics: nat, bytes: nat) -> nat {
    let c = (LOG_BASE + LOG_TOPIC * topics + LOG_BYTE * bytes) as nat;
    if c > u64::MAX { u64::MAX as nat } else { c }
}

/// The storage key held by `a0`.
pub open spec fn key_in(regs: Seq<u64>) -> U256 {
    U256 { l0: regs[10], l1: 0, l2: 0, l3: 0 }
}

/// Ends the frame fail-closed: all remaining gas is charged and it reverts
/// with no output.
pub fn fail_closed(gas: &mut Gas) -> (r: Action)
    ensures
        r.is_empty_halt(Status::Revert),
        final(gas).spec_limit() == old(gas).spec_limit(),
        final(gas).spec_remaining() == 0,
{
    gas.consume_all();
    Action::Halt { status: Status::Revert, output: Vec::new() }
}

/// Charges `cost`; where not enough is left the frame runs out of gas.
pub fn charge(gas: &mut Gas, cost: u64) -> (r: Option<Action>)
    ensures
        final(gas).spec_limit() == old(gas).spec_limit(),
        r.is_none() <==> cost <= old(gas).spec_remaining(),
        r.is_none() ==> final(gas).spec_remaining() == old(gas).spec_remaining() - cost,
        r.is_some() ==> r.unwrap().is_empty_halt(Status::OutOfGas)
            && final(gas).spec_remaining() == 0,
{
    if gas.record_cost(cost) {
        None
    } else {
        gas.consume_all();
        Some(Action::Halt { status: Status::OutOfGas, output: Vec::new() })
    }
}

/// Charges the instructions run since the last charge and resets the histogram.
pub fn charge_instructions(cpu: &mut Cpu, gas: &mut Gas) -> (r: Option<Action>)
    ensures
        final(cpu).counts@.len() == 0,
        final(cpu).regs == old(cpu).regs,
        final(cpu).memory == old(cpu).memory,
        final(cpu).pc == old(cpu).pc,
        final(gas).spec_limit() == old(gas).spec_limit(),
        r.is_none() <==> translated_gas(old(cpu).counts@) <= old(gas).spec_remaining(),
        r.is_none() ==> final(gas).spec_remaining() == old(gas).spec_remaining()
            - translated_gas(old(cpu).counts@),
        r.is_some() ==> r.unwrap().is_empty_halt(Status::OutOfGas)
            && final(gas).spec_remaining() == 0,
{
    let cost = r55_gas_used(&cpu.counts);
    cpu.counts = Vec::new();
    charge(gas, cost)
}

/// Writes a word result to `a0..a3`, then charges `cost`.
pub fn word_result(cpu: &mut Cpu, gas: &mut Gas, v: U256, cost: u64) -> (r: Option<Action>)
    ensures
        final(cpu).regs@ == with_word(old(cpu).regs@, v),
        final(cpu).memory == old(cpu).memory,
        final(cpu).pc == old(cpu).pc,
        final(cpu).counts == old(cpu).counts,
        final(gas).spec_limit() == old(gas).spec_limit(),
        r.is_none() <==> cost <= old(gas).spec_remaining(),
        r.is_none() ==> final(gas).spec_remaining() == old(gas).spec_remaining() - cost,
        r.is_some() ==> r.unwrap().is_empty_halt(Status::OutOfGas)
            && final(gas).spec_remaining() == 0,
{
    cpu.write_register(REG_A0, v.l0);
    cpu.write_register(REG_A0 + 1, v.l1);
    cpu.write_register(REG_A0 + 2, v.l2);
    cpu.write_register(REG_A0 + 3, v.l3);
    charge(gas, cost)
}

/// Writes an address result to `a0..a2`, then charges `cost`.
pub fn address_result(cpu: &mut Cpu, gas: &mut Gas, a: Address, cost: u64) -> (r: Option<Action>)
    ensures
        final(cpu).regs@ == with_address(old(cpu).regs@, a),
        final(cpu).memory == old(cpu).memory,
        final(cpu).pc == old(cpu).pc,
        final(cpu).counts == old(cpu).counts,
        final(gas).spec_limit() == old(gas).spec_limit(),
        r.is_none() <==> cost <= old(gas).spec_remaining(),
        r.is_none() ==> final(gas).spec_remaining() == old(gas).spec_remaining() - cost,
        r.is_some() ==> r.unwrap().is_empty_halt(Status::OutOfGas)
            && final(gas).spec_remaining() == 0,
{
    cpu.write_register(REG_A0, a.l0);
    cpu.write_register(REG_A0 + 1, a.l1);
    cpu.write_register(REG_A0 + 2, a.l2 as u64);
    charge(gas, cost)
}

/// Finishes a storage read with the host's answer: the value goes to
/// `a0..a3` and the cold or warm price is charged; a failed read reverts.
pub fn sload_result(cpu: &mut Cpu, gas: &mut Gas, answer: Option<(U256, bool)>) -> (r: Option<Action>)
    ensures
        final(gas).spec_limit() == old(gas).spec_limit(),
        final(cpu).memory == old(cpu).memory,
        final(cpu).pc == old(cpu).pc,
        final(cpu).counts == old(cpu).counts,
        match answer {
            None => r.is_some() && r.unwrap().is_empty_halt(Status::Revert)
                && final(gas).spec_remaining() == 0 && *final(cpu) == *old(cpu),
            Some((v, cold)) => {
                let cost = if cold { SLOAD_COLD } else { SLOAD_WARM };
                &&& final(cpu).regs@ == with_word(old(cpu).regs@, v)
                &&& (r.is_none() <==> cost <= old(gas).spec_remaining())
                &&& (r.is_none() ==> final(gas).spec_remaining() == old(gas).spec_remaining() - cost)
                &&& (r.is_some() ==> r.unwrap().is_empty_halt(Status::OutOfGas)
                    && final(gas).spec_remaining() == 0)
            },
        },
{
    match answer {
        None => Some(fail_closed(gas)),
        Some((v, cold)) => {
            let cost = if cold { SLOAD_COLD } else { SLOAD_WARM };
            word_result(cpu, gas, v, cost)
        },
    }
}

/// Finishes a storage write with the host's answer: the cold or warm price
/// is charged; a failed write reverts.
pub fn sstore_result(gas: &mut Gas, answer: Option<bool>) -> (r: Option<Action>)
    ensures
        final(gas).spec_limit() == old(gas).spec_limit(),
        match answer {
            None => r.is_some() && r.unwrap().is_empty_halt(Status::Revert)
                && final(gas).spec_remaining() == 0,
            Some(cold) => {
                let cost = if cold { SSTORE_COLD } else { SSTORE_WARM };
                &&& (r.is_none() <==> cost <= old(gas).spec_remaining())
                &&& (r.is_none() ==> final(gas).spec_remaining() == old(gas).spec_remaining() - cost)
                &&& (r.is_some() ==> r.unwrap().is_empty_halt(Status::OutOfGas)
                    && final(gas).spec_remaining() == 0)
            },
        },
{
    match answer {
        None => Some(fail_closed(gas)),
        Some(cold) => {
            let cost = if cold { SSTORE_COLD } else { SSTORE_WARM };
            charge(gas, cost)
        },
    }
}

/// The guest memory slice `[offset, offset + size)`, or `None` where it is
/// not inside memory; an empty slice always exists.
pub fn dram_slice(memory: &GuestMemory, offset: u64, size: u64) -> (r: Option<Vec<u8>>)
    ensures
        r.is_some() <==> (size == 0 || in_range(*memory, offset, size)),
        r.is_some() ==> r.unwrap()@ == (if size == 0 {
            Seq::<u8>::empty()
        } else {
            bytes_at(*memory, offset, size)
        }),
{
    memory.read(offset, size)
}

/// Ends a run with `Return`: the output is the memory range in `a0`, `a1`.
/// Instruction gas must be charged already. A range outside memory fails closed.
pub fn finish_return(cpu: &Cpu, gas: &mut Gas) -> (r: Action)
    ensures
        final(gas).spec_limit() == old(gas).spec_limit(),
        ({
            let off = cpu.regs@[10];
            let size = cpu.regs@[11];
            if size == 0 || in_range(cpu.memory, off, size) {
                &&& final(gas).spec_remaining() == old(gas).spec_remaining()
                &&& match r {
                    Action::Halt { status, output } => status == Status::Return && output@ == (
                    if size == 0 {
                        Seq::<u8>::empty()
                    } else {
                        bytes_at(cpu.memory, off, size)
                    }),
                    _ => false,
                }
            } else {
                r.is_empty_halt(Status::Revert) && final(gas).spec_remaining() == 0
            }
        }),
{
    let off = cpu.read_register(REG_A0);
    let size = cpu.read_register(REG_A0 + 1);
    match dram_slice(&cpu.memory, off, size) {
        Some(output) => Action::Halt { status: Status::Return, output },
        None => fail_closed(gas),
    }
}

/// A nested call as the guest requested it.
#[derive(Clone, Debug)]
pub struct CallRequest {
    pub target: Address,
    pub value: u64,
    pub calldata: Vec<u8>,
}

/// Reads a nested call's arguments from `a0..a7`, zero-fills the range
/// reserved for its result and records that range as the frame's pending
/// continuation. A calldata range outside memory gives empty calldata; a
/// reserved range outside memory gives `None` and changes nothing.
pub fn prepare_call(frame: &mut GuestFrame) -> (r: Option<CallRequest>)
    ensures
        ({
            let regs = old(frame).cpu.regs@;
            let ret = MemoryRange { offset: regs[16], size: regs[17] };
            let args_off = regs[14];
            let args_size = regs[15];
            if in_range(old(frame).cpu.memory, ret.offset, ret.size) {
                &&& r.is_some()
                &&& r.unwrap().target == address_in(regs)
                &&& r.unwrap().value == regs[13]
                &&& r.unwrap().calldata@ == (if args_size != 0 && in_range(
                    old(frame).cpu.memory,
                    args_off,
                    args_size,
                ) {
                    bytes_at(old(frame).cpu.memory, args_off, args_size)
                } else {
                    Seq::<u8>::empty()
                })
                &&& final(frame).pending == Some(ret)
                &&& final(frame).cpu.memory.base == old(frame).cpu.memory.base
                &&& final(frame).cpu.memory.bytes@ == written(
                    old(frame).cpu.memory.bytes@,
                    ret.offset - old(frame).cpu.memory.base,
                    Seq::new(ret.size as nat, |i: int| 0u8),
                )
                &&& final(frame).cpu.regs == old(frame).cpu.regs
                &&& final(frame).cpu.pc == old(frame).cpu.pc
                &&& final(frame).cpu.counts == old(frame).cpu.counts
            } else {
                r.is_none() && *final(frame) == *old(frame)
            }
        }),
{
    let a0 = frame.cpu.read_register(REG_A0);
    let a1 = frame.cpu.read_register(REG_A0 + 1);
    let a2 = frame.cpu.read_register(REG_A0 + 2);
    let target = Address { l0: a0, l1: a1, l2: (a2 % 0x1_0000_0000) as u32 };
    let value = frame.cpu.read_register(REG_A0 + 3);
    let args_off = frame.cpu.read_register(REG_A0 + 4);
    let args_size = frame.cpu.read_register(REG_A0 + 5);
    let ret_off = frame.cpu.read_register(REG_A0 + 6);
    let ret_size = frame.cpu.read_register(REG_A0 + 7);
    if !frame.cpu.memory.contains(ret_off, ret_size) {
        return None;
    }
    let calldata = match dram_slice(&frame.cpu.memory, args_off, args_size) {
        Some(d) => d,
        None => Vec::new(),
    };
    frame.cpu.memory.fill_zero(ret_off, ret_size);
    frame.pending = Some(MemoryRange { offset: ret_off, size: ret_size });
    Some(CallRequest { target, value, calldata })
}

/// Prices a prepared nested call with the host's answer on the target
/// account, then hands the child everything that is left as its gas limit.
pub fn finish_call(gas: &mut Gas, req: CallRequest, account: Option<bool>) -> (r: Action)
    ensures
        final(gas).spec_limit() == old(gas).spec_limit(),
        final(gas).spec_remaining() == 0,
        call_surcharge(account, req.value) <= old(gas).spec_remaining() ==> match r {
            Action::Call { target, value, calldata, gas_limit } => {
                &&& target == req.target
                &&& value == req.value
                &&& calldata@ == req.calldata@
                &&& gas_limit == old(gas).spec_remaining() - call_surcharge(account, req.value)
            },
            _ => false,
        },
        call_surcharge(account, req.value) > old(gas).spec_remaining() ==> r.is_empty_halt(
            Status::OutOfGas,
        ),
{
    let access: u64 = match account {
        Some(true) => CALL_NEW_ACCOUNT,
        Some(false) => CALL_BASE,
        None => CALL_EMPTY_ACCOUNT + CALL_NEW_ACCOUNT,
    };
    let value_cost: u64 = if req.value != 0 { CALL_VALUE } else { 0 };
    if let Some(halt) = charge(gas, access + value_cost) {
        return halt;
    }
    let gas_limit = gas.remaining();
    gas.consume_all();
    Action::Call { target: req.target, value: req.value, calldata: req.calldata, gas_limit }
}

/// Hashes the memory range in `a0`, `a1` and writes the digest to `a0..a3`
/// (byte `i` of the digest is bit group `8 * i`). A range outside memory
/// fails closed.
pub fn keccak_result(cpu: &mut Cpu, gas: &mut Gas) -> (r: Option<Action>)
    ensures
        final(gas).spec_limit() == old(gas).spec_limit(),
        final(cpu).memory == old(cpu).memory,
        final(cpu).pc == old(cpu).pc,
        final(cpu).counts == old(cpu).counts,
        ({
            let off = old(cpu).regs@[10];
            let size = old(cpu).regs@[11];
            if size == 0 || in_range(old(cpu).memory, off, size) {
                let data = if size == 0 {
                    Seq::<u8>::empty()
                } else {
                    bytes_at(old(cpu).memory, off, size)
                };
                let cost = keccak_cost(size);
                &&& final(cpu).regs@ == keccak_regs(*old(cpu))
                &&& (r.is_none() <==> cost <= old(gas).spec_remaining())
                &&& (r.is_none() ==> final(gas).spec_remaining() == old(gas).spec_remaining()
                    - cost)
                &&& (r.is_some() ==> r.unwrap().is_empty_halt(Status::OutOfGas)
                    && final(gas).spec_remaining() == 0)
            } else {
                r.is_some() && r.unwrap().is_empty_halt(Status::Revert)
                    && final(gas).spec_remaining() == 0 && *final(cpu) == *old(cpu)
            }
        }),
{
    let off = cpu.read_register(REG_A0);
    let size = cpu.read_register(REG_A0 + 1);
    match dram_slice(&cpu.memory, off, size) {
        None => Some(fail_closed(gas)),
        Some(data) => {
            let digest = keccak256(data.as_slice());
            let word = word_from_le_bytes(digest.as_slice());
            let words = size / 32 + if size % 32 != 0 { 1 } else { 0 };
            let cost = KECCAK_BASE + KECCAK_WORD * words;
            assert(words == (size as nat + 31) / 32);
            word_result(cpu, gas, word, cost)
        },
    }
}

/// The gas of a log with `topics` topics and `bytes` bytes of data, capped
/// at the largest `u64`.
pub fn log_gas(topics: usize, bytes: usize) -> (r: u64)
    ensures
        r as nat == log_cost(topics as nat, bytes as nat),
{
    let c: u128 = LOG_BASE as u128 + LOG_TOPIC as u128 * topics as u128 + LOG_BYTE as u128
        * bytes as u128;
    if c > u64::MAX as u128 {
        u64::MAX
    } else {
        c as u64
    }
}

/// Splits a byte string into consecutive 32-byte topics; a trailing
/// partial chunk is dropped.
pub fn split_topics(b: &Vec<u8>) -> (r: Vec<Vec<u8>>)
    ensures
        r@.len() == b@.len() / 32,
        forall|k: int| 0 <= k < r@.len() ==> #[trigger] r@[k]@ == b@.subrange(32 * k, 32 * k + 32),
{
    let len = b.len();
    let n = len / 32;
    let mut out: Vec<Vec<u8>> = Vec::new();
    let mut k: usize = 0;
    while k < n
        invariant
            len == b@.len(),
            n == b@.len() / 32,
            k <= n,
            out@.len() == k,
            forall|j: int| 0 <= j < k ==> #[trigger] out@[j]@ == b@.subrange(32 * j, 32 * j + 32),
        decreases n - k,
    {
        let mut t: Vec<u8> = Vec::new();
        let mut i: usize = 0;
        assert(32 * k + 32 <= b@.len()) by (nonlinear_arith)
            requires
                k < n,
                n == b@.len() / 32,
        ;
        while i < 32
            invariant
                k < n,
                len == b@.len(),
                32 * k + 32 <= b@.len(),
                n == b@.len() / 32,
                i <= 32,
                t@ == b@.subrange(32 * k, 32 * k + i),
            decreases 32 - i,
        {
            t.push(b[32 * k + i]);
            i = i + 1;
            assert(t@ =~= b@.subrange(32 * k, 32 * k + i));
        }
        out.push(t);
        k = k + 1;
    }
    out
}

/// Whether the `a3` topics of 32 bytes from `a2` lie inside memory (and there is one at least).
pub open spec fn log_topics_fit(cpu: Cpu) -> bool {
    let regs = cpu.regs@;
    regs[13] * 32 <= u64::MAX && regs[13] != 0 && in_range(cpu.memory, regs[12], (regs[13] * 32) as u64)
}

/// The number of topics a log request hands to the host.
pub open spec fn log_topic_count(cpu: Cpu) -> nat {
    if log_topics_fit(cpu) { cpu.regs@[13] as nat } else { 0 }
}

/// The data a log request hands to the host: the range in `a0`, `a1`, or
/// nothing where it is outside memory.
pub open spec fn log_data(cpu: Cpu) -> Seq<u8> {
    let regs = cpu.regs@;
    if regs[11] != 0 && in_range(cpu.memory, regs[10], regs[11]) {
        bytes_at(cpu.memory, regs[10], regs[11])
    } else {
        Seq::<u8>::empty()
    }
}

/// The data and topics of a log request: data from the range in `a0`, `a1`,
/// and `a3` topics of 32 bytes each from `a2`. A range outside memory reads
/// as empty.
pub fn log_request(cpu: &Cpu) -> (r: (Vec<Vec<u8>>, Vec<u8>))
    ensures
        r.1@ == log_data(*cpu),
        r.0@.len() == log_topic_count(*cpu),
        forall|k: int| 0 <= k < r.0@.len() ==> #[trigger] r.0@[k]@ == cpu.memory.bytes@.subrange(
            cpu.regs@[12] - cpu.memory.base + 32 * k,
            cpu.regs@[12] - cpu.memory.base + 32 * k + 32,
        ),
{
    let data_off = cpu.read_register(REG_A0);
    let data_size = cpu.read_register(REG_A0 + 1);
    let topics_off = cpu.read_register(REG_A0 + 2);
    let topics_count = cpu.read_register(REG_A0 + 3);
    let data = match dram_slice(&cpu.memory, data_off, data_size) {
        Some(d) => d,
        None => Vec::new(),
    };
    let raw = if topics_count <= u64::MAX / 32 {
        match dram_slice(&cpu.memory, topics_off, topics_count * 32) {
            Some(t) => t,
            None => Vec::new(),
        }
    } else {
        Vec::new()
    };
    let topics = split_topics(&raw);
    proof {
        if log_topics_fit(*cpu) {
            assert(raw@.len() == topics_count * 32);
            let off = cpu.regs@[12] - cpu.memory.base;
            assert forall|k: int| 0 <= k < topics@.len() implies #[trigger] topics@[k]@
                == cpu.memory.bytes@.subrange(off + 32 * k, off + 32 * k + 32) by {
                assert(32 * k + 32 <= raw@.len()) by (nonlinear_arith)
                    requires
                        0 <= k < topics@.len(),
                        topics@.len() == raw@.len() / 32,
                ;
                assert(topics@[k]@ =~= cpu.memory.bytes@.subrange(off + 32 * k, off + 32 * k + 32));
            }
        } else {
            assert(raw@.len() == 0 || raw@.len() < 32 || !log_topics_fit(*cpu));
        }
    }
    (topics, data)
}

/// What the host answered during one system call; only the answer the call
/// asks for matters.
#[derive(Clone, Copy)]
pub struct HostAnswers {
    pub sload: Option<(U256, bool)>,
    pub sstore: Option<bool>,
    pub account: Option<bool>,
    pub env: Env,
}

/// The frame before an `ecall` is dispatched: resumed after the instruction.
pub open spec fn advanced(f: GuestFrame) -> GuestFrame {
    GuestFrame {
        cpu: Cpu {
            pc: (f.cpu.pc + 4) as u64,
            regs: f.cpu.regs,
            memory: f.cpu.memory,
            counts: f.cpu.counts,
        },
        pending: f.pending,
    }
}

/// A charge of `cost` against `g0` remaining: the run goes on with
/// `g0 - cost` left, or the frame runs out of gas.
pub open spec fn charge_outcome(r: Option<Action>, g0: u64, cost: nat, g1: u64) -> bool {
    &&& (r.is_none() <==> cost <= g0)
    &&& (r.is_none() ==> g1 == g0 - cost)
    &&& (r.is_some() ==> r.unwrap().is_empty_halt(Status::OutOfGas) && g1 == 0)
}

/// The frame fails closed: a revert with no output and no gas left.
pub open spec fn fail_outcome(r: Option<Action>, g1: u64) -> bool {
    r.is_some() && r.unwrap().is_empty_halt(Status::Revert) && g1 == 0
}

/// Only the registers changed.
pub open spec fn same_but_regs(b: GuestFrame, a: GuestFrame) -> bool {
    a.cpu.pc == b.cpu.pc && a.cpu.memory == b.cpu.memory && a.cpu.counts == b.cpu.counts
        && a.pending == b.pending
}

/// Only the histogram changed, and it is empty.
pub open spec fn same_but_counts(b: GuestFrame, a: GuestFrame) -> bool {
    a.cpu.pc == b.cpu.pc && a.cpu.regs == b.cpu.regs && a.cpu.memory == b.cpu.memory
        && a.pending == b.pending && a.cpu.counts@.len() == 0
}

/// An in-place call that writes `regs` and costs `cost`.
pub open spec fn in_place(b: GuestFrame, a: GuestFrame, regs: Seq<u64>, g0: u64, cost: nat, g1: u64, r: Option<Action>) -> bool {
    same_but_regs(b, a) && a.cpu.regs@ == regs && charge_outcome(r, g0, cost, g1)
}

/// The calldata of a nested call: the range in `a4`, `a5`, or nothing where
/// it is outside memory.
pub open spec fn calldata_of(cpu: Cpu) -> Seq<u8> {
    let regs = cpu.regs@;
    if regs[15] != 0 && in_range(cpu.memory, regs[14], regs[15]) {
        bytes_at(cpu.memory, regs[14], regs[15])
    } else {
        Seq::<u8>::empty()
    }
}

/// The outcome of dispatching the system call in `t0` on frame `b`, with
/// `g0` gas left and the host answering `ans`: the frame becomes `a`, `g1`
/// gas is left, and `r` is what the frame hands to the host (`None`: the
/// run goes on).
pub open spec fn syscall_outcome(
    b: GuestFrame,
    a: GuestFrame,
    ctx: FrameContext,
    ans: HostAnswers,
    g0: u64,
    g1: u64,
    r: Option<Action>,
) -> bool {
    let regs = b.cpu.regs@;
    let g = translated_gas(b.cpu.counts@);
    match syscall_of(regs[5]) {
        None => fail_outcome(r, g1) && a == b,
        Some(Syscall::Return) => same_but_counts(b, a) && if g > g0 {
            r.is_some() && r.unwrap().is_empty_halt(Status::OutOfGas) && g1 == 0
        } else if regs[11] == 0 || in_range(b.cpu.memory, regs[10], regs[11]) {
            g1 == g0 - g && match r {
                Some(Action::Halt { status, output }) => status == Status::Return && output@ == (
                if regs[11] == 0 {
                    Seq::<u8>::empty()
                } else {
                    bytes_at(b.cpu.memory, regs[10], regs[11])
                }),
                _ => false,
            }
        } else {
            fail_outcome(r, g1)
        },
        Some(Syscall::Revert) => same_but_counts(b, a) && if g > g0 {
            r.is_some() && r.unwrap().is_empty_halt(Status::OutOfGas) && g1 == 0
        } else {
            r.is_some() && r.unwrap().is_empty_halt(Status::Revert) && g1 == g0 - g
        },
        Some(Syscall::Call) => {
            let ret = MemoryRange { offset: regs[16], size: regs[17] };
            if g > g0 {
                same_but_counts(b, a) && r.is_some() && r.unwrap().is_empty_halt(Status::OutOfGas)
                    && g1 == 0
            } else if !in_range(b.cpu.memory, ret.offset, ret.size) {
                same_but_counts(b, a) && fail_outcome(r, g1)
            } else {
                let left = (g0 - g) as nat;
                let s = call_surcharge(ans.account, regs[13]);
                &&& a.cpu.pc == b.cpu.pc
                &&& a.cpu.regs == b.cpu.regs
                &&& a.cpu.counts@.len() == 0
                &&& a.pending == Some(ret)
                &&& a.cpu.memory.base == b.cpu.memory.base
                &&& a.cpu.memory.bytes@ == written(
                    b.cpu.memory.bytes@,
                    ret.offset - b.cpu.memory.base,
                    Seq::new(ret.size as nat, |i: int| 0u8),
                )
                &&& g1 == 0
                &&& if s <= left {
                    match r {
                        Some(Action::Call { target, value, calldata, gas_limit }) => {
                            &&& target == address_in(regs)
                            &&& value == regs[13]
                            &&& calldata@ == calldata_of(b.cpu)
                            &&& gas_limit == left - s
                        },
                        _ => false,
                    }
                } else {
                    r.is_some() && r.unwrap().is_empty_halt(Status::OutOfGas)
                }
            }
        },
        Some(Syscall::SLoad) => match ans.sload {
            None => fail_outcome(r, g1) && a == b,
            Some((v, cold)) => in_place(b, a, with_word(regs, v), g0, (if cold { SLOAD_COLD } else { SLOAD_WARM }) as nat, g1, r),
        },
        Some(Syscall::SStore) => match ans.sstore {
            None => fail_outcome(r, g1) && a == b,
            Some(cold) => a == b && charge_outcome(r, g0, (if cold { SSTORE_COLD } else { SSTORE_WARM }) as nat, g1),
        },
        Some(Syscall::Keccak256) => if regs[11] == 0 || in_range(b.cpu.memory, regs[10], regs[11]) {
            in_place(b, a, keccak_regs(b.cpu), g0, keccak_cost(regs[11]), g1, r)
        } else {
            fail_outcome(r, g1) && a == b
        },
        Some(Syscall::Caller) => in_place(b, a, with_address(regs, ctx.caller), g0, ENV_READ_COST as nat, g1, r),
        Some(Syscall::Origin) => in_place(b, a, with_address(regs, ans.env.origin), g0, ENV_READ_COST as nat, g1, r),
        Some(Syscall::CallValue) => in_place(b, a, with_word(regs, ctx.call_value), g0, ENV_READ_COST as nat, g1, r),
        Some(Syscall::GasPrice) => in_place(b, a, with_word(regs, ans.env.gas_price), g0, ENV_READ_COST as nat, g1, r),
        Some(Syscall::Timestamp) => in_place(b, a, with_word(regs, ans.env.timestamp), g0, ENV_READ_COST as nat, g1, r),
        Some(Syscall::Number) => in_place(b, a, with_word(regs, ans.env.number), g0, ENV_READ_COST as nat, g1, r),
        Some(Syscall::GasLimit) => in_place(b, a, with_word(regs, ans.env.gas_limit), g0, ENV_READ_COST as nat, g1, r),
        Some(Syscall::BaseFee) => in_place(b, a, with_word(regs, ans.env.basefee), g0, ENV_READ_COST as nat, g1, r),
        Some(Syscall::ChainId) => in_place(b, a, regs.update(10, ans.env.chain_id), g0, ENV_READ_COST as nat, g1, r),
        Some(Syscall::Log) => a == b && charge_outcome(r, g0, log_cost(log_topic_count(b.cpu), log_data(b.cpu).len()), g1),
    }
}

/// The outcome of a guest run that stopped with `exit` on frame `b`.
pub open spec fn exit_outcome(
    b: GuestFrame,
    exit: RunExit,
    a: GuestFrame,
    ctx: FrameContext,
    g0: u64,
    g1: u64,
    r: Option<Action>,
) -> bool {
    match exit {
        RunExit::Fault => fail_outcome(r, g1) && a == b,
        RunExit::EnvironmentCall => if b.cpu.pc + 4 > u64::MAX {
            fail_outcome(r, g1) && a == b
        } else {
            exists|ans: HostAnswers| syscall_outcome(advanced(b), a, ctx, ans, g0, g1, r)
        },
    }
}

pub open spec fn no_answers() -> HostAnswers {
    HostAnswers {
        sload: None,
        sstore: None,
        account: None,
        env: Env {
            chain_id: 0,
            number: U256 { l0: 0, l1: 0, l2: 0, l3: 0 },
            timestamp: U256 { l0: 0, l1: 0, l2: 0, l3: 0 },
            gas_limit: U256 { l0: 0, l1: 0, l2: 0, l3: 0 },
            basefee: U256 { l0: 0, l1: 0, l2: 0, l3: 0 },
            gas_price: U256 { l0: 0, l1: 0, l2: 0, l3: 0 },
            origin: Address { l0: 0, l1: 0, l2: 0 },
        },
    }
}

/// A halt other than `Return` carries no output; a `Call` leaves the frame
/// waiting on a zero-filled range inside its memory with no gas left.
pub open spec fn yield_shape(a: GuestFrame, g1: u64, r: Action) -> bool {
    match r {
        Action::Call { .. } => {
            &&& a.pending.is_some()
            &&& in_range(a.cpu.memory, a.pending.unwrap().offset, a.pending.unwrap().size)
            &&& bytes_at(a.cpu.memory, a.pending.unwrap().offset, a.pending.unwrap().size)
                == Seq::new(a.pending.unwrap().size as nat, |i: int| 0u8)
            &&& g1 == 0
        },
        Action::Halt { status, output } => status != Status::Return ==> output@.len() == 0,
    }
}

/// Decodes and carries out the system call the guest trapped on. `None`
/// means the guest continues; every such call costs gas, so runs of them end.
pub fn dispatch_syscall<H: Host>(
    frame: &mut GuestFrame,
    ctx: &FrameContext,
    host: &mut H,
    gas: &mut Gas,
) -> (r: Option<Action>)
    ensures
        final(gas).spec_limit() == old(gas).spec_limit(),
        final(gas).spec_remaining() <= old(gas).spec_remaining(),
        r.is_none() ==> final(gas).spec_remaining() < old(gas).spec_remaining(),
        r.is_none() ==> final(frame).pending == old(frame).pending,
        old(frame).wf() ==> final(frame).wf(),
        r.is_some() ==> yield_shape(*final(frame), final(gas).spec_remaining(), r.unwrap()),
        exists|ans: HostAnswers| syscall_outcome(
            *old(frame),
            *final(frame),
            *ctx,
            ans,
            old(gas).spec_remaining(),
            final(gas).spec_remaining(),
            r,
        ),
{
    let ghost b = *frame;
    let ghost mut ans = no_answers();
    let id = frame.cpu.read_register(REG_T0);
    let r = match Syscall::from_id(id) {
        None => Some(fail_closed(gas)),
        Some(Syscall::Return) => match charge_instructions(&mut frame.cpu, gas) {
            Some(halt) => Some(halt),
            None => Some(finish_return(&frame.cpu, gas)),
        },
        Some(Syscall::Revert) => match charge_instructions(&mut frame.cpu, gas) {
            Some(halt) => Some(halt),
            None => Some(Action::Halt { status: Status::Revert, output: Vec::new() }),
        },
        Some(Syscall::Call) => match charge_instructions(&mut frame.cpu, gas) {
            Some(halt) => Some(halt),
            None => {
                let ghost before = *frame;
                match prepare_call(frame) {
                    None => Some(fail_closed(gas)),
                    Some(req) => {
                        proof {
                            let ret = MemoryRange {
                                offset: before.cpu.regs@[16],
                                size: before.cpu.regs@[17],
                            };
                            let off = ret.offset - before.cpu.memory.base;
                            let z = Seq::new(ret.size as nat, |i: int| 0u8);
                            assert(frame.cpu.memory.bytes@.len() == before.cpu.memory.bytes@.len());
                            assert(frame.cpu.memory.bytes@.subrange(off, off + ret.size) =~= z);
                        }
                        let account = host.load_account(req.target);
                        proof {
                            ans.account = account;
                        }
                        Some(finish_call(gas, req, account))
                    },
                }
            },
        },
        Some(Syscall::SLoad) => {
            let key = U256::from_u64(frame.cpu.read_register(REG_A0));
            let answer = host.sload(ctx.address, key);
            proof {
                ans.sload = answer;
            }
            sload_result(&mut frame.cpu, gas, answer)
        },
        Some(Syscall::SStore) => {
            let key = U256::from_u64(frame.cpu.read_register(REG_A0));
            let value = U256 {
                l0: frame.cpu.read_register(REG_A0 + 1),
                l1: frame.cpu.read_register(REG_A0 + 2),
                l2: frame.cpu.read_register(REG_A0 + 3),
                l3: frame.cpu.read_register(REG_A0 + 4),
            };
            let answer = host.sstore(ctx.address, key, value);
            proof {
                ans.sstore = answer;
            }
            sstore_result(gas, answer)
        },
        Some(Syscall::Keccak256) => keccak_result(&mut frame.cpu, gas),
        Some(Syscall::Caller) => address_result(&mut frame.cpu, gas, ctx.caller, ENV_READ_COST),
        Some(Syscall::CallValue) => word_result(&mut frame.cpu, gas, ctx.call_value, ENV_READ_COST),
        Some(Syscall::Log) => {
            let (topics, data) = log_request(&frame.cpu);
            let cost = log_gas(topics.len(), data.len());
            host.log(ctx.address, topics, data);
            charge(gas, cost)
        },
        Some(s) => {
            let env = host.env();
            proof {
                ans.env = env;
            }
            match s {
                Syscall::Origin => address_result(&mut frame.cpu, gas, env.origin, ENV_READ_COST),
                Syscall::GasPrice => word_result(&mut frame.cpu, gas, env.gas_price, ENV_READ_COST),
                Syscall::Timestamp => word_result(&mut frame.cpu, gas, env.timestamp, ENV_READ_COST),
                Syscall::Number => word_result(&mut frame.cpu, gas, env.number, ENV_READ_COST),
                Syscall::GasLimit => word_result(&mut frame.cpu, gas, env.gas_limit, ENV_READ_COST),
                Syscall::BaseFee => word_result(&mut frame.cpu, gas, env.basefee, ENV_READ_COST),
                _ => {
                    frame.cpu.write_register(REG_A0, env.chain_id);
                    charge(gas, ENV_READ_COST)
                },
            }
        },
    };
    proof {
        assert(syscall_outcome(b, *frame, *ctx, ans, old(gas).spec_remaining(), gas.spec_remaining(), r));
    }
    r
}

/// Handles the way a guest run stopped. A fault fails closed; an
/// environment call resumes after the `ecall` instruction and is dispatched.
pub fn handle_exit<H: Host>(
    frame: &mut GuestFrame,
    exit: RunExit,
    ctx: &FrameContext,
    host: &mut H,
    gas: &mut Gas,
) -> (r: Option<Action>)
    ensures
        final(gas).spec_limit() == old(gas).spec_limit(),
        final(gas).spec_remaining() <= old(gas).spec_remaining(),
        r.is_none() ==> final(gas).spec_remaining() < old(gas).spec_remaining(),
        r.is_none() ==> final(frame).pending == old(frame).pending,
        old(frame).wf() ==> final(frame).wf(),
        r.is_some() ==> yield_shape(*final(frame), final(gas).spec_remaining(), r.unwrap()),
        exit_outcome(
            *old(frame),
            exit,
            *final(frame),
            *ctx,
            old(gas).spec_remaining(),
            final(gas).spec_remaining(),
            r,
        ),
{
    match exit {
        RunExit::Fault => Some(fail_closed(gas)),
        RunExit::EnvironmentCall => {
            if frame.cpu.pc > u64::MAX - 4 {
                return Some(fail_closed(gas));
            }
            frame.cpu.pc = frame.cpu.pc + 4;
            assert(*frame == advanced(*old(frame)));
            dispatch_syscall(frame, ctx, host, gas)
        },
    }
}

/// Runs a guest frame until it yields to the host: it returns, reverts,
/// runs out of gas, faults, or issues a nested call. Any earlier pending
/// continuation is taken as delivered. The action is the outcome of the
/// last run of the emulator, with at most the gas there was at the start.
pub fn execute_riscv<E: RiscVInterpreter, H: Host>(
    frame: &mut GuestFrame,
    emu: &mut E,
    ctx: &FrameContext,
    host: &mut H,
    gas: &mut Gas,
) -> (r: Action)
    ensures
        final(gas).spec_limit() == old(gas).spec_limit(),
        final(gas).spec_remaining() <= old(gas).spec_remaining(),
        final(frame).wf(),
        yield_shape(*final(frame), final(gas).spec_remaining(), r),
        exists|mid: GuestFrame, exit: RunExit, g0: u64|
            mid.pending.is_none() && g0 <= old(gas).spec_remaining() && exit_outcome(
                mid,
                exit,
                *final(frame),
                *ctx,
                g0,
                final(gas).spec_remaining(),
                Some(r),
            ),
{
    frame.pending = None;
    loop
        invariant
            gas.spec_limit() == old(gas).spec_limit(),
            gas.spec_remaining() <= old(gas).spec_remaining(),
            frame.pending.is_none(),
        decreases gas.spec_remaining(),
    {
        let exit = emu.run(&mut frame.cpu);
        let ghost mid = *frame;
        let ghost g0 = gas.spec_remaining();
        if let Some(action) = handle_exit(frame, exit, ctx, host, gas) {
            assert(exit_outcome(mid, exit, *frame, *ctx, g0, gas.spec_remaining(), Some(action)));
            return action;
        }
    }
}

impl GuestFrame {
    /// A pending continuation lies inside the frame's memory.
    pub open spec fn wf(self) -> bool {
        self.pending matches Some(rng) ==> in_range(self.cpu.memory, rng.offset, rng.size)
    }
}

} // verus!
