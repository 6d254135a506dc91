use r55::gas::{SLOAD_WARM, SSTORE_COLD, CALL_BASE};
use r55::dispatch::ENV_READ_COST;
use r55::machine::{DRAM_BASE, REG_A0, REG_T0};
use r55::{
    riscv_context, Action, Address, CallStack, Cpu, Env, FrameContext, Gas, GuestMemory, Host,
    InstructionCount, RiscVInterpreter, RunExit, Status, Storage, Syscall, U256, execute_riscv,
    GuestFrame,
};
use std::collections::VecDeque;

const ENTRY: u64 = 0x8030_0000;
const CODE: [u8; 8] = [0x13, 0, 0, 0, 0x73, 0, 0, 0];

/// One run of the scripted emulator: register writes, memory writes,
/// instruction counts, then how it stops.
struct Step {
    regs: Vec<(usize, u64)>,
    mem: Vec<(u64, Vec<u8>)>,
    counts: Vec<(&'static str, u64)>,
    exit: RunExit,
}

fn ecall(id: Syscall, args: &[u64]) -> Step {
    let mut regs = vec![(REG_T0, id.id())];
    for (i, a) in args.iter().enumerate() {
        regs.push((REG_A0 + i, *a));
    }
    Step { regs, mem: vec![], counts: vec![], exit: RunExit::EnvironmentCall }
}

struct ScriptedEmu {
    steps: VecDeque<Step>,
    ecall_pcs: Vec<u64>,
    seen: Vec<[u64; 32]>,
}

impl ScriptedEmu {
    fn new(steps: Vec<Step>) -> Self {
        ScriptedEmu { steps: steps.into(), ecall_pcs: vec![], seen: vec![] }
    }
}

impl RiscVInterpreter for ScriptedEmu {
    fn run(&mut self, cpu: &mut Cpu) -> RunExit {
        self.seen.push(cpu.regs);
        let Some(step) = self.steps.pop_front() else {
            return RunExit::Fault;
        };
        for (r, v) in step.regs {
            cpu.regs[r] = v;
        }
        for (addr, data) in step.mem {
            assert!(cpu.memory.write(addr, &data));
        }
        for (n, c) in step.counts {
            cpu.counts.push(InstructionCount { name: n.to_string(), count: c });
        }
        if step.exit == RunExit::EnvironmentCall {
            self.ecall_pcs.push(cpu.pc);
        }
        step.exit
    }
}

struct TestHost {
    storage: Storage,
    logs: Vec<(Vec<Vec<u8>>, Vec<u8>)>,
    account: Option<bool>,
}

impl TestHost {
    fn new() -> Self {
        TestHost { storage: Storage::new(), logs: vec![], account: Some(false) }
    }
}

impl Host for TestHost {
    fn sload(&mut self, _address: Address, key: U256) -> Option<(U256, bool)> {
        Some(self.storage.sload(key))
    }
    fn sstore(&mut self, _address: Address, key: U256, value: U256) -> Option<bool> {
        Some(self.storage.sstore(key, value))
    }
    fn load_account(&mut self, _address: Address) -> Option<bool> {
        self.account
    }
    fn env(&mut self) -> Env {
        Env {
            chain_id: 1337,
            number: U256::from_u64(7),
            timestamp: U256::from_u64(1_700_000_000),
            gas_limit: U256::from_u64(30_000_000),
            basefee: U256::from_u64(9),
            gas_price: U256::from_u64(42),
            origin: Address { l0: 0xa, l1: 0, l2: 0 },
        }
    }
    fn log(&mut self, _address: Address, topics: Vec<Vec<u8>>, data: Vec<u8>) {
        self.logs.push((topics, data));
    }
}

fn ctx() -> FrameContext {
    FrameContext {
        address: Address { l0: 0x1000, l1: 0, l2: 0 },
        caller: Address { l0: 0x1122334455667788, l1: 0x99aabbccddeeff00, l2: 0x0badf00d },
        call_value: U256 { l0: 5, l1: 6, l2: 7, l3: 8 },
    }
}

/// A guest code blob: the marker byte and a minimal ELF64 image with one
/// loadable segment at `ENTRY`.
fn guest_code() -> Vec<u8> {
    let mut e = vec![0x7f, b'E', b'L', b'F', 2, 1, 1, 0, 0, 0, 0, 0, 0, 0, 0, 0];
    e.extend_from_slice(&2u16.to_le_bytes());
    e.extend_from_slice(&0xf3u16.to_le_bytes());
    e.extend_from_slice(&1u32.to_le_bytes());
    e.extend_from_slice(&ENTRY.to_le_bytes());
    e.extend_from_slice(&64u64.to_le_bytes());
    e.extend_from_slice(&0u64.to_le_bytes());
    e.extend_from_slice(&0u32.to_le_bytes());
    e.extend_from_slice(&64u16.to_le_bytes());
    e.extend_from_slice(&56u16.to_le_bytes());
    e.extend_from_slice(&1u16.to_le_bytes());
    e.extend_from_slice(&64u16.to_le_bytes());
    e.extend_from_slice(&0u16.to_le_bytes());
    e.extend_from_slice(&0u16.to_le_bytes());
    e.extend_from_slice(&1u32.to_le_bytes());
    e.extend_from_slice(&5u32.to_le_bytes());
    e.extend_from_slice(&120u64.to_le_bytes());
    e.extend_from_slice(&ENTRY.to_le_bytes());
    e.extend_from_slice(&ENTRY.to_le_bytes());
    e.extend_from_slice(&(CODE.len() as u64).to_le_bytes());
    e.extend_from_slice(&(CODE.len() as u64).to_le_bytes());
    e.extend_from_slice(&0x1000u64.to_le_bytes());
    e.extend_from_slice(&CODE);
    let mut code = vec![0xff];
    code.extend_from_slice(&e);
    code
}

fn small_frame() -> GuestFrame {
    GuestFrame { cpu: Cpu::new(ENTRY, GuestMemory::zeroed(DRAM_BASE, 0x1000)), pending: None }
}

fn read(frame: &GuestFrame, addr: u64, size: u64) -> Vec<u8> {
    frame.cpu.memory.read(addr, size).unwrap()
}

#[test]
fn guest_context_needs_marker_and_image() {
    let code = guest_code();
    let input = vec![1u8, 2, 3];
    let frame = riscv_context(&code, &input).expect("guest image loads");
    assert_eq!(frame.cpu.pc, ENTRY);
    assert!(frame.pending.is_none());
    assert_eq!(read(&frame, ENTRY, 8), CODE.to_vec());
    assert_eq!(read(&frame, DRAM_BASE, 8), 3u64.to_le_bytes().to_vec());
    assert_eq!(read(&frame, DRAM_BASE + 8, 3), input);
    assert!(riscv_context(&code[1..], &input).is_none());
    assert!(riscv_context(&[], &input).is_none());
    assert!(riscv_context(&[0xff, 1, 2, 3], &input).is_none());
}

#[test]
fn image_errors_say_why() {
    let code = guest_code();
    assert!(matches!(
        r55::image::load_image(&[1, 2, 3], &[]),
        Err(r55::InterpreterError::ElfLoadError(_))
    ));
    let too_long = vec![0u8; 0x40_0000];
    assert!(matches!(
        r55::image::load_image(&code[1..], &too_long),
        Err(r55::InterpreterError::MemoryError(_))
    ));
    assert!(r55::image::load_image(&code[1..], &[7]).is_ok());
}

#[test]
fn sstore_then_sload_cold_then_warm() {
    let mut frame = small_frame();
    let mut emu = ScriptedEmu::new(vec![
        ecall(Syscall::SStore, &[5, 100, 0, 0, 0]),
        ecall(Syscall::SLoad, &[5]),
        ecall(Syscall::Return, &[DRAM_BASE, 0]),
    ]);
    let mut host = TestHost::new();
    let mut gas = Gas::new(1_000_000);
    let action = execute_riscv(&mut frame, &mut emu, &ctx(), &mut host, &mut gas);
    assert!(matches!(action, Action::Halt { status: Status::Return, ref output } if output.is_empty()));
    assert_eq!(emu.seen[2][REG_A0], 100);
    assert_eq!(emu.seen[2][REG_A0 + 1], 0);
    assert_eq!(gas.spent(), SSTORE_COLD + SLOAD_WARM);
    assert_eq!(host.storage.peek(U256::from_u64(5)), U256::from_u64(100));
}

#[test]
fn unknown_syscall_reverts_with_all_gas() {
    let mut frame = small_frame();
    let mut emu = ScriptedEmu::new(vec![Step {
        regs: vec![(REG_T0, 0x77)],
        mem: vec![],
        counts: vec![],
        exit: RunExit::EnvironmentCall,
    }]);
    let mut host = TestHost::new();
    let mut gas = Gas::new(50_000);
    let action = execute_riscv(&mut frame, &mut emu, &ctx(), &mut host, &mut gas);
    assert!(matches!(action, Action::Halt { status: Status::Revert, ref output } if output.is_empty()));
    assert_eq!(gas.remaining(), 0);
}

#[test]
fn memory_fault_charges_full_remaining_budget() {
    let mut frame = small_frame();
    let mut emu = ScriptedEmu::new(vec![
        ecall(Syscall::SStore, &[1, 2, 0, 0, 0]),
        Step { regs: vec![], mem: vec![], counts: vec![("lw", 10)], exit: RunExit::Fault },
    ]);
    let mut host = TestHost::new();
    let mut gas = Gas::new(80_000);
    let action = execute_riscv(&mut frame, &mut emu, &ctx(), &mut host, &mut gas);
    assert!(matches!(action, Action::Halt { status: Status::Revert, ref output } if output.is_empty()));
    assert_eq!(gas.remaining(), 0);
    assert_eq!(gas.spent(), 80_000);
}

#[test]
fn return_hands_out_memory_and_charges_instructions() {
    let mut frame = small_frame();
    let mut emu = ScriptedEmu::new(vec![Step {
        regs: vec![(REG_T0, Syscall::Return.id()), (REG_A0, DRAM_BASE + 16), (REG_A0 + 1, 4)],
        mem: vec![(DRAM_BASE + 16, vec![9, 8, 7, 6])],
        counts: vec![("add", 9_175_538 + 500)],
        exit: RunExit::EnvironmentCall,
    }]);
    let mut host = TestHost::new();
    let mut gas = Gas::new(10_000);
    match execute_riscv(&mut frame, &mut emu, &ctx(), &mut host, &mut gas) {
        Action::Halt { status, output } => {
            assert_eq!(status, Status::Return);
            assert_eq!(output, vec![9, 8, 7, 6]);
        }
        other => panic!("unexpected action {:?}", other),
    }
    assert_eq!(gas.spent(), 500);
    assert!(frame.cpu.counts.is_empty());
}

#[test]
fn return_outside_memory_fails_closed() {
    let mut frame = small_frame();
    let mut emu = ScriptedEmu::new(vec![ecall(Syscall::Return, &[DRAM_BASE + 0x800, 0x1000])]);
    let mut host = TestHost::new();
    let mut gas = Gas::new(10_000);
    let action = execute_riscv(&mut frame, &mut emu, &ctx(), &mut host, &mut gas);
    assert!(matches!(action, Action::Halt { status: Status::Revert, .. }));
    assert_eq!(gas.remaining(), 0);
}

#[test]
fn explicit_revert_keeps_unspent_gas() {
    let mut frame = small_frame();
    let mut emu = ScriptedEmu::new(vec![ecall(Syscall::Revert, &[])]);
    let mut host = TestHost::new();
    let mut gas = Gas::new(10_000);
    let action = execute_riscv(&mut frame, &mut emu, &ctx(), &mut host, &mut gas);
    assert!(matches!(action, Action::Halt { status: Status::Revert, ref output } if output.is_empty()));
    assert_eq!(gas.remaining(), 10_000);
}

#[test]
fn running_out_of_gas_in_a_syscall() {
    let mut frame = small_frame();
    let mut emu = ScriptedEmu::new(vec![ecall(Syscall::SStore, &[1, 2, 0, 0, 0])]);
    let mut host = TestHost::new();
    let mut gas = Gas::new(SSTORE_COLD - 1);
    let action = execute_riscv(&mut frame, &mut emu, &ctx(), &mut host, &mut gas);
    assert!(matches!(action, Action::Halt { status: Status::OutOfGas, ref output } if output.is_empty()));
    assert_eq!(gas.remaining(), 0);
}

#[test]
fn environment_reads_fill_registers() {
    let mut frame = small_frame();
    let mut emu = ScriptedEmu::new(vec![ecall(Syscall::Caller, &[])]);
    let mut host = TestHost::new();
    let mut gas = Gas::new(10_000);
    execute_riscv(&mut frame, &mut emu, &ctx(), &mut host, &mut gas);
    let c = ctx().caller;
    assert_eq!(frame.cpu.regs[REG_A0], c.l0);
    assert_eq!(frame.cpu.regs[REG_A0 + 1], c.l1);
    assert_eq!(frame.cpu.regs[REG_A0 + 2], c.l2 as u64);

    let mut frame = small_frame();
    let mut emu = ScriptedEmu::new(vec![
        ecall(Syscall::CallValue, &[]),
        ecall(Syscall::ChainId, &[]),
        ecall(Syscall::GasPrice, &[]),
        ecall(Syscall::Revert, &[]),
    ]);
    let mut gas = Gas::new(10_000);
    execute_riscv(&mut frame, &mut emu, &ctx(), &mut host, &mut gas);
    assert_eq!(emu.seen[2][REG_A0], 1337);
    assert_eq!(emu.seen[1][REG_A0], 5);
    assert_eq!(emu.seen[1][REG_A0 + 1], 6);
    assert_eq!(emu.seen[1][REG_A0 + 2], 7);
    assert_eq!(emu.seen[1][REG_A0 + 3], 8);
    assert_eq!(frame.cpu.regs[REG_A0], 42);
    assert_eq!(frame.cpu.regs[REG_A0 + 1], 0);
    assert_eq!(gas.spent(), 3 * ENV_READ_COST);
}

#[test]
fn keccak_of_empty_input() {
    let mut frame = small_frame();
    let mut emu = ScriptedEmu::new(vec![
        ecall(Syscall::Keccak256, &[DRAM_BASE, 0]),
        ecall(Syscall::Revert, &[]),
    ]);
    let mut host = TestHost::new();
    let mut gas = Gas::new(10_000);
    execute_riscv(&mut frame, &mut emu, &ctx(), &mut host, &mut gas);
    assert_eq!(frame.cpu.regs[REG_A0], 0x3c23f7860146d2c5);
    assert_eq!(frame.cpu.regs[REG_A0 + 3], 0x70a4855d04d8fa7b);
    assert_eq!(gas.spent(), 30);
}

#[test]
fn log_reads_topics_and_data() {
    let mut frame = small_frame();
    let mut topic = vec![0u8; 32];
    topic[31] = 0xee;
    let mut emu = ScriptedEmu::new(vec![Step {
        regs: vec![
            (REG_T0, Syscall::Log.id()),
            (REG_A0, DRAM_BASE),
            (REG_A0 + 1, 3),
            (REG_A0 + 2, DRAM_BASE + 64),
            (REG_A0 + 3, 1),
        ],
        mem: vec![(DRAM_BASE, vec![1, 2, 3]), (DRAM_BASE + 64, topic.clone())],
        counts: vec![],
        exit: RunExit::EnvironmentCall,
    }, ecall(Syscall::Revert, &[])]);
    let mut host = TestHost::new();
    let mut gas = Gas::new(10_000);
    execute_riscv(&mut frame, &mut emu, &ctx(), &mut host, &mut gas);
    assert_eq!(host.logs, vec![(vec![topic], vec![1, 2, 3])]);
    assert_eq!(gas.spent(), 375 + 375 + 24);
}

#[test]
fn call_zero_fills_reservation_and_spends_remaining() {
    let mut frame = small_frame();
    let mut emu = ScriptedEmu::new(vec![Step {
        regs: vec![
            (REG_T0, Syscall::Call.id()),
            (REG_A0, 0xbeef),
            (REG_A0 + 1, 0),
            (REG_A0 + 2, 0x1_0000_0001),
            (REG_A0 + 3, 0),
            (REG_A0 + 4, DRAM_BASE),
            (REG_A0 + 5, 4),
            (REG_A0 + 6, DRAM_BASE + 256),
            (REG_A0 + 7, 32),
        ],
        mem: vec![(DRAM_BASE, vec![0xca, 0xfe, 0xba, 0xbe]), (DRAM_BASE + 256, vec![0xaa; 32])],
        counts: vec![],
        exit: RunExit::EnvironmentCall,
    }]);
    let mut host = TestHost::new();
    let mut gas = Gas::new(100_000);
    match execute_riscv(&mut frame, &mut emu, &ctx(), &mut host, &mut gas) {
        Action::Call { target, value, calldata, gas_limit } => {
            assert_eq!(target, Address { l0: 0xbeef, l1: 0, l2: 1 });
            assert_eq!(value, 0);
            assert_eq!(calldata, vec![0xca, 0xfe, 0xba, 0xbe]);
            assert_eq!(gas_limit, 100_000 - CALL_BASE);
        }
        other => panic!("unexpected action {:?}", other),
    }
    assert_eq!(read(&frame, DRAM_BASE + 256, 32), vec![0u8; 32]);
    assert_eq!(frame.pending, Some(r55::MemoryRange { offset: DRAM_BASE + 256, size: 32 }));
    assert_eq!(gas.remaining(), 0);
}

#[test]
fn nested_call_delivers_output_and_resumes_parent() {
    let code = guest_code();
    let mut stack = CallStack::new();
    let mut host = TestHost::new();
    let reserved = DRAM_BASE + 0x1000;
    let d: Vec<u8> = (0u8..32).map(|i| i * 3 + 1).collect();
    let mut emu = ScriptedEmu::new(vec![
        // frame A issues the call
        Step {
            regs: vec![
                (REG_T0, Syscall::Call.id()),
                (REG_A0, 0xb),
                (REG_A0 + 4, DRAM_BASE + 8),
                (REG_A0 + 5, 2),
                (REG_A0 + 6, reserved),
                (REG_A0 + 7, 32),
            ],
            mem: vec![],
            counts: vec![],
            exit: RunExit::EnvironmentCall,
        },
        // frame B returns 32 bytes
        Step {
            regs: vec![(REG_T0, Syscall::Return.id()), (REG_A0, DRAM_BASE + 0x2000), (REG_A0 + 1, 32)],
            mem: vec![(DRAM_BASE + 0x2000, d.clone())],
            counts: vec![],
            exit: RunExit::EnvironmentCall,
        },
        // frame A resumes and returns
        ecall(Syscall::Return, &[reserved, 32]),
    ]);

    assert!(stack.on_frame_created(&code, &[0xc1, 0xc2]));
    let mut gas_a = Gas::new(1_000_000);
    let a1 = stack.execute_top(&mut emu, &ctx(), &mut host, &mut gas_a).unwrap();
    let calldata = match &a1 {
        Action::Call { calldata, .. } => calldata.clone(),
        other => panic!("unexpected action {:?}", other),
    };
    assert_eq!(calldata, vec![0xc1, 0xc2]);
    stack.on_frame_finished(&a1);
    assert_eq!(stack.depth(), 1);

    assert!(stack.on_frame_created(&code, &calldata));
    let mut gas_b = Gas::new(500_000);
    let b = stack.execute_top(&mut emu, &ctx(), &mut host, &mut gas_b).unwrap();
    stack.on_frame_finished(&b);
    assert_eq!(stack.depth(), 1);

    let parent = stack.top_frame().unwrap();
    assert!(parent.pending.is_none());
    assert_eq!(read(parent, reserved, 32), d);
    assert_eq!(parent.cpu.pc, emu.ecall_pcs[0] + 4);

    let a2 = stack.execute_top(&mut emu, &ctx(), &mut host, &mut gas_a).unwrap();
    match &a2 {
        Action::Halt { status, output } => {
            assert_eq!(*status, Status::Return);
            assert_eq!(*output, d);
        }
        other => panic!("unexpected action {:?}", other),
    }
    assert_eq!(emu.ecall_pcs[2], emu.ecall_pcs[0] + 4);
    stack.on_frame_finished(&a2);
    assert_eq!(stack.depth(), 0);
}

#[test]
fn mismatched_output_leaves_parent_memory() {
    let mut parent = small_frame();
    parent.cpu.memory.write(DRAM_BASE + 32, &[0u8; 32]);
    parent.pending = Some(r55::MemoryRange { offset: DRAM_BASE + 32, size: 32 });
    let before = parent.cpu.memory.bytes.clone();
    r55::bridge::deliver(&mut parent, &[1u8; 16]);
    assert_eq!(parent.cpu.memory.bytes, before);
    assert!(parent.pending.is_none());

    parent.pending = Some(r55::MemoryRange { offset: DRAM_BASE + 32, size: 16 });
    r55::bridge::deliver(&mut parent, &[1u8; 16]);
    assert_eq!(read(&parent, DRAM_BASE + 32, 16), vec![1u8; 16]);
}

#[test]
fn one_slot_per_frame_whatever_its_kind() {
    let code = guest_code();
    let mut stack = CallStack::new();
    assert!(!stack.on_frame_created(&[0x60, 0x00], &[]));
    assert!(stack.on_frame_created(&code, &[]));
    assert!(!stack.on_frame_created(&[0xff, 0x00], &[]));
    assert_eq!(stack.depth(), 3);
    assert!(!stack.top_is_guest());
    let mut host = TestHost::new();
    let mut emu = ScriptedEmu::new(vec![]);
    let mut gas = Gas::new(10);
    assert!(stack.execute_top(&mut emu, &ctx(), &mut host, &mut gas).is_none());
    let call = Action::Call { target: Address { l0: 1, l1: 0, l2: 0 }, value: 0, calldata: vec![], gas_limit: 0 };
    stack.on_frame_finished(&call);
    assert_eq!(stack.depth(), 3);
    let revert = Action::Halt { status: Status::Revert, output: vec![] };
    stack.on_frame_finished(&revert);
    assert_eq!(stack.depth(), 2);
    assert!(stack.top_is_guest());
    stack.on_frame_finished(&revert);
    stack.on_frame_finished(&revert);
    assert_eq!(stack.depth(), 0);
    stack.on_frame_finished(&revert);
    assert_eq!(stack.depth(), 0);
}
