//! A bridge that runs RISC-V guest contracts inside an EVM-style host.
//!
//! The host is frame based: every call or create gets its own frame with its
//! own gas budget. A guest runs as an uninterrupted instruction stream until it
//! traps on an environment call. The bridge keeps one call-stack slot per host
//! frame, dispatches the guest's system calls, meters the guest's instructions,
//! and splices nested host calls into the middle of a guest run.

pub mod syscall;
pub mod gas;
pub mod machine;
pub mod host;
pub mod dispatch;
pub mod image;
pub mod bridge;
pub mod laws;
pub mod storage;
pub mod runtime;
pub mod contracts;
pub mod abi;

pub use syscall::Syscall;
pub use gas::{Gas, InstructionCount, r55_gas_used};
pub use machine::{Cpu, GuestMemory, InterpreterError, RiscVInterpreter, RunExit};
pub use host::{Address, Env, FrameContext, Host, U256};
pub use dispatch::{Action, GuestFrame, MemoryRange, Status, execute_riscv, dram_slice};
pub use image::riscv_context;
pub use bridge::CallStack;
pub use storage::Storage;
pub use runtime::{Lock, LockGuard, Mapping, MappingGuard, NestedMapping, StorageLayout, StorageStorable, Word};
pub use contracts::{ContractTarget, GeneratedContract, get_contract_name};
pub use abi::{parse_bool_result, parse_hex_result};
