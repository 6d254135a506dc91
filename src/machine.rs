use vstd::prelude::*;
use crate::gas::InstructionCount;

verus! {

/// Register `t0`, which carries the system call id.
pub const REG_T0: usize = 5;
/// Register `a0`, the first argument and result register.
pub const REG_A0: usize = 10;
/// Where guest memory starts.
pub const DRAM_BASE: u64 = 0x8000_0000;
/// The size of a fresh guest memory.
pub const DRAM_SIZE: u64 = 0x40_0000;

/// Errors of loading a guest image.
#[derive(Debug)]
pub enum InterpreterError {
    /// The image is not an ELF image.
    ElfLoadError(String),
    /// A segment or the input does not fit in guest memory.
    MemoryError(String),
}

/// A contiguous guest memory: `bytes[i]` is the byte at address `base + i`.
#[derive(Clone, Debug)]
pub struct GuestMemory {
    pub base: u64,
    pub bytes: Vec<u8>,
}

/// Whether `size` bytes from `addr` lie inside `m`.
pub open spec fn in_range(m: GuestMemory, addr: u64, size: u64) -> bool {
    range_fits(m.base, m.bytes@.len(), addr, size)
}

/// Whether `size` bytes from `addr` lie inside `len` bytes from `base`.
pub open spec fn range_fits(base: u64, len: nat, addr: u64, size: u64) -> bool {
    base <= addr && (addr - base) + size <= len
}

/// The `size` bytes from `addr`, where `in_range(m, addr, size)`.
pub open spec fn bytes_at(m: GuestMemory, addr: u64, size: u64) -> Seq<u8> {
    m.bytes@.subrange(addr - m.base, addr - m.base + size)
}

/// `m` with `data` written at `addr`, where it fits.
pub open spec fn written(m: Seq<u8>, off: int, data: Seq<u8>) -> Seq<u8> {
    m.subrange(0, off) + data + m.subrange(off + data.len(), m.len() as int)
}

impl GuestMemory {
    /// A zeroed memory of `size` bytes at `base`.
    pub fn zeroed(base: u64, size: u64) -> (r: GuestMemory)
        requires
            size <= usize::MAX,
        ensures
            r.base == base,
            r.bytes@ == Seq::new(size as nat, |i: int| 0u8),
    {
        let mut bytes: Vec<u8> = Vec::new();
        let n = size as usize;
        let mut i: usize = 0;
        while i < n
            invariant
                i <= n,
                bytes@ == Seq::new(i as nat, |j: int| 0u8),
            decreases n - i,
        {
            bytes.push(0);
            i = i + 1;
            assert(bytes@ =~= Seq::new(i as nat, |j: int| 0u8));
        }
        GuestMemory { base, bytes }
    }

    /// Whether `size` bytes from `addr` lie inside this memory.
    pub fn contains(&self, addr: u64, size: u64) -> (r: bool)
        ensures
            r == in_range(*self, addr, size),
    {
        if addr < self.base {
            return false;
        }
        let off = addr - self.base;
        let len = self.bytes.len() as u64;
        off <= len && size <= len - off
    }

    /// Reads `size` bytes from `addr`; an empty read always succeeds.
    pub fn read(&self, addr: u64, size: u64) -> (r: Option<Vec<u8>>)
        ensures
            size == 0 ==> r.is_some(),
            size != 0 ==> (r.is_some() <==> in_range(*self, addr, size)),
            r.is_some() ==> r.unwrap()@ == (if size == 0 {
                Seq::<u8>::empty()
            } else {
                bytes_at(*self, addr, size)
            }),
    {
        if size == 0 {
            return Some(Vec::new());
        }
        if !self.contains(addr, size) {
            return None;
        }
        let len = self.bytes.len();
        assert((addr - self.base) + size <= len);
        let off = (addr - self.base) as usize;
        let end = off + size as usize;
        let mut out: Vec<u8> = Vec::new();
        let mut i: usize = off;
        while i < end
            invariant
                off <= i <= end,
                end <= self.bytes@.len(),
                out@ == self.bytes@.subrange(off as int, i as int),
            decreases end - i,
        {
            out.push(self.bytes[i]);
            i = i + 1;
            assert(out@ =~= self.bytes@.subrange(off as int, i as int));
        }
        Some(out)
    }

    /// Writes `data` at `addr` if it fits; otherwise changes nothing.
    pub fn write(&mut self, addr: u64, data: &[u8]) -> (r: bool)
        ensures
            r == in_range(*old(self), addr, data@.len() as u64),
            final(self).base == old(self).base,
            r ==> final(self).bytes@ == written(old(self).bytes@, addr - old(self).base, data@),
            !r ==> final(self).bytes@ == old(self).bytes@,
    {
        if data.len() as u64 > u64::MAX || !self.contains(addr, data.len() as u64) {
            return false;
        }
        let len = self.bytes.len();
        assert((addr - self.base) + data@.len() <= len);
        let off = (addr - self.base) as usize;
        let ghost before = self.bytes@;
        let mut i: usize = 0;
        while i < data.len()
            invariant
                len == before.len(),
                self.base == old(self).base,
                before == old(self).bytes@,
                off + data@.len() <= before.len(),
                self.bytes@.len() == before.len(),
                i <= data@.len(),
                forall|j: int| 0 <= j < off ==> self.bytes@[j] == before[j],
                forall|j: int| off <= j < off + i ==> self.bytes@[j] == data@[j - off],
                forall|j: int| off + i <= j < before.len() ==> self.bytes@[j] == before[j],
            decreases data@.len() - i,
        {
            self.bytes.set(off + i, data[i]);
            i = i + 1;
        }
        assert(self.bytes@ =~= written(before, off as int, data@));
        true
    }

    /// Zeroes `size` bytes from `addr` if they fit; otherwise changes nothing.
    pub fn fill_zero(&mut self, addr: u64, size: u64) -> (r: bool)
        ensures
            r == in_range(*old(self), addr, size),
            final(self).base == old(self).base,
            r ==> final(self).bytes@ == written(
                old(self).bytes@,
                addr - old(self).base,
                Seq::new(size as nat, |i: int| 0u8),
            ),
            !r ==> final(self).bytes@ == old(self).bytes@,
    {
        if !self.contains(addr, size) {
            return false;
        }
        let len = self.bytes.len();
        assert((addr - self.base) + size <= len);
        let off = (addr - self.base) as usize;
        let n = size as usize;
        let ghost before = self.bytes@;
        let mut i: usize = 0;
        while i < n
            invariant
                len == before.len(),
                self.base == old(self).base,
                before == old(self).bytes@,
                n == size,
                off + n <= before.len(),
                self.bytes@.len() == before.len(),
                i <= n,
                forall|j: int| 0 <= j < off ==> self.bytes@[j] == before[j],
                forall|j: int| off <= j < off + i ==> self.bytes@[j] == 0u8,
                forall|j: int| off + i <= j < before.len() ==> self.bytes@[j] == before[j],
            decreases n - i,
        {
            self.bytes.set(off + i, 0);
            i = i + 1;
        }
        assert(self.bytes@ =~= written(before, off as int, Seq::new(size as nat, |i: int| 0u8)));
        true
    }
}

/// The architectural state of one guest: program counter, integer
/// registers, memory, and the instruction histogram since the last charge.
#[derive(Clone, Debug)]
pub struct Cpu {
    pub pc: u64,
    pub regs: [u64; 32],
    pub memory: GuestMemory,
    pub counts: Vec<InstructionCount>,
}

/// Why the emulator stopped.
#[derive(Clone, Copy, Debug, PartialEq, Eq, Structural)]
pub enum RunExit {
    /// The guest executed `ecall`; `pc` holds the address of that instruction.
    EnvironmentCall,
    /// Any other trap: illegal instruction, access outside memory, misalignment.
    Fault,
}

/// An instruction-set emulator: it runs a guest's instructions on the
/// guest's state until the guest traps.
pub trait RiscVInterpreter {
    /// Executes instructions from `cpu.pc` until an environment call or a
    /// fault, counting each executed mnemonic in `cpu.counts`.
    fn run(&mut self, cpu: &mut Cpu) -> RunExit;
}

impl Cpu {
    /// A guest at `entry` with zeroed registers, the given memory and an
    /// empty histogram.
    pub fn new(entry: u64, memory: GuestMemory) -> (r: Cpu)
        ensures
            r.pc == entry,
            r.memory == memory,
            r.counts@.len() == 0,
            forall|i: int| 0 <= i < 32 ==> r.regs@[i] == 0,
    {
        let regs: [u64; 32] = [0u64; 32];
        assert(forall|i: int| 0 <= i < 32 ==> regs@[i] == 0);
        Cpu { pc: entry, regs, memory, counts: Vec::new() }
    }

    /// Reads an integer register.
    pub fn read_register(&self, r: usize) -> (v: u64)
        requires
            r < 32,
        ensures
            v == self.regs@[r as int],
    {
        self.regs[r]
    }

    /// Writes an integer register.
    pub fn write_register(&mut self, r: usize, v: u64)
        requires
            r < 32,
        ensures
            final(self).regs@ == old(self).regs@.update(r as int, v),
            final(self).pc == old(self).pc,
            final(self).memory == old(self).memory,
            final(self).counts == old(self).counts,
    {
        self.regs[r] = v;
    }
}

} // verus!
