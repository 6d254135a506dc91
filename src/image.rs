use vstd::prelude::*;
use crate::dispatch::GuestFrame;
use crate::machine::{Cpu, GuestMemory, InterpreterError, range_fits, written, DRAM_BASE, DRAM_SIZE};

verus! {

/// The first byte of a host frame's code that marks a guest image.
pub const GUEST_MARKER: u8 = 0xff;
/// Where the call's input is placed: its length as eight little-endian
/// bytes, then the bytes themselves.
pub const CALLDATA_ADDRESS: u64 = DRAM_BASE;
/// The program header type of a loadable segment.
pub const PT_LOAD: u32 = 1;

/// The entry point and the program headers (type, file offset, virtual
/// address, file size) of an ELF image, or `None` where it does not parse.
pub uninterp spec fn elf_layout_of(image: Seq<u8>) -> Option<(u64, Seq<(u32, u64, u64, u64)>)>;

/// Relies on `goblin::elf::Elf::parse`: the entry point and program headers
/// it reads depend on the image bytes alone.
#[verifier::external_body]
fn parse_elf(image: &[u8]) -> (r: Option<(u64, Vec<(u32, u64, u64, u64)>)>)
    ensures
        match r {
            None => elf_layout_of(image@).is_none(),
            Some((entry, segs)) => elf_layout_of(image@) == Some((entry, segs@)),
        },
{
    let elf = goblin::elf::Elf::parse(image).ok()?;
    let segs = elf.program_headers.iter().map(
        |ph| (ph.p_type, ph.p_offset, ph.p_vaddr, ph.p_filesz),
    ).collect();
    Some((elf.header.e_entry, segs))
}

/// Memory after the loadable segments are copied in, in order; `None` where
/// one does not fit in the image or in memory.
pub open spec fn load_segments(
    base: u64,
    bytes: Seq<u8>,
    image: Seq<u8>,
    segs: Seq<(u32, u64, u64, u64)>,
) -> Option<Seq<u8>>
    decreases segs.len(),
{
    if segs.len() == 0 {
        Some(bytes)
    } else {
        match load_segments(base, bytes, image, segs.drop_last()) {
            None => None,
            Some(b) => {
                let (t, off, vaddr, filesz) = segs.last();
                if t != PT_LOAD {
                    Some(b)
                } else if off + filesz <= image.len() && range_fits(base, b.len(), vaddr, filesz) {
                    Some(written(b, vaddr - base, image.subrange(off as int, off + filesz)))
                } else {
                    None
                }
            },
        }
    }
}

/// The eight little-endian bytes of `v`.
pub open spec fn le_bytes(v: u64) -> Seq<u8> {
    seq![
        (v % 0x100) as u8,
        ((v / 0x100) % 0x100) as u8,
        ((v / 0x1_0000) % 0x100) as u8,
        ((v / 0x100_0000) % 0x100) as u8,
        ((v / 0x1_0000_0000) % 0x100) as u8,
        ((v / 0x100_0000_0000) % 0x100) as u8,
        ((v / 0x1_0000_0000_0000) % 0x100) as u8,
        ((v / 0x100_0000_0000_0000) % 0x100) as u8,
    ]
}

/// The memory a guest starts with, or `None` where the image cannot be loaded.
pub open spec fn initial_memory(image: Seq<u8>, input: Seq<u8>) -> Option<Seq<u8>> {
    match elf_layout_of(image) {
        None => None,
        Some((entry, segs)) => match load_segments(
            DRAM_BASE,
            Seq::new(DRAM_SIZE as nat, |i: int| 0u8),
            image,
            segs,
        ) {
            None => None,
            Some(b) => {
                let blob = le_bytes(input.len() as u64) + input;
                if range_fits(DRAM_BASE, b.len(), CALLDATA_ADDRESS, blob.len() as u64) {
                    Some(written(b, CALLDATA_ADDRESS - DRAM_BASE, blob))
                } else {
                    None
                }
            },
        },
    }
}

/// A guest frame as loaded from an image and input: at the entry point,
/// with the initial memory, zeroed registers, an empty histogram and
/// nothing pending.
pub open spec fn fresh_frame(image: Seq<u8>, input: Seq<u8>, f: GuestFrame) -> bool {
    &&& f.cpu.pc == elf_layout_of(image).unwrap().0
    &&& f.cpu.memory.base == DRAM_BASE
    &&& f.cpu.memory.bytes@ == initial_memory(image, input).unwrap()
    &&& f.cpu.counts@.len() == 0
    &&& forall|i: int| 0 <= i < 32 ==> f.cpu.regs@[i] == 0
    &&& f.pending.is_none()
}

/// Whether a host frame's code holds a guest image: it begins with the marker.
pub open spec fn is_guest_code(bytecode: Seq<u8>) -> bool {
    bytecode.len() >= 1 && bytecode[0] == GUEST_MARKER
}

fn u64_le_bytes(v: u64) -> (r: Vec<u8>)
    ensures
        r@ == le_bytes(v),
{
    let mut r: Vec<u8> = Vec::new();
    r.push((v % 0x100) as u8);
    r.push(((v / 0x100) % 0x100) as u8);
    r.push(((v / 0x1_0000) % 0x100) as u8);
    r.push(((v / 0x100_0000) % 0x100) as u8);
    r.push(((v / 0x1_0000_0000) % 0x100) as u8);
    r.push(((v / 0x100_0000_0000) % 0x100) as u8);
    r.push(((v / 0x1_0000_0000_0000) % 0x100) as u8);
    r.push(((v / 0x100_0000_0000_0000) % 0x100) as u8);
    assert(r@ =~= le_bytes(v));
    r
}

/// Copies the loadable segments of an image into memory.
fn load_into(memory: &mut GuestMemory, image: &[u8], segs: &Vec<(u32, u64, u64, u64)>) -> (r: bool)
    ensures
        final(memory).base == old(memory).base,
        r <==> load_segments(old(memory).base, old(memory).bytes@, image@, segs@).is_some(),
        r ==> final(memory).bytes@ == load_segments(
            old(memory).base,
            old(memory).bytes@,
            image@,
            segs@,
        ).unwrap(),
{
    let mut k: usize = 0;
    while k < segs.len()
        invariant
            k <= segs@.len(),
            memory.base == old(memory).base,
            load_segments(old(memory).base, old(memory).bytes@, image@, segs@.subrange(0, k as int))
                == Some(memory.bytes@),
        decreases segs@.len() - k,
    {
        let (t, off, vaddr, filesz) = segs[k];
        proof {
            assert(segs@.subrange(0, k + 1).drop_last() =~= segs@.subrange(0, k as int));
            assert(segs@.subrange(0, k + 1).last() == segs@[k as int]);
        }
        if t == PT_LOAD {
            let n = image.len() as u64;
            if off > n || filesz > n - off {
                proof {
                    lemma_failure_sticks(old(memory).base, old(memory).bytes@, image@, segs@, k + 1);
                }
                return false;
            }
            let seg = vstd::slice::slice_subrange(image, off as usize, (off + filesz) as usize);
            if !memory.write(vaddr, seg) {
                proof {
                    lemma_failure_sticks(old(memory).base, old(memory).bytes@, image@, segs@, k + 1);
                }
                return false;
            }
        }
        k = k + 1;
    }
    assert(segs@.subrange(0, segs@.len() as int) =~= segs@);
    true
}

/// Once a segment fails to load, the whole load fails.
proof fn lemma_failure_sticks(
    base: u64,
    bytes: Seq<u8>,
    image: Seq<u8>,
    segs: Seq<(u32, u64, u64, u64)>,
    k: int,
)
    requires
        0 <= k <= segs.len(),
        load_segments(base, bytes, image, segs.subrange(0, k)).is_none(),
    ensures
        load_segments(base, bytes, image, segs).is_none(),
    decreases segs.len() - k,
{
    if k < segs.len() {
        assert(segs.subrange(0, k + 1).drop_last() =~= segs.subrange(0, k));
        lemma_failure_sticks(base, bytes, image, segs, k + 1);
    } else {
        assert(segs.subrange(0, k) =~= segs);
    }
}

/// Loads a guest image with its call input: an image that does not parse
/// is an `ElfLoadError`; segments or input that do not fit in guest memory
/// are a `MemoryError`. The guest starts at the image's entry point with
/// zeroed registers.
pub fn load_image(image: &[u8], input: &[u8]) -> (r: Result<GuestFrame, InterpreterError>)
    ensures
        r.is_ok() <==> initial_memory(image@, input@).is_some(),
        elf_layout_of(image@).is_none() ==> r matches Err(InterpreterError::ElfLoadError(_)),
        elf_layout_of(image@).is_some() && r.is_err() ==> r matches Err(InterpreterError::MemoryError(_)),
        r matches Ok(f) ==> {
            &&& f.cpu.pc == elf_layout_of(image@).unwrap().0
            &&& f.cpu.memory.base == DRAM_BASE
            &&& f.cpu.memory.bytes@ == initial_memory(image@, input@).unwrap()
            &&& f.cpu.counts@.len() == 0
            &&& forall|i: int| 0 <= i < 32 ==> f.cpu.regs@[i] == 0
            &&& f.pending.is_none()
        },
{
    let (entry, segs) = match parse_elf(image) {
        None => return Err(InterpreterError::ElfLoadError(String::from_str("not an ELF image"))),
        Some(p) => p,
    };
    let mut memory = GuestMemory::zeroed(DRAM_BASE, DRAM_SIZE);
    if !load_into(&mut memory, image, &segs) {
        return Err(InterpreterError::MemoryError(String::from_str("segment outside guest memory")));
    }
    let mut blob = u64_le_bytes(input.len() as u64);
    let mut i: usize = 0;
    while i < input.len()
        invariant
            i <= input@.len(),
            blob@ == le_bytes(input@.len() as u64) + input@.subrange(0, i as int),
        decreases input@.len() - i,
    {
        blob.push(input[i]);
        i = i + 1;
        assert(blob@ =~= le_bytes(input@.len() as u64) + input@.subrange(0, i as int));
    }
    assert(input@.subrange(0, input@.len() as int) =~= input@);
    if !memory.write(CALLDATA_ADDRESS, blob.as_slice()) {
        return Err(InterpreterError::MemoryError(String::from_str("input outside guest memory")));
    }
    Ok(GuestFrame { cpu: Cpu::new(entry, memory), pending: None })
}

/// Builds a guest frame from a host frame's code and input: the code must
/// begin with the marker, and the rest must load as a guest image.
pub fn riscv_context(bytecode: &[u8], input: &[u8]) -> (r: Option<GuestFrame>)
    ensures
        r.is_some() <==> is_guest_code(bytecode@) && initial_memory(bytecode@.drop_first(), input@).is_some(),
        r.is_some() ==> fresh_frame(bytecode@.drop_first(), input@, r.unwrap()),
{
    if bytecode.len() == 0 || bytecode[0] != GUEST_MARKER {
        return None;
    }
    let image = vstd::slice::slice_subrange(bytecode, 1, bytecode.len());
    assert(image@ =~= bytecode@.drop_first());
    match load_image(image, input) {
        Ok(frame) => Some(frame),
        Err(_) => None,
    }
}

} // verus!
