use vstd::prelude::*;

verus! {

/// A 256-bit word as four 64-bit limbs, least significant first.
#[derive(Clone, Copy, Debug, PartialEq, Eq, Structural)]
pub struct U256 {
    pub l0: u64,
    pub l1: u64,
    pub l2: u64,
    pub l3: u64,
}

impl U256 {
    /// The word holding a 64-bit value.
    pub fn from_u64(v: u64) -> (r: U256)
        ensures
            r == (U256 { l0: v, l1: 0, l2: 0, l3: 0 }),
    {
        U256 { l0: v, l1: 0, l2: 0, l3: 0 }
    }

    pub fn zero() -> (r: U256)
        ensures
            r == (U256 { l0: 0, l1: 0, l2: 0, l3: 0 }),
    {
        U256 { l0: 0, l1: 0, l2: 0, l3: 0 }
    }
}

/// A 160-bit account address as limbs, least significant first; the top
/// limb holds 32 bits.
#[derive(Clone, Copy, Debug, PartialEq, Eq, Structural)]
pub struct Address {
    pub l0: u64,
    pub l1: u64,
    pub l2: u32,
}

/// The block and transaction environment a guest can read.
#[derive(Clone, Copy, Debug)]
pub struct Env {
    pub chain_id: u64,
    pub number: U256,
    pub timestamp: U256,
    pub gas_limit: U256,
    pub basefee: U256,
    pub gas_price: U256,
    pub origin: Address,
}

/// What a frame knows of itself: its own address, its caller, and the value sent.
#[derive(Clone, Copy, Debug)]
pub struct FrameContext {
    pub address: Address,
    pub caller: Address,
    pub call_value: U256,
}

/// The accessors of the host engine that the dispatcher uses. An
/// implementation forwards to the host's accounts, storage and logs.
pub trait Host {
    /// Reads a storage slot: its value and whether this was the slot's first
    /// touch in the transaction; `None` where the host's backend failed.
    fn sload(&mut self, address: Address, key: U256) -> Option<(U256, bool)>;

    /// Writes a storage slot: whether this was the slot's first touch;
    /// `None` where the host's backend failed.
    fn sstore(&mut self, address: Address, key: U256, value: U256) -> Option<bool>;

    /// Touches an account: `Some(is_cold)` where it exists, `None` where not.
    fn load_account(&mut self, address: Address) -> Option<bool>;

    /// The block and transaction environment.
    fn env(&mut self) -> Env;

    /// Emits a log; each topic is 32 bytes.
    fn log(&mut self, address: Address, topics: Vec<Vec<u8>>, data: Vec<u8>);
}

/// The Keccak-256 digest of a byte string.
pub uninterp spec fn keccak256_of(data: Seq<u8>) -> Seq<u8>;

/// Relies on `alloy_primitives::keccak256`: it returns a 32-byte digest
/// that depends on the input bytes alone.
#[verifier::external_body]
pub(crate) fn keccak256(data: &[u8]) -> (r: Vec<u8>)
    ensures
        r@ == keccak256_of(data@),
        r@.len() == 32,
{
    alloy_core::primitives::keccak256(data).0.to_vec()
}

/// The little-endian value of the eight bytes from `k`.
pub open spec fn le_u64_at(s: Seq<u8>, k: int) -> nat {
    (s[k] + s[k + 1] * 0x100 + s[k + 2] * 0x1_0000 + s[k + 3] * 0x100_0000 + s[k + 4]
        * 0x1_0000_0000 + s[k + 5] * 0x100_0000_0000 + s[k + 6] * 0x1_0000_0000_0000 + s[k + 7]
        * 0x100_0000_0000_0000) as nat
}

/// Reads eight bytes from `k` as a little-endian integer.
pub fn read_le_u64(s: &[u8], k: usize) -> (r: u64)
    requires
        k + 8 <= s@.len(),
    ensures
        r as nat == le_u64_at(s@, k as int),
{
    (s[k] as u64) + (s[k + 1] as u64) * 0x100 + (s[k + 2] as u64) * 0x1_0000 + (s[k + 3] as u64)
        * 0x100_0000 + (s[k + 4] as u64) * 0x1_0000_0000 + (s[k + 5] as u64) * 0x100_0000_0000
        + (s[k + 6] as u64) * 0x1_0000_0000_0000 + (s[k + 7] as u64) * 0x100_0000_0000_0000
}

/// A 32-byte string as a word: byte `i` is bit group `8 * i`.
pub open spec fn le_word(s: Seq<u8>) -> U256 {
    U256 {
        l0: le_u64_at(s, 0) as u64,
        l1: le_u64_at(s, 8) as u64,
        l2: le_u64_at(s, 16) as u64,
        l3: le_u64_at(s, 24) as u64,
    }
}

/// Reads a 32-byte string as a little-endian word.
pub fn word_from_le_bytes(s: &[u8]) -> (r: U256)
    requires
        s@.len() == 32,
    ensures
        r == le_word(s@),
{
    U256 {
        l0: read_le_u64(s, 0),
        l1: read_le_u64(s, 8),
        l2: read_le_u64(s, 16),
        l3: read_le_u64(s, 24),
    }
}

} // verus!
