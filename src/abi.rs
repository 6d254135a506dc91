use vstd::prelude::*;

verus! {

/// The big-endian value of the eight bytes from `k`.
pub open spec fn be_u64_at(s: Seq<u8>, k: int) -> nat {
    (s[k + 7] + s[k + 6] * 0x100 + s[k + 5] * 0x1_0000 + s[k + 4] * 0x100_0000 + s[k + 3]
        * 0x1_0000_0000 + s[k + 2] * 0x100_0000_0000 + s[k + 1] * 0x1_0000_0000_0000 + s[k]
        * 0x100_0000_0000_0000) as nat
}

/// The low 64 bits of an ABI-encoded unsigned word: bytes 24 to 32, big-endian.
pub fn parse_hex_result(result: &[u8]) -> (r: u64)
    requires
        result@.len() >= 32,
    ensures
        r as nat == be_u64_at(result@, 24),
{
    (result[31] as u64) + (result[30] as u64) * 0x100 + (result[29] as u64) * 0x1_0000
        + (result[28] as u64) * 0x100_0000 + (result[27] as u64) * 0x1_0000_0000
        + (result[26] as u64) * 0x100_0000_0000 + (result[25] as u64) * 0x1_0000_0000_0000
        + (result[24] as u64) * 0x100_0000_0000_0000
}

/// An ABI-encoded boolean: a 32-byte word whose last byte is one.
pub fn parse_bool_result(hex_result: &[u8]) -> (r: bool)
    ensures
        r == (hex_result@.len() == 32 && hex_result@[31] == 1),
{
    if hex_result.len() == 32 {
        hex_result[31] == 1
    } else {
        false
    }
}

} // verus!
