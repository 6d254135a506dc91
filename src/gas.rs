use vstd::prelude::*;

verus! {

/// Gas for reading a storage slot first touched in this transaction.
pub const SLOAD_COLD: u64 = 2100;
/// Gas for reading a storage slot already touched.
pub const SLOAD_WARM: u64 = 100;
/// Gas for writing a storage slot first touched in this transaction.
pub const SSTORE_COLD: u64 = 2200;
/// Gas for writing a storage slot already touched.
pub const SSTORE_WARM: u64 = 100;
/// Surcharge for calling an account that does not exist.
pub const CALL_EMPTY_ACCOUNT: u64 = 25000;
/// Surcharge for calling an account first touched in this transaction.
pub const CALL_NEW_ACCOUNT: u64 = 2600;
/// Surcharge for a call that transfers value.
pub const CALL_VALUE: u64 = 9000;
/// Base cost of calling an account already touched.
pub const CALL_BASE: u64 = 100;
/// The instruction cost of decoding an empty argument list; it is priced
/// elsewhere and subtracted once from every charge.
pub const ABI_DECODE_BASELINE: u64 = 9175538;

/// One entry of an instruction histogram: how often one mnemonic ran.
#[derive(Clone, Debug)]
pub struct InstructionCount {
    pub name: String,
    pub count: u64,
}

pub open spec fn has_prefix(s: Seq<char>, p: Seq<char>) -> bool {
    p.len() <= s.len() && s.subrange(0, p.len() as int) == p
}

/// Loads, stores and branches: priced like an EVM memory access.
pub open spec fn is_memory_or_branch(s: Seq<char>) -> bool {
    s == "lb"@ || s == "lh"@ || s == "lw"@ || s == "ld"@ || s == "lbu"@ || s == "lhu"@
        || s == "lwu"@ || s == "sb"@ || s == "sh"@ || s == "sw"@ || s == "sd"@ || s == "sc.w"@
        || s == "sc.d"@ || s == "beq"@ || s == "bne"@ || s == "blt"@ || s == "bge"@
        || s == "bltu"@ || s == "bgeu"@ || s == "jal"@ || s == "jalr"@
}

/// The per-occurrence weight of an instruction mnemonic.
pub open spec fn instruction_weight(s: Seq<char>) -> nat {
    if has_prefix(s, "div"@) || has_prefix(s, "rem"@) {
        25
    } else if has_prefix(s, "mul"@) {
        5
    } else if is_memory_or_branch(s) {
        3
    } else {
        1
    }
}

/// The raw instruction cost of a histogram.
pub open spec fn raw_cost(h: Seq<InstructionCount>) -> nat
    decreases h.len(),
{
    if h.len() == 0 {
        0
    } else {
        (raw_cost(h.drop_last()) + instruction_weight(h.last().name@) * h.last().count) as nat
    }
}

/// The gas charged for a histogram: the raw cost (capped at the largest
/// `u64`) less the decoding baseline, and nothing where the raw cost is below it.
pub open spec fn translated_gas(h: Seq<InstructionCount>) -> nat {
    let raw = if raw_cost(h) > u64::MAX { u64::MAX as nat } else { raw_cost(h) };
    if raw <= ABI_DECODE_BASELINE {
        0
    } else {
        (raw - ABI_DECODE_BASELINE) as nat
    }
}

pub(crate) fn starts_with(s: &str, p: &str) -> (r: bool)
    ensures
        r == has_prefix(s@, p@),
{
    let n = s.unicode_len();
    let m = p.unicode_len();
    if m > n {
        return false;
    }
    let mut i: usize = 0;
    while i < m
        invariant
            m == p@.len(),
            n == s@.len(),
            m <= n,
            i <= m,
            forall|j: int| 0 <= j < i ==> s@[j] == p@[j],
        decreases m - i,
    {
        if s.get_char(i) != p.get_char(i) {
            assert(s@.subrange(0, m as int)[i as int] != p@[i as int]);
            return false;
        }
        i = i + 1;
    }
    assert(s@.subrange(0, m as int) =~= p@);
    true
}

pub(crate) fn same_chars(s: &str, p: &str) -> (r: bool)
    ensures
        r == (s@ == p@),
{
    if s.unicode_len() != p.unicode_len() {
        return false;
    }
    let r = starts_with(s, p);
    proof {
        assert(s@ =~= s@.subrange(0, p@.len() as int));
    }
    r
}

/// The weight of one mnemonic.
pub fn weight_of(name: &str) -> (r: u64)
    ensures
        r == instruction_weight(name@),
{
    proof {
        reveal_strlit("div");
        reveal_strlit("rem");
        reveal_strlit("mul");
    }
    if starts_with(name, "div") || starts_with(name, "rem") {
        25
    } else if starts_with(name, "mul") {
        5
    } else if same_chars(name, "lb") || same_chars(name, "lh") || same_chars(name, "lw")
        || same_chars(name, "ld") || same_chars(name, "lbu") || same_chars(name, "lhu")
        || same_chars(name, "lwu") || same_chars(name, "sb") || same_chars(name, "sh")
        || same_chars(name, "sw") || same_chars(name, "sd") || same_chars(name, "sc.w")
        || same_chars(name, "sc.d") || same_chars(name, "beq") || same_chars(name, "bne")
        || same_chars(name, "blt") || same_chars(name, "bge") || same_chars(name, "bltu")
        || same_chars(name, "bgeu") || same_chars(name, "jal") || same_chars(name, "jalr") {
        3
    } else {
        1
    }
}

/// Translates an instruction histogram into gas.
pub fn r55_gas_used(inst_count: &Vec<InstructionCount>) -> (r: u64)
    ensures
        r as nat == translated_gas(inst_count@),
{
    let mut total: u64 = 0;
    let mut i: usize = 0;
    while i < inst_count.len()
        invariant
            i <= inst_count@.len(),
            total as nat == (if raw_cost(inst_count@.subrange(0, i as int)) > u64::MAX {
                u64::MAX as nat
            } else {
                raw_cost(inst_count@.subrange(0, i as int))
            }),
        decreases inst_count@.len() - i,
    {
        let entry = &inst_count[i];
        let w = weight_of(entry.name.as_str());
        let term: u64 = if entry.count > u64::MAX / w {
            proof {
                assert(w * entry.count > u64::MAX) by (nonlinear_arith)
                    requires entry.count > u64::MAX / w, w >= 1;
            }
            u64::MAX
        } else {
            proof {
                assert(w * entry.count <= u64::MAX) by (nonlinear_arith)
                    requires entry.count <= u64::MAX / w, w >= 1;
            }
            w * entry.count
        };
        total = total.saturating_add(term);
        proof {
            let prev = inst_count@.subrange(0, i as int);
            let next = inst_count@.subrange(0, i + 1);
            assert(next.drop_last() =~= prev);
            assert(next.last() == inst_count@[i as int]);
            assert(raw_cost(next) == raw_cost(prev) + instruction_weight(entry.name@)
                * entry.count);
            assert(instruction_weight(entry.name@) * entry.count >= 0) by (nonlinear_arith);
        }
        i = i + 1;
    }
    assert(inst_count@.subrange(0, inst_count@.len() as int) =~= inst_count@);
    if total <= ABI_DECODE_BASELINE {
        0
    } else {
        total - ABI_DECODE_BASELINE
    }
}

/// The gas account of one host frame.
#[derive(Clone, Copy, Debug)]
pub struct Gas {
    limit: u64,
    remaining: u64,
}

impl Gas {
    #[verifier::type_invariant]
    spec fn inv(self) -> bool {
        self.remaining <= self.limit
    }

    pub closed spec fn spec_limit(self) -> u64 {
        self.limit
    }

    pub closed spec fn spec_remaining(self) -> u64 {
        self.remaining
    }

    /// A fresh account with the whole limit left.
    pub fn new(limit: u64) -> (r: Gas)
        ensures
            r.spec_limit() == limit,
            r.spec_remaining() == limit,
    {
        Gas { limit, remaining: limit }
    }

    pub fn limit(&self) -> (r: u64)
        ensures
            r == self.spec_limit(),
    {
        self.limit
    }

    pub fn remaining(&self) -> (r: u64)
        ensures
            r == self.spec_remaining(),
            r <= self.spec_limit(),
    {
        proof {
            use_type_invariant(self);
        }
        self.remaining
    }

    /// The gas charged so far.
    pub fn spent(&self) -> (r: u64)
        ensures
            r == self.spec_limit() - self.spec_remaining(),
    {
        proof {
            use_type_invariant(self);
        }
        self.limit - self.remaining
    }

    /// Charges `cost` if that much is left; otherwise leaves the account as it is.
    pub fn record_cost(&mut self, cost: u64) -> (r: bool)
        ensures
            r == (cost <= old(self).spec_remaining()),
            final(self).spec_limit() == old(self).spec_limit(),
            r ==> final(self).spec_remaining() == old(self).spec_remaining() - cost,
            !r ==> final(self).spec_remaining() == old(self).spec_remaining(),
            final(self).spec_remaining() <= final(self).spec_limit(),
    {
        proof {
            use_type_invariant(&*self);
        }
        if cost > self.remaining {
            false
        } else {
            self.remaining = self.remaining - cost;
            true
        }
    }

    /// Charges everything that is left.
    pub fn consume_all(&mut self)
        ensures
            final(self).spec_limit() == old(self).spec_limit(),
            final(self).spec_remaining() == 0,
    {
        self.remaining = 0;
    }
}

} // verus!
