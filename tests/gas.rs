use r55::gas::{weight_of, ABI_DECODE_BASELINE};
use r55::{r55_gas_used, Gas, InstructionCount, Syscall};

fn hist(entries: &[(&str, u64)]) -> Vec<InstructionCount> {
    entries
        .iter()
        .map(|(n, c)| InstructionCount { name: n.to_string(), count: *c })
        .collect()
}

#[test]
fn weights_follow_instruction_classes() {
    assert_eq!(weight_of("div"), 25);
    assert_eq!(weight_of("divuw"), 25);
    assert_eq!(weight_of("remu"), 25);
    assert_eq!(weight_of("mulh"), 5);
    assert_eq!(weight_of("lw"), 3);
    assert_eq!(weight_of("sc.d"), 3);
    assert_eq!(weight_of("jalr"), 3);
    assert_eq!(weight_of("add"), 1);
    assert_eq!(weight_of("lwx"), 1);
    assert_eq!(weight_of(""), 1);
}

#[test]
fn gas_below_baseline_is_free() {
    let h = hist(&[("div", 1), ("mul", 2), ("lw", 3), ("add", 10)]);
    assert_eq!(r55_gas_used(&h), 0);
    assert_eq!(r55_gas_used(&Vec::new()), 0);
}

#[test]
fn gas_above_baseline_subtracts_it_once() {
    let h = hist(&[("add", ABI_DECODE_BASELINE + 100)]);
    assert_eq!(r55_gas_used(&h), 100);
    let h = hist(&[("divu", 1_000_000)]);
    assert_eq!(r55_gas_used(&h), 25_000_000 - 9_175_538);
    let h = hist(&[("beq", 4_000_000), ("mulw", 1), ("sub", 7)]);
    assert_eq!(r55_gas_used(&h), 12_000_000 + 5 + 7 - 9_175_538);
}

#[test]
fn gas_saturates_on_huge_histograms() {
    let h = hist(&[("div", u64::MAX), ("add", 5)]);
    assert_eq!(r55_gas_used(&h), u64::MAX - ABI_DECODE_BASELINE);
}

#[test]
fn gas_account_charges_and_refuses() {
    let mut g = Gas::new(1000);
    assert!(g.record_cost(300));
    assert_eq!(g.remaining(), 700);
    assert_eq!(g.spent(), 300);
    assert!(!g.record_cost(701));
    assert_eq!(g.remaining(), 700);
    g.consume_all();
    assert_eq!(g.remaining(), 0);
    assert_eq!(g.spent(), g.limit());
}

#[test]
fn syscall_ids_round_trip() {
    let all = [
        Syscall::Return,
        Syscall::SLoad,
        Syscall::SStore,
        Syscall::Call,
        Syscall::Keccak256,
        Syscall::Origin,
        Syscall::Caller,
        Syscall::CallValue,
        Syscall::GasPrice,
        Syscall::Timestamp,
        Syscall::Number,
        Syscall::GasLimit,
        Syscall::ChainId,
        Syscall::BaseFee,
        Syscall::Log,
        Syscall::Revert,
    ];
    for s in all {
        assert_eq!(Syscall::from_id(s.id()), Some(s));
    }
    assert_eq!(Syscall::from_id(0x04), None);
    assert_eq!(Syscall::from_id(0x100), None);
    assert_eq!(Syscall::from_id(u64::MAX), None);
}

#[test]
fn abi_results_decode() {
    let mut word = [0u8; 32];
    word[24..32].copy_from_slice(&0x0102030405060708u64.to_be_bytes());
    assert_eq!(r55::parse_hex_result(&word), 0x0102030405060708);
    let mut t = [0u8; 32];
    t[31] = 1;
    assert!(r55::parse_bool_result(&t));
    t[31] = 2;
    assert!(!r55::parse_bool_result(&t));
    assert!(!r55::parse_bool_result(&[1u8]));
}
