use r55::{Lock, Mapping, MappingGuard, Storage, StorageLayout, Word, U256};

fn word(v: u64) -> U256 {
    U256 { l0: v, l1: 0, l2: 0, l3: 0 }
}

#[test]
fn storage_store_then_load_is_warm() {
    let mut st = Storage::new();
    let cold = st.sstore(word(5), word(100));
    assert!(cold);
    let (v, cold) = st.sload(word(5));
    assert_eq!(v, word(100));
    assert!(!cold);
    let (v, cold) = st.sload(word(6));
    assert_eq!(v, U256::zero());
    assert!(cold);
}

#[test]
fn storage_later_write_wins() {
    let mut st = Storage::new();
    st.sstore(word(1), word(10));
    st.sstore(word(2), word(20));
    st.sstore(word(1), word(11));
    assert_eq!(st.peek(word(1)), word(11));
    assert_eq!(st.peek(word(2)), word(20));
    assert!(st.is_warm(word(1)));
    assert!(!st.is_warm(word(3)));
}

#[test]
fn word_reads_back_what_it_wrote() {
    let mut st = Storage::new();
    let mut w: Word<U256> = Word::new(7);
    assert_eq!(w.read(&st), U256::zero());
    w.write(&mut st, word(42));
    assert_eq!(w.read(&st), word(42));
    let mut flag: Word<bool> = Word::new(8);
    assert!(!flag.read(&st));
    flag.write(&mut st, true);
    assert!(flag.read(&st));
    assert_eq!(st.peek(word(8)), word(1));
}

#[test]
fn lock_guards_reentrancy() {
    let mut st = Storage::new();
    let mut lock: Lock<&'static str> = Lock::allocate(3, 0, 0, 0);
    assert!(!lock.is_unlocked(&st));
    assert_eq!(lock.acquire(&mut st, "locked").err(), Some("locked"));
    lock.initialize(&mut st);
    assert!(lock.is_unlocked(&st));
    let guard = lock.acquire(&mut st, "locked").ok().unwrap();
    assert!(!lock.is_unlocked(&st));
    assert_eq!(lock.acquire(&mut st, "locked").err(), Some("locked"));
    guard.release(&mut st);
    assert!(lock.is_unlocked(&st));
}

fn expected_slot(key: &[u8], id: U256) -> U256 {
    let mut bytes = key.to_vec();
    for l in [id.l3, id.l2, id.l1, id.l0] {
        bytes.extend_from_slice(&l.to_be_bytes());
    }
    let h = alloy_core::primitives::keccak256(&bytes).0;
    let limb = |k: usize| u64::from_le_bytes(h[8 * k..8 * k + 8].try_into().unwrap());
    U256 { l0: limb(0), l1: limb(1), l2: limb(2), l3: limb(3) }
}

#[test]
fn mapping_entries_hash_key_and_slot() {
    let m: Mapping<u64, U256> = Mapping::allocate(9, 0, 0, 1);
    let key = [0u8, 1, 2, 3];
    let slot = m.encode_key(&key);
    assert_eq!(slot, expected_slot(&key, m.id));
    assert_ne!(slot, m.encode_key(&[0u8, 1, 2, 4]));
    let mut st = Storage::new();
    let entry: MappingGuard<U256> = m.index(&key);
    assert_eq!(entry.storage_key, slot);
    entry.write(&mut st, word(77));
    assert_eq!(entry.read(&st), word(77));
    assert_eq!(m.index(&[5u8]).read(&st), U256::zero());
}

#[test]
fn nested_mapping_uses_outer_entry_as_root() {
    let m: Mapping<u64, Mapping<u64, U256>> = Mapping::allocate(2, 0, 0, 0);
    let inner = m.index_nested(&[1u8]);
    assert_eq!(inner.deref().id, expected_slot(&[1u8], m.id));
    let mut st = Storage::new();
    let e = inner.deref().index(&[2u8]);
    e.write(&mut st, word(5));
    assert_eq!(st.peek(expected_slot(&[2u8], inner.mapping.id)), word(5));
}
