use vstd::prelude::*;
use core::marker::PhantomData;
use crate::host::{U256, keccak256, keccak256_of, le_word, word_from_le_bytes};
use crate::image::le_bytes;
use crate::storage::{Storage, slot_value};

verus! {

/// A storage value that claims a place in a contract's storage layout.
pub trait StorageLayout: Sized {
    /// Places the value at the slot whose limbs are given, least significant first.
    fn allocate(first: u64, second: u64, third: u64, fourth: u64) -> Self;
}

/// A value that can be kept in one storage slot.
pub trait StorageStorable: Sized {
    /// The slot word that holds the value.
    spec fn encode(self) -> U256;

    /// The value a slot word holds.
    spec fn decode(w: U256) -> Self;

    /// Decoding what was encoded gives the value back.
    proof fn lemma_round_trip(v: Self)
        ensures
            Self::decode(v.encode()) == v,
    ;

    /// Reads the value from a slot.
    fn read(st: &Storage, key: U256) -> (r: Self)
        ensures
            r == Self::decode(slot_value(st.values(), key)),
    ;

    /// Writes the value to a slot.
    fn write(self, st: &mut Storage, key: U256)
        ensures
            final(st).values() == old(st).values().insert(key, self.encode()),
    ;
}

impl StorageStorable for U256 {
    open spec fn encode(self) -> U256 {
        self
    }

    open spec fn decode(w: U256) -> U256 {
        w
    }

    proof fn lemma_round_trip(v: U256) {
    }

    fn read(st: &Storage, key: U256) -> (r: U256) {
        st.peek(key)
    }

    fn write(self, st: &mut Storage, key: U256) {
        st.sstore(key, self);
    }
}

impl StorageStorable for bool {
    open spec fn encode(self) -> U256 {
        U256 { l0: if self { 1 } else { 0 }, l1: 0, l2: 0, l3: 0 }
    }

    open spec fn decode(w: U256) -> bool {
        w != U256 { l0: 0, l1: 0, l2: 0, l3: 0 }
    }

    proof fn lemma_round_trip(v: bool) {
    }

    fn read(st: &Storage, key: U256) -> (r: bool) {
        st.peek(key) != U256::zero()
    }

    fn write(self, st: &mut Storage, key: U256) {
        st.sstore(key, U256 { l0: if self { 1 } else { 0 }, l1: 0, l2: 0, l3: 0 });
    }
}

/// A single storage slot holding a `V`.
pub struct Word<V> {
    pub slot: u64,
    pub value: PhantomData<V>,
}

impl<V: StorageStorable> Word<V> {
    pub open spec fn key(self) -> U256 {
        U256 { l0: self.slot, l1: 0, l2: 0, l3: 0 }
    }

    pub fn new(slot: u64) -> (r: Word<V>)
        ensures
            r.slot == slot,
    {
        Word { slot, value: PhantomData }
    }

    pub fn read(&self, st: &Storage) -> (r: V)
        ensures
            r == V::decode(slot_value(st.values(), self.key())),
    {
        V::read(st, U256::from_u64(self.slot))
    }

    pub fn write(&mut self, st: &mut Storage, value: V)
        ensures
            final(st).values() == old(st).values().insert(old(self).key(), value.encode()),
            *final(self) == *old(self),
    {
        value.write(st, U256::from_u64(self.slot))
    }
}

/// A reentrancy guard kept in storage. `acquire` locks it and hands out a
/// guard; releasing the guard unlocks it.
pub struct Lock<E> {
    pub unlocked: U256,
    pub err: PhantomData<E>,
}

/// Proof that a lock is held; `release` unlocks it.
pub struct LockGuard<E> {
    pub slot_id: U256,
    pub err: PhantomData<E>,
}

impl<E> StorageLayout for Lock<E> {
    fn allocate(first: u64, second: u64, third: u64, fourth: u64) -> Lock<E> {
        Lock { unlocked: U256 { l0: first, l1: second, l2: third, l3: fourth }, err: PhantomData }
    }
}

impl<E> Lock<E> {
    /// Whether the lock is free in `values`.
    pub open spec fn free_in(self, values: Map<U256, U256>) -> bool {
        bool::decode(slot_value(values, self.unlocked))
    }

    /// Puts the lock in the unlocked state; done once, when the contract is created.
    pub fn initialize(&mut self, st: &mut Storage)
        ensures
            final(st).values() == old(st).values().insert(old(self).unlocked, true.encode()),
            *final(self) == *old(self),
    {
        true.write(st, self.unlocked);
    }

    /// Takes the lock, or gives back `locked_err` where it is already held.
    pub fn acquire(&mut self, st: &mut Storage, locked_err: E) -> (r: Result<LockGuard<E>, E>)
        ensures
            *final(self) == *old(self),
            old(self).free_in(old(st).values()) ==> (match r {
                Ok(g) => g.slot_id == old(self).unlocked,
                Err(_) => false,
            }) && final(st).values() == old(st).values().insert(
                old(self).unlocked,
                false.encode(),
            ),
            !old(self).free_in(old(st).values()) ==> r == Err::<LockGuard<E>, E>(locked_err)
                && final(st).values() == old(st).values(),
    {
        if !bool::read(st, self.unlocked) {
            return Err(locked_err);
        }
        false.write(st, self.unlocked);
        Ok(LockGuard { slot_id: self.unlocked, err: PhantomData })
    }

    /// Whether the lock is free.
    pub fn is_unlocked(&self, st: &Storage) -> (r: bool)
        ensures
            r == self.free_in(st.values()),
    {
        bool::read(st, self.unlocked)
    }
}

impl<E> LockGuard<E> {
    /// Unlocks the lock this guard holds.
    pub fn release(self, st: &mut Storage)
        ensures
            final(st).values() == old(st).values().insert(self.slot_id, true.encode()),
    {
        true.write(st, self.slot_id);
    }
}

/// The 32 big-endian bytes of a word.
pub open spec fn be_word_bytes(w: U256) -> Seq<u8> {
    le_bytes(w.l3).reverse() + le_bytes(w.l2).reverse() + le_bytes(w.l1).reverse() + le_bytes(
        w.l0,
    ).reverse()
}

fn push_be_u64(out: &mut Vec<u8>, v: u64)
    ensures
        final(out)@ == old(out)@ + le_bytes(v).reverse(),
{
    out.push(((v / 0x100_0000_0000_0000) % 0x100) as u8);
    out.push(((v / 0x1_0000_0000_0000) % 0x100) as u8);
    out.push(((v / 0x100_0000_0000) % 0x100) as u8);
    out.push(((v / 0x1_0000_0000) % 0x100) as u8);
    out.push(((v / 0x100_0000) % 0x100) as u8);
    out.push(((v / 0x1_0000) % 0x100) as u8);
    out.push(((v / 0x100) % 0x100) as u8);
    out.push((v % 0x100) as u8);
    assert(final(out)@ =~= old(out)@ + le_bytes(v).reverse());
}

/// The slot of a mapping entry: the hash of the encoded key followed by
/// the mapping's own slot as 32 big-endian bytes.
pub open spec fn entry_slot(id: U256, key: Seq<u8>) -> U256 {
    le_word(keccak256_of(key + be_word_bytes(id)))
}

/// A mapping from encoded keys to storage values, rooted at slot `id`.
pub struct Mapping<K, S> {
    pub id: U256,
    pub types: PhantomData<(K, S)>,
}

/// Access to one mapping entry.
pub struct MappingGuard<S> {
    pub storage_key: U256,
    pub value: PhantomData<S>,
}

/// A mapping whose values are mappings; indexing it gives the inner mapping.
pub struct NestedMapping<K2, S> {
    pub mapping: Mapping<K2, S>,
}

impl<K, S> StorageLayout for Mapping<K, S> {
    fn allocate(first: u64, second: u64, third: u64, fourth: u64) -> Mapping<K, S> {
        Mapping { id: U256 { l0: first, l1: second, l2: third, l3: fourth }, types: PhantomData }
    }
}

impl<K, S> Mapping<K, S> {
    /// The slot of the entry for an encoded key.
    pub fn encode_key(&self, key: &[u8]) -> (r: U256)
        ensures
            r == entry_slot(self.id, key@),
    {
        let mut concatenated: Vec<u8> = Vec::new();
        let mut i: usize = 0;
        while i < key.len()
            invariant
                i <= key@.len(),
                concatenated@ == key@.subrange(0, i as int),
            decreases key@.len() - i,
        {
            concatenated.push(key[i]);
            i = i + 1;
            assert(concatenated@ =~= key@.subrange(0, i as int));
        }
        assert(key@.subrange(0, key@.len() as int) =~= key@);
        push_be_u64(&mut concatenated, self.id.l3);
        push_be_u64(&mut concatenated, self.id.l2);
        push_be_u64(&mut concatenated, self.id.l1);
        push_be_u64(&mut concatenated, self.id.l0);
        assert(concatenated@ =~= key@ + be_word_bytes(self.id));
        let digest = keccak256(concatenated.as_slice());
        word_from_le_bytes(digest.as_slice())
    }

    /// The entry for an encoded key.
    pub fn index(&self, key: &[u8]) -> (r: MappingGuard<S>)
        ensures
            r.storage_key == entry_slot(self.id, key@),
    {
        MappingGuard::new(self.encode_key(key))
    }
}

impl<K1, K2, S> Mapping<K1, Mapping<K2, S>> {
    /// The inner mapping for an encoded outer key.
    pub fn index_nested(&self, key: &[u8]) -> (r: NestedMapping<K2, S>)
        ensures
            r.mapping.id == entry_slot(self.id, key@),
    {
        NestedMapping { mapping: Mapping { id: self.encode_key(key), types: PhantomData } }
    }
}

impl<K2, S> NestedMapping<K2, S> {
    pub fn deref(&self) -> (r: &Mapping<K2, S>)
        ensures
            *r == self.mapping,
    {
        &self.mapping
    }
}

impl<S> MappingGuard<S> {
    pub fn new(storage_key: U256) -> (r: MappingGuard<S>)
        ensures
            r.storage_key == storage_key,
    {
        MappingGuard { storage_key, value: PhantomData }
    }
}

/// A slot read right after a write gives back the written value.
pub proof fn lemma_read_after_write<V: StorageStorable>(values: Map<U256, U256>, key: U256, v: V)
    ensures
        V::decode(slot_value(values.insert(key, v.encode()), key)) == v,
{
    V::lemma_round_trip(v);
}

impl<S: StorageStorable> MappingGuard<S> {
    /// Writes the entry.
    pub fn write(&self, st: &mut Storage, value: S)
        ensures
            final(st).values() == old(st).values().insert(self.storage_key, value.encode()),
    {
        value.write(st, self.storage_key)
    }

    /// Reads the entry.
    pub fn read(&self, st: &Storage) -> (r: S)
        ensures
            r == S::decode(slot_value(st.values(), self.storage_key)),
    {
        S::read(st, self.storage_key)
    }
}

} // verus!
