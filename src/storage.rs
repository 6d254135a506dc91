use vstd::prelude::*;
use crate::host::U256;

verus! {

/// The slot map that a run of writes leaves: later writes win.
pub open spec fn slots_of(w: Seq<(U256, U256)>) -> Map<U256, U256>
    decreases w.len(),
{
    if w.len() == 0 {
        Map::empty()
    } else {
        slots_of(w.drop_last()).insert(w.last().0, w.last().1)
    }
}

/// The value of a slot: zero until it is written.
pub open spec fn slot_value(m: Map<U256, U256>, key: U256) -> U256 {
    if m.dom().contains(key) {
        m[key]
    } else {
        U256 { l0: 0, l1: 0, l2: 0, l3: 0 }
    }
}

proof fn lemma_slots_tail(w: Seq<(U256, U256)>, i: int, key: U256)
    requires
        0 <= i <= w.len(),
        forall|j: int| i <= j < w.len() ==> w[j].0 != key,
    ensures
        slots_of(w).dom().contains(key) == slots_of(w.subrange(0, i)).dom().contains(key),
        slots_of(w).dom().contains(key) ==> slots_of(w)[key] == slots_of(w.subrange(0, i))[key],
    decreases w.len() - i,
{
    if i < w.len() {
        lemma_slots_tail(w.drop_last(), i, key);
        assert(w.drop_last().subrange(0, i) =~= w.subrange(0, i));
    } else {
        assert(w.subrange(0, i) =~= w);
    }
}

/// Contract storage as the guest sees it: slot values, and which slots were
/// already touched in this transaction (warm) or not yet (cold).
pub struct Storage {
    writes: Vec<(U256, U256)>,
    touched: Vec<U256>,
}

impl Storage {
    /// The slot values.
    pub closed spec fn values(&self) -> Map<U256, U256> {
        slots_of(self.writes@)
    }

    /// The slots touched so far.
    pub closed spec fn warm(&self) -> Set<U256> {
        self.touched@.to_set()
    }

    /// Empty storage with nothing touched.
    pub fn new() -> (r: Storage)
        ensures
            r.values() == Map::<U256, U256>::empty(),
            r.warm() == Set::<U256>::empty(),
    {
        let r = Storage { writes: Vec::new(), touched: Vec::new() };
        assert(r.touched@.to_set() =~= Set::<U256>::empty());
        r
    }

    /// The value of a slot, without touching it.
    pub fn peek(&self, key: U256) -> (r: U256)
        ensures
            r == slot_value(self.values(), key),
    {
        let mut i: usize = self.writes.len();
        while i > 0
            invariant
                i <= self.writes@.len(),
                forall|j: int| i <= j < self.writes@.len() ==> self.writes@[j].0 != key,
            decreases i,
        {
            let (k, v) = self.writes[i - 1];
            if k == key {
                proof {
                    let w = self.writes@;
                    lemma_slots_tail(w, i as int, key);
                    assert(w.subrange(0, i as int).drop_last() =~= w.subrange(0, i - 1));
                }
                return v;
            }
            i = i - 1;
        }
        proof {
            lemma_slots_tail(self.writes@, 0, key);
        }
        U256::zero()
    }

    /// Whether a slot was touched already.
    pub fn is_warm(&self, key: U256) -> (r: bool)
        ensures
            r == self.warm().contains(key),
    {
        let mut i: usize = 0;
        while i < self.touched.len()
            invariant
                i <= self.touched@.len(),
                forall|j: int| 0 <= j < i ==> self.touched@[j] != key,
            decreases self.touched@.len() - i,
        {
            if self.touched[i] == key {
                assert(self.touched@.to_set().contains(self.touched@[i as int]));
                return true;
            }
            i = i + 1;
        }
        proof {
            if self.touched@.to_set().contains(key) {
                let j = choose|j: int| 0 <= j < self.touched@.len() && self.touched@[j] == key;
                assert(self.touched@[j] == key);
            }
        }
        false
    }

    fn touch(&mut self, key: U256) -> (cold: bool)
        ensures
            cold == !old(self).warm().contains(key),
            final(self).warm() == old(self).warm().insert(key),
            final(self).values() == old(self).values(),
            final(self).writes == old(self).writes,
    {
        let warm = self.is_warm(key);
        if !warm {
            self.touched.push(key);
        }
        proof {
            let o = old(self).touched@;
            let t = self.touched@;
            assert forall|x: U256| t.to_set().contains(x) == o.to_set().insert(key).contains(x) by {
                if o.to_set().contains(x) {
                    let j = choose|j: int| 0 <= j < o.len() && o[j] == x;
                    assert(t[j] == x);
                }
                if t.to_set().contains(x) {
                    let j = choose|j: int| 0 <= j < t.len() && t[j] == x;
                    if j < o.len() {
                        assert(o[j] == x);
                    }
                }
                if x == key && !warm {
                    assert(t[o.len() as int] == key);
                }
            }
            assert(t.to_set() =~= o.to_set().insert(key));
        }
        !warm
    }

    /// Reads a slot and touches it; reports whether it was cold.
    pub fn sload(&mut self, key: U256) -> (r: (U256, bool))
        ensures
            r.0 == slot_value(old(self).values(), key),
            r.1 == !old(self).warm().contains(key),
            final(self).values() == old(self).values(),
            final(self).warm() == old(self).warm().insert(key),
    {
        let v = self.peek(key);
        let cold = self.touch(key);
        (v, cold)
    }

    /// Writes a slot and touches it; reports whether it was cold.
    pub fn sstore(&mut self, key: U256, value: U256) -> (cold: bool)
        ensures
            cold == !old(self).warm().contains(key),
            final(self).values() == old(self).values().insert(key, value),
            final(self).warm() == old(self).warm().insert(key),
    {
        let cold = self.touch(key);
        self.writes.push((key, value));
        proof {
            assert(self.writes@.drop_last() =~= old(self).writes@);
        }
        cold
    }
}

} // verus!
