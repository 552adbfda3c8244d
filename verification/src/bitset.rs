use vstd::prelude::*;

verus! {

/// Whether bit `i` of the byte sequence `entries` is set.
pub open spec fn spec_bit(entries: Seq<u8>, i: int) -> bool {
    (entries[i / 8] >> ((i % 8) as u8)) & 1 == 1
}

/// A fixed-width bit vector recording, for each global entry point, whether
/// that entry point can reach the chunk that carries it. Consumed, not
/// computed, by this core.
#[derive(Debug)]
pub struct BitSet {
    entries: Vec<u8>,
    bit_count: u32,
}

impl BitSet {
    /// The bits, lowest index first.
    pub closed spec fn view(&self) -> Seq<bool> {
        Seq::new(self.bit_count as nat, |i: int| spec_bit(self.entries@, i))
    }

    pub closed spec fn wf(&self) -> bool {
        self.entries@.len() == (self.bit_count + 7) / 8
    }

    /// A bit vector of `bit_count` bits, all clear.
    pub fn new(bit_count: u32) -> (r: BitSet)
        ensures
            r.wf(),
            r@.len() == bit_count,
            forall|i: int| 0 <= i < bit_count ==> !r@[i],
    {
        let byte_count: usize = ((bit_count as u64 + 7) / 8) as usize;
        let mut entries: Vec<u8> = Vec::new();
        let mut j: usize = 0;
        while j < byte_count
            invariant
                j <= byte_count,
                entries@.len() == j,
                forall|k: int| 0 <= k < j ==> entries@[k] == 0u8,
            decreases byte_count - j,
        {
            entries.push(0u8);
            j = j + 1;
        }
        let r = BitSet { entries, bit_count };
        proof {
            assert forall|i: int| 0 <= i < bit_count implies !r@[i] by {
                assert(r.entries@[i / 8] == 0u8);
                assert(forall|k: u8| (0u8 >> k) & 1 == 0) by (bit_vector);
            }
        }
        r
    }

    /// The number of bits the vector was made with.
    pub fn len(&self) -> (r: u32)
        ensures
            r == self@.len(),
    {
        self.bit_count
    }

    /// Sets bit `i`; every other bit keeps its value.
    pub fn set_bit(&mut self, i: u32)
        requires
            old(self).wf(),
            i < old(self)@.len(),
        ensures
            final(self).wf(),
            final(self)@ == old(self)@.update(i as int, true),
    {
        let idx: usize = (i / 8) as usize;
        let mask: u8 = 1u8 << (i % 8) as u8;
        let b = self.entries[idx];
        self.entries.set(idx, b | mask);
        proof {
            let k = (i % 8) as u8;
            let e_old = old(self).entries@;
            let e_new = self.entries@;
            assert(e_new == e_old.update(idx as int, (b | mask)));
            assert forall|t: int| 0 <= t < self.bit_count implies self@[t] == old(
                self,
            )@.update(i as int, true)[t] by {
                assert(self@[t] == spec_bit(e_new, t));
                assert(old(self)@[t] == spec_bit(e_old, t));
                if t / 8 == idx as int {
                    let j = (t % 8) as u8;
                    assert(e_new[t / 8] == (b | mask));
                    assert(((b | (1u8 << k)) >> j) & 1 == (if j == k {
                        1u8
                    } else {
                        (b >> j) & 1
                    })) by (bit_vector)
                        requires
                            j < 8,
                            k < 8,
                    ;
                    if t == i {
                        assert(j == k);
                        assert(spec_bit(e_new, t));
                    } else {
                        assert(t % 8 != i % 8);
                        assert(j != k);
                        assert(spec_bit(e_new, t) == spec_bit(e_old, t));
                    }
                } else {
                    assert(e_new[t / 8] == e_old[t / 8]);
                    assert(t != i);
                }
            }
            assert(self@ =~= old(self)@.update(i as int, true));
        }
    }

    /// Whether bit `i` is set.
    pub fn has_bit(&self, i: u32) -> (r: bool)
        requires
            self.wf(),
            i < self@.len(),
        ensures
            r == self@[i as int],
    {
        let idx: usize = (i / 8) as usize;
        let b = self.entries[idx];
        let r = (b >> (i % 8) as u8) & 1 == 1;
        r
    }
}

} // verus!
