//! The observed data: an ordered, fixed-length sequence of binary symbols.
//!
//! Storage is a packed bit vector from the `bitvec` crate. The crate's type
//! carries trait bounds that the verifier refuses to declare, so the vector
//! sits in a private field of an opaque struct; its contents are named by
//! `stored_bits`, and the few methods that reach the crate are trusted
//! declarations whose contracts state what the crate's documentation
//! promises. Everything built on top of them (construction, slicing,
//! windowing, equality) is verified.

use vstd::prelude::*;

verus! {

/// An ordered, indexable, fixed-length sequence of binary symbols: the raw
/// observation data, and the output of sampling. Immutable once built, but
/// for `push`, which construction and sampling use to grow it.
#[verifier::external_body]
pub struct BitSequence {
    bits: bitvec::vec::BitVec<usize, bitvec::order::Lsb0>,
}

/// The sequence of symbols a `BitSequence` holds, in index order.
pub uninterp spec fn stored_bits(s: BitSequence) -> Seq<bool>;

impl View for BitSequence {
    type V = Seq<bool>;

    open spec fn view(&self) -> Seq<bool> {
        stored_bits(*self)
    }
}

impl BitSequence {
    /// The empty sequence. Relies on `BitVec::new`: an empty vector.
    #[verifier::external_body]
    pub fn new() -> (r: BitSequence)
        ensures
            stored_bits(r) == Seq::<bool>::empty(),
    {
        BitSequence { bits: bitvec::vec::BitVec::new() }
    }

    /// The number of symbols. Relies on `BitVec::len`: the number of stored
    /// bits.
    #[verifier::external_body]
    pub fn len(&self) -> (r: usize)
        ensures
            r == stored_bits(*self).len(),
    {
        self.bits.len()
    }

    /// The symbol at position `i`. Relies on `BitSlice`'s `Index<usize>`
    /// (through `BitVec`'s deref): the bit at the index.
    #[verifier::external_body]
    pub fn get(&self, i: usize) -> (r: bool)
        requires
            i < stored_bits(*self).len(),
        ensures
            r == stored_bits(*self)[i as int],
    {
        self.bits[i]
    }

    /// Appends one symbol at the end. Relies on `BitVec::push`: appends one
    /// bit at the end.
    #[verifier::external_body]
    pub fn push(&mut self, bit: bool)
        ensures
            stored_bits(*final (self)) == stored_bits(*old(self)).push(bit),
    {
        self.bits.push(bit)
    }

    /// The sequence holding exactly the given symbols.
    pub fn from_bools(v: &Vec<bool>) -> (r: BitSequence)
        ensures
            r@ == v@,
    {
        let mut r = BitSequence::new();
        let mut i: usize = 0;
        while i < v.len()
            invariant
                i <= v@.len(),
                r@ == v@.subrange(0, i as int),
            decreases v@.len() - i,
        {
            r.push(v[i]);
            proof {
                assert(r@ =~= v@.subrange(0, i + 1));
            }
            i = i + 1;
        }
        proof {
            assert(v@.subrange(0, v@.len() as int) =~= v@);
        }
        r
    }

    /// The symbols as a plain vector, in order.
    pub fn to_bools(&self) -> (r: Vec<bool>)
        ensures
            r@ == self@,
    {
        let n = self.len();
        let mut r: Vec<bool> = Vec::new();
        let mut i: usize = 0;
        while i < n
            invariant
                i <= n == self@.len(),
                r@ == self@.subrange(0, i as int),
            decreases n - i,
        {
            r.push(self.get(i));
            proof {
                assert(r@ =~= self@.subrange(0, i + 1));
            }
            i = i + 1;
        }
        proof {
            assert(self@.subrange(0, self@.len() as int) =~= self@);
        }
        r
    }

    /// The read-only view of positions `lo..hi`, as its own sequence. Indices
    /// out of range are a caller error, excluded by contract.
    pub fn slice(&self, lo: usize, hi: usize) -> (r: BitSequence)
        requires
            lo <= hi <= self@.len(),
        ensures
            r@ == self@.subrange(lo as int, hi as int),
    {
        let mut r = BitSequence::new();
        let mut i: usize = lo;
        while i < hi
            invariant
                lo <= i <= hi,
                r@ == self@.subrange(lo as int, i as int),
            decreases hi - i,
        {
            r.push(self.get(i));
            proof {
                assert(r@ =~= self@.subrange(lo as int, i + 1));
            }
            i = i + 1;
        }
        r
    }

    /// All contiguous runs of exactly `size` consecutive symbols, in index
    /// order, one per starting offset; empty when `size` exceeds the length.
    pub fn windows(&self, size: usize) -> (r: Vec<BitSequence>)
        requires
            size >= 1,
        ensures
            size > self@.len() ==> r@.len() == 0,
            size <= self@.len() ==> r@.len() == self@.len() - size + 1,
            forall|i: int|
                0 <= i < r@.len() ==> (#[trigger] r@[i])@ == self@.subrange(i, i + size),
    {
        let n = self.len();
        let mut r: Vec<BitSequence> = Vec::new();
        if size > n {
            return r;
        }
        let count = n - size + 1;
        let mut i: usize = 0;
        while i < count
            invariant
                i <= count,
                count == self@.len() - size + 1,
                size >= 1,
                r@.len() == i,
                forall|j: int|
                    0 <= j < r@.len() ==> (#[trigger] r@[j])@ == self@.subrange(j, j + size),
            decreases count - i,
        {
            let w = self.slice(i, i + size);
            r.push(w);
            i = i + 1;
        }
        r
    }

    /// Whether the two sequences have the same length and the same symbol
    /// at every position: what `==` means on sequences.
    pub fn equals(&self, other: &BitSequence) -> (r: bool)
        ensures
            r <==> self@ == other@,
    {
        let n = self.len();
        if n != other.len() {
            return false;
        }
        let mut i: usize = 0;
        while i < n
            invariant
                i <= n == self@.len() == other@.len(),
                forall|j: int| 0 <= j < i ==> self@[j] == other@[j],
            decreases n - i,
        {
            if self.get(i) != other.get(i) {
                return false;
            }
            i = i + 1;
        }
        proof {
            assert(self@ =~= other@);
        }
        true
    }
}

impl PartialEq for BitSequence {
    fn eq(&self, other: &BitSequence) -> (r: bool) {
        self.equals(other)
    }
}

impl Eq for BitSequence {

}

impl vstd::std_specs::cmp::PartialEqSpecImpl for BitSequence {
    open spec fn obeys_eq_spec() -> bool {
        true
    }

    open spec fn eq_spec(&self, other: &BitSequence) -> bool {
        self@ == other@
    }
}

} // verus!
