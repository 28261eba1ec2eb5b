//! Field elements held as plain values.
use vstd::prelude::*;

verus! {

/// An element of the ledger's prime field, held as the little-endian 64-bit
/// limbs of its canonical representative (the integer below the modulus),
/// with the field's fixed number of limbs. Elements are compared by their
/// limbs. That is equality in the field for elements in this canonical form,
/// and the library relies on every element being built in it. Elements in any
/// other form are compared by their limbs only.
pub struct FieldElement {
    limbs: Vec<u64>,
}

impl View for FieldElement {
    type V = Seq<u64>;

    closed spec fn view(&self) -> Seq<u64> {
        self.limbs@
    }
}

/// The limb sequences of a list of field elements.
pub open spec fn values_of(v: Seq<FieldElement>) -> Seq<Seq<u64>> {
    v.map_values(|f: FieldElement| f@)
}

impl FieldElement {
    /// The element whose canonical representative has these limbs, least
    /// significant first. The caller passes the canonical form: the integer
    /// below the field's modulus, in the field's number of limbs (as
    /// `into_bigint` of ark-ff gives it). Nothing here checks that form; a
    /// vector in another form is unequal to the same element in canonical
    /// form.
    pub fn from_limbs(limbs: Vec<u64>) -> (r: FieldElement)
        ensures
            r@ == limbs@,
    {
        FieldElement { limbs }
    }

    pub fn limbs(&self) -> (r: &Vec<u64>)
        ensures
            r@ == self@,
    {
        &self.limbs
    }

    /// Field equality of two elements.
    pub fn is_eq(&self, other: &FieldElement) -> (r: bool)
        ensures
            r == (self@ == other@),
    {
        if self.limbs.len() != other.limbs.len() {
            return false;
        }
        let mut i: usize = 0;
        while i < self.limbs.len()
            invariant
                i <= self.limbs@.len(),
                self.limbs@.len() == other.limbs@.len(),
                self.limbs@.subrange(0, i as int) == other.limbs@.subrange(0, i as int),
            decreases self.limbs@.len() - i,
        {
            if self.limbs[i] != other.limbs[i] {
                assert(self.limbs@[i as int] != other.limbs@[i as int]);
                return false;
            }
            assert(self.limbs@.subrange(0, i as int + 1) =~= self.limbs@.subrange(0, i as int).push(self.limbs@[i as int]));
            assert(other.limbs@.subrange(0, i as int + 1) =~= other.limbs@.subrange(0, i as int).push(other.limbs@[i as int]));
            i = i + 1;
        }
        assert(self.limbs@ =~= self.limbs@.subrange(0, i as int));
        assert(other.limbs@ =~= other.limbs@.subrange(0, i as int));
        true
    }
}

/// Whether some element of `v` equals `x` in the field.
pub fn contains_element(v: &Vec<FieldElement>, x: &FieldElement) -> (r: bool)
    ensures
        r == values_of(v@).contains(x@),
{
    let mut i: usize = 0;
    while i < v.len()
        invariant
            i <= v@.len(),
            forall|j: int| 0 <= j < i ==> v@[j]@ != x@,
        decreases v@.len() - i,
    {
        if v[i].is_eq(x) {
            assert(values_of(v@)[i as int] == x@);
            return true;
        }
        i = i + 1;
    }
    assert(!values_of(v@).contains(x@)) by {
        if values_of(v@).contains(x@) {
            let j = choose|j: int| 0 <= j < values_of(v@).len() && values_of(v@)[j] == x@;
            assert(v@[j]@ == x@);
        }
    }
    false
}

} // verus!
