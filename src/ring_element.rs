use vstd::prelude::*;

use crate::field_element::FieldElement;
use crate::math::field_element::q;

verus! {

/// A polynomial given by its list of coefficients, of any length.
#[derive(Clone, Debug)]
pub struct RingElement {
    pub val: Vec<FieldElement>,
}

/// The coefficients of a list, as integers.
pub open spec fn coef_values(v: Seq<FieldElement>) -> Seq<int> {
    v.map_values(|f: FieldElement| f.val as int)
}

/// Every coefficient of the list is reduced.
pub open spec fn all_reduced(v: Seq<FieldElement>) -> bool {
    forall|i: int| 0 <= i < v.len() ==> #[trigger] v[i].val < q()
}

impl RingElement {
    /// Wrap a list of coefficients.
    pub fn new(val: Vec<FieldElement>) -> (r: Self)
        ensures
            r.val@ == val@,
    {
        RingElement { val }
    }

    /// Coefficient-wise sum of two polynomials of the same length.
    pub fn add(self, other: Self) -> (r: Self)
        requires
            self.val.len() == other.val.len(),
            all_reduced(self.val@),
            all_reduced(other.val@),
        ensures
            r.val.len() == self.val.len(),
            forall|i: int|
                0 <= i < r.val.len() ==> #[trigger] r.val[i].val == (self.val[i].val
                    + other.val[i].val) % 3329,
    {
        let mut out: Vec<FieldElement> = Vec::new();
        let mut i: usize = 0;
        while i < self.val.len()
            invariant
                self.val.len() == other.val.len(),
                all_reduced(self.val@),
                all_reduced(other.val@),
                i <= self.val.len(),
                out.len() == i,
                forall|j: int|
                    0 <= j < i ==> #[trigger] out[j].val == (self.val[j].val + other.val[j].val)
                        % 3329,
            decreases self.val.len() - i,
        {
            out.push(self.val[i].add(other.val[i]));
            i = i + 1;
        }
        RingElement { val: out }
    }

    /// Coefficient-wise difference of two polynomials of the same length.
    pub fn sub(self, other: Self) -> (r: Self)
        requires
            self.val.len() == other.val.len(),
            all_reduced(self.val@),
            all_reduced(other.val@),
        ensures
            r.val.len() == self.val.len(),
            forall|i: int|
                0 <= i < r.val.len() ==> #[trigger] r.val[i].val == (self.val[i].val
                    - other.val[i].val) % 3329,
    {
        let mut out: Vec<FieldElement> = Vec::new();
        let mut i: usize = 0;
        while i < self.val.len()
            invariant
                self.val.len() == other.val.len(),
                all_reduced(self.val@),
                all_reduced(other.val@),
                i <= self.val.len(),
                out.len() == i,
                forall|j: int|
                    0 <= j < i ==> #[trigger] out[j].val == (self.val[j].val - other.val[j].val)
                        % 3329,
            decreases self.val.len() - i,
        {
            out.push(self.val[i].sub(other.val[i]));
            i = i + 1;
        }
        RingElement { val: out }
    }
}

impl PartialEq for RingElement {
    fn eq(&self, other: &Self) -> (r: bool) {
        if self.val.len() != other.val.len() {
            return false;
        }
        let mut i: usize = 0;
        while i < self.val.len()
            invariant
                self.val.len() == other.val.len(),
                i <= self.val.len(),
                forall|j: int| 0 <= j < i ==> #[trigger] self.val[j] == other.val[j],
            decreases self.val.len() - i,
        {
            if self.val[i].val != other.val[i].val {
                return false;
            }
            assert(self.val[i as int] == other.val[i as int]);
            i = i + 1;
        }
        proof {
            assert(self.val@ =~= other.val@);
        }
        true
    }
}

impl vstd::std_specs::cmp::PartialEqSpecImpl for RingElement {
    open spec fn obeys_eq_spec() -> bool {
        true
    }

    open spec fn eq_spec(&self, other: &RingElement) -> bool {
        self.val@ == other.val@
    }
}

} // verus!
