//! Fixed-length coordinate tuples with componentwise arithmetic.
//!
//! A coordinate is an ordered sequence of scalar components. Its dimension is
//! fixed at construction; every binary operation demands operands of equal
//! dimension. All operations are pure: each returns a fresh coordinate.

use vstd::prelude::*;

verus! {

/// The components of a coordinate, as a sequence of mathematical integers.
pub open spec fn to_ints(s: Seq<i32>) -> Seq<int> {
    Seq::new(s.len(), |i: int| s[i] as int)
}

/// The all-zero component sequence of length `n`.
pub open spec fn zero_seq(n: nat) -> Seq<int> {
    Seq::new(n, |i: int| 0)
}

/// Componentwise sum of two equal-length component sequences.
pub open spec fn spec_add(a: Seq<int>, b: Seq<int>) -> Seq<int>
    recommends
        a.len() == b.len(),
{
    Seq::new(a.len(), |i: int| a[i] + b[i])
}

/// Componentwise difference of two equal-length component sequences.
pub open spec fn spec_sub(a: Seq<int>, b: Seq<int>) -> Seq<int>
    recommends
        a.len() == b.len(),
{
    Seq::new(a.len(), |i: int| a[i] - b[i])
}

/// Every component multiplied by the scalar `k`.
pub open spec fn spec_scale(a: Seq<int>, k: int) -> Seq<int> {
    Seq::new(a.len(), |i: int| a[i] * k)
}

/// A fixed-dimension coordinate: exactly `d.len()` scalar components, in
/// axis order.
#[derive(Debug)]
pub struct C {
    pub d: Vec<i32>,
}

impl View for C {
    type V = Seq<int>;

    open spec fn view(&self) -> Seq<int> {
        to_ints(self.d@)
    }
}

impl C {
    /// A coordinate of dimension `n` whose every component is zero, the
    /// scalar default.
    pub fn new(n: usize) -> (r: C)
        ensures
            r@ == zero_seq(n as nat),
    {
        let mut d: Vec<i32> = Vec::new();
        for i in 0..n
            invariant
                d@.len() == i,
                forall|j: int| 0 <= j < i ==> d@[j] == 0,
        {
            d.push(0);
        }
        let r = C { d };
        proof {
            assert(r@ =~= zero_seq(n as nat));
        }
        r
    }

    /// A coordinate built positionally from the given components.
    pub fn from(d: Vec<i32>) -> (r: C)
        ensures
            r.d@ == d@,
            r@ == to_ints(d@),
    {
        C { d }
    }

    /// The dimension: how many components the coordinate has.
    pub fn dim(&self) -> (r: usize)
        ensures
            r == self@.len(),
    {
        self.d.len()
    }

    /// Componentwise sum: `r[i] == self[i] + rhs[i]` on every axis.
    pub fn add(&self, rhs: &C) -> (r: C)
        requires
            self@.len() == rhs@.len(),
            forall|i: int| 0 <= i < self@.len() ==> i32::MIN <= (#[trigger] self@[i]) + rhs@[i] <= i32::MAX,
        ensures
            r@ == spec_add(self@, rhs@),
    {
        let n: usize = self.d.len();
        let mut d: Vec<i32> = Vec::new();
        for i in 0..n
            invariant
                n == self.d@.len(),
                self@.len() == rhs@.len(),
                forall|k: int| 0 <= k < n ==> i32::MIN <= (#[trigger] self@[k]) + rhs@[k] <= i32::MAX,
                d@.len() == i,
                forall|j: int| 0 <= j < i ==> d@[j] == self@[j] + rhs@[j],
        {
            proof {
                assert(self@[i as int] == self.d@[i as int]);
                assert(rhs@[i as int] == rhs.d@[i as int]);
            }
            d.push(self.d[i] + rhs.d[i]);
        }
        let r = C { d };
        proof {
            assert(r@ =~= spec_add(self@, rhs@));
        }
        r
    }

    /// Componentwise difference: `r[i] == self[i] - rhs[i]` on every axis.
    pub fn sub(&self, rhs: &C) -> (r: C)
        requires
            self@.len() == rhs@.len(),
            forall|i: int| 0 <= i < self@.len() ==> i32::MIN <= (#[trigger] self@[i]) - rhs@[i] <= i32::MAX,
        ensures
            r@ == spec_sub(self@, rhs@),
    {
        let n: usize = self.d.len();
        let mut d: Vec<i32> = Vec::new();
        for i in 0..n
            invariant
                n == self.d@.len(),
                self@.len() == rhs@.len(),
                forall|k: int| 0 <= k < n ==> i32::MIN <= (#[trigger] self@[k]) - rhs@[k] <= i32::MAX,
                d@.len() == i,
                forall|j: int| 0 <= j < i ==> d@[j] == self@[j] - rhs@[j],
        {
            proof {
                assert(self@[i as int] == self.d@[i as int]);
                assert(rhs@[i as int] == rhs.d@[i as int]);
            }
            d.push(self.d[i] - rhs.d[i]);
        }
        let r = C { d };
        proof {
            assert(r@ =~= spec_sub(self@, rhs@));
        }
        r
    }

    /// Componentwise scaling by a single scalar: `r[i] == self[i] * k`.
    pub fn mul(&self, k: i32) -> (r: C)
        requires
            forall|i: int| 0 <= i < self@.len() ==> i32::MIN <= (#[trigger] self@[i]) * k <= i32::MAX,
        ensures
            r@ == spec_scale(self@, k as int),
    {
        let n: usize = self.d.len();
        let mut d: Vec<i32> = Vec::new();
        for i in 0..n
            invariant
                n == self.d@.len(),
                forall|j: int| 0 <= j < n ==> i32::MIN <= (#[trigger] self@[j]) * k <= i32::MAX,
                d@.len() == i,
                forall|j: int| 0 <= j < i ==> d@[j] == self@[j] * k,
        {
            proof {
                assert(self@[i as int] == self.d@[i as int]);
            }
            d.push(self.d[i] * k);
        }
        let r = C { d };
        proof {
            assert(r@ =~= spec_scale(self@, k as int));
        }
        r
    }
}

/// Addition of coordinates is commutative: for equal dimensions,
/// `a.add(&b)` and `b.add(&a)` have the same components.
pub proof fn lemma_add_commutative(a: C, b: C)
    requires
        a@.len() == b@.len(),
    ensures
        spec_add(a@, b@) == spec_add(b@, a@),
{
    assert(spec_add(a@, b@) =~= spec_add(b@, a@));
}

/// Subtraction undoes addition: `a.add(&b).sub(&b)` has the components
/// of `a`, for equal dimensions.
pub proof fn lemma_sub_add_inverse(a: C, b: C)
    requires
        a@.len() == b@.len(),
    ensures
        spec_sub(spec_add(a@, b@), b@) == a@,
{
    assert(spec_sub(spec_add(a@, b@), b@) =~= a@);
}

/// The all-zero coordinate is the identity of addition: `a.add(&zero)`
/// has the components of `a`, for every dimension including zero.
pub proof fn lemma_add_zero_identity(a: C)
    ensures
        spec_add(a@, zero_seq(a@.len())) == a@,
{
    assert(spec_add(a@, zero_seq(a@.len())) =~= a@);
}

/// Scaling by one changes nothing: `a.mul(1)` has the components of `a`.
pub proof fn lemma_scale_one(a: C)
    ensures
        spec_scale(a@, 1) == a@,
{
    assert(spec_scale(a@, 1) =~= a@);
}

/// Scaling by zero yields the all-zero coordinate of the same dimension.
pub proof fn lemma_scale_zero(a: C)
    ensures
        spec_scale(a@, 0) == zero_seq(a@.len()),
{
    assert(spec_scale(a@, 0) =~= zero_seq(a@.len()));
}

impl PartialEq for C {
    /// Two coordinates are equal iff their dimensions match and every
    /// component is equal pairwise.
    fn eq(&self, other: &C) -> (r: bool) {
        if self.d.len() != other.d.len() {
            proof {
                assert(self@.len() == self.d@.len());
                assert(other@.len() == other.d@.len());
            }
            return false;
        }
        let n: usize = self.d.len();
        for i in 0..n
            invariant
                n == self.d@.len(),
                self.d@.len() == other.d@.len(),
                forall|j: int| 0 <= j < i ==> self@[j] == other@[j],
        {
            if self.d[i] != other.d[i] {
                proof {
                    assert(self@[i as int] == self.d@[i as int]);
                    assert(other@[i as int] == other.d@[i as int]);
                }
                return false;
            }
        }
        proof {
            assert(self@ =~= other@);
        }
        true
    }
}

impl vstd::std_specs::cmp::PartialEqSpecImpl for C {
    open spec fn obeys_eq_spec() -> bool {
        true
    }

    open spec fn eq_spec(&self, other: &C) -> bool {
        self@ == other@
    }
}

} // verus!
