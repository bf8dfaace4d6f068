use vstd::prelude::*;

verus! {

/// The ways an operation of this library can fail. All are local,
/// synchronous and recoverable by the caller.
#[derive(Clone, Copy, PartialEq, Eq, Structural, Debug)]
pub enum Error {
    /// `encode` was given `k == 0`, `k > m`, or `m` at least the field cardinality.
    InvalidThreshold,
    /// More pairwise-distinct non-`self` elements were requested than the field
    /// can supply, or the bounded retry budget of the sampler ran out.
    InsufficientSamplingSpace,
    /// A multiplicative inverse of the zero element was requested.
    ZeroInverse,
    /// `decode` was given two shares with the same x-coordinate.
    DuplicateXCoordinate,
    /// `decode` was given shares whose y-vectors differ in length.
    MismatchedShareShape,
    /// `decode` was given no shares at all.
    InsufficientShares,
}

/// A value of a finite field of statically known cardinality. Every operation
/// is total on the allowed inputs and returns a new value; the arithmetic is
/// pinned down by the implementing type's spec functions.
pub trait FieldElement: Sized + Copy {
    /// The field's cardinality.
    spec fn count_spec() -> nat;

    /// What `plus` returns.
    spec fn add_spec(self, other: Self) -> Self;

    /// What `minus` returns.
    spec fn sub_spec(self, other: Self) -> Self;

    /// What `times` returns.
    spec fn mul_spec(self, other: Self) -> Self;

    /// What `inverse` returns.
    spec fn inv_spec(self) -> Self;

    /// The additive identity.
    spec fn zero() -> Self;

    /// The multiplicative identity.
    spec fn one() -> Self;

    fn field_element_count() -> (r: usize)
        ensures
            r == Self::count_spec(),
    ;

    fn plus(&self, other: &Self) -> (r: Self)
        ensures
            r == self.add_spec(*other),
    ;

    fn minus(&self, other: &Self) -> (r: Self)
        ensures
            r == self.sub_spec(*other),
    ;

    fn times(&self, other: &Self) -> (r: Self)
        ensures
            r == self.mul_spec(*other),
    ;

    fn inverse(&self) -> (r: Self)
        requires
            *self != Self::zero(),
        ensures
            r == self.inv_spec(),
    ;

    /// One element drawn uniformly at random; nothing can be promised of the value.
    fn sample_uniform() -> Self;

    /// `n` pairwise-distinct elements, each distinct from `self`, drawn by
    /// rejection sampling under a bounded retry budget. Fails with
    /// `InsufficientSamplingSpace` when more elements are asked for than exist
    /// besides `self`, or (vanishingly unlikely) when the budget runs out.
    fn sample_n_others(&self, n: usize) -> (r: Result<Vec<Self>, Error>)
        ensures
            n > Self::count_spec() - 1 ==> r == Err::<Vec<Self>, Error>(
                Error::InsufficientSamplingSpace,
            ),
            r is Err ==> r == Err::<Vec<Self>, Error>(Error::InsufficientSamplingSpace),
            r matches Ok(v) ==> {
                &&& n <= Self::count_spec() - 1
                &&& v@.len() == n
                &&& forall|i: int, j: int| 0 <= i < j < v@.len() ==> v@[i] != v@[j]
                &&& forall|i: int| 0 <= i < v@.len() ==> v@[i] != *self
            },
    ;
}

/// The byte-identity transport interface: each element stands for exactly one
/// byte, and a byte sequence maps one-for-one onto an element sequence.
pub trait Hex: Sized {
    /// The byte that this element stands for.
    spec fn byte_rep(self) -> u8;

    fn from_bytes(bytes: &[u8]) -> (r: Vec<Self>)
        ensures
            r@.len() == bytes@.len(),
            forall|i: int| 0 <= i < r@.len() ==> #[trigger] r@[i].byte_rep() == bytes@[i],
    ;

    fn to_bytes(data: &[Self]) -> (r: Vec<u8>)
        ensures
            r@.len() == data@.len(),
            forall|i: int| 0 <= i < r@.len() ==> r@[i] == #[trigger] data@[i].byte_rep(),
    ;
}

} // verus!
