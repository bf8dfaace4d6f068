use vstd::prelude::*;

use crate::fields::{Error, FieldElement, Hex};

verus! {

/// One element of GF(2^8): a single byte, with addition as XOR and
/// multiplication as carry-less multiplication reduced modulo the
/// AES irreducible polynomial x^8 + x^4 + x^3 + x + 1 (0x11b).
#[derive(Clone, Copy, PartialEq, Eq, Structural, Debug)]
pub struct GF256(pub u8);

/// Addition (and, in characteristic 2, subtraction): bytewise XOR.
pub open spec fn gf_add(a: u8, b: u8) -> u8 {
    a ^ b
}

/// One doubling step of the carry-less multiplication: multiply by x and,
/// when the top bit falls off, reduce by the low byte of 0x11b.
pub open spec fn gf_xtime(a: u8) -> u8 {
    if a & 0x80 == 0x80 {
        (a << 1) ^ 0x1b
    } else {
        a << 1
    }
}

/// The peasant multiplication, `n` rounds still to go: add `a` in when the
/// low bit of `b` is set, then double `a` and halve `b`.
pub open spec fn gf_mul_rounds(a: u8, b: u8, n: nat) -> u8
    decreases n,
{
    if n == 0 {
        0
    } else {
        (if b & 1 == 1 {
            a
        } else {
            0
        }) ^ gf_mul_rounds(gf_xtime(a), b >> 1, (n - 1) as nat)
    }
}

/// Multiplication in GF(2^8): eight rounds of the peasant algorithm.
pub open spec fn gf_mul(a: u8, b: u8) -> u8 {
    gf_mul_rounds(a, b, 8)
}

/// The multiplicative inverse as a^254 (the multiplicative group has order
/// 255, so a^255 == 1 for nonzero a), built by repeated squaring:
/// 254 = 2 + 4 + 8 + 16 + 32 + 64 + 128. For a == 0 this chain yields 0.
pub open spec fn gf_inv(a: u8) -> u8 {
    let a2 = gf_mul(a, a);
    let a4 = gf_mul(a2, a2);
    let a8 = gf_mul(a4, a4);
    let a16 = gf_mul(a8, a8);
    let a32 = gf_mul(a16, a16);
    let a64 = gf_mul(a32, a32);
    let a128 = gf_mul(a64, a64);
    gf_mul(gf_mul(gf_mul(gf_mul(gf_mul(gf_mul(a128, a64), a32), a16), a8), a4), a2)
}

/// Addition commutes.
pub proof fn lemma_add_comm(a: u8, b: u8)
    ensures
        gf_add(a, b) == gf_add(b, a),
{
    assert(a ^ b == b ^ a) by (bit_vector);
}

/// Addition associates.
pub proof fn lemma_add_assoc(a: u8, b: u8, c: u8)
    ensures
        gf_add(a, gf_add(b, c)) == gf_add(gf_add(a, b), c),
{
    assert(a ^ (b ^ c) == (a ^ b) ^ c) by (bit_vector);
}

/// Subtraction undoes addition.
pub proof fn lemma_sub_of_add(a: u8, b: u8)
    ensures
        gf_add(gf_add(a, b), b) == a,
{
    assert((a ^ b) ^ b == a) by (bit_vector);
}

/// Multiplication commutes.
#[verifier::rlimit(100)]
#[verifier::spinoff_prover]
pub proof fn lemma_mul_comm(a: u8, b: u8)
    ensures
        gf_mul(a, b) == gf_mul(b, a),
{
    assert(gf_mul_rounds(a, b, 8) == gf_mul_rounds(b, a, 8)) by (bit_vector);
}

/// Multiplication distributes over addition.
pub proof fn lemma_mul_distributes(a: u8, b: u8, c: u8)
    ensures
        gf_mul(a, gf_add(b, c)) == gf_add(gf_mul(a, b), gf_mul(a, c)),
{
    assert(gf_mul_rounds(a, b ^ c, 8) == gf_mul_rounds(a, b, 8) ^ gf_mul_rounds(a, c, 8))
        by (bit_vector);
}

/// The element 1 is the multiplicative identity.
pub proof fn lemma_mul_one(a: u8)
    ensures
        gf_mul(a, 1) == a,
        gf_mul(1, a) == a,
{
    assert(gf_mul_rounds(a, 1, 8) == a) by (bit_vector);
    assert(gf_mul_rounds(1u8, a, 8) == a) by (bit_vector);
}

/// The element 0 absorbs multiplication.
pub proof fn lemma_mul_zero(a: u8)
    ensures
        gf_mul(a, 0) == 0,
        gf_mul(0, a) == 0,
{
    assert(gf_mul_rounds(a, 0, 8) == 0) by (bit_vector);
    assert(gf_mul_rounds(0u8, a, 8) == 0) by (bit_vector);
}

/// A product of nonzero elements is nonzero: the field has no zero divisors.
pub proof fn lemma_mul_nonzero(a: u8, b: u8)
    requires
        a != 0,
        b != 0,
    ensures
        gf_mul(a, b) != 0,
{
    assert(a != 0 && b != 0 ==> gf_mul_rounds(a, b, 8) != 0) by (bit_vector);
}

/// XOR facts used when rearranging sums of field elements.
proof fn lemma_xor_basics()
    by (bit_vector)
    ensures
        forall|x: u8| #[trigger] (x ^ 0u8) == x,
        forall|x: u8| #[trigger] (0u8 ^ x) == x,
        forall|x: u8, y: u8, z: u8| #[trigger] ((x ^ y) ^ z) == x ^ (y ^ z),
{
}

/// Every nonzero element times its inverse is 1. The squaring chain is handed
/// to the bit-level solver one link at a time, through named intermediates.
#[verifier::rlimit(100)]
#[verifier::spinoff_prover]
pub proof fn lemma_mul_inverse(a: u8)
    requires
        a != 0,
    ensures
        gf_mul(a, gf_inv(a)) == 1,
{
    let x2 = gf_mul(a, a);
    let x4 = gf_mul(x2, x2);
    let x8 = gf_mul(x4, x4);
    let x16 = gf_mul(x8, x8);
    let x32 = gf_mul(x16, x16);
    let x64 = gf_mul(x32, x32);
    let x128 = gf_mul(x64, x64);
    let m1 = gf_mul(x128, x64);
    let m2 = gf_mul(m1, x32);
    let m3 = gf_mul(m2, x16);
    let m4 = gf_mul(m3, x8);
    let m5 = gf_mul(m4, x4);
    let r = gf_mul(m5, x2);
    assert(gf_inv(a) == r);
    assert(gf_mul_rounds(a, r, 8) == 1) by (bit_vector)
        requires
            a != 0,
            x2 == gf_mul_rounds(a, a, 8),
            x4 == gf_mul_rounds(x2, x2, 8),
            x8 == gf_mul_rounds(x4, x4, 8),
            x16 == gf_mul_rounds(x8, x8, 8),
            x32 == gf_mul_rounds(x16, x16, 8),
            x64 == gf_mul_rounds(x32, x32, 8),
            x128 == gf_mul_rounds(x64, x64, 8),
            m1 == gf_mul_rounds(x128, x64, 8),
            m2 == gf_mul_rounds(m1, x32, 8),
            m3 == gf_mul_rounds(m2, x16, 8),
            m4 == gf_mul_rounds(m3, x8, 8),
            m5 == gf_mul_rounds(m4, x4, 8),
            r == gf_mul_rounds(m5, x2, 8),
    ;
}

impl FieldElement for GF256 {
    open spec fn count_spec() -> nat {
        256
    }

    open spec fn add_spec(self, other: Self) -> Self {
        GF256(gf_add(self.0, other.0))
    }

    open spec fn sub_spec(self, other: Self) -> Self {
        GF256(gf_add(self.0, other.0))
    }

    open spec fn mul_spec(self, other: Self) -> Self {
        GF256(gf_mul(self.0, other.0))
    }

    open spec fn inv_spec(self) -> Self {
        GF256(gf_inv(self.0))
    }

    open spec fn zero() -> Self {
        GF256(0)
    }

    open spec fn one() -> Self {
        GF256(1)
    }

    fn field_element_count() -> (r: usize) {
        256
    }

    fn plus(&self, other: &Self) -> (r: Self) {
        GF256(self.0 ^ other.0)
    }

    fn minus(&self, other: &Self) -> (r: Self) {
        GF256(self.0 ^ other.0)
    }

    fn times(&self, other: &Self) -> (r: Self) {
        let mut a = self.0;
        let mut b = other.0;
        let mut product: u8 = 0;
        let mut i: usize = 0;
        proof {
            lemma_xor_basics();
        }
        while i < 8
            invariant
                i <= 8,
                gf_mul(self.0, other.0) == product ^ gf_mul_rounds(a, b, (8 - i) as nat),
            decreases 8 - i,
        {
            let ghost old_a = a;
            let ghost old_b = b;
            let ghost old_product = product;
            let term: u8 = if b & 1 == 1 {
                a
            } else {
                0
            };
            product = product ^ term;
            b = b >> 1;
            if a & 0x80 == 0x80 {
                a = (a << 1) ^ 0x1b;
            } else {
                a = a << 1;
            }
            i = i + 1;
            proof {
                lemma_xor_basics();
                let rest = gf_mul_rounds(a, b, (8 - i) as nat);
                assert(a == gf_xtime(old_a));
                assert(gf_mul_rounds(old_a, old_b, (8 - (i - 1)) as nat) == term ^ rest);
                assert(old_product ^ (term ^ rest) == (old_product ^ term) ^ rest);
            }
        }
        proof {
            lemma_xor_basics();
            assert(gf_mul_rounds(a, b, 0) == 0);
        }
        GF256(product)
    }

    fn inverse(&self) -> (r: Self) {
        self.explicit_inverse()
    }

    fn sample_uniform() -> Self {
        GF256(random_byte())
    }

    fn sample_n_others(&self, n: usize) -> (r: Result<Vec<Self>, Error>) {
        if n > 255 {
            return Err(Error::InsufficientSamplingSpace);
        }
        let mut others: Vec<GF256> = Vec::new();
        let mut budget: usize = 4_000_000;
        while others.len() < n && budget > 0
            invariant
                others@.len() <= n,
                n <= 255,
                forall|i: int, j: int| 0 <= i < j < others@.len() ==> others@[i] != others@[j],
                forall|i: int| 0 <= i < others@.len() ==> others@[i] != *self,
            decreases budget,
        {
            budget = budget - 1;
            let candidate = GF256(random_byte());
            if candidate.0 != self.0 && !contains_byte(&others, candidate.0) {
                others.push(candidate);
            }
        }
        if others.len() == n {
            Ok(others)
        } else {
            Err(Error::InsufficientSamplingSpace)
        }
    }
}

impl Hex for GF256 {
    open spec fn byte_rep(self) -> u8 {
        self.0
    }

    fn from_bytes(bytes: &[u8]) -> (r: Vec<Self>) {
        let mut r: Vec<GF256> = Vec::new();
        let mut i: usize = 0;
        while i < bytes.len()
            invariant
                i <= bytes@.len(),
                r@.len() == i,
                forall|j: int| 0 <= j < i ==> #[trigger] r@[j].byte_rep() == bytes@[j],
            decreases bytes@.len() - i,
        {
            r.push(GF256(bytes[i]));
            i = i + 1;
        }
        r
    }

    fn to_bytes(data: &[Self]) -> (r: Vec<u8>) {
        let mut r: Vec<u8> = Vec::new();
        let mut i: usize = 0;
        while i < data.len()
            invariant
                i <= data@.len(),
                r@.len() == i,
                forall|j: int| 0 <= j < i ==> r@[j] == #[trigger] data@[j].byte_rep(),
            decreases data@.len() - i,
        {
            r.push(data[i].0);
            i = i + 1;
        }
        r
    }
}

impl GF256 {
    /// The inverse computed by exponentiation to the 254th power via repeated
    /// squaring; total, with the zero element mapped to zero. Serves as the
    /// cross-check form of `inverse`.
    pub fn explicit_inverse(&self) -> (r: Self)
        ensures
            r.0 == gf_inv(self.0),
            self.0 != 0 ==> gf_mul(self.0, r.0) == 1,
    {
        let a2 = self.times(self);
        let a4 = a2.times(&a2);
        let a8 = a4.times(&a4);
        let a16 = a8.times(&a8);
        let a32 = a16.times(&a16);
        let a64 = a32.times(&a32);
        let a128 = a64.times(&a64);
        let r = a128.times(&a64).times(&a32).times(&a16).times(&a8).times(&a4).times(&a2);
        proof {
            if self.0 != 0 {
                lemma_mul_inverse(self.0);
            }
        }
        r
    }

    /// The inverse guarded against the zero element: `ZeroInverse` exactly on zero.
    pub fn checked_inverse(&self) -> (r: Result<Self, Error>)
        ensures
            self.0 == 0 ==> r == Err::<GF256, Error>(Error::ZeroInverse),
            self.0 != 0 ==> r == Ok::<GF256, Error>(GF256(gf_inv(self.0))),
    {
        if self.0 == 0 {
            Err(Error::ZeroInverse)
        } else {
            Ok(self.explicit_inverse())
        }
    }
}

/// Relies on rand::random::<u8>, a byte from the thread-local CSPRNG;
/// nothing is promised of the value.
#[verifier::external_body]
fn random_byte() -> u8 {
    rand::random::<u8>()
}

/// Whether some element of `v` has byte value `c`.
fn contains_byte(v: &Vec<GF256>, c: u8) -> (b: bool)
    ensures
        b == exists|i: int| 0 <= i < v@.len() && v@[i].0 == c,
{
    let mut i: usize = 0;
    while i < v.len()
        invariant
            i <= v@.len(),
            forall|j: int| 0 <= j < i ==> v@[j].0 != c,
        decreases v@.len() - i,
    {
        if v[i].0 == c {
            return true;
        }
        i = i + 1;
    }
    false
}

} // verus!
