use vstd::prelude::*;

use crate::fields::{Error, FieldElement};
use crate::gf256::{
    gf_add, gf_inv, gf_mul, lemma_mul_nonzero, lemma_mul_one, GF256,
};

verus! {

/// One recipient's fragment: an x-coordinate and one y-value per secret element.
#[derive(Clone, Debug, PartialEq, Eq)]
pub struct Share {
    pub x: GF256,
    pub y: Vec<GF256>,
}

/// x to the n-th power in GF(2^8), accumulated the way the evaluator multiplies.
pub open spec fn gf_pow(x: u8, n: nat) -> u8
    decreases n,
{
    if n == 0 {
        1
    } else {
        gf_mul(gf_pow(x, (n - 1) as nat), x)
    }
}

/// The first `n` terms of the hidden polynomial
/// `c0 + coeffs[0]·x + coeffs[1]·x^2 + …` evaluated at `x`.
pub open spec fn eval_prefix(c0: u8, coeffs: Seq<u8>, x: u8, n: int) -> u8
    decreases n,
{
    if n <= 0 {
        c0
    } else {
        eval_prefix(c0, coeffs, x, n - 1) ^ gf_mul(gf_pow(x, n as nat), coeffs[n - 1])
    }
}

/// The hidden polynomial with constant term `c0` and higher coefficients
/// `coeffs`, evaluated at `x`.
pub open spec fn eval_poly(c0: u8, coeffs: Seq<u8>, x: u8) -> u8 {
    eval_prefix(c0, coeffs, x, coeffs.len() as int)
}

/// Product of `xs[0..n]` with position `i` left out.
pub open spec fn gf_prod_except(xs: Seq<u8>, i: int, n: int) -> u8
    decreases n,
{
    if n <= 0 {
        1
    } else if n - 1 == i {
        gf_prod_except(xs, i, n - 1)
    } else {
        gf_mul(gf_prod_except(xs, i, n - 1), xs[n - 1])
    }
}

/// Product of the differences `xs[j] - xs[i]` over `j` in `0..n`, `j != i`.
pub open spec fn gf_diff_prod_except(xs: Seq<u8>, i: int, n: int) -> u8
    decreases n,
{
    if n <= 0 {
        1
    } else if n - 1 == i {
        gf_diff_prod_except(xs, i, n - 1)
    } else {
        gf_mul(gf_diff_prod_except(xs, i, n - 1), gf_add(xs[n - 1], xs[i]))
    }
}

/// The Lagrange basis coefficient of share `i` at the point X = 0:
/// `∏_{j≠i} x_j / ∏_{j≠i} (x_j - x_i)`.
pub open spec fn lagrange_coeff(xs: Seq<u8>, i: int) -> u8 {
    gf_mul(
        gf_prod_except(xs, i, xs.len() as int),
        gf_inv(gf_diff_prod_except(xs, i, xs.len() as int)),
    )
}

/// The first `n` terms of the interpolation sum `Σ_i λ_i · ys[i]`.
pub open spec fn interp_prefix(xs: Seq<u8>, ys: Seq<u8>, n: int) -> u8
    decreases n,
{
    if n <= 0 {
        0
    } else {
        interp_prefix(xs, ys, n - 1) ^ gf_mul(lagrange_coeff(xs, n - 1), ys[n - 1])
    }
}

/// The unique polynomial through `(xs[i], ys[i])`, evaluated at X = 0.
pub open spec fn interp_at_zero(xs: Seq<u8>, ys: Seq<u8>) -> u8 {
    interp_prefix(xs, ys, xs.len() as int)
}

/// The x-coordinates of a share sequence, as bytes.
pub open spec fn share_xs(shares: Seq<Share>) -> Seq<u8> {
    shares.map_values(|s: Share| s.x.0)
}

/// Column `p` of a share sequence: each share's y-value for secret position `p`.
pub open spec fn share_col(shares: Seq<Share>, p: int) -> Seq<u8> {
    shares.map_values(|s: Share| s.y@[p].0)
}

/// Whether two of the x-coordinates coincide.
pub open spec fn has_duplicate(xs: Seq<u8>) -> bool {
    exists|i: int, j: int| 0 <= i < j < xs.len() && xs[i] == xs[j]
}

/// Whether every share carries as many y-values as the first one.
pub open spec fn uniform_shape(shares: Seq<Share>) -> bool {
    forall|i: int| 0 <= i < shares.len() ==> #[trigger] shares[i].y@.len() == shares[0].y@.len()
}

/// A well-formed hidden-coefficient vector for one secret element: `k - 1`
/// coefficients, pairwise distinct and distinct from the element itself.
pub open spec fn coeffs_ok(datum: u8, coeffs: Seq<u8>, k: int) -> bool {
    &&& coeffs.len() == k - 1
    &&& (forall|i: int, j: int| 0 <= i < j < coeffs.len() ==> coeffs[i] != coeffs[j])
    &&& (forall|i: int| 0 <= i < coeffs.len() ==> coeffs[i] != datum)
}

/// Every y-value of every share is the hidden polynomial of its secret element
/// evaluated at that share's x-coordinate.
pub open spec fn consistent_shares(
    data: Seq<GF256>,
    shares: Seq<Share>,
    polys: Seq<Seq<u8>>,
    k: int,
) -> bool {
    &&& polys.len() == data.len()
    &&& (forall|i: int| 0 <= i < data.len() ==> coeffs_ok(data[i].0, #[trigger] polys[i], k))
    &&& (forall|i: int, j: int|
        0 <= i < data.len() && 0 <= j < shares.len() ==> shares[j].y@[i].0 == #[trigger] eval_poly(
            data[i].0,
            polys[i],
            shares[j].x.0,
        ))
}

/// There is some family of hidden polynomials, one per secret element, that
/// explains every y-value of every share.
pub open spec fn shares_consistent_with(data: Seq<GF256>, shares: Seq<Share>, k: int) -> bool {
    exists|polys: Seq<Seq<u8>>| consistent_shares(data, shares, polys, k)
}

/// A product of differences of pairwise-distinct coordinates is nonzero.
proof fn lemma_diff_prod_nonzero(xs: Seq<u8>, i: int, n: int)
    requires
        0 <= i < xs.len(),
        n <= xs.len(),
        forall|j: int| 0 <= j < xs.len() && j != i ==> xs[j] != xs[i],
    ensures
        gf_diff_prod_except(xs, i, n) != 0,
    decreases n,
{
    if n <= 0 {
    } else if n - 1 == i {
        lemma_diff_prod_nonzero(xs, i, n - 1);
    } else {
        lemma_diff_prod_nonzero(xs, i, n - 1);
        assert(xs[n - 1] ^ xs[i] != 0) by {
            let a = xs[n - 1];
            let b = xs[i];
            assert(a != b ==> a ^ b != 0) by (bit_vector);
        }
        lemma_mul_nonzero(gf_diff_prod_except(xs, i, n - 1), gf_add(xs[n - 1], xs[i]));
    }
}

/// Interpolation of a single share returns that share's y-value: with one
/// point, both Lagrange products are empty and the basis coefficient is 1.
pub proof fn lemma_single_share_interp(x: u8, y: u8)
    ensures
        interp_at_zero(seq![x], seq![y]) == y,
{
    let xs = seq![x];
    let ys = seq![y];
    lemma_mul_one(1);
    assert(gf_inv(1) == 1) by {
        assert(gf_mul(1, 1) == 1);
    }
    assert(gf_prod_except(xs, 0, 0) == 1);
    assert(gf_prod_except(xs, 0, 1) == 1);
    assert(gf_diff_prod_except(xs, 0, 0) == 1);
    assert(gf_diff_prod_except(xs, 0, 1) == 1);
    assert(lagrange_coeff(xs, 0) == 1);
    lemma_mul_one(y);
    assert(interp_prefix(xs, ys, 0) == 0);
    assert(interp_prefix(xs, ys, 1) == 0 ^ gf_mul(1, y));
    assert(0 ^ y == y) by (bit_vector);
}

/// One secret element's y-values: draw the hidden coefficients, then evaluate
/// the polynomial at every recipient's x-coordinate.
fn encode_one_with_x(datum: GF256, xs: &Vec<GF256>, k: usize) -> (r: Result<Vec<GF256>, Error>)
    requires
        k >= 1,
    ensures
        r is Err ==> r == Err::<Vec<GF256>, Error>(Error::InsufficientSamplingSpace),
        r matches Ok(ys) ==> {
            &&& ys@.len() == xs@.len()
            &&& exists|coeffs: Seq<u8>|
                #[trigger] coeffs_ok(datum.0, coeffs, k as int) && forall|j: int|
                    0 <= j < ys@.len() ==> ys@[j].0 == eval_poly(datum.0, coeffs, xs@[j].0)
        },
{
    let coeffs: Vec<GF256> = match datum.sample_n_others(k - 1) {
        Ok(v) => v,
        Err(e) => {
            return Err(e);
        },
    };
    let ghost gcoeffs: Seq<u8> = coeffs@.map_values(|g: GF256| g.0);
    proof {
        assert(coeffs_ok(datum.0, gcoeffs, k as int));
    }
    let mut ys: Vec<GF256> = Vec::new();
    let mut j: usize = 0;
    while j < xs.len()
        invariant
            j <= xs@.len(),
            ys@.len() == j,
            gcoeffs == coeffs@.map_values(|g: GF256| g.0),
            coeffs@.len() == k - 1,
            forall|t: int| 0 <= t < j ==> ys@[t].0 == eval_poly(datum.0, gcoeffs, xs@[t].0),
        decreases xs@.len() - j,
    {
        let x = xs[j];
        let mut sum = datum;
        let mut idx: usize = 0;
        while idx < coeffs.len()
            invariant
                idx <= coeffs@.len(),
                gcoeffs == coeffs@.map_values(|g: GF256| g.0),
                sum.0 == eval_prefix(datum.0, gcoeffs, x.0, idx as int),
            decreases coeffs@.len() - idx,
        {
            let mut power = x;
            let mut t: usize = 0;
            proof {
                lemma_mul_one(x.0);
                assert(gf_pow(x.0, 0) == 1);
                assert(gf_pow(x.0, 1) == gf_mul(1, x.0));
            }
            while t < idx
                invariant
                    t <= idx,
                    power.0 == gf_pow(x.0, (t + 1) as nat),
                decreases idx - t,
            {
                power = power.times(&x);
                t = t + 1;
            }
            let term = power.times(&coeffs[idx]);
            sum = sum.plus(&term);
            idx = idx + 1;
        }
        ys.push(sum);
        j = j + 1;
    }
    Ok(ys)
}

/// Split `data` into `m` shares of which any `k` reconstruct it: one hidden
/// degree-(k-1) polynomial per element, anchored at the element, evaluated at
/// `m` pairwise-distinct x-coordinates shared by all elements.
#[verifier::rlimit(100)]
#[verifier::spinoff_prover]
pub fn encode(data: Vec<GF256>, m: usize, k: usize) -> (r: Result<Vec<Share>, Error>)
    requires
        data@.len() >= 1,
    ensures
        (r == Err::<Vec<Share>, Error>(Error::InvalidThreshold)) <==> (k == 0 || k > m || m
            >= 256),
        r is Err ==> r == Err::<Vec<Share>, Error>(Error::InvalidThreshold) || r == Err::<
            Vec<Share>,
            Error,
        >(Error::InsufficientSamplingSpace),
        r matches Ok(shares) ==> shares@.len() == m,
        r matches Ok(shares) ==> forall|a: int, b: int|
            0 <= a < b < shares@.len() ==> (#[trigger] shares@[a].x).0 != (
            #[trigger] shares@[b].x).0,
        r matches Ok(shares) ==> forall|j: int|
            0 <= j < shares@.len() ==> (#[trigger] shares@[j].y)@.len() == data@.len(),
        r matches Ok(shares) ==> shares_consistent_with(data@, shares@, k as int),
        r matches Ok(shares) ==> k == 1 ==> forall|i: int, j: int|
            0 <= i < data@.len() && 0 <= j < shares@.len() ==> (#[trigger] shares@[j].y@[i]).0
                == data@[i].0,
{
    if k == 0 || k > m || m >= 256 {
        return Err(Error::InvalidThreshold);
    }
    let xs: Vec<GF256> = match data[0].sample_n_others(m) {
        Ok(v) => v,
        Err(e) => {
            return Err(e);
        },
    };
    let mut rows: Vec<Vec<GF256>> = Vec::new();
    let ghost mut polys: Seq<Seq<u8>> = Seq::empty();
    let mut di: usize = 0;
    while di < data.len()
        invariant
            di <= data@.len(),
            1 <= k <= m < 256,
            xs@.len() == m,
            rows@.len() == di,
            polys.len() == di,
            forall|i: int| 0 <= i < di ==> (#[trigger] rows@[i])@.len() == m,
            forall|i: int| 0 <= i < di ==> coeffs_ok(data@[i].0, #[trigger] polys[i], k as int),
            forall|i: int, j: int|
                0 <= i < di && 0 <= j < m ==> (#[trigger] rows@[i]@[j]).0 == eval_poly(
                    data@[i].0,
                    polys[i],
                    xs@[j].0,
                ),
        decreases data@.len() - di,
    {
        let ys = match encode_one_with_x(data[di], &xs, k) {
            Ok(v) => v,
            Err(e) => {
                return Err(e);
            },
        };
        proof {
            let c = choose|c: Seq<u8>|
                #[trigger] coeffs_ok(data@[di as int].0, c, k as int) && forall|j: int|
                    0 <= j < ys@.len() ==> ys@[j].0 == eval_poly(data@[di as int].0, c, xs@[j].0);
            polys = polys.push(c);
        }
        rows.push(ys);
        di = di + 1;
    }
    let mut shares: Vec<Share> = Vec::new();
    let mut j: usize = 0;
    while j < m
        invariant
            j <= m,
            1 <= k <= m < 256,
            xs@.len() == m,
            data@.len() >= 1,
            rows@.len() == data@.len(),
            polys.len() == data@.len(),
            forall|i: int| 0 <= i < data@.len() ==> (#[trigger] rows@[i])@.len() == m,
            forall|i: int|
                0 <= i < data@.len() ==> coeffs_ok(data@[i].0, #[trigger] polys[i], k as int),
            forall|i: int, t: int|
                0 <= i < data@.len() && 0 <= t < m ==> (#[trigger] rows@[i]@[t]).0 == eval_poly(
                    data@[i].0,
                    polys[i],
                    xs@[t].0,
                ),
            forall|a: int, b: int| 0 <= a < b < xs@.len() ==> xs@[a] != xs@[b],
            shares@.len() == j,
            forall|t: int| 0 <= t < j ==> (#[trigger] shares@[t]).x == xs@[t],
            forall|t: int| 0 <= t < j ==> (#[trigger] shares@[t]).y@.len() == data@.len(),
            forall|i: int, t: int|
                0 <= i < data@.len() && 0 <= t < j ==> (#[trigger] shares@[t].y@[i]).0
                    == rows@[i]@[t].0,
        decreases m - j,
    {
        let mut y: Vec<GF256> = Vec::new();
        let mut i: usize = 0;
        while i < rows.len()
            invariant
                i <= rows@.len(),
                j < m,
                forall|t: int| 0 <= t < rows@.len() ==> (#[trigger] rows@[t])@.len() == m,
                y@.len() == i,
                forall|t: int| 0 <= t < i ==> (#[trigger] y@[t]).0 == rows@[t]@[j as int].0,
            decreases rows@.len() - i,
        {
            y.push(rows[i][j]);
            i = i + 1;
        }
        shares.push(Share { x: xs[j], y });
        j = j + 1;
    }
    proof {
        assert(consistent_shares(data@, shares@, polys, k as int));
        assert(shares_consistent_with(data@, shares@, k as int));
        if k == 1 {
            assert forall|i: int, t: int|
                0 <= i < data@.len() && 0 <= t < shares@.len() implies (
            #[trigger] shares@[t].y@[i]).0 == data@[i].0 by {
                assert(shares@[t].y@[i].0 == eval_poly(data@[i].0, polys[i], shares@[t].x.0));
                assert(polys[i].len() == 0);
            }
        }
    }
    Ok(shares)
}

/// Reconstruct the secret elements from the supplied shares by Lagrange
/// interpolation at X = 0. The shares must be nonempty, carry pairwise
/// distinct x-coordinates and y-vectors of one shared length; each failure is
/// reported by its own error. Fewer than the threshold used at encoding time
/// cannot be detected here: the caller must supply at least `k` shares.
pub fn decode(shares: Vec<Share>) -> (r: Result<Vec<GF256>, Error>)
    ensures
        shares@.len() == 0 ==> r == Err::<Vec<GF256>, Error>(Error::InsufficientShares),
        shares@.len() > 0 && has_duplicate(share_xs(shares@)) ==> r == Err::<Vec<GF256>, Error>(
            Error::DuplicateXCoordinate,
        ),
        shares@.len() > 0 && !has_duplicate(share_xs(shares@)) && !uniform_shape(shares@) ==> r
            == Err::<Vec<GF256>, Error>(Error::MismatchedShareShape),
        shares@.len() > 0 && !has_duplicate(share_xs(shares@)) && uniform_shape(shares@) ==> {
            &&& r is Ok
            &&& r matches Ok(out) ==> {
                &&& out@.len() == shares@[0].y@.len()
                &&& forall|p: int|
                    0 <= p < out@.len() ==> (#[trigger] out@[p]).0 == interp_at_zero(
                        share_xs(shares@),
                        share_col(shares@, p),
                    )
            }
        },
{
    let n = shares.len();
    if n == 0 {
        return Err(Error::InsufficientShares);
    }
    let ghost xs: Seq<u8> = share_xs(shares@);
    let mut i: usize = 0;
    while i < n
        invariant
            n == shares@.len(),
            xs == share_xs(shares@),
            i <= n,
            forall|a: int, b: int| 0 <= a < b < n && a < i ==> xs[a] != xs[b],
        decreases n - i,
    {
        let mut j: usize = i + 1;
        while j < n
            invariant
                n == shares@.len(),
                xs == share_xs(shares@),
                i < j <= n,
                forall|a: int, b: int| 0 <= a < b < n && a < i ==> xs[a] != xs[b],
                forall|b: int| i < b < j ==> xs[i as int] != xs[b],
            decreases n - j,
        {
            if shares[i].x.0 == shares[j].x.0 {
                proof {
                    assert(xs[i as int] == shares@[i as int].x.0);
                    assert(xs[j as int] == shares@[j as int].x.0);
                    assert(0 <= i < j < xs.len() && xs[i as int] == xs[j as int]);
                    assert(has_duplicate(xs));
                }
                return Err(Error::DuplicateXCoordinate);
            }
            j = j + 1;
        }
        i = i + 1;
    }
    assert(!has_duplicate(xs));
    let len0 = shares[0].y.len();
    let mut i: usize = 1;
    while i < n
        invariant
            n == shares@.len(),
            xs == share_xs(shares@),
            len0 == shares@[0].y@.len(),
            1 <= i <= n,
            !has_duplicate(xs),
            forall|t: int| 0 <= t < i ==> #[trigger] shares@[t].y@.len() == len0,
        decreases n - i,
    {
        if shares[i].y.len() != len0 {
            return Err(Error::MismatchedShareShape);
        }
        i = i + 1;
    }
    assert(uniform_shape(shares@));
    let mut lag: Vec<GF256> = Vec::new();
    let mut i: usize = 0;
    while i < n
        invariant
            n == shares@.len(),
            xs == share_xs(shares@),
            xs.len() == n,
            !has_duplicate(xs),
            i <= n,
            lag@.len() == i,
            forall|t: int| 0 <= t < i ==> (#[trigger] lag@[t]).0 == lagrange_coeff(xs, t),
        decreases n - i,
    {
        let mut num = GF256(1);
        let mut den = GF256(1);
        let mut j: usize = 0;
        while j < n
            invariant
                n == shares@.len(),
                xs == share_xs(shares@),
                xs.len() == n,
                i < n,
                j <= n,
                num.0 == gf_prod_except(xs, i as int, j as int),
                den.0 == gf_diff_prod_except(xs, i as int, j as int),
            decreases n - j,
        {
            if j != i {
                num = num.times(&shares[j].x);
                den = den.times(&shares[j].x.minus(&shares[i].x));
            }
            j = j + 1;
        }
        proof {
            assert forall|t: int| 0 <= t < xs.len() && t != i implies xs[t] != xs[i as int] by {
                if t < i {
                    assert(xs[t] != xs[i as int]);
                }
            }
            lemma_diff_prod_nonzero(xs, i as int, n as int);
        }
        let inv = den.inverse();
        lag.push(num.times(&inv));
        i = i + 1;
    }
    let mut out: Vec<GF256> = Vec::new();
    let mut p: usize = 0;
    while p < len0
        invariant
            n == shares@.len(),
            xs == share_xs(shares@),
            xs.len() == n,
            len0 == shares@[0].y@.len(),
            uniform_shape(shares@),
            lag@.len() == n,
            forall|t: int| 0 <= t < n ==> (#[trigger] lag@[t]).0 == lagrange_coeff(xs, t),
            p <= len0,
            out@.len() == p,
            forall|t: int|
                0 <= t < p ==> (#[trigger] out@[t]).0 == interp_at_zero(xs, share_col(shares@, t)),
        decreases len0 - p,
    {
        let mut acc = GF256(0);
        let mut i: usize = 0;
        while i < n
            invariant
                n == shares@.len(),
                xs == share_xs(shares@),
                xs.len() == n,
                len0 == shares@[0].y@.len(),
                uniform_shape(shares@),
                p < len0,
                lag@.len() == n,
                forall|t: int| 0 <= t < n ==> (#[trigger] lag@[t]).0 == lagrange_coeff(xs, t),
                i <= n,
                acc.0 == interp_prefix(xs, share_col(shares@, p as int), i as int),
            decreases n - i,
        {
            assert(shares@[i as int].y@.len() == len0);
            let term = lag[i].times(&shares[i].y[p]);
            acc = acc.plus(&term);
            i = i + 1;
        }
        out.push(acc);
        p = p + 1;
    }
    Ok(out)
}

} // verus!
