//! Sums over sequences of integers, and what holds of variance and
//! covariance: a variance is not negative, it is zero exactly for a constant
//! sequence, and the square of a covariance is bounded by the product of the
//! variances.

use vstd::prelude::*;

verus! {

/// The sum of the numbers of `z`.
pub open spec fn sum_of(z: Seq<int>) -> int
    decreases z.len(),
{
    if z.len() == 0 {
        0
    } else {
        sum_of(z.drop_last()) + z.last()
    }
}

/// The sum of the products of the numbers of `a` and `b` at the same place,
/// for two sequences of one length.
pub open spec fn dot(a: Seq<int>, b: Seq<int>) -> int
    decreases a.len(),
{
    if a.len() == 0 || a.len() != b.len() {
        0
    } else {
        dot(a.drop_last(), b.drop_last()) + a.last() * b.last()
    }
}

/// `n * sum(a * b) - sum(a) * sum(b)` for two sequences of length `n`: their
/// covariance, scaled by `n * n`.
pub open spec fn scaled_covariance(a: Seq<int>, b: Seq<int>) -> int {
    a.len() * dot(a, b) - sum_of(a) * sum_of(b)
}

/// The sum of `(m * z[i] - c)^2` over the numbers of `z`.
pub open spec fn square_distance(z: Seq<int>, m: int, c: int) -> int
    decreases z.len(),
{
    if z.len() == 0 {
        0
    } else {
        square_distance(z.drop_last(), m, c) + (m * z.last() - c) * (m * z.last() - c)
    }
}

/// The square of `m * z - c`, multiplied out.
proof fn lemma_square_of_difference(m: int, z: int, c: int)
    ensures
        (m * z - c) * (m * z - c) == (m * m) * (z * z) - 2 * ((m * c) * z) + c * c,
{
    let u = m * z;
    assert((u - c) * (u - c) == u * u - 2 * (u * c) + c * c) by (nonlinear_arith);
    assert(u * u == (m * m) * (z * z)) by (nonlinear_arith)
        requires
            u == m * z,
    ;
    assert(u * c == (m * c) * z) by (nonlinear_arith)
        requires
            u == m * z,
    ;
}

/// A product with a sum is the sum of the products.
proof fn lemma_distribute(k: int, a: int, b: int)
    by (nonlinear_arith)
    ensures
        k * (a + b) == k * a + k * b,
        (a + b) * k == a * k + b * k,
{
}

/// The two outer factors of a product of three change places.
proof fn lemma_exchange(n: int, k: int, x: int)
    by (nonlinear_arith)
    ensures
        n * (k * x) == k * (n * x),
{
}

/// The sum of `(m * z[i] - c)^2`, multiplied out.
proof fn lemma_square_distance_expands(z: Seq<int>, m: int, c: int)
    ensures
        square_distance(z, m, c) == (m * m) * dot(z, z) - 2 * ((m * c) * sum_of(z)) + z.len() * (c
            * c),
        square_distance(z, m, c) >= 0,
    decreases z.len(),
{
    if z.len() > 0 {
        let head = z.drop_last();
        let last = z.last();
        lemma_square_distance_expands(head, m, c);
        lemma_square_of_difference(m, last, c);
        lemma_distribute(m * m, dot(head, head), last * last);
        lemma_distribute(m * c, sum_of(head), last);
        lemma_distribute(c * c, head.len() as int, 1);
        assert((m * last - c) * (m * last - c) >= 0) by (nonlinear_arith);
    } else {
        assert((m * m) * 0 - 2 * ((m * c) * 0) + 0 * (c * c) == 0) by (nonlinear_arith);
    }
}

/// `n` times the scaled variance of `z` is the sum of the squares of
/// `n * z[i] - sum(z)`.
proof fn lemma_variance_is_square_distance(z: Seq<int>)
    ensures
        z.len() * scaled_covariance(z, z) == square_distance(z, z.len() as int, sum_of(z)),
{
    let n = z.len() as int;
    let q = dot(z, z);
    let s = sum_of(z);
    lemma_square_distance_expands(z, n, s);
    assert(n * (n * q - s * s) == (n * n) * q - 2 * ((n * s) * s) + n * (s * s))
        by (nonlinear_arith);
}

/// A variance is never negative.
pub proof fn lemma_variance_not_negative(z: Seq<int>)
    ensures
        scaled_covariance(z, z) >= 0,
{
    let n = z.len() as int;
    let v = scaled_covariance(z, z);
    lemma_variance_is_square_distance(z);
    lemma_square_distance_expands(z, n, sum_of(z));
    if n > 0 {
        assert(v >= 0) by (nonlinear_arith)
            requires
                n > 0,
                n * v >= 0,
        ;
    } else {
        assert(0 * dot(z, z) - 0 * 0 == 0) by (nonlinear_arith);
    }
}

/// All numbers of `z` are the same.
pub open spec fn is_constant(z: Seq<int>) -> bool {
    forall|i: int, j: int| 0 <= i < z.len() && 0 <= j < z.len() ==> z[i] == z[j]
}

/// The sum and the sum of squares of a sequence that repeats `c`.
proof fn lemma_constant_sums(z: Seq<int>, c: int)
    requires
        forall|i: int| 0 <= i < z.len() ==> z[i] == c,
    ensures
        sum_of(z) == z.len() * c,
        dot(z, z) == z.len() * (c * c),
    decreases z.len(),
{
    if z.len() > 0 {
        lemma_constant_sums(z.drop_last(), c);
        lemma_distribute(c, z.len() - 1, 1);
        lemma_distribute(c * c, z.len() - 1, 1);
    } else {
        assert(0 * c == 0 && 0 * (c * c) == 0) by (nonlinear_arith);
    }
}

/// Where a sum of squares is zero, each of the squares is.
proof fn lemma_square_distance_zero(z: Seq<int>, m: int, c: int)
    requires
        square_distance(z, m, c) == 0,
    ensures
        forall|i: int| 0 <= i < z.len() ==> m * #[trigger] z[i] == c,
    decreases z.len(),
{
    if z.len() > 0 {
        let head = z.drop_last();
        let d = m * z.last() - c;
        lemma_square_distance_expands(head, m, c);
        assert(d * d >= 0 && (d * d == 0 ==> d == 0)) by (nonlinear_arith);
        lemma_square_distance_zero(head, m, c);
        assert forall|i: int| 0 <= i < z.len() implies m * #[trigger] z[i] == c by {
            if i < z.len() - 1 {
                assert(head[i] == z[i]);
            }
        }
    }
}

/// The variance of a sequence is zero exactly when all its numbers are the
/// same.
pub proof fn lemma_variance_zero_iff_constant(z: Seq<int>)
    ensures
        scaled_covariance(z, z) == 0 <==> is_constant(z),
{
    let n = z.len() as int;
    let s = sum_of(z);
    if n == 0 {
        assert(0 * dot(z, z) - 0 * 0 == 0) by (nonlinear_arith);
    } else if is_constant(z) {
        let c = z[0];
        lemma_constant_sums(z, c);
        assert(n * (n * (c * c)) - (n * c) * (n * c) == 0) by (nonlinear_arith);
    } else if scaled_covariance(z, z) == 0 {
        lemma_variance_is_square_distance(z);
        assert(n * 0 == 0);
        lemma_square_distance_zero(z, n, s);
        assert forall|i: int, j: int| 0 <= i < z.len() && 0 <= j < z.len() implies z[i]
            == z[j] by {
            let a = z[i];
            let b = z[j];
            assert(n * a == s && n * b == s);
            assert(a == b) by (nonlinear_arith)
                requires
                    n > 0,
                    n * a == n * b,
            ;
        }
    }
}

/// The numbers `p * a[i] + q * b[i]`.
pub open spec fn combination(a: Seq<int>, b: Seq<int>, p: int, q: int) -> Seq<int> {
    Seq::new(a.len(), |i: int| p * a[i] + q * b[i])
}

/// The square of `p * x + q * y`, multiplied out.
proof fn lemma_square_of_combination(p: int, x: int, q: int, y: int)
    ensures
        (p * x + q * y) * (p * x + q * y) == (p * p) * (x * x) + 2 * ((p * q) * (x * y)) + (q * q)
            * (y * y),
{
    let u = p * x;
    let v = q * y;
    assert((u + v) * (u + v) == u * u + 2 * (u * v) + v * v) by (nonlinear_arith);
    assert(u * u == (p * p) * (x * x)) by (nonlinear_arith)
        requires
            u == p * x,
    ;
    assert(v * v == (q * q) * (y * y)) by (nonlinear_arith)
        requires
            v == q * y,
    ;
    assert(u * v == (p * q) * (x * y)) by (nonlinear_arith)
        requires
            u == p * x,
            v == q * y,
    ;
}

/// The sum and the sum of squares of `p * a + q * b`, by the sums over `a`
/// and `b`.
proof fn lemma_combination_sums(a: Seq<int>, b: Seq<int>, p: int, q: int)
    requires
        a.len() == b.len(),
    ensures
        sum_of(combination(a, b, p, q)) == p * sum_of(a) + q * sum_of(b),
        dot(combination(a, b, p, q), combination(a, b, p, q)) == (p * p) * dot(a, a) + 2 * ((p * q)
            * dot(a, b)) + (q * q) * dot(b, b),
    decreases a.len(),
{
    let w = combination(a, b, p, q);
    if a.len() > 0 {
        let x = a.last();
        let y = b.last();
        let a0 = a.drop_last();
        let b0 = b.drop_last();
        lemma_combination_sums(a0, b0, p, q);
        assert(w.drop_last() =~= combination(a0, b0, p, q));
        assert(w.last() == p * x + q * y);
        lemma_square_of_combination(p, x, q, y);
        lemma_distribute(p, sum_of(a0), x);
        lemma_distribute(q, sum_of(b0), y);
        lemma_distribute(p * p, dot(a0, a0), x * x);
        lemma_distribute(p * q, dot(a0, b0), x * y);
        lemma_distribute(q * q, dot(b0, b0), y * y);
    } else {
        assert(p * 0 + q * 0 == 0) by (nonlinear_arith);
        assert((p * p) * 0 + 2 * ((p * q) * 0) + (q * q) * 0 == 0) by (nonlinear_arith);
    }
}

/// The variance of `p * a + q * b` is `p^2` times the variance of `a`, `q^2`
/// times that of `b` and `2 * p * q` times their covariance, and so that sum
/// is not negative.
proof fn lemma_variance_of_combination(a: Seq<int>, b: Seq<int>, p: int, q: int)
    requires
        a.len() == b.len(),
    ensures
        (p * p) * scaled_covariance(a, a) + 2 * ((p * q) * scaled_covariance(a, b)) + (q * q)
            * scaled_covariance(b, b) >= 0,
{
    let w = combination(a, b, p, q);
    let n = a.len() as int;
    let (sa, sb) = (sum_of(a), sum_of(b));
    let (qa, qb, ab) = (dot(a, a), dot(b, b), dot(a, b));
    let (pp, pq, qq) = (p * p, p * q, q * q);
    lemma_combination_sums(a, b, p, q);
    lemma_variance_not_negative(w);
    lemma_square_of_combination(p, sa, q, sb);
    assert(w.len() == n);
    assert(n * dot(w, w) == pp * (n * qa) + 2 * (pq * (n * ab)) + qq * (n * qb)) by {
        lemma_distribute(n, pp * qa + 2 * (pq * ab), qq * qb);
        lemma_distribute(n, pp * qa, 2 * (pq * ab));
        lemma_exchange(n, 2, pq * ab);
        lemma_exchange(n, pp, qa);
        lemma_exchange(n, pq, ab);
        lemma_exchange(n, qq, qb);
    }
    assert(sum_of(w) * sum_of(w) == pp * (sa * sa) + 2 * (pq * (sa * sb)) + qq * (sb * sb));
    assert(pp * scaled_covariance(a, a) == pp * (n * qa) - pp * (sa * sa)) by {
        lemma_distribute(pp, n * qa, -(sa * sa));
        lemma_exchange(pp, -1, sa * sa);
    }
    assert(pq * scaled_covariance(a, b) == pq * (n * ab) - pq * (sa * sb)) by {
        lemma_distribute(pq, n * ab, -(sa * sb));
        lemma_exchange(pq, -1, sa * sb);
    }
    assert(qq * scaled_covariance(b, b) == qq * (n * qb) - qq * (sb * sb)) by {
        lemma_distribute(qq, n * qb, -(sb * sb));
        lemma_exchange(qq, -1, sb * sb);
    }
}

/// A quadratic form `p^2 * va + 2 * p * q * c + q^2 * vb` that is not negative
/// at `(c, -va)` and at `(-(vb + 1) * c, 1)` has `c^2 <= va * vb`.
proof fn lemma_discriminant(va: int, vb: int, c: int)
    requires
        va >= 0,
        vb >= 0,
        (c * c) * va + 2 * ((c * (-va)) * c) + ((-va) * (-va)) * vb >= 0,
        ((-(vb + 1) * c) * (-(vb + 1) * c)) * va + 2 * (((-(vb + 1) * c) * 1) * c) + (1 * 1) * vb
            >= 0,
    ensures
        c * c <= va * vb,
{
    if va > 0 {
        let p = c;
        let q = -va;
        assert((p * p) * va + 2 * ((p * q) * c) + (q * q) * vb == va * (va * vb - c * c))
            by (nonlinear_arith)
            requires
                p == c,
                q == -va,
        ;
        assert(va * vb - c * c >= 0) by (nonlinear_arith)
            requires
                va > 0,
                va * (va * vb - c * c) >= 0,
        ;
    } else {
        let p = -(vb + 1) * c;
        let q = 1int;
        assert((p * p) * va + 2 * ((p * q) * c) + (q * q) * vb == vb - 2 * ((vb + 1) * (c * c)))
            by (nonlinear_arith)
            requires
                p == -(vb + 1) * c,
                q == 1,
                va == 0,
        ;
        assert(c * c == 0) by (nonlinear_arith)
            requires
                vb >= 0,
                vb - 2 * ((vb + 1) * (c * c)) >= 0,
        ;
        assert(va * vb == 0) by (nonlinear_arith)
            requires
                va == 0,
        ;
    }
}

/// The square of the covariance of two sequences of one length is no larger
/// than the product of their variances.
pub proof fn lemma_covariance_bounded(a: Seq<int>, b: Seq<int>)
    requires
        a.len() == b.len(),
    ensures
        scaled_covariance(a, b) * scaled_covariance(a, b) <= scaled_covariance(a, a)
            * scaled_covariance(b, b),
{
    let va = scaled_covariance(a, a);
    let vb = scaled_covariance(b, b);
    let c = scaled_covariance(a, b);
    lemma_variance_not_negative(a);
    lemma_variance_not_negative(b);
    lemma_variance_of_combination(a, b, c, -va);
    lemma_variance_of_combination(a, b, -(vb + 1) * c, 1);
    lemma_discriminant(va, vb, c);
}

/// Bounds on the sum and on the sum of products of two sequences of bytes.
pub proof fn lemma_sums_bounded(a: Seq<int>, b: Seq<int>)
    requires
        a.len() == b.len(),
        forall|i: int| 0 <= i < a.len() ==> 0 <= #[trigger] a[i] <= 255,
        forall|i: int| 0 <= i < b.len() ==> 0 <= #[trigger] b[i] <= 255,
    ensures
        0 <= sum_of(a) <= 255 * a.len(),
        0 <= dot(a, b) <= 65025 * a.len(),
    decreases a.len(),
{
    if a.len() > 0 {
        lemma_sums_bounded(a.drop_last(), b.drop_last());
        let x = a.last();
        let y = b.last();
        assert(0 <= x * y <= 65025) by (nonlinear_arith)
            requires
                0 <= x <= 255,
                0 <= y <= 255,
        ;
    }
}

} // verus!
