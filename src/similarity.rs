//! Cosine similarity on fixed-point embedding vectors.
//!
//! An embedding is a vector of `i16` components. Cosine similarity is scale
//! invariant, so a float vector scaled into this range and rounded keeps its
//! direction up to the rounding of each component.
//! The similarity `dot(a, b) / sqrt(|a|^2 |b|^2)` is kept as the exact pair
//! (`dot`, `norms`), and comparisons against a threshold are done in integer
//! arithmetic without any rounding.
use vstd::prelude::*;

verus! {

/// The largest embedding dimension the library accepts.
pub const MAX_DIM: usize = 4096;

/// Thresholds and confidences are fractions in parts per million.
pub const SCALE: u32 = 1_000_000;

/// Bound on a squared norm: `MAX_DIM * 2^30`, that is `2^42`.
pub open spec fn sq_norm_bound() -> int {
    0x400_0000_0000
}

/// Bound on a product of two squared norms: `2^84`.
pub open spec fn norms_bound() -> int {
    0x10_0000_0000_0000_0000_0000
}

pub open spec fn valid_embedding(e: Seq<i16>) -> bool {
    e.len() <= MAX_DIM
}

/// Dot product of the first `n` components.
pub open spec fn dot_prefix(a: Seq<i16>, b: Seq<i16>, n: int) -> int
    decreases n,
{
    if n <= 0 {
        0
    } else {
        dot_prefix(a, b, n - 1) + (a[n - 1] as int) * (b[n - 1] as int)
    }
}

pub open spec fn dot(a: Seq<i16>, b: Seq<i16>) -> int {
    dot_prefix(a, b, a.len() as int)
}

/// Squared Euclidean norm.
pub open spec fn sq_norm(a: Seq<i16>) -> int {
    dot(a, a)
}

/// The similarity as the exact pair (dot, product of the squared norms),
/// standing for `dot / sqrt(norms)`. Mismatched lengths and zero vectors give
/// the pair (0, 1), the value 0.
pub open spec fn similarity_pair(a: Seq<i16>, b: Seq<i16>) -> (int, int) {
    if a.len() != b.len() || sq_norm(a) == 0 || sq_norm(b) == 0 {
        (0, 1)
    } else {
        (dot(a, b), sq_norm(a) * sq_norm(b))
    }
}

/// Whether the value `dot / sqrt(norms)` is strictly above `t / SCALE`, for
/// `0 <= t`: the dot product is positive and its square, scaled, is above the
/// threshold's square times the norms.
pub open spec fn pair_exceeds(dot: int, norms: int, t: int) -> bool {
    dot > 0 && dot * dot * (SCALE as int) * (SCALE as int) > t * t * norms
}

/// Whether the cosine similarity of `a` and `b` is strictly above `t / SCALE`.
pub open spec fn similarity_exceeds(a: Seq<i16>, b: Seq<i16>, t: int) -> bool {
    pair_exceeds(similarity_pair(a, b).0, similarity_pair(a, b).1, t)
}

/// A cosine similarity, held exactly as `dot / sqrt(norms)` with `norms > 0`;
/// `dot * dot <= norms` keeps it within [-1, 1].
#[derive(Clone, Copy, Debug, PartialEq, Eq)]
pub struct Similarity {
    pub dot: i64,
    pub norms: u128,
}

impl Similarity {
    pub open spec fn wf(&self) -> bool {
        self.norms > 0 && -sq_norm_bound() <= self.dot <= sq_norm_bound() && self.norms
            <= norms_bound() && (self.dot as int) * (self.dot as int) <= self.norms
    }

    /// Whether this similarity is strictly above `threshold / SCALE`.
    pub fn exceeds(&self, threshold: u32) -> (r: bool)
        requires
            self.wf(),
            threshold <= SCALE,
        ensures
            r == pair_exceeds(self.dot as int, self.norms as int, threshold as int),
    {
        if self.dot <= 0 {
            return false;
        }
        let d = self.dot as u128;
        let s = SCALE as u128;
        let t = threshold as u128;
        proof {
            lemma_exceeds_bounds(self.dot as int, self.norms as int, threshold as int);
        }
        d * d * s * s > t * t * self.norms
    }
}

proof fn lemma_exceeds_bounds(dot: int, norms: int, t: int)
    requires
        0 < dot <= sq_norm_bound(),
        0 < norms <= norms_bound(),
        0 <= t <= SCALE,
    ensures
        dot * dot * (SCALE as int) * (SCALE as int) < u128::MAX,
        dot * dot * (SCALE as int) < u128::MAX,
        dot * dot < u128::MAX,
        t * t * norms < u128::MAX,
        t * t < u128::MAX,
{
    assert(dot * dot <= norms_bound()) by (nonlinear_arith)
        requires 0 < dot <= sq_norm_bound();
    assert(dot * dot * (SCALE as int) * (SCALE as int) <= norms_bound() * (SCALE as int) * (
    SCALE as int)) by (nonlinear_arith)
        requires dot * dot <= norms_bound();
    assert(t * t <= (SCALE as int) * (SCALE as int)) by (nonlinear_arith)
        requires 0 <= t <= SCALE;
    assert(t * t * norms <= (SCALE as int) * (SCALE as int) * norms) by (nonlinear_arith)
        requires t * t <= (SCALE as int) * (SCALE as int), 0 <= norms;
    assert((SCALE as int) * (SCALE as int) * norms <= (SCALE as int) * (SCALE as int)
        * norms_bound()) by (nonlinear_arith)
        requires norms <= norms_bound();
}

proof fn lemma_term_bounds(x: i16, y: i16)
    ensures
        -0x4000_0000 <= (x as int) * (y as int) <= 0x4000_0000,
        (x as int) * (x as int) >= 0,
{
    assert(-0x4000_0000 <= (x as int) * (y as int) <= 0x4000_0000) by (nonlinear_arith)
        requires -32768 <= x <= 32767, -32768 <= y <= 32767;
    assert((x as int) * (x as int) >= 0) by (nonlinear_arith);
}

proof fn lemma_dot_prefix_bounds(a: Seq<i16>, b: Seq<i16>, n: int)
    requires
        0 <= n <= a.len(),
        n <= b.len(),
    ensures
        -n * 0x4000_0000 <= dot_prefix(a, b, n) <= n * 0x4000_0000,
    decreases n,
{
    if n > 0 {
        lemma_dot_prefix_bounds(a, b, n - 1);
        lemma_term_bounds(a[n - 1], b[n - 1]);
    }
}

proof fn lemma_sq_prefix_nonneg(a: Seq<i16>, n: int)
    requires
        0 <= n <= a.len(),
    ensures
        dot_prefix(a, a, n) >= 0,
    decreases n,
{
    if n > 0 {
        lemma_sq_prefix_nonneg(a, n - 1);
        lemma_term_bounds(a[n - 1], a[n - 1]);
    }
}

proof fn lemma_cs_step(d: int, a: int, b: int, x: int, y: int)
    requires
        a >= 0,
        b >= 0,
        d * d <= a * b,
    ensures
        (d + x * y) * (d + x * y) <= (a + x * x) * (b + y * y),
{
    let u = a * y * y + b * x * x;
    let v = d * x * y;
    assert(u >= 0) by (nonlinear_arith)
        requires a >= 0, b >= 0, u == a * y * y + b * x * x;
    assert(u * u >= 4 * (a * b) * (x * y) * (x * y)) by (nonlinear_arith)
        requires u == a * y * y + b * x * x;
    assert(4 * (a * b) * (x * y) * (x * y) >= 4 * v * v) by (nonlinear_arith)
        requires d * d <= a * b, v == d * x * y;
    assert(u >= 2 * v) by (nonlinear_arith)
        requires u >= 0, u * u >= 4 * v * v;
    let w = (x * y) * (x * y);
    assert((d + x * y) * (d + x * y) == d * d + 2 * v + w) by (nonlinear_arith)
        requires v == d * x * y, w == (x * y) * (x * y);
    let p = x * x;
    let q = y * y;
    assert((a + p) * (b + q) == a * b + a * q + b * p + p * q) by (nonlinear_arith);
    assert(a * q == a * y * y) by (nonlinear_arith)
        requires q == y * y;
    assert(b * p == b * x * x) by (nonlinear_arith)
        requires p == x * x;
    assert(p * q == w) by (nonlinear_arith)
        requires p == x * x, q == y * y, w == (x * y) * (x * y);
}

/// The squared dot product is at most the product of the squared norms.
proof fn lemma_cauchy_schwarz(a: Seq<i16>, b: Seq<i16>, n: int)
    requires
        0 <= n <= a.len(),
        n <= b.len(),
    ensures
        dot_prefix(a, b, n) * dot_prefix(a, b, n) <= dot_prefix(a, a, n) * dot_prefix(b, b, n),
    decreases n,
{
    if n > 0 {
        lemma_cauchy_schwarz(a, b, n - 1);
        lemma_sq_prefix_nonneg(a, n - 1);
        lemma_sq_prefix_nonneg(b, n - 1);
        lemma_cs_step(
            dot_prefix(a, b, n - 1),
            dot_prefix(a, a, n - 1),
            dot_prefix(b, b, n - 1),
            a[n - 1] as int,
            b[n - 1] as int,
        );
    }
}

/// Bounds on the dot product and squared norms of valid embeddings.
pub proof fn lemma_dot_bounds(a: Seq<i16>, b: Seq<i16>)
    requires
        valid_embedding(a),
        valid_embedding(b),
        a.len() == b.len(),
    ensures
        -sq_norm_bound() <= dot(a, b) <= sq_norm_bound(),
        0 <= sq_norm(a) <= sq_norm_bound(),
        0 <= sq_norm(b) <= sq_norm_bound(),
        0 <= sq_norm(a) * sq_norm(b) <= norms_bound(),
        dot(a, b) * dot(a, b) <= sq_norm(a) * sq_norm(b),
{
    lemma_cauchy_schwarz(a, b, a.len() as int);
    lemma_dot_prefix_bounds(a, b, a.len() as int);
    lemma_dot_prefix_bounds(a, a, a.len() as int);
    lemma_dot_prefix_bounds(b, b, b.len() as int);
    lemma_sq_prefix_nonneg(a, a.len() as int);
    lemma_sq_prefix_nonneg(b, b.len() as int);
    let n = a.len() as int;
    assert(n * 0x4000_0000 <= sq_norm_bound()) by (nonlinear_arith)
        requires 0 <= n <= 4096;
    let (x, y) = (sq_norm(a), sq_norm(b));
    assert(0 <= x * y <= norms_bound()) by (nonlinear_arith)
        requires 0 <= x <= sq_norm_bound(), 0 <= y <= sq_norm_bound();
}

proof fn lemma_sq_prefix_pos(a: Seq<i16>, n: int, i: int)
    requires
        0 <= i < n <= a.len(),
        a[i] != 0,
    ensures
        dot_prefix(a, a, n) > 0,
    decreases n,
{
    lemma_sq_prefix_nonneg(a, n - 1);
    lemma_term_bounds(a[n - 1], a[n - 1]);
    if i < n - 1 {
        lemma_sq_prefix_pos(a, n - 1, i);
    } else {
        let x = a[i] as int;
        assert(x * x > 0) by (nonlinear_arith)
            requires x != 0;
    }
}

proof fn lemma_dot_prefix_zero(a: Seq<i16>, b: Seq<i16>, n: int)
    requires
        0 <= n <= a.len(),
        n <= b.len(),
        (forall|i: int| 0 <= i < a.len() ==> a[i] == 0) || (forall|i: int|
            0 <= i < b.len() ==> b[i] == 0),
    ensures
        dot_prefix(a, b, n) == 0,
    decreases n,
{
    if n > 0 {
        lemma_dot_prefix_zero(a, b, n - 1);
    }
}

/// A nonzero vector has similarity exactly 1 with itself, so it is more
/// similar to itself than any threshold below 1.
pub proof fn lemma_self_similarity(v: Seq<i16>)
    requires
        exists|i: int| 0 <= i < v.len() && v[i] != 0,
    ensures
        similarity_pair(v, v).0 > 0,
        similarity_pair(v, v).0 * similarity_pair(v, v).0 == similarity_pair(v, v).1,
        forall|t: int| 0 <= t < SCALE ==> #[trigger] similarity_exceeds(v, v, t),
{
    let i = choose|i: int| 0 <= i < v.len() && v[i] != 0;
    lemma_sq_prefix_pos(v, v.len() as int, i);
    let x = sq_norm(v);
    assert forall|t: int| 0 <= t < SCALE implies #[trigger] similarity_exceeds(v, v, t) by {
        let s = SCALE as int;
        assert(x * x * s * s > t * t * (x * x)) by (nonlinear_arith)
            requires x > 0, 0 <= t < s;
    }
}

/// Vectors of different lengths have similarity 0, which exceeds no
/// threshold from 0 up.
pub proof fn lemma_length_mismatch(a: Seq<i16>, b: Seq<i16>)
    requires
        a.len() != b.len(),
    ensures
        similarity_pair(a, b) == (0int, 1int),
        forall|t: int| 0 <= t ==> !#[trigger] similarity_exceeds(a, b, t),
{
}

/// An all-zero vector has similarity 0 with every vector, which exceeds no
/// threshold from 0 up.
pub proof fn lemma_zero_vector(a: Seq<i16>, b: Seq<i16>)
    requires
        (forall|i: int| 0 <= i < a.len() ==> a[i] == 0) || (forall|i: int|
            0 <= i < b.len() ==> b[i] == 0),
    ensures
        similarity_pair(a, b) == (0int, 1int),
        forall|t: int| 0 <= t ==> !#[trigger] similarity_exceeds(a, b, t),
{
    if a.len() == b.len() {
        if forall|i: int| 0 <= i < a.len() ==> a[i] == 0 {
            lemma_dot_prefix_zero(a, a, a.len() as int);
        } else {
            lemma_dot_prefix_zero(b, b, b.len() as int);
        }
    }
}

/// Cosine similarity of two embeddings. Vectors of different lengths, and
/// vectors of which one is all zeros, have similarity 0.
pub fn cosine_similarity(vec1: &[i16], vec2: &[i16]) -> (r: Similarity)
    requires
        valid_embedding(vec1@),
        valid_embedding(vec2@),
    ensures
        r.wf(),
        (r.dot as int, r.norms as int) == similarity_pair(vec1@, vec2@),
{
    if vec1.len() != vec2.len() {
        return Similarity { dot: 0, norms: 1 };
    }
    let n = vec1.len();
    let mut dot_product: i64 = 0;
    let mut magnitude1: i64 = 0;
    let mut magnitude2: i64 = 0;
    let mut i: usize = 0;
    while i < n
        invariant
            n == vec1@.len() == vec2@.len(),
            n <= MAX_DIM,
            i <= n,
            dot_product == dot_prefix(vec1@, vec2@, i as int),
            magnitude1 == dot_prefix(vec1@, vec1@, i as int),
            magnitude2 == dot_prefix(vec2@, vec2@, i as int),
        decreases n - i,
    {
        proof {
            lemma_dot_prefix_bounds(vec1@, vec2@, i as int);
            lemma_dot_prefix_bounds(vec1@, vec1@, i as int);
            lemma_dot_prefix_bounds(vec2@, vec2@, i as int);
            lemma_term_bounds(vec1@[i as int], vec2@[i as int]);
            lemma_term_bounds(vec1@[i as int], vec1@[i as int]);
            lemma_term_bounds(vec2@[i as int], vec2@[i as int]);
        }
        let x = vec1[i] as i64;
        let y = vec2[i] as i64;
        dot_product = dot_product + x * y;
        magnitude1 = magnitude1 + x * x;
        magnitude2 = magnitude2 + y * y;
        i = i + 1;
    }
    proof {
        lemma_dot_bounds(vec1@, vec2@);
    }
    if magnitude1 == 0 || magnitude2 == 0 {
        Similarity { dot: 0, norms: 1 }
    } else {
        proof {
            let (x, y) = (magnitude1 as int, magnitude2 as int);
            assert(x * y > 0) by (nonlinear_arith)
                requires x > 0, y > 0;
        }
        Similarity { dot: dot_product, norms: magnitude1 as u128 * magnitude2 as u128 }
    }
}

} // verus!
