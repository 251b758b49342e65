use vstd::prelude::*;

verus! {

/// Largest vector dimension the kernel accepts. With `i16` coordinates this keeps
/// every intermediate product of the score computation inside 128 bits.
pub const MAX_DIM: usize = 4096;

/// Fixed-point scale of a similarity score: `SCORE_SCALE` stands for a cosine of one.
pub const SCORE_SCALE: i64 = 1_000_000;

/// Largest magnitude of the product of two `i16` coordinates.
pub const MAX_COORD_PRODUCT: i64 = 0x4000_0000;

/// Two vectors of different lengths were compared.
#[derive(Clone, Copy, Debug, PartialEq, Eq, Structural)]
pub struct DimensionMismatch {
    pub expected: usize,
    pub found: usize,
}

/// Sum of the products of the first `n` coordinate pairs.
pub open spec fn dot_prefix(a: Seq<i16>, b: Seq<i16>, n: int) -> int
    decreases n,
{
    if n <= 0 {
        0
    } else {
        dot_prefix(a, b, n - 1) + (a[n - 1] as int) * (b[n - 1] as int)
    }
}

/// Dot product of two vectors of equal length.
pub open spec fn dot(a: Seq<i16>, b: Seq<i16>) -> int {
    dot_prefix(a, b, a.len() as int)
}

/// Squared Euclidean norm.
pub open spec fn norm_sq(a: Seq<i16>) -> int {
    dot(a, a)
}

/// The integer square root: the largest `r` with `r * r <= n`.
pub open spec fn floor_sqrt(n: nat) -> nat
    decreases n,
{
    if n == 0 {
        0
    } else {
        let r = floor_sqrt((n - 1) as nat);
        if (r + 1) * (r + 1) <= n {
            r + 1
        } else {
            r
        }
    }
}

/// Cosine similarity in fixed point: `SCORE_SCALE * |cos(a, b)|` rounded down,
/// held to `SCORE_SCALE`, with the sign of the dot product. A vector of norm zero
/// has no direction, and scores zero against anything.
pub open spec fn cosine_score(a: Seq<i16>, b: Seq<i16>) -> int {
    let d = dot(a, b);
    let na = norm_sq(a);
    let nb = norm_sq(b);
    if na == 0 || nb == 0 {
        0
    } else {
        let q = (SCORE_SCALE * SCORE_SCALE * d * d) / (na * nb);
        let root = floor_sqrt(q as nat);
        let m = if root > SCORE_SCALE {
            SCORE_SCALE as int
        } else {
            root as int
        };
        if d < 0 {
            -m
        } else {
            m
        }
    }
}

/// A score lies between minus one and one.
pub proof fn lemma_score_bounds(a: Seq<i16>, b: Seq<i16>)
    ensures
        -SCORE_SCALE <= cosine_score(a, b) <= SCORE_SCALE,
{
}

proof fn lemma_coord_product(x: i16, y: i16)
    ensures
        -MAX_COORD_PRODUCT <= (x as int) * (y as int) <= MAX_COORD_PRODUCT,
{
    let xi = x as int;
    let yi = y as int;
    assert(-MAX_COORD_PRODUCT <= xi * yi <= MAX_COORD_PRODUCT) by (nonlinear_arith)
        requires
            -32768 <= xi <= 32767,
            -32768 <= yi <= 32767,
    ;
}

proof fn lemma_norm_nonneg(a: Seq<i16>, n: int)
    ensures
        dot_prefix(a, a, n) >= 0,
    decreases n,
{
    if n > 0 {
        lemma_norm_nonneg(a, n - 1);
        let x = a[n - 1] as int;
        assert(x * x >= 0) by (nonlinear_arith);
    }
}

proof fn lemma_floor_sqrt_bounds(n: nat)
    ensures
        floor_sqrt(n) * floor_sqrt(n) <= n,
        n < (floor_sqrt(n) as int + 1) * (floor_sqrt(n) as int + 1),
    decreases n,
{
    if n > 0 {
        lemma_floor_sqrt_bounds((n - 1) as nat);
        let r = floor_sqrt((n - 1) as nat) as int;
        let s = floor_sqrt(n) as int;
        if (r + 1) * (r + 1) <= n {
            assert(s == r + 1);
            assert(s * s <= n && n < (s + 1) * (s + 1)) by (nonlinear_arith)
                requires
                    n - 1 < (r + 1) * (r + 1),
                    (r + 1) * (r + 1) <= n,
                    s == r + 1,
                    r >= 0,
            ;
        } else {
            assert(s == r);
        }
        let f = floor_sqrt(n) as int;
        assert(f * f <= n && n < (f + 1) * (f + 1)) by (nonlinear_arith)
            requires
                s * s <= n,
                n < (s + 1) * (s + 1),
                f == s,
        ;
    } else {
        assert(floor_sqrt(n) == 0);
    }
}

proof fn lemma_square_monotone(x: int, y: int)
    requires
        0 <= x <= y,
    ensures
        x * x <= y * y,
{
    assert(x * x <= y * y) by (nonlinear_arith)
        requires
            0 <= x <= y,
    ;
}

proof fn lemma_floor_sqrt_unique(n: nat, r: nat)
    requires
        r * r <= n,
        n < (r as int + 1) * (r as int + 1),
    ensures
        floor_sqrt(n) == r,
{
    lemma_floor_sqrt_bounds(n);
    let s = floor_sqrt(n);
    if s < r {
        lemma_square_monotone((s + 1) as int, r as int);
    } else if r < s {
        lemma_square_monotone((r + 1) as int, s as int);
    }
}

/// Integer square root of `n`, held to `cap`.
fn floor_sqrt_capped(n: u128, cap: u128) -> (r: u128)
    requires
        cap <= 0x8000_0000_0000_0000,
    ensures
        r == (if floor_sqrt(n as nat) > cap {
            cap as nat
        } else {
            floor_sqrt(n as nat)
        }),
{
    proof {
        lemma_square_monotone(cap as int, 0x8000_0000_0000_0000);
    }
    if n >= cap * cap {
        proof {
            lemma_floor_sqrt_bounds(n as nat);
            let s = floor_sqrt(n as nat);
            if s < cap {
                lemma_square_monotone((s + 1) as int, cap as int);
            }
        }
        return cap;
    }
    let mut lo: u128 = 0;
    let mut hi: u128 = cap;
    while hi - lo > 1
        invariant
            lo < hi <= cap,
            cap <= 0x8000_0000_0000_0000,
            lo * lo <= n,
            n < hi * hi,
        decreases hi - lo,
    {
        let mid = lo + (hi - lo) / 2;
        proof {
            lemma_square_monotone(mid as int, cap as int);
            lemma_square_monotone(cap as int, 0x8000_0000_0000_0000);
        }
        if mid * mid <= n {
            lo = mid;
        } else {
            hi = mid;
        }
    }
    proof {
        lemma_floor_sqrt_unique(n as nat, lo as nat);
    }
    lo
}

/// Dot product of two vectors of equal length, with its bound.
fn dot_product(a: &Vec<i16>, b: &Vec<i16>) -> (r: i64)
    requires
        a.len() == b.len(),
        a.len() <= MAX_DIM,
    ensures
        r == dot(a@, b@),
        -(a.len() as int) * MAX_COORD_PRODUCT <= r <= (a.len() as int) * MAX_COORD_PRODUCT,
{
    let mut acc: i64 = 0;
    let mut i: usize = 0;
    while i < a.len()
        invariant
            a.len() == b.len(),
            a.len() <= MAX_DIM,
            i <= a.len(),
            acc == dot_prefix(a@, b@, i as int),
            -(i as int) * MAX_COORD_PRODUCT <= acc <= (i as int) * MAX_COORD_PRODUCT,
        decreases a.len() - i,
    {
        let x = a[i];
        let y = b[i];
        proof {
            lemma_coord_product(x, y);
        }
        acc = acc + (x as i64) * (y as i64);
        i = i + 1;
    }
    acc
}

/// Cosine similarity of two vectors of equal length, in fixed point.
pub fn similarity_score(a: &Vec<i16>, b: &Vec<i16>) -> (r: i64)
    requires
        a.len() == b.len(),
        a.len() <= MAX_DIM,
    ensures
        r == cosine_score(a@, b@),
{
    let d = dot_product(a, b);
    let na = dot_product(a, a);
    let nb = dot_product(b, b);
    proof {
        lemma_norm_nonneg(a@, a.len() as int);
        lemma_norm_nonneg(b@, b.len() as int);
    }
    if na == 0 || nb == 0 {
        return 0;
    }
    let ad: u128 = if d < 0 {
        (-d) as u128
    } else {
        d as u128
    };
    let bound: u128 = 0x400_0000_0000;
    proof {
        let len = a.len() as int;
        assert(len * MAX_COORD_PRODUCT <= 0x400_0000_0000) by (nonlinear_arith)
            requires
                len <= 4096,
        ;
        assert((ad * ad) as int == d * d) by (nonlinear_arith)
            requires
                ad == d || ad == -d,
        ;
        lemma_square_monotone(ad as int, bound as int);
        assert(ad * ad * 1_000_000_000_000 < 0x1_0000_0000_0000_0000_0000_0000_0000_0000) by (nonlinear_arith)
            requires
                ad * ad <= 0x400_0000_0000 * 0x400_0000_0000,
        ;
        lemma_square_monotone(0, na as int);
        assert((na as int) * (nb as int) <= 0x400_0000_0000 * 0x400_0000_0000) by (nonlinear_arith)
            requires
                0 <= na <= 0x400_0000_0000,
                0 <= nb <= 0x400_0000_0000,
        ;
        assert((na as int) * (nb as int) > 0) by (nonlinear_arith)
            requires
                na > 0,
                nb > 0,
        ;
    }
    let square: u128 = ad * ad;
    let scale: u128 = SCORE_SCALE as u128;
    let num: u128 = square * (scale * scale);
    let den: u128 = (na as u128) * (nb as u128);
    proof {
        assert(num as int == SCORE_SCALE * SCORE_SCALE * d * d) by (nonlinear_arith)
            requires
                num as int == (square as int) * (1_000_000 * 1_000_000),
                square as int == d * d,
        ;
    }
    let m = floor_sqrt_capped(num / den, scale) as i64;
    if d < 0 {
        -m
    } else {
        m
    }
}

/// Cosine similarity for a one-off comparison: vectors of different lengths are a fault.
pub fn cosine_similarity(a: &Vec<i16>, b: &Vec<i16>) -> (r: Result<i64, DimensionMismatch>)
    requires
        a.len() <= MAX_DIM,
    ensures
        a.len() == b.len() ==> r == Ok::<i64, DimensionMismatch>(cosine_score(a@, b@) as i64),
        a.len() != b.len() ==> r == Err::<i64, DimensionMismatch>(
            DimensionMismatch { expected: a.len(), found: b.len() },
        ),
{
    if a.len() != b.len() {
        return Err(DimensionMismatch { expected: a.len(), found: b.len() });
    }
    Ok(similarity_score(a, b))
}

} // verus!
