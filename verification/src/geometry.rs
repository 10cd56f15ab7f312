//! Recovering a plausible (width, height) pair from a flat pixel count.

use vstd::arithmetic::div_mod::{lemma_fundamental_div_mod, lemma_mod_bound};
use vstd::prelude::*;

verus! {

/// The ordered list of canonical resolutions that are tried first.
pub open spec fn canonical_resolutions() -> Seq<(int, int)> {
    seq![
        (512int, 512int),
        (640int, 480int),
        (800int, 600int),
        (1024int, 768int),
        (1920int, 1080int),
    ]
}

/// `r` is the integer nearest to the real square root of `n`.
/// For `n >= 1` this means `sqrt(n)` lies in `[r - 1/2, r + 1/2]`, which over
/// the integers is `r*r - r < n <= r*r + r`; a tie (`sqrt(n)` exactly half
/// way) cannot arise because `(r + 1/2)^2` is never an integer.
pub open spec fn is_rounded_sqrt(n: int, r: int) -> bool {
    if n == 0 {
        r == 0
    } else {
        1 <= r && r * r - r < n <= r * r + r
    }
}

/// The integer nearest to the real square root of `n`.
pub open spec fn rounded_sqrt(n: int) -> int {
    choose|r: int| is_rounded_sqrt(n, r)
}

/// The pair the resolver owes: the first canonical resolution whose pixel
/// product equals `n` exactly, else the square-root fallback
/// `(rounded_sqrt(n), n / rounded_sqrt(n))`.
pub open spec fn resolved_dimensions(n: int) -> (int, int) {
    if n == 512 * 512 {
        (512int, 512int)
    } else if n == 640 * 480 {
        (640int, 480int)
    } else if n == 800 * 600 {
        (800int, 600int)
    } else if n == 1024 * 768 {
        (1024int, 768int)
    } else if n == 1920 * 1080 {
        (1920int, 1080int)
    } else {
        (rounded_sqrt(n), n / rounded_sqrt(n))
    }
}

/// At most one integer is the rounded square root of `n`, so `rounded_sqrt`
/// picks exactly the witness at hand.
proof fn lemma_rounded_sqrt_unique(n: int, r: int)
    requires
        is_rounded_sqrt(n, r),
    ensures
        rounded_sqrt(n) == r,
{
    assert(is_rounded_sqrt(n, rounded_sqrt(n)));
    let r2 = rounded_sqrt(n);
    assert(r == r2) by (nonlinear_arith)
        requires
            is_rounded_sqrt(n, r),
            is_rounded_sqrt(n, r2),
    ;
}

/// Floor of the square root of `n`, by binary search.
fn isqrt(n: usize) -> (r: usize)
    ensures
        r * r <= n < (r + 1) * (r + 1),
{
    if n == 0 {
        return 0;
    }
    proof {
        assert(n < (n + 1) * (n + 1)) by (nonlinear_arith);
    }
    let mut lo: usize = 0;
    let mut hi: usize = n;
    while lo < hi
        invariant
            lo <= hi <= n,
            lo * lo <= n,
            n < (hi + 1) * (hi + 1),
        decreases hi - lo,
    {
        let mid: usize = hi - (hi - lo) / 2;
        assert(lo < mid <= hi);
        proof {
            lemma_fundamental_div_mod(n as int, mid as int);
            lemma_mod_bound(n as int, mid as int);
        }
        if mid <= n / mid {
            assert(mid * mid <= n) by (nonlinear_arith)
                requires
                    1 <= mid,
                    mid <= (n as int) / (mid as int),
                    (n as int) == mid * ((n as int) / (mid as int)) + (n as int) % (mid as int),
                    0 <= (n as int) % (mid as int),
            ;
            lo = mid;
        } else {
            assert(n < mid * mid) by (nonlinear_arith)
                requires
                    1 <= mid,
                    (n as int) / (mid as int) < mid,
                    (n as int) == mid * ((n as int) / (mid as int)) + (n as int) % (mid as int),
                    (n as int) % (mid as int) < mid,
            ;
            hi = mid - 1;
        }
    }
    lo
}

/// The integer nearest to the real square root of `n`.
fn rounded_sqrt_exec(n: usize) -> (r: usize)
    ensures
        is_rounded_sqrt(n as int, r as int),
        rounded_sqrt(n as int) == r as int,
{
    let f = isqrt(n);
    if n == 0 {
        proof {
            assert(f == 0) by (nonlinear_arith)
                requires
                    f * f <= 0,
            ;
            lemma_rounded_sqrt_unique(0, 0);
        }
        return 0;
    }
    proof {
        assert(1 <= f || n < 1) by (nonlinear_arith)
            requires
                n < (f + 1) * (f + 1),
        ;
        assert(f + 1 <= usize::MAX) by (nonlinear_arith)
            requires
                f * f <= n <= usize::MAX,
        ;
    }
    let r = if n - f * f > f {
        f + 1
    } else {
        f
    };
    proof {
        if n - f * f > f {
            assert(is_rounded_sqrt(n as int, f + 1)) by (nonlinear_arith)
                requires
                    1 <= f,
                    f * f <= n < (f + 1) * (f + 1),
                    n - f * f > f,
            ;
        } else {
            assert(is_rounded_sqrt(n as int, f as int)) by (nonlinear_arith)
                requires
                    1 <= f,
                    f * f <= n < (f + 1) * (f + 1),
                    n - f * f <= f,
            ;
        }
        lemma_rounded_sqrt_unique(n as int, r as int);
    }
    r
}

/// Recovers a plausible (width, height) pair for a buffer of `total_pixels`
/// RGB pixels: the first canonical resolution whose product matches exactly,
/// else the approximate square-root split.  The fallback may not cover every
/// pixel (`width * height` can fall short of `total_pixels`); that loss is an
/// accepted approximation, so the product is only bounded above.
pub fn find_image_dimensions(total_pixels: usize) -> (dims: (usize, usize))
    requires
        1 <= total_pixels,
    ensures
        (dims.0 as int, dims.1 as int) == resolved_dimensions(total_pixels as int),
        1 <= dims.0,
        1 <= dims.1,
        dims.0 * dims.1 <= total_pixels,
{
    if total_pixels == 512 * 512 {
        (512, 512)
    } else if total_pixels == 640 * 480 {
        (640, 480)
    } else if total_pixels == 800 * 600 {
        (800, 600)
    } else if total_pixels == 1024 * 768 {
        (1024, 768)
    } else if total_pixels == 1920 * 1080 {
        (1920, 1080)
    } else {
        let w = rounded_sqrt_exec(total_pixels);
        proof {
            assert(w <= total_pixels) by (nonlinear_arith)
                requires
                    1 <= w,
                    w * w - w < total_pixels,
            ;
            lemma_fundamental_div_mod(total_pixels as int, w as int);
            lemma_mod_bound(total_pixels as int, w as int);
        }
        let h = total_pixels / w;
        proof {
            assert(1 <= h && w * h <= total_pixels) by (nonlinear_arith)
                requires
                    1 <= w <= total_pixels,
                    h == (total_pixels as int) / (w as int),
                    (total_pixels as int) == w * ((total_pixels as int) / (w as int)) + (
                    total_pixels as int) % (w as int),
                    0 <= (total_pixels as int) % (w as int) < w as int,
            ;
        }
        (w, h)
    }
}

/// A pixel count that matches a canonical resolution resolves to exactly
/// that resolution, so none of its pixels are dropped.
pub proof fn lemma_resolve_canonical(w: int, h: int)
    requires
        canonical_resolutions().contains((w, h)),
    ensures
        resolved_dimensions(w * h) == (w, h),
{
    let s = canonical_resolutions();
    let i = choose|i: int| 0 <= i < s.len() && s[i] == (w, h);
    assert(s[0] == (512int, 512int));
    assert(s[1] == (640int, 480int));
    assert(s[2] == (800int, 600int));
    assert(s[3] == (1024int, 768int));
    assert(s[4] == (1920int, 1080int));
}

} // verus!
