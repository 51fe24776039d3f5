//! Small facts about integer division used to move between cell and pixel
//! coordinates.

use vstd::prelude::*;

verus! {

/// Quotient and remainder of `q * d + r` when `0 <= r < d`.
pub proof fn lemma_div_mod_parts(q: int, d: int, r: int)
    requires
        d > 0,
        0 <= r < d,
    ensures
        (q * d + r) / d == q,
        (q * d + r) % d == r,
{
    vstd::arithmetic::div_mod::lemma_fundamental_div_mod_converse(q * d + r, d, q, r);
}

/// A row-major index into an `n`-row, `w`-column grid stays in the grid.
pub proof fn lemma_grid_index(r: int, c: int, n: int, w: int)
    requires
        0 <= r < n,
        0 <= c < w,
    ensures
        0 <= r * w + c < n * w,
        r * w + c + 1 <= n * w,
{
    assert(r * w + c < n * w) by (nonlinear_arith)
        requires
            0 <= r < n,
            0 <= c < w,
    ;
    assert(0 <= r * w) by (nonlinear_arith)
        requires
            0 <= r,
            0 <= c < w,
    ;
}

/// Below `n * d`, the quotient by `d` is below `n`.
pub proof fn lemma_div_below(x: int, d: int, n: int)
    requires
        d > 0,
        0 <= x < n * d,
    ensures
        0 <= x / d < n,
        0 <= x % d < d,
{
    vstd::arithmetic::div_mod::lemma_fundamental_div_mod(x, d);
    vstd::arithmetic::div_mod::lemma_mod_pos_bound(x, d);
    vstd::arithmetic::div_mod::lemma_div_pos_is_pos(x, d);
    assert(x / d < n) by (nonlinear_arith)
        requires
            d > 0,
            x < n * d,
            x == d * (x / d) + x % d,
            x % d >= 0,
    ;
}

/// The centre sample of cell `i` at `scale` pixels per cell lies in that cell.
pub proof fn lemma_centre_in_cell(i: int, scale: int)
    requires
        scale > 0,
        i >= 0,
    ensures
        (i * scale + scale / 2) / scale == i,
        i * scale + scale / 2 < (i + 1) * scale,
        0 <= i * scale + scale / 2,
{
    assert(0 <= scale / 2 < scale);
    lemma_div_mod_parts(i, scale, scale / 2);
    assert(i * scale + scale / 2 < (i + 1) * scale) by (nonlinear_arith)
        requires
            scale / 2 < scale,
    ;
    assert(0 <= i * scale) by (nonlinear_arith)
        requires
            i >= 0,
            scale > 0,
    ;
}

} // verus!
